use crate::event::Event;
use crate::event::EventView;
use crate::event::events_view;
use crate::event::is_end_element;
use crate::event::is_start_element;
use vstd::prelude::*;
use vstd::string::StringExecFns;

verus! {

/// The first place at or after `from` where the start tag of `element` or a
/// terminal event stands; the number of events where there is none.
pub open spec fn start_index(events: Seq<EventView>, from: int, element: Seq<char>) -> int
    decreases events.len() - from,
{
    if from < 0 || from >= events.len() {
        events.len() as int
    } else if events[from].is_terminal() || events[from].starts(element) {
        from
    } else {
        start_index(events, from + 1, element)
    }
}

/// The first place at or after `from` where the end tag of `element` or a
/// terminal event stands; the number of events where there is none.
pub open spec fn end_index(events: Seq<EventView>, from: int, element: Seq<char>) -> int
    decreases events.len() - from,
{
    if from < 0 || from >= events.len() {
        events.len() as int
    } else if events[from].is_terminal() || events[from].ends(element) {
        from
    } else {
        end_index(events, from + 1, element)
    }
}

/// Whether the start tag of `element` stands at `at`.
pub open spec fn starts_at(events: Seq<EventView>, at: int, element: Seq<char>) -> bool {
    0 <= at < events.len() && events[at].starts(element)
}

/// Whether the end tag of `element` stands at `at`.
pub open spec fn ends_at(events: Seq<EventView>, at: int, element: Seq<char>) -> bool {
    0 <= at < events.len() && events[at].ends(element)
}

/// What `start_index` finds lies between `from` and the end, and nothing
/// before it starts `element` or is terminal.
pub proof fn lemma_start_index(events: Seq<EventView>, from: int, element: Seq<char>)
    requires
        0 <= from <= events.len(),
    ensures
        from <= start_index(events, from, element) <= events.len(),
        forall|i: int|
            from <= i < start_index(events, from, element) ==> !(#[trigger] events[i]).is_terminal()
                && !events[i].starts(element),
        start_index(events, from, element) < events.len() ==> events[start_index(
            events,
            from,
            element,
        )].is_terminal() || events[start_index(events, from, element)].starts(element),
    decreases events.len() - from,
{
    if from < events.len() && !(events[from].is_terminal() || events[from].starts(element)) {
        lemma_start_index(events, from + 1, element);
    }
}

/// What `end_index` finds lies between `from` and the end, and nothing
/// before it ends `element` or is terminal.
pub proof fn lemma_end_index(events: Seq<EventView>, from: int, element: Seq<char>)
    requires
        0 <= from <= events.len(),
    ensures
        from <= end_index(events, from, element) <= events.len(),
        forall|i: int|
            from <= i < end_index(events, from, element) ==> !(#[trigger] events[i]).is_terminal()
                && !events[i].ends(element),
        end_index(events, from, element) < events.len() ==> events[end_index(
            events,
            from,
            element,
        )].is_terminal() || events[end_index(events, from, element)].ends(element),
    decreases events.len() - from,
{
    if from < events.len() && !(events[from].is_terminal() || events[from].ends(element)) {
        lemma_end_index(events, from + 1, element);
    }
}

/// Looking for a start tag in what is left of a document after `cut`
/// events finds what looking in the whole document from there finds.
pub proof fn lemma_start_index_skip(
    events: Seq<EventView>,
    cut: int,
    from: int,
    element: Seq<char>,
)
    requires
        0 <= cut <= events.len(),
        0 <= from,
    ensures
        start_index(events, cut + from, element) == cut + start_index(
            events.skip(cut),
            from,
            element,
        ),
    decreases events.len() - cut - from,
{
    if cut + from < events.len() {
        assert(events.skip(cut)[from] == events[cut + from]);
        if !(events[cut + from].is_terminal() || events[cut + from].starts(element)) {
            lemma_start_index_skip(events, cut, from + 1, element);
        }
    }
}

/// Looking for an end tag in what is left of a document after `cut`
/// events finds what looking in the whole document from there finds.
pub proof fn lemma_end_index_skip(
    events: Seq<EventView>,
    cut: int,
    from: int,
    element: Seq<char>,
)
    requires
        0 <= cut <= events.len(),
        0 <= from,
    ensures
        end_index(events, cut + from, element) == cut + end_index(
            events.skip(cut),
            from,
            element,
        ),
    decreases events.len() - cut - from,
{
    if cut + from < events.len() {
        assert(events.skip(cut)[from] == events[cut + from]);
        if !(events[cut + from].is_terminal() || events[cut + from].ends(element)) {
            lemma_end_index_skip(events, cut, from + 1, element);
        }
    }
}

/// Skips forward to the start tag of `element`, or to where the document ends.
pub fn find_start(events: &Vec<Event>, from: usize, element: &str) -> (at: usize)
    ensures
        at == start_index(events_view(events@), from as int, element@),
        at <= events.len(),
        from <= events.len() ==> from <= at,
{
    if from >= events.len() {
        return events.len();
    }
    let mut at = from;
    while at < events.len()
        invariant
            from <= at <= events.len(),
            start_index(events_view(events@), from as int, element@) == start_index(
                events_view(events@),
                at as int,
                element@,
            ),
        decreases events.len() - at,
    {
        let event = &events[at];
        if event.is_terminal() || is_start_element(event, element).is_some() {
            return at;
        }
        at += 1;
    }
    at
}

/// Skips forward to the end tag of `element`, or to where the document ends.
pub fn find_end(events: &Vec<Event>, from: usize, element: &str) -> (at: usize)
    ensures
        at == end_index(events_view(events@), from as int, element@),
        at <= events.len(),
        from <= events.len() ==> from <= at,
{
    if from >= events.len() {
        return events.len();
    }
    let mut at = from;
    while at < events.len()
        invariant
            from <= at <= events.len(),
            end_index(events_view(events@), from as int, element@) == end_index(
                events_view(events@),
                at as int,
                element@,
            ),
        decreases events.len() - at,
    {
        let event = &events[at];
        if event.is_terminal() || is_end_element(event, element) {
            return at;
        }
        at += 1;
    }
    at
}

/// The character data of a run of events, joined in the order of the
/// events: text, whitespace and CDATA alike.
pub open spec fn joined_text(events: Seq<EventView>) -> Seq<char>
    decreases events.len(),
{
    if events.len() == 0 {
        seq![]
    } else {
        joined_text(events.drop_last()) + events.last().character_data()
    }
}

/// The character data of two runs of events, one after the other, is that
/// of the first followed by that of the second.
pub proof fn lemma_joined_text_concat(first: Seq<EventView>, second: Seq<EventView>)
    ensures
        joined_text(first + second) == joined_text(first) + joined_text(second),
    decreases second.len(),
{
    if second.len() == 0 {
        assert(first + second =~= first);
        assert(joined_text(first) + joined_text(second) =~= joined_text(first));
    } else {
        assert((first + second).drop_last() =~= first + second.drop_last());
        assert((first + second).last() == second.last());
        lemma_joined_text_concat(first, second.drop_last());
        let text = second.last().character_data();
        assert((joined_text(first) + joined_text(second.drop_last())) + text =~= joined_text(first)
            + (joined_text(second.drop_last()) + text));
    }
}

/// Joins the character data that stands between two places of a document.
pub(crate) fn collect_text(events: &Vec<Event>, from: usize, to: usize) -> (text: String)
    requires
        from <= to <= events.len(),
    ensures
        text@ == joined_text(events_view(events@).subrange(from as int, to as int)),
{
    let ghost all = events_view(events@);
    let mut text = String::new();
    let mut at = from;
    assert(all.subrange(from as int, at as int) =~= seq![]);
    while at < to
        invariant
            from <= at <= to <= events.len(),
            all == events_view(events@),
            text@ == joined_text(all.subrange(from as int, at as int)),
        decreases to - at,
    {
        proof {
            assert(all.subrange(from as int, at + 1).drop_last() =~= all.subrange(
                from as int,
                at as int,
            ));
            assert(all.subrange(from as int, at + 1).last() == events[at as int]@);
        }
        text.append(events[at].character_data());
        at += 1;
    }
    text
}

} // verus!
