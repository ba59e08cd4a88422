use crate::event::Event;
use crate::event::EventView;
use crate::event::document_events;
use crate::event::events_view;
use crate::event::is_end_element;
use crate::event::is_start_element;
use crate::event::EventStream;
use crate::event::terminated;
use crate::scan::end_index;
use crate::scan::ends_at;
use crate::scan::joined_text;
use crate::scan::lemma_end_index;
use crate::scan::lemma_end_index_skip;
use crate::scan::lemma_start_index_skip;
use crate::scan::lemma_joined_text_concat;
use crate::scan::lemma_start_index;
use crate::scan::start_index;
use crate::scan::starts_at;
use vstd::prelude::*;
use vstd::string::StringExecFns;

verus! {

/// The next paragraph at or after `from`: the character data between the
/// first start tag of `p` and the first end tag of `p` after it, and the
/// place after that end tag. There is none where the document ends first.
pub open spec fn next_paragraph(events: Seq<EventView>, from: int) -> Option<(Seq<char>, int)> {
    let opened = start_index(events, from, "p"@);
    let closed = end_index(events, opened + 1, "p"@);
    if starts_at(events, opened, "p"@) && ends_at(events, closed, "p"@) {
        Some((joined_text(events.subrange(opened + 1, closed)), closed + 1))
    } else {
        None
    }
}

/// The paragraphs of a document from `from` on, in document order.
/// (The bounds tested on `after` always hold; they show that reading goes
/// forward.)
pub open spec fn paragraphs_from(events: Seq<EventView>, from: int) -> Seq<Seq<char>>
    decreases events.len() - from,
{
    match next_paragraph(events, from) {
        Some((text, after)) => if from < after <= events.len() {
            seq![text] + paragraphs_from(events, after)
        } else {
            seq![]
        },
        None => seq![],
    }
}

/// The place behind the paragraph that is the `count`-th to come from
/// `from` on, the next one being the 0th; the end of the document where
/// fewer paragraphs come.
pub open spec fn place_behind(events: Seq<EventView>, from: int, count: int) -> int
    decreases count,
{
    match next_paragraph(events, from) {
        Some((_, after)) => if count <= 0 {
            after
        } else {
            place_behind(events, after, count - 1)
        },
        None => events.len() as int,
    }
}

/// A paragraph ends after the place where the search for it began, and
/// inside the document.
pub proof fn lemma_next_paragraph_advances(events: Seq<EventView>, from: int)
    requires
        0 <= from <= events.len(),
    ensures
        next_paragraph(events, from) matches Some((_, after)) ==> from < after <= events.len(),
{
    lemma_start_index(events, from, "p"@);
    let opened = start_index(events, from, "p"@);
    if opened < events.len() {
        lemma_end_index(events, opened + 1, "p"@);
    }
}

/// The character data that stands inside paragraphs from `at` on, in
/// document order. `inside` says whether a paragraph is open at `at`.
pub open spec fn text_in_paragraphs(events: Seq<EventView>, at: int, inside: bool) -> Seq<char>
    decreases events.len() - at,
{
    if at < 0 || at >= events.len() || events[at].is_terminal() {
        seq![]
    } else if !inside {
        text_in_paragraphs(events, at + 1, events[at].starts("p"@))
    } else if events[at].ends("p"@) {
        text_in_paragraphs(events, at + 1, false)
    } else {
        events[at].character_data() + text_in_paragraphs(events, at + 1, true)
    }
}

/// Whether every paragraph that is open at `at` or opens later is closed
/// before the document ends.
pub open spec fn paragraphs_close(events: Seq<EventView>, at: int, inside: bool) -> bool
    decreases events.len() - at,
{
    if at < 0 || at >= events.len() || events[at].is_terminal() {
        !inside
    } else if !inside {
        paragraphs_close(events, at + 1, events[at].starts("p"@))
    } else {
        paragraphs_close(events, at + 1, !events[at].ends("p"@))
    }
}

/// Outside a paragraph nothing counts up to the next start tag of `p`.
proof fn lemma_outside_paragraphs(events: Seq<EventView>, from: int)
    requires
        0 <= from <= events.len(),
    ensures
        text_in_paragraphs(events, from, false) == text_in_paragraphs(
            events,
            start_index(events, from, "p"@),
            false,
        ),
        paragraphs_close(events, from, false) == paragraphs_close(
            events,
            start_index(events, from, "p"@),
            false,
        ),
    decreases events.len() - from,
{
    if from < events.len() && !events[from].is_terminal() && !events[from].starts("p"@) {
        lemma_outside_paragraphs(events, from + 1);
    }
}

/// Inside a paragraph the character data up to its end tag counts, and
/// what follows the end tag is outside again.
proof fn lemma_inside_paragraph(events: Seq<EventView>, from: int)
    requires
        0 <= from <= events.len(),
    ensures
        ({
            let closed = end_index(events, from, "p"@);
            &&& text_in_paragraphs(events, from, true) == joined_text(
                events.subrange(from, closed),
            ) + if ends_at(events, closed, "p"@) {
                text_in_paragraphs(events, closed + 1, false)
            } else {
                seq![]
            }
            &&& paragraphs_close(events, from, true) == (ends_at(events, closed, "p"@)
                && paragraphs_close(events, closed + 1, false))
        }),
    decreases events.len() - from,
{
    let closed = end_index(events, from, "p"@);
    lemma_end_index(events, from, "p"@);
    if from < events.len() && !events[from].is_terminal() && !events[from].ends("p"@) {
        lemma_inside_paragraph(events, from + 1);
        let rest = events.subrange(from + 1, closed);
        assert(events.subrange(from, closed) =~= seq![events[from]] + rest);
        lemma_joined_text_concat(seq![events[from]], rest);
        reveal_with_fuel(joined_text, 2);
        assert(seq![events[from]].drop_last() =~= Seq::<EventView>::empty());
        assert(seq![events[from]].last() == events[from]);
        let tail = if ends_at(events, closed, "p"@) {
            text_in_paragraphs(events, closed + 1, false)
        } else {
            seq![]
        };
        let text = events[from].character_data();
        assert(joined_text(seq![events[from]]) =~= text);
        assert(text + (joined_text(rest) + tail) =~= (text + joined_text(rest)) + tail);
    } else {
        assert(events.subrange(from, closed) =~= Seq::<EventView>::empty());
        assert(Seq::<char>::empty() + text_in_paragraphs(events, closed + 1, false)
            =~= text_in_paragraphs(events, closed + 1, false));
    }
}

/// In a document whose paragraphs all close, the paragraphs joined in
/// their order are the character data that stands inside paragraphs:
/// nothing of it is lost and nothing comes twice.
pub proof fn lemma_paragraphs_hold_the_text(events: Seq<EventView>, from: int)
    requires
        0 <= from <= events.len(),
        paragraphs_close(events, from, false),
    ensures
        paragraphs_from(events, from).flatten() == text_in_paragraphs(events, from, false),
    decreases events.len() - from,
{
    let opened = start_index(events, from, "p"@);
    lemma_start_index(events, from, "p"@);
    lemma_outside_paragraphs(events, from);
    lemma_next_paragraph_advances(events, from);
    if starts_at(events, opened, "p"@) {
        let closed = end_index(events, opened + 1, "p"@);
        lemma_inside_paragraph(events, opened + 1);
        let text = joined_text(events.subrange(opened + 1, closed));
        let rest = paragraphs_from(events, closed + 1);
        lemma_paragraphs_hold_the_text(events, closed + 1);
        assert(paragraphs_from(events, from) == seq![text] + rest);
        assert((seq![text] + rest).drop_first() =~= rest);
        assert((seq![text] + rest).first() == text);
    } else {
        assert(paragraphs_from(events, from) =~= Seq::<Seq<char>>::empty());
    }
}

/// The next paragraph of what is left of a document after `cut` events
/// is the next paragraph of the whole document from there.
pub proof fn lemma_next_paragraph_skip(events: Seq<EventView>, cut: int, from: int)
    requires
        0 <= cut <= events.len(),
        0 <= from <= events.len() - cut,
    ensures
        next_paragraph(events, cut + from) == match next_paragraph(events.skip(cut), from) {
            Some((text, after)) => Some((text, cut + after)),
            None => None,
        },
{
    let rest = events.skip(cut);
    lemma_start_index_skip(events, cut, from, "p"@);
    lemma_start_index(rest, from, "p"@);
    let opened = start_index(rest, from, "p"@);
    lemma_end_index_skip(events, cut, opened + 1, "p"@);
    if opened < rest.len() {
        lemma_end_index(rest, opened + 1, "p"@);
        let closed = end_index(rest, opened + 1, "p"@);
        assert(rest[opened] == events[cut + opened]);
        if closed < rest.len() {
            assert(rest[closed] == events[cut + closed]);
            assert(rest.subrange(opened + 1, closed) =~= events.subrange(
                cut + opened + 1,
                cut + closed,
            ));
        }
    }
}

/// The paragraphs of what is left of a document after `cut` events are
/// the paragraphs of the whole document from there.
pub proof fn lemma_paragraphs_skip(events: Seq<EventView>, cut: int, from: int)
    requires
        0 <= cut <= events.len(),
        0 <= from <= events.len() - cut,
    ensures
        paragraphs_from(events, cut + from) == paragraphs_from(events.skip(cut), from),
    decreases events.len() - cut - from,
{
    lemma_next_paragraph_skip(events, cut, from);
    lemma_next_paragraph_advances(events.skip(cut), from);
    match next_paragraph(events.skip(cut), from) {
        Some((text, after)) => {
            lemma_paragraphs_skip(events, cut, after);
        },
        None => {},
    }
}

/// The paragraphs of one document, given one at a time and once only. The
/// document is read as far as the paragraphs that were asked for reach.
pub struct XhtmlTextIterator {
    stream: EventStream,
}

impl XhtmlTextIterator {
    /// The events of the document that are not read yet, up to and
    /// including the first terminal one.
    pub closed spec fn pending(&self) -> Seq<EventView> {
        self.stream.pending()
    }

    /// The paragraphs that are still to come.
    pub open spec fn remaining(&self) -> Seq<Seq<char>> {
        paragraphs_from(self.pending(), 0)
    }

    /// The paragraphs of the document `file`. Nothing is read yet.
    pub fn new(file: &[u8]) -> (r: Self)
        ensures
            r.pending() == document_events(file@),
    {
        XhtmlTextIterator { stream: EventStream::read(file) }
    }

    /// The paragraphs of a document given as events.
    pub fn from_events(events: Vec<Event>) -> (r: Self)
        ensures
            r.pending() == terminated(events_view(events@)),
    {
        XhtmlTextIterator { stream: EventStream::of(events) }
    }

    /// Gives the next paragraph: the character data between the next
    /// start tag of `p` and the first end tag of `p` after it. The document
    /// is read up to that end tag and no further. Where the document ends
    /// first, there is no paragraph, now or ever after, and only the end of
    /// the document is left to read.
    pub fn next(&mut self) -> (r: Option<String>)
        ensures
            match next_paragraph(old(self).pending(), 0) {
                Some((text, after)) => {
                    &&& r matches Some(t) && t@ == text
                    &&& final(self).pending() == old(self).pending().skip(after)
                    &&& old(self).remaining() == seq![text] + final(self).remaining()
                },
                None => {
                    &&& r is None
                    &&& final(self).pending().len() == 1
                    &&& final(self).pending()[0].is_terminal()
                    &&& final(self).remaining() == Seq::<Seq<char>>::empty()
                    &&& old(self).remaining() == Seq::<Seq<char>>::empty()
                },
            },
    {
        let ghost all = self.pending();
        let ghost mut read: int = 0;
        let mut opened = false;
        assert(all.skip(0) =~= all);
        while !opened
            invariant
                all == old(self).pending(),
                0 <= read <= all.len(),
                self.pending() == all.skip(read),
                start_index(all, 0, "p"@) == start_index(all, if opened {
                    read - 1
                } else {
                    read
                }, "p"@),
                opened ==> 0 < read && starts_at(all, read - 1, "p"@),
            decreases all.len() - read + (if opened { 0int } else { 1int }),
        {
            let event = self.stream.next();
            assert(all.skip(read)[0] == all[read]);
            if event.is_terminal() {
                proof {
                    assert(self.pending() =~= seq![all[read]]);
                    assert(start_index(all, read, "p"@) == read);
                    assert(!starts_at(all, read, "p"@));
                    assert(next_paragraph(all, 0) is None);
                    assert(start_index(self.pending(), 0, "p"@) == 0);
                    assert(next_paragraph(self.pending(), 0) is None);
                }
                return None;
            }
            if is_start_element(&event, "p").is_some() {
                opened = true;
            }
            proof {
                assert(all.skip(read).skip(1) =~= all.skip(read + 1));
                read = read + 1;
            }
        }
        let ghost first = read;
        let mut text = String::new();
        assert(all.subrange(first, read) =~= Seq::<EventView>::empty());
        loop
            invariant
                all == old(self).pending(),
                0 < first <= read <= all.len(),
                self.pending() == all.skip(read),
                start_index(all, 0, "p"@) == first - 1,
                starts_at(all, first - 1, "p"@),
                end_index(all, first, "p"@) == end_index(all, read, "p"@),
                text@ == joined_text(all.subrange(first, read)),
            decreases all.len() - read,
        {
            let event = self.stream.next();
            assert(all.skip(read)[0] == all[read]);
            if event.is_terminal() {
                proof {
                    assert(self.pending() =~= seq![all[read]]);
                    assert(end_index(all, read, "p"@) == read);
                    assert(!ends_at(all, read, "p"@));
                    assert(next_paragraph(all, 0) is None);
                    assert(start_index(self.pending(), 0, "p"@) == 0);
                    assert(next_paragraph(self.pending(), 0) is None);
                }
                return None;
            }
            proof {
                assert(all.skip(read).skip(1) =~= all.skip(read + 1));
            }
            if is_end_element(&event, "p") {
                proof {
                    assert(end_index(all, read, "p"@) == read);
                    assert(ends_at(all, read, "p"@));
                    assert(next_paragraph(all, 0) == Some((text@, read + 1)));
                    lemma_paragraphs_skip(all, read + 1, 0);
                    assert(paragraphs_from(all, 0) == seq![text@] + paragraphs_from(all, read + 1));
                }
                return Some(text);
            }
            text.append(event.character_data());
            proof {
                assert(all.subrange(first, read + 1).drop_last() =~= all.subrange(first, read));
                assert(all.subrange(first, read + 1).last() == all[read]);
                read = read + 1;
            }
        }
    }
}

} // verus!
