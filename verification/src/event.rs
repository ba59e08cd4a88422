use crate::text::str_eq;
use std::io::Cursor;
use vstd::prelude::*;
use xml::reader::EventReader;
use xml::reader::XmlEvent;

verus! {

/// One attribute of a start tag: its local name and its value as written.
#[derive(Debug, PartialEq, Eq)]
pub struct Attribute {
    pub name: String,
    pub value: String,
}

/// What an [`Attribute`] stands for in contracts.
pub struct AttributeView {
    pub name: Seq<char>,
    pub value: Seq<char>,
}

impl View for Attribute {
    type V = AttributeView;

    open spec fn view(&self) -> AttributeView {
        AttributeView { name: self.name@, value: self.value@ }
    }
}

/// The views of a list of attributes, in order.
pub open spec fn attributes_view(attributes: Seq<Attribute>) -> Seq<AttributeView> {
    attributes.map_values(|a: Attribute| a@)
}

/// One step of an XML document as the parsers of this crate see it.
/// Element names are local names, without prefix or namespace.
#[derive(Debug, PartialEq, Eq)]
pub enum Event {
    /// A start tag.
    Start { name: String, attributes: Vec<Attribute> },
    /// An end tag (also given after a tag without content).
    End { name: String },
    /// Character data that is not only whitespace.
    Text(String),
    /// Character data that is only whitespace.
    Whitespace(String),
    /// The content of a CDATA section.
    CData(String),
    /// The document ended in order.
    EndOfDocument,
    /// The document cannot be read any further.
    Malformed,
    /// Anything else: declaration, processing instruction, comment.
    Other,
}

/// What an [`Event`] stands for in contracts.
pub enum EventView {
    Start { name: Seq<char>, attributes: Seq<AttributeView> },
    End { name: Seq<char> },
    Text(Seq<char>),
    Whitespace(Seq<char>),
    CData(Seq<char>),
    EndOfDocument,
    Malformed,
    Other,
}

impl EventView {
    /// The character data that the event holds: the text of a text event,
    /// of a run of whitespace or of a CDATA section; nothing for any other
    /// event.
    pub open spec fn character_data(self) -> Seq<char> {
        match self {
            EventView::Text(text) => text,
            EventView::Whitespace(text) => text,
            EventView::CData(text) => text,
            _ => seq![],
        }
    }

    /// Whether nothing follows this event in a document.
    pub open spec fn is_terminal(self) -> bool {
        self is EndOfDocument || self is Malformed
    }

    /// Whether this is the start tag of the element `element`.
    pub open spec fn starts(self, element: Seq<char>) -> bool {
        self matches EventView::Start { name, .. } && name == element
    }

    /// Whether this is the end tag of the element `element`.
    pub open spec fn ends(self, element: Seq<char>) -> bool {
        self matches EventView::End { name } && name == element
    }
}

impl View for Event {
    type V = EventView;

    open spec fn view(&self) -> EventView {
        match self {
            Event::Start { name, attributes } => EventView::Start {
                name: name@,
                attributes: attributes_view(attributes@),
            },
            Event::End { name } => EventView::End { name: name@ },
            Event::Text(s) => EventView::Text(s@),
            Event::Whitespace(s) => EventView::Whitespace(s@),
            Event::CData(s) => EventView::CData(s@),
            Event::EndOfDocument => EventView::EndOfDocument,
            Event::Malformed => EventView::Malformed,
            Event::Other => EventView::Other,
        }
    }
}

/// The views of a list of events, in order.
pub open spec fn events_view(events: Seq<Event>) -> Seq<EventView> {
    events.map_values(|e: Event| e@)
}

/// A document is well terminated when it has a last event, that event is
/// terminal, and no event before it is.
pub open spec fn well_terminated(events: Seq<EventView>) -> bool {
    &&& events.len() > 0
    &&& events.last().is_terminal()
    &&& forall|i: int| 0 <= i < events.len() - 1 ==> !(#[trigger] events[i]).is_terminal()
}

impl Event {
    /// The character data that the event holds, empty where it holds none.
    pub fn character_data(&self) -> (r: &str)
        ensures
            r@ == self@.character_data(),
    {
        proof {
            reveal_strlit("");
        }
        match self {
            Event::Text(text) => text.as_str(),
            Event::Whitespace(text) => text.as_str(),
            Event::CData(text) => text.as_str(),
            _ => {
                let none = "";
                assert(none@ =~= Seq::<char>::empty());
                none
            },
        }
    }

    /// Whether nothing follows this event in a document.
    pub fn is_terminal(&self) -> (r: bool)
        ensures
            r == self@.is_terminal(),
    {
        match self {
            Event::EndOfDocument => true,
            Event::Malformed => true,
            _ => false,
        }
    }
}

/// The attributes of `event` if it is the start tag of `element_name`.
pub fn is_start_element<'a>(event: &'a Event, element_name: &str) -> (r: Option<&'a Vec<Attribute>>)
    ensures
        r is Some == event@.starts(element_name@),
        r matches Some(attributes) ==> event@ matches EventView::Start { attributes: a, .. }
            && attributes_view(attributes@) == a,
{
    match event {
        Event::Start { name, attributes } => {
            if str_eq(name.as_str(), element_name) {
                Some(attributes)
            } else {
                None
            }
        },
        _ => None,
    }
}

/// Whether `event` is the end tag of `element_name`.
pub fn is_end_element(event: &Event, element_name: &str) -> (r: bool)
    ensures
        r == event@.ends(element_name@),
{
    match event {
        Event::End { name } => str_eq(name.as_str(), element_name),
        _ => false,
    }
}

/// An XML pull parser of the `xml` crate over a document held in memory.
#[verifier::external_body]
pub struct EventSource {
    reader: EventReader<Cursor<Vec<u8>>>,
}

/// The events that a parser of the `xml` crate, made with `EventReader::new`
/// over these bytes, gives from its first up to and including the first
/// terminal one.
pub uninterp spec fn document_events(bytes: Seq<u8>) -> Seq<EventView>;

/// The events that a source has yet to give, up to and including the first
/// terminal one.
pub uninterp spec fn upcoming(source: EventSource) -> Seq<EventView>;

/// `EventReader::new` over a copy of the bytes. Nothing is read yet, so what
/// the source will give is what the document holds.
#[verifier::external_body]
fn open_source(bytes: &[u8]) -> (source: EventSource)
    ensures
        upcoming(source) == document_events(bytes@),
{
    EventSource { reader: EventReader::new(Cursor::new(bytes.to_vec())) }
}

/// `EventReader::next`, its result brought into an [`Event`]: names become
/// local names, character data stays as it is, an error becomes `Malformed`. The reader gives the first of
/// its upcoming events. A terminal event is the last one, and the reader
/// gives it again on every later call; any other event is used up.
#[verifier::external_body]
fn next_event(source: &mut EventSource) -> (event: Event)
    ensures
        upcoming(*old(source)).len() > 0,
        event@ == upcoming(*old(source))[0],
        event@.is_terminal() <==> upcoming(*old(source)).len() == 1,
        upcoming(*final(source)) == if event@.is_terminal() {
            upcoming(*old(source))
        } else {
            upcoming(*old(source)).skip(1)
        },
{
    match source.reader.next() {
        Ok(XmlEvent::StartElement { name, attributes: a, .. }) => Event::Start {
            name: name.local_name,
            attributes: a.into_iter().map(|a| Attribute { name: a.name.local_name, value: a.value }).collect(),
        },
        Ok(XmlEvent::EndElement { name }) => Event::End { name: name.local_name },
        Ok(XmlEvent::Characters(text)) => Event::Text(text),
        Ok(XmlEvent::Whitespace(text)) => Event::Whitespace(text),
        Ok(XmlEvent::CData(text)) => Event::CData(text),
        Ok(XmlEvent::EndDocument) => Event::EndOfDocument,
        Ok(_) => Event::Other,
        Err(_) => Event::Malformed,
    }
}

/// Reads a whole document into its events.
pub fn read_events(bytes: &[u8]) -> (events: Vec<Event>)
    ensures
        events_view(events@) == document_events(bytes@),
        well_terminated(events_view(events@)),
{
    let mut source = open_source(bytes);
    let mut events: Vec<Event> = Vec::new();
    loop
        invariant_except_break
            events_view(events@) + upcoming(source) == document_events(bytes@),
            forall|i: int| 0 <= i < events.len() ==> !(#[trigger] events_view(events@)[i]).is_terminal(),
        ensures
            events_view(events@) == document_events(bytes@),
            well_terminated(events_view(events@)),
        decreases upcoming(source).len(),
    {
        let ghost before = events_view(events@);
        let ghost rest = upcoming(source);
        let event = next_event(&mut source);
        let done = event.is_terminal();
        events.push(event);
        proof {
            assert(events_view(events@) =~= before.push(rest[0]));
            if done {
                assert(rest =~= seq![rest[0]]);
                assert(events_view(events@) =~= before + rest);
            } else {
                assert(events_view(events@) + rest.skip(1) =~= before + rest);
            }
        }
        if done {
            break ;
        }
    }
    events
}

/// The events up to and including the first terminal one. Where there is
/// none, the end of the events is the end of the document.
pub open spec fn terminated(events: Seq<EventView>) -> Seq<EventView>
    decreases events.len(),
{
    if events.len() == 0 {
        seq![EventView::EndOfDocument]
    } else if events[0].is_terminal() {
        seq![events[0]]
    } else {
        seq![events[0]] + terminated(events.drop_first())
    }
}

/// What events that are kept last first still give.
pub open spec fn kept_pending(kept: Seq<EventView>) -> Seq<EventView>
    decreases kept.len(),
{
    if kept.len() == 0 {
        seq![EventView::EndOfDocument]
    } else if kept.last().is_terminal() {
        seq![kept.last()]
    } else {
        seq![kept.last()] + kept_pending(kept.drop_last())
    }
}

/// Events kept last first give what the events in their order give.
pub proof fn lemma_kept_pending_of_reversed(events: Seq<EventView>)
    ensures
        kept_pending(events.reverse()) == terminated(events),
    decreases events.len(),
{
    if events.len() > 0 {
        assert(events.reverse().last() == events[0]);
        assert(events.reverse().drop_last() =~= events.drop_first().reverse());
        lemma_kept_pending_of_reversed(events.drop_first());
    }
}

/// A document as a stream of events. The events are read from the bytes
/// of the document as they are asked for, or they are given.
pub struct EventStream {
    source: Option<EventSource>,
    kept: Vec<Event>,
}

impl EventStream {
    /// The events that the stream has yet to give, up to and including
    /// the first terminal one.
    pub closed spec fn pending(&self) -> Seq<EventView> {
        match self.source {
            Some(source) => upcoming(source),
            None => kept_pending(events_view(self.kept@)),
        }
    }

    /// A stream over the document that the bytes hold. Nothing is read yet.
    pub fn read(bytes: &[u8]) -> (r: Self)
        ensures
            r.pending() == document_events(bytes@),
    {
        EventStream { source: Some(open_source(bytes)), kept: Vec::new() }
    }

    /// A stream that gives the given events.
    pub fn of(events: Vec<Event>) -> (r: Self)
        ensures
            r.pending() == terminated(events_view(events@)),
    {
        let ghost all = events_view(events@);
        let mut events = events;
        let mut kept: Vec<Event> = Vec::new();
        while events.len() > 0
            invariant
                events_view(events@) == all.take(events.len() as int),
                kept.len() + events.len() == all.len(),
                forall|i: int|
                    0 <= i < kept.len() ==> (#[trigger] events_view(kept@)[i]) == all[all.len() - 1
                        - i],
            decreases events.len(),
        {
            let ghost before = events_view(events@);
            let ghost had = events_view(kept@);
            let event = events.pop().unwrap();
            kept.push(event);
            proof {
                assert(events_view(events@) =~= before.drop_last());
                assert(events_view(events@) =~= all.take(events.len() as int));
                assert(events_view(kept@) =~= had.push(before.last()));
            }
        }
        proof {
            assert(events_view(kept@) =~= all.reverse());
            lemma_kept_pending_of_reversed(all);
        }
        EventStream { source: None, kept }
    }

    /// Gives the next event. A terminal event is the last one, and the
    /// stream gives it again on every later call; any other event is used
    /// up.
    pub fn next(&mut self) -> (event: Event)
        ensures
            old(self).pending().len() > 0,
            event@ == old(self).pending()[0],
            event@.is_terminal() <==> old(self).pending().len() == 1,
            final(self).pending() == if event@.is_terminal() {
                old(self).pending()
            } else {
                old(self).pending().skip(1)
            },
    {
        match &mut self.source {
            Some(source) => next_event(source),
            None => {
                let ghost had = events_view(self.kept@);
                let n = self.kept.len();
                if n == 0 {
                    return Event::EndOfDocument;
                }
                match &self.kept[n - 1] {
                    Event::EndOfDocument => {
                        return Event::EndOfDocument;
                    },
                    Event::Malformed => {
                        return Event::Malformed;
                    },
                    _ => {},
                }
                let event = self.kept.pop().unwrap();
                proof {
                    assert(events_view(self.kept@) =~= had.drop_last());
                    assert(event@ == had.last());
                    assert(kept_pending(had).skip(1) =~= kept_pending(had.drop_last()));
                }
                event
            },
        }
    }
}

} // verus!
