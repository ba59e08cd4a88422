use epubgrep::attribute::get_attribute;
use epubgrep::event::is_end_element;
use epubgrep::event::is_start_element;
use epubgrep::event::read_events;
use epubgrep::event::Attribute;
use epubgrep::event::Event;
use epubgrep::event::EventStream;

fn attr(name: &str, value: &str) -> Attribute {
    Attribute { name: name.to_string(), value: value.to_string() }
}

#[test]
fn a_document_is_read_into_its_events() {
    let events = read_events(b"<a x=\"1\"><b>hi</b></a>");
    assert_eq!(
        events,
        vec![
            Event::Other,
            Event::Start { name: "a".to_string(), attributes: vec![attr("x", "1")] },
            Event::Start { name: "b".to_string(), attributes: vec![] },
            Event::Text("hi".to_string()),
            Event::End { name: "b".to_string() },
            Event::End { name: "a".to_string() },
            Event::EndOfDocument,
        ]
    );
}

#[test]
fn element_names_are_local_names() {
    let events = read_events(b"<n:a xmlns:n=\"urn:x\" n:k=\"v\"/>");
    assert_eq!(
        events,
        vec![
            Event::Other,
            Event::Start { name: "a".to_string(), attributes: vec![attr("k", "v")] },
            Event::End { name: "a".to_string() },
            Event::EndOfDocument,
        ]
    );
}

#[test]
fn a_broken_document_ends_in_malformed() {
    let events = read_events(b"<a><b></a>");
    assert_eq!(events.last(), Some(&Event::Malformed));
    assert_eq!(events.iter().filter(|e| e.is_terminal()).count(), 1);
    assert_eq!(events[1], Event::Start { name: "a".to_string(), attributes: vec![] });
}

#[test]
fn an_empty_document_is_malformed() {
    assert_eq!(read_events(b""), vec![Event::Malformed]);
}

#[test]
fn whitespace_and_cdata_are_kept_as_character_data() {
    let events = read_events(b"<a> <!-- c --> <![CDATA[x <y>]]><?pi z?></a>");
    assert_eq!(
        events,
        vec![
            Event::Other,
            Event::Start { name: "a".to_string(), attributes: vec![] },
            Event::Whitespace("  ".to_string()),
            Event::CData("x <y>".to_string()),
            Event::Other,
            Event::End { name: "a".to_string() },
            Event::EndOfDocument,
        ]
    );
    assert_eq!(events[2].character_data(), "  ");
    assert_eq!(events[3].character_data(), "x <y>");
    assert_eq!(events[1].character_data(), "");
    assert_eq!(Event::Text("t".to_string()).character_data(), "t");
}

#[test]
fn a_stream_reads_its_document_as_it_is_asked() {
    let mut stream = EventStream::read(b"<a>x</a><oops");
    assert_eq!(stream.next(), Event::Other);
    assert_eq!(stream.next(), Event::Start { name: "a".to_string(), attributes: vec![] });
    assert_eq!(stream.next(), Event::Text("x".to_string()));
    assert_eq!(stream.next(), Event::End { name: "a".to_string() });
    assert_eq!(stream.next(), Event::Malformed);
    assert_eq!(stream.next(), Event::Malformed);
}

#[test]
fn a_stream_of_given_events_ends_with_the_document() {
    let mut stream = EventStream::of(vec![Event::Text("a".to_string()), Event::Other]);
    assert_eq!(stream.next(), Event::Text("a".to_string()));
    assert_eq!(stream.next(), Event::Other);
    assert_eq!(stream.next(), Event::EndOfDocument);
    assert_eq!(stream.next(), Event::EndOfDocument);
    let mut cut = EventStream::of(vec![Event::Other, Event::Malformed, Event::Text("late".to_string())]);
    assert_eq!(cut.next(), Event::Other);
    assert_eq!(cut.next(), Event::Malformed);
    assert_eq!(cut.next(), Event::Malformed);
    let mut empty = EventStream::of(vec![]);
    assert_eq!(empty.next(), Event::EndOfDocument);
}

#[test]
fn terminal_events_are_told_apart() {
    assert!(Event::EndOfDocument.is_terminal());
    assert!(Event::Malformed.is_terminal());
    assert!(!Event::Other.is_terminal());
    assert!(!Event::Text("x".to_string()).is_terminal());
}

#[test]
fn a_start_element_gives_its_attributes() {
    let event = Event::Start { name: "item".to_string(), attributes: vec![attr("id", "a")] };
    assert_eq!(is_start_element(&event, "item"), Some(&vec![attr("id", "a")]));
    assert_eq!(is_start_element(&event, "itemref"), None);
    assert_eq!(is_start_element(&Event::End { name: "item".to_string() }, "item"), None);
}

#[test]
fn an_end_element_is_known_by_its_name() {
    let event = Event::End { name: "spine".to_string() };
    assert!(is_end_element(&event, "spine"));
    assert!(!is_end_element(&event, "manifest"));
    assert!(!is_end_element(&Event::Start { name: "spine".to_string(), attributes: vec![] }, "spine"));
}

#[test]
fn an_attribute_is_found_by_name() {
    let attrs = vec![attr("id", "ch1"), attr("href", "ch1.xhtml")];
    assert_eq!(get_attribute(&attrs, "href"), Some("ch1.xhtml".to_string()));
    assert_eq!(get_attribute(&attrs, "media-type"), None);
}

#[test]
fn the_first_attribute_of_a_name_counts() {
    let attrs = vec![attr("id", "one"), attr("id", "two")];
    assert_eq!(get_attribute(&attrs, "id"), Some("one".to_string()));
}

#[test]
fn an_attribute_value_is_percent_decoded() {
    let attrs = vec![attr("href", "my%20book/ch%31.xhtml")];
    assert_eq!(get_attribute(&attrs, "href"), Some("my book/ch1.xhtml".to_string()));
}

#[test]
fn a_percent_sign_without_two_digits_stays() {
    let attrs = vec![attr("a", "100%"), attr("b", "%zz%4"), attr("c", "%e2%82%ac")];
    assert_eq!(get_attribute(&attrs, "a"), Some("100%".to_string()));
    assert_eq!(get_attribute(&attrs, "b"), Some("%zz%4".to_string()));
    assert_eq!(get_attribute(&attrs, "c"), Some("\u{20ac}".to_string()));
}

#[test]
fn bytes_that_are_not_utf8_are_replaced() {
    let attrs = vec![attr("a", "x%ffy")];
    assert_eq!(get_attribute(&attrs, "a"), Some("x\u{fffd}y".to_string()));
}
