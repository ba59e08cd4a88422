use epubgrep::event::Event;
use epubgrep::paragraph::XhtmlTextIterator;

const DOC: &[u8] = b"<?xml version=\"1.0\"?>
<html xmlns=\"http://www.w3.org/1999/xhtml\">
<head><title>Title text</title></head>
<body>
<h1>Heading</h1>
<p>First <b>bold</b> and <i>italic</i> text.</p>
<div>Outside</div>
<p/>
<p>Second &amp; last<br/>line</p>
trailing
</body>
</html>";

fn start(name: &str) -> Event {
    Event::Start { name: name.to_string(), attributes: vec![] }
}

fn end(name: &str) -> Event {
    Event::End { name: name.to_string() }
}

fn text(s: &str) -> Event {
    Event::Text(s.to_string())
}

fn all(mut stream: XhtmlTextIterator) -> Vec<String> {
    let mut out = Vec::new();
    while let Some(p) = stream.next() {
        out.push(p);
    }
    assert_eq!(stream.next(), None);
    out
}

#[test]
fn paragraphs_come_in_document_order() {
    assert_eq!(
        all(XhtmlTextIterator::new(DOC)),
        vec!["First bold and italic text.".to_string(), "".to_string(), "Second & lastline".to_string()]
    );
}

#[test]
fn whitespace_between_inline_elements_is_kept() {
    let doc = b"<html><body><p>a <b>b</b> <i>c</i></p></body></html>";
    let mut stream = XhtmlTextIterator::new(doc);
    assert_eq!(stream.next(), Some("a b c".to_string()));
    assert_eq!(stream.next(), None);
}

#[test]
fn cdata_and_whitespace_are_text_of_a_paragraph() {
    let doc = b"<html><p> <![CDATA[1 < 2]]> <b> </b>!</p> <p>\n</p></html>";
    assert_eq!(all(XhtmlTextIterator::new(doc)), vec![" 1 < 2  !".to_string(), "\n".to_string()]);
    let events = vec![
        start("p"),
        Event::Whitespace(" ".to_string()),
        Event::CData("c".to_string()),
        text("t"),
        Event::Other,
        end("p"),
    ];
    assert_eq!(all(XhtmlTextIterator::from_events(events)), vec![" ct".to_string()]);
}

#[test]
fn a_document_is_read_only_as_far_as_its_paragraphs_are_asked_for() {
    let mut stream = XhtmlTextIterator::new(b"<html><p>one</p><p>two</p><oops");
    assert_eq!(stream.next(), Some("one".to_string()));
    assert_eq!(stream.next(), Some("two".to_string()));
    assert_eq!(stream.next(), None);
}

#[test]
fn a_document_without_paragraphs_gives_none() {
    assert_eq!(all(XhtmlTextIterator::new(b"<html><body><div>text</div></body></html>")), Vec::<String>::new());
    assert_eq!(all(XhtmlTextIterator::new(b"")), Vec::<String>::new());
    assert_eq!(all(XhtmlTextIterator::from_events(vec![])), Vec::<String>::new());
}

#[test]
fn paragraphs_before_an_error_are_given() {
    let broken = b"<html><p>one</p><p>two</p><p>three</b></p></html>";
    assert_eq!(all(XhtmlTextIterator::new(broken)), vec!["one".to_string(), "two".to_string()]);
}

#[test]
fn a_paragraph_that_is_cut_short_is_not_given() {
    let events = vec![start("p"), text("whole"), end("p"), start("p"), text("cut"), Event::EndOfDocument];
    assert_eq!(all(XhtmlTextIterator::from_events(events)), vec!["whole".to_string()]);
}

#[test]
fn the_first_end_tag_closes_a_paragraph() {
    let events = vec![
        start("p"),
        text("a"),
        start("p"),
        text("b"),
        end("p"),
        text("c"),
        end("p"),
        start("p"),
        text("d"),
        end("p"),
    ];
    assert_eq!(all(XhtmlTextIterator::from_events(events)), vec!["ab".to_string(), "d".to_string()]);
}

#[test]
fn nothing_is_given_after_the_end() {
    let events = vec![start("p"), text("a"), end("p"), Event::Malformed, start("p"), text("b"), end("p")];
    let mut stream = XhtmlTextIterator::from_events(events);
    assert_eq!(stream.next(), Some("a".to_string()));
    assert_eq!(stream.next(), None);
    assert_eq!(stream.next(), None);
}

#[test]
fn the_paragraphs_joined_are_the_text_inside_paragraphs() {
    let joined: String = all(XhtmlTextIterator::new(DOC)).concat();
    assert_eq!(joined, "First bold and italic text.Second & lastline");
}
