use epubgrep::error::EpubError;
use epubgrep::event::Attribute;
use epubgrep::event::Event;
use epubgrep::navigation::nav_map_in;
use epubgrep::navigation::parse_nav_point;
use epubgrep::navigation::parse_toc;
use epubgrep::navigation::read_navigation;
use epubgrep::navigation::NavMap;
use epubgrep::navigation::NavPoint;

const TOC: &[u8] = b"<?xml version=\"1.0\"?>
<ncx xmlns=\"http://www.daisy.org/z3986/2005/ncx/\" version=\"2005-1\">
  <head/>
  <docTitle><text>A Book</text></docTitle>
  <navMap>
    <navPoint id=\"p1\" playOrder=\"1\">
      <navLabel><text>Part One</text></navLabel>
      <content src=\"part1.xhtml\"/>
      <navPoint id=\"c1\" playOrder=\"2\">
        <navLabel><text>Chapter 1</text></navLabel>
        <content src=\"ch%201.xhtml\"/>
      </navPoint>
      <navPoint id=\"c2\" playOrder=\"3\">
        <navLabel><text>Chapter 2</text></navLabel>
        <content src=\"ch2.xhtml\"/>
        <navPoint id=\"s1\" playOrder=\"4\">
          <navLabel><text>Section</text> <text>A &amp; B</text></navLabel>
          <content src=\"ch2a.xhtml\"/>
        </navPoint>
      </navPoint>
    </navPoint>
    <navPoint id=\"p2\" playOrder=\"5\">
      <navLabel><text>Part Two</text></navLabel>
    </navPoint>
  </navMap>
</ncx>";

fn point(label: &str, src: &str, points: Vec<NavPoint>) -> NavPoint {
    NavPoint { label: label.to_string(), content_src: src.to_string(), points }
}

fn start(name: &str, attrs: &[(&str, &str)]) -> Event {
    Event::Start {
        name: name.to_string(),
        attributes: attrs
            .iter()
            .map(|(n, v)| Attribute { name: n.to_string(), value: v.to_string() })
            .collect(),
    }
}

fn end(name: &str) -> Event {
    Event::End { name: name.to_string() }
}

fn text(s: &str) -> Event {
    Event::Text(s.to_string())
}

fn sample() -> NavMap {
    NavMap {
        points: vec![
            point(
                "Part One",
                "OEBPS/part1.xhtml",
                vec![
                    point("Chapter 1", "OEBPS/ch 1.xhtml", vec![]),
                    point(
                        "Chapter 2",
                        "OEBPS/ch2.xhtml",
                        vec![point("Section A & B", "OEBPS/ch2a.xhtml", vec![])],
                    ),
                ],
            ),
            point("Part Two", "", vec![]),
        ],
    }
}

#[test]
fn a_navigation_document_is_read_into_its_tree() {
    assert_eq!(parse_toc(TOC, "OEBPS/"), Some(sample()));
}

#[test]
fn a_top_level_point_is_described_by_its_label() {
    assert_eq!(sample().describe("OEBPS/part1.xhtml"), Some("Part One".to_string()));
}

#[test]
fn a_nested_point_is_described_by_its_breadcrumb() {
    assert_eq!(sample().describe("OEBPS/ch 1.xhtml"), Some("Part One - Chapter 1".to_string()));
    assert_eq!(
        sample().describe("OEBPS/ch2a.xhtml"),
        Some("Part One - Chapter 2 - Section A & B".to_string())
    );
}

#[test]
fn a_file_outside_the_tree_has_no_description() {
    assert_eq!(sample().describe("OEBPS/appendix.xhtml"), None);
    assert_eq!(NavMap { points: vec![] }.describe("x"), None);
}

#[test]
fn a_point_without_content_matches_the_empty_path() {
    assert_eq!(sample().describe(""), Some("Part Two".to_string()));
}

#[test]
fn the_first_point_in_document_order_counts() {
    let map = NavMap {
        points: vec![
            point("A", "a", vec![point("A1", "x", vec![]), point("A2", "y", vec![])]),
            point("B", "x", vec![point("B1", "y", vec![])]),
        ],
    };
    assert_eq!(map.describe("x"), Some("A - A1".to_string()));
    assert_eq!(map.describe("y"), Some("A - A2".to_string()));
}

#[test]
fn a_point_that_matches_hides_the_points_below_it() {
    let map = NavMap { points: vec![point("Up", "f", vec![point("Down", "f", vec![])])] };
    assert_eq!(map.describe("f"), Some("Up".to_string()));
    assert_eq!(map.points[0].describe("f"), Some("Up".to_string()));
    assert_eq!(map.points[0].points[0].describe("f"), Some("Down".to_string()));
}

#[test]
fn a_document_without_nav_map_has_no_tree() {
    assert_eq!(parse_toc(b"<ncx><head/></ncx>", ""), None);
    assert_eq!(parse_toc(b"", ""), None);
}

#[test]
fn a_tree_that_is_cut_short_is_no_tree() {
    let cut = b"<ncx><navMap><navPoint><navLabel><text>One</text></navLabel></navPoint><navPoint>";
    assert_eq!(parse_toc(cut, ""), None);
    let open_label = b"<ncx><navMap><navPoint><navLabel><text>One</text>";
    assert_eq!(parse_toc(open_label, ""), None);
    let open_map = b"<ncx><navMap><navPoint></navPoint>";
    assert_eq!(parse_toc(open_map, ""), None);
}

#[test]
fn an_empty_nav_map_is_an_empty_tree() {
    assert_eq!(parse_toc(b"<ncx><navMap></navMap></ncx>", "x/"), Some(NavMap { points: vec![] }));
}

#[test]
fn label_text_is_joined_and_the_last_content_counts() {
    let events = vec![
        start("navLabel", &[]),
        text("One"),
        start("navPoint", &[]),
        text(" and "),
        end("navPoint"),
        text("Two"),
        end("navLabel"),
        start("content", &[("src", "a.xhtml")]),
        end("content"),
        start("content", &[]),
        start("navLabel", &[]),
        text("!"),
        end("navLabel"),
        start("content", &[("src", "b.xhtml")]),
        text("ignored"),
        end("navPoint"),
        text("after"),
    ];
    assert_eq!(
        parse_nav_point(&events, 0, "base/"),
        Some((point("One and Two!", "base/b.xhtml", vec![]), 16))
    );
}

#[test]
fn whitespace_and_cdata_belong_to_a_label() {
    let toc = b"<ncx><navMap><navPoint><navLabel> <text>A</text>\n<text><![CDATA[&B]]></text></navLabel></navPoint></navMap></ncx>";
    assert_eq!(
        parse_toc(toc, ""),
        Some(NavMap { points: vec![point(" A\n&B", "", vec![])] })
    );
}

#[test]
fn points_outside_the_nav_map_do_not_count() {
    let events = vec![
        start("navPoint", &[]),
        end("navPoint"),
        start("navMap", &[]),
        start("navPoint", &[]),
        start("navPoint", &[]),
        end("navPoint"),
        end("navPoint"),
        end("navMap"),
        start("navPoint", &[]),
    ];
    assert_eq!(
        nav_map_in(&events, ""),
        Some(NavMap { points: vec![point("", "", vec![point("", "", vec![])])] })
    );
}

#[test]
fn reading_a_point_from_the_end_gives_nothing() {
    let events = vec![start("navPoint", &[])];
    assert_eq!(parse_nav_point(&events, 1, ""), None);
    assert_eq!(parse_nav_point(&events, 7, ""), None);
    assert_eq!(parse_nav_point(&vec![Event::EndOfDocument], 0, ""), None);
    assert_eq!(parse_nav_point(&vec![Event::Malformed], 0, ""), None);
}

#[test]
fn the_navigation_is_named_relative_to_its_own_folder() {
    let r = read_navigation("OEBPS/nav/toc.ncx", Some(TOC));
    assert_eq!(
        r.map(|m| m.points[0].content_src.clone()),
        Ok("OEBPS/nav/part1.xhtml".to_string())
    );
    let at_root = read_navigation("toc.ncx", Some(TOC));
    assert_eq!(at_root.map(|m| m.points[0].content_src.clone()), Ok("part1.xhtml".to_string()));
}

#[test]
fn a_missing_or_broken_navigation_is_an_error() {
    assert_eq!(read_navigation("toc.ncx", None), Err(EpubError::MalformedNavigation));
    assert_eq!(read_navigation("toc.ncx", Some(b"<ncx/>")), Err(EpubError::MalformedNavigation));
}
