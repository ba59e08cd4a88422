use epubgrep::container::container_path;
use epubgrep::container::content_file_name_in;
use epubgrep::container::get_content_file_name;
use epubgrep::error::EpubError;
use epubgrep::event::read_events;
use epubgrep::event::Attribute;
use epubgrep::event::Event;
use epubgrep::package::get_spine_documents;
use epubgrep::package::manifest_href;
use epubgrep::package::spine_documents_in;
use epubgrep::package::ManifestItem;

const CONTAINER: &[u8] = b"<?xml version=\"1.0\"?>
<container version=\"1.0\" xmlns=\"urn:oasis:names:tc:opendocument:xmlns:container\">
  <rootfiles>
    <rootfile full-path=\"OEBPS/content.opf\" media-type=\"application/oebps-package+xml\"/>
    <rootfile full-path=\"other.opf\" media-type=\"application/oebps-package+xml\"/>
  </rootfiles>
</container>";

const PACKAGE: &[u8] = b"<?xml version=\"1.0\"?>
<package xmlns=\"http://www.idpf.org/2007/opf\" version=\"2.0\">
  <metadata/>
  <manifest>
    <item id=\"ncx\" href=\"toc.ncx\" media-type=\"application/x-dtbncx+xml\"/>
    <item id=\"cover\" href=\"cover.jpg\" media-type=\"image/jpeg\"/>
    <item id=\"ch2\" href=\"text/ch2.xhtml\" media-type=\"application/xhtml+xml\"/>
    <item id=\"ch1\" href=\"text/ch%201.xhtml\" media-type=\"application/xhtml+xml\"/>
    <item id=\"css\" href=\"style.css\" media-type=\"text/css\"/>
  </manifest>
  <spine toc=\"ncx\">
    <itemref idref=\"ch1\"/>
    <itemref idref=\"cover\"/>
    <itemref idref=\"ch2\"/>
    <itemref idref=\"missing\"/>
    <itemref idref=\"ch1\"/>
  </spine>
</package>";

fn start(name: &str, attrs: &[(&str, &str)]) -> Event {
    Event::Start {
        name: name.to_string(),
        attributes: attrs
            .iter()
            .map(|(n, v)| Attribute { name: n.to_string(), value: v.to_string() })
            .collect(),
    }
}

fn end(name: &str) -> Event {
    Event::End { name: name.to_string() }
}

fn item(id: &str, href: &str) -> Event {
    start("item", &[("id", id), ("href", href), ("media-type", "application/xhtml+xml")])
}

#[test]
fn the_container_descriptor_has_a_fixed_path() {
    assert_eq!(container_path(), "META-INF/container.xml");
}

#[test]
fn the_first_rootfile_names_the_package_document() {
    assert_eq!(get_content_file_name(Some(CONTAINER)), Ok("OEBPS/content.opf".to_string()));
}

#[test]
fn a_missing_container_is_reported() {
    assert_eq!(get_content_file_name(None), Err(EpubError::ContainerMissing));
}

#[test]
fn a_container_without_rootfile_is_malformed() {
    let xml = b"<container><rootfiles/></container>";
    assert_eq!(get_content_file_name(Some(xml)), Err(EpubError::MalformedContainer));
}

#[test]
fn a_rootfile_without_full_path_is_malformed() {
    let xml = b"<container><rootfiles><rootfile media-type=\"x\"/></rootfiles></container>";
    assert_eq!(get_content_file_name(Some(xml)), Err(EpubError::MalformedContainer));
}

#[test]
fn a_container_that_is_not_xml_is_malformed_xml() {
    assert_eq!(get_content_file_name(Some(b"<container><oops></container>")), Err(EpubError::MalformedXml));
    assert_eq!(get_content_file_name(Some(b"not xml at all")), Err(EpubError::MalformedXml));
}

#[test]
fn a_rootfile_before_the_error_still_counts() {
    let xml = b"<container><rootfile full-path=\"a.opf\"/><oops></container>";
    assert_eq!(get_content_file_name(Some(xml)), Ok("a.opf".to_string()));
}

#[test]
fn the_full_path_is_percent_decoded() {
    let events = vec![start("rootfile", &[("full-path", "My%20Book/content.opf")]), Event::EndOfDocument];
    assert_eq!(content_file_name_in(&events), Ok("My Book/content.opf".to_string()));
}

#[test]
fn an_empty_list_of_events_has_no_rootfile() {
    assert_eq!(content_file_name_in(&vec![]), Err(EpubError::MalformedContainer));
}

#[test]
fn the_spine_keeps_the_order_of_its_itemrefs() {
    let r = get_spine_documents("OEBPS/content.opf", Some(PACKAGE));
    assert_eq!(
        r,
        Ok((
            "OEBPS/toc.ncx".to_string(),
            vec![
                "OEBPS/text/ch 1.xhtml".to_string(),
                "OEBPS/text/ch2.xhtml".to_string(),
                "OEBPS/text/ch 1.xhtml".to_string(),
            ]
        ))
    );
}

#[test]
fn a_package_at_the_root_has_an_empty_base() {
    let r = get_spine_documents("content.opf", Some(PACKAGE));
    assert_eq!(r.map(|p| p.0), Ok("toc.ncx".to_string()));
}

#[test]
fn a_missing_package_document_is_reported() {
    assert_eq!(get_spine_documents("OEBPS/content.opf", None), Err(EpubError::PackageMissing));
}

#[test]
fn a_package_without_manifest_is_malformed() {
    let xml = b"<package><spine toc=\"ncx\"/></package>";
    assert_eq!(get_spine_documents("content.opf", Some(xml)), Err(EpubError::MalformedPackage));
}

#[test]
fn a_package_without_spine_is_malformed() {
    let xml = b"<package><manifest><item id=\"ncx\" href=\"toc.ncx\" media-type=\"application/x-dtbncx+xml\"/></manifest></package>";
    assert_eq!(get_spine_documents("content.opf", Some(xml)), Err(EpubError::MalformedPackage));
}

#[test]
fn a_spine_without_toc_is_malformed() {
    let xml = b"<package><manifest><item id=\"ncx\" href=\"toc.ncx\" media-type=\"application/x-dtbncx+xml\"/></manifest><spine/></package>";
    assert_eq!(get_spine_documents("content.opf", Some(xml)), Err(EpubError::MalformedPackage));
}

#[test]
fn a_toc_that_the_manifest_lacks_is_malformed() {
    let xml = b"<package><manifest><item id=\"a\" href=\"a.xhtml\" media-type=\"application/xhtml+xml\"/></manifest><spine toc=\"ncx\"><itemref idref=\"a\"/></spine></package>";
    assert_eq!(get_spine_documents("content.opf", Some(xml)), Err(EpubError::MalformedPackage));
}

#[test]
fn a_toc_of_another_media_type_is_not_in_the_manifest() {
    let xml = b"<package><manifest><item id=\"ncx\" href=\"toc.ncx\" media-type=\"text/plain\"/></manifest><spine toc=\"ncx\"/></package>";
    assert_eq!(get_spine_documents("content.opf", Some(xml)), Err(EpubError::MalformedPackage));
}

#[test]
fn an_error_inside_the_manifest_is_malformed_xml() {
    let xml = b"<package><manifest><item id=\"a\" href=\"a\" media-type=\"application/xhtml+xml\"></manifest></package>";
    assert_eq!(get_spine_documents("content.opf", Some(xml)), Err(EpubError::MalformedXml));
}

#[test]
fn an_error_inside_the_spine_is_a_malformed_package() {
    let xml = b"<package><manifest><item id=\"ncx\" href=\"toc.ncx\" media-type=\"application/x-dtbncx+xml\"/></manifest><spine toc=\"ncx\"><itemref idref=\"ncx\"></spine></package>";
    assert_eq!(get_spine_documents("content.opf", Some(xml)), Err(EpubError::MalformedPackage));
}

#[test]
fn an_empty_spine_is_accepted() {
    let xml = b"<package><manifest><item id=\"ncx\" href=\"toc.ncx\" media-type=\"application/x-dtbncx+xml\"/></manifest><spine toc=\"ncx\"></spine></package>";
    assert_eq!(
        get_spine_documents("e/content.opf", Some(xml)),
        Ok(("e/toc.ncx".to_string(), vec![]))
    );
}

#[test]
fn the_last_declaration_of_an_id_counts() {
    let events = vec![
        start("manifest", &[]),
        item("a", "first.xhtml"),
        item("a", "second.xhtml"),
        end("manifest"),
        start("spine", &[("toc", "a")]),
        start("itemref", &[("idref", "a")]),
        end("itemref"),
        end("spine"),
        Event::EndOfDocument,
    ];
    assert_eq!(
        spine_documents_in(&events, "x/"),
        Ok(("x/second.xhtml".to_string(), vec!["x/second.xhtml".to_string()]))
    );
}

#[test]
fn items_outside_the_manifest_do_not_count() {
    let events = vec![
        item("early", "early.xhtml"),
        start("manifest", &[]),
        item("a", "a.xhtml"),
        end("manifest"),
        item("late", "late.xhtml"),
        start("spine", &[("toc", "a")]),
        start("itemref", &[("idref", "early")]),
        start("itemref", &[("idref", "late")]),
        start("itemref", &[("idref", "a")]),
        start("itemref", &[]),
        end("spine"),
        start("itemref", &[("idref", "a")]),
    ];
    assert_eq!(
        spine_documents_in(&events, ""),
        Ok(("a.xhtml".to_string(), vec!["a.xhtml".to_string()]))
    );
}

#[test]
fn a_document_that_ends_inside_the_manifest_is_a_malformed_package() {
    let events = vec![start("manifest", &[]), item("a", "a.xhtml"), Event::EndOfDocument];
    assert_eq!(spine_documents_in(&events, ""), Err(EpubError::MalformedPackage));
    let cut = vec![start("manifest", &[]), item("a", "a.xhtml")];
    assert_eq!(spine_documents_in(&cut, ""), Err(EpubError::MalformedPackage));
}

#[test]
fn an_item_needs_all_three_attributes() {
    let events = vec![
        start("manifest", &[]),
        start("item", &[("id", "a"), ("href", "a.xhtml")]),
        start("item", &[("id", "b"), ("media-type", "application/xhtml+xml")]),
        start("item", &[("href", "c.xhtml"), ("media-type", "application/xhtml+xml")]),
        item("t", "t.ncx"),
        end("manifest"),
        start("spine", &[("toc", "t")]),
        start("itemref", &[("idref", "a")]),
        start("itemref", &[("idref", "b")]),
        end("spine"),
    ];
    assert_eq!(spine_documents_in(&events, ""), Ok(("t.ncx".to_string(), vec![])));
}

#[test]
fn the_manifest_is_looked_up_by_id() {
    let items = vec![
        ManifestItem { id: "a".to_string(), href: "1".to_string(), media_type: "m".to_string() },
        ManifestItem { id: "b".to_string(), href: "2".to_string(), media_type: "m".to_string() },
        ManifestItem { id: "a".to_string(), href: "3".to_string(), media_type: "m".to_string() },
    ];
    assert_eq!(manifest_href(&items, "a"), Some(&"3".to_string()));
    assert_eq!(manifest_href(&items, "b"), Some(&"2".to_string()));
    assert_eq!(manifest_href(&items, "c"), None);
}

#[test]
fn events_of_a_real_package_resolve_like_its_bytes() {
    let events = read_events(PACKAGE);
    assert_eq!(
        spine_documents_in(&events, "OEBPS/"),
        get_spine_documents("OEBPS/content.opf", Some(PACKAGE))
    );
}
