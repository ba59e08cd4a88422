use crate::attribute::attribute_value;
use crate::attribute::get_attribute;
use crate::error::EpubError;
use crate::event::Event;
use crate::event::EventView;
use crate::event::document_events;
use crate::event::events_view;
use crate::event::is_end_element;
use crate::event::is_start_element;
use crate::event::read_events;
use crate::path::containing_folder;
use crate::path::folder_of;
use crate::scan::end_index;
use crate::scan::ends_at;
use crate::scan::find_end;
use crate::scan::find_start;
use crate::scan::start_index;
use crate::scan::starts_at;
use crate::text::concat;
use crate::text::str_eq;
use vstd::prelude::*;

verus! {

/// One item of a package document's manifest.
#[derive(Debug, PartialEq, Eq)]
pub struct ManifestItem {
    pub id: String,
    pub href: String,
    pub media_type: String,
}

/// What a [`ManifestItem`] stands for in contracts.
pub struct ManifestItemView {
    pub id: Seq<char>,
    pub href: Seq<char>,
    pub media_type: Seq<char>,
}

impl View for ManifestItem {
    type V = ManifestItemView;

    open spec fn view(&self) -> ManifestItemView {
        ManifestItemView { id: self.id@, href: self.href@, media_type: self.media_type@ }
    }
}

/// The views of a list of manifest items, in order.
pub open spec fn items_view(items: Seq<ManifestItem>) -> Seq<ManifestItemView> {
    items.map_values(|item: ManifestItem| item@)
}

/// The views of a list of strings, in order.
pub open spec fn strings_view(strings: Seq<String>) -> Seq<Seq<char>> {
    strings.map_values(|s: String| s@)
}

/// The media types whose documents hold text to search or to navigate by.
pub open spec fn is_textual(media_type: Seq<char>) -> bool {
    media_type == "application/xhtml+xml"@ || media_type == "application/x-dtbncx+xml"@
}

/// The attributes of a start tag; none for any other event.
pub open spec fn attributes_of(event: EventView) -> Seq<crate::event::AttributeView> {
    match event {
        EventView::Start { attributes, .. } => attributes,
        _ => seq![],
    }
}

/// The manifest item that an event declares, if it declares one that is kept:
/// an `item` with `media-type`, `id` and `href`, of a textual media type.
pub open spec fn declared_item(event: EventView) -> Option<ManifestItemView> {
    if event.starts("item"@) {
        match (
            attribute_value(attributes_of(event), "media-type"@),
            attribute_value(attributes_of(event), "id"@),
            attribute_value(attributes_of(event), "href"@),
        ) {
            (Some(media_type), Some(id), Some(href)) => if is_textual(media_type) {
                Some(ManifestItemView { id, href, media_type })
            } else {
                None
            },
            _ => None,
        }
    } else {
        None
    }
}

/// The manifest items that a run of events declares, in their order.
pub open spec fn declared_items(events: Seq<EventView>) -> Seq<ManifestItemView>
    decreases events.len(),
{
    if events.len() == 0 {
        seq![]
    } else {
        match declared_item(events.last()) {
            Some(item) => declared_items(events.drop_last()).push(item),
            None => declared_items(events.drop_last()),
        }
    }
}

/// The manifest as a mapping from id to href. Where an id is declared more
/// than once, its last declaration counts.
pub open spec fn manifest_map(items: Seq<ManifestItemView>) -> Map<Seq<char>, Seq<char>>
    decreases items.len(),
{
    if items.len() == 0 {
        Map::empty()
    } else {
        manifest_map(items.drop_last()).insert(items.last().id, items.last().href)
    }
}

/// The id that an event refers to, if it is an `itemref` with an `idref`.
pub open spec fn declared_idref(event: EventView) -> Option<Seq<char>> {
    if event.starts("itemref"@) {
        attribute_value(attributes_of(event), "idref"@)
    } else {
        None
    }
}

/// The ids that the `itemref` elements of a run of events refer to, in the
/// order of their declaration.
pub open spec fn declared_idrefs(events: Seq<EventView>) -> Seq<Seq<char>>
    decreases events.len(),
{
    if events.len() == 0 {
        seq![]
    } else {
        match declared_idref(events.last()) {
            Some(id) => declared_idrefs(events.drop_last()).push(id),
            None => declared_idrefs(events.drop_last()),
        }
    }
}

/// The reading order: of the ids referred to, those that the manifest
/// holds, each as the path of its document, in the order given.
pub open spec fn resolved_spine(
    manifest: Map<Seq<char>, Seq<char>>,
    base: Seq<char>,
    idrefs: Seq<Seq<char>>,
) -> Seq<Seq<char>> {
    idrefs.filter(|id: Seq<char>| manifest.contains_key(id)).map_values(
        |id: Seq<char>| base + manifest[id],
    )
}

/// What a package document resolves to: the path of the navigation
/// document and the paths of the spine documents in reading order.
pub struct PackageView {
    pub toc: Seq<char>,
    pub spine: Seq<Seq<char>>,
}

/// The resolution of a package document given as events, with `base` as
/// the folder that its hrefs are relative to.
pub open spec fn resolve_package(events: Seq<EventView>, base: Seq<char>) -> Result<
    PackageView,
    EpubError,
> {
    let opened = start_index(events, 0, "manifest"@);
    let closed = end_index(events, opened + 1, "manifest"@);
    let manifest = manifest_map(declared_items(events.subrange(opened + 1, closed)));
    let spine = start_index(events, closed + 1, "spine"@);
    let done = end_index(events, spine + 1, "spine"@);
    if !starts_at(events, opened, "manifest"@) {
        Err(EpubError::MalformedPackage)
    } else if !ends_at(events, closed, "manifest"@) {
        if closed < events.len() && events[closed] is Malformed {
            Err(EpubError::MalformedXml)
        } else {
            Err(EpubError::MalformedPackage)
        }
    } else if !starts_at(events, spine, "spine"@) {
        Err(EpubError::MalformedPackage)
    } else {
        match attribute_value(attributes_of(events[spine]), "toc"@) {
            None => Err(EpubError::MalformedPackage),
            Some(toc_id) => if !manifest.contains_key(toc_id) {
                Err(EpubError::MalformedPackage)
            } else if !ends_at(events, done, "spine"@) {
                Err(EpubError::MalformedPackage)
            } else {
                Ok(
                    PackageView {
                        toc: base + manifest[toc_id],
                        spine: resolved_spine(
                            manifest,
                            base,
                            declared_idrefs(events.subrange(spine + 1, done)),
                        ),
                    },
                )
            },
        }
    }
}

/// What the result of a resolution stands for in contracts.
pub open spec fn package_view(r: Result<(String, Vec<String>), EpubError>) -> Result<
    PackageView,
    EpubError,
> {
    match r {
        Ok((toc, spine)) => Ok(PackageView { toc: toc@, spine: strings_view(spine@) }),
        Err(e) => Err(e),
    }
}

/// Whether a media type is one whose documents are kept in the manifest.
pub fn is_textual_type(media_type: &str) -> (r: bool)
    ensures
        r == is_textual(media_type@),
{
    str_eq(media_type, "application/xhtml+xml") || str_eq(media_type, "application/x-dtbncx+xml")
}

/// The manifest item that `event` declares, if it declares one that is kept.
pub fn manifest_item(event: &Event) -> (r: Option<ManifestItem>)
    ensures
        r is Some == declared_item(event@) is Some,
        r matches Some(item) ==> Some(item@) == declared_item(event@),
{
    match is_start_element(event, "item") {
        Some(attrs) => {
            let media_type = get_attribute(attrs, "media-type");
            let id = get_attribute(attrs, "id");
            let href = get_attribute(attrs, "href");
            match (media_type, id, href) {
                (Some(media_type), Some(id), Some(href)) => {
                    if is_textual_type(media_type.as_str()) {
                        Some(ManifestItem { id, href, media_type })
                    } else {
                        None
                    }
                },
                _ => None,
            }
        },
        None => None,
    }
}

/// Looks an id up in the manifest: the href of its last declaration.
pub fn manifest_href<'a>(items: &'a Vec<ManifestItem>, id: &str) -> (r: Option<&'a String>)
    ensures
        r is Some == manifest_map(items_view(items@)).contains_key(id@),
        r matches Some(href) ==> href@ == manifest_map(items_view(items@))[id@],
{
    let ghost all = items_view(items@);
    let mut i: usize = items.len();
    assert(all.take(i as int) =~= all);
    while i > 0
        invariant
            i <= items.len(),
            all == items_view(items@),
            manifest_map(all).contains_key(id@) == manifest_map(all.take(i as int)).contains_key(
                id@,
            ),
            manifest_map(all).contains_key(id@) ==> manifest_map(all)[id@] == manifest_map(
                all.take(i as int),
            )[id@],
        decreases i,
    {
        i -= 1;
        let item = &items[i];
        proof {
            assert(all.take(i + 1).drop_last() =~= all.take(i as int));
            assert(all.take(i + 1).last() == item@);
        }
        if str_eq(item.id.as_str(), id) {
            return Some(&item.href);
        }
    }
    proof {
        assert(all.take(0) =~= seq![]);
    }
    None
}

/// One more id at the end of the ids referred to adds its document at the
/// end of the reading order if the manifest holds the id, and nothing else.
pub proof fn lemma_resolved_spine_push(
    manifest: Map<Seq<char>, Seq<char>>,
    base: Seq<char>,
    idrefs: Seq<Seq<char>>,
    id: Seq<char>,
)
    ensures
        resolved_spine(manifest, base, idrefs.push(id)) == if manifest.contains_key(id) {
            resolved_spine(manifest, base, idrefs).push(base + manifest[id])
        } else {
            resolved_spine(manifest, base, idrefs)
        },
{
    reveal(Seq::filter);
    let known = |id: Seq<char>| manifest.contains_key(id);
    assert(idrefs.push(id).drop_last() =~= idrefs);
    if manifest.contains_key(id) {
        assert(idrefs.push(id).filter(known) == idrefs.filter(known).push(id));
        assert(resolved_spine(manifest, base, idrefs.push(id)) =~= resolved_spine(
            manifest,
            base,
            idrefs,
        ).push(base + manifest[id]));
    } else {
        assert(idrefs.push(id).filter(known) == idrefs.filter(known));
    }
}

/// The reading order of two runs of ids, one after the other, is the
/// reading order of the first followed by that of the second: every id
/// gives its document in its own place or not at all.
pub proof fn lemma_resolved_spine_concat(
    manifest: Map<Seq<char>, Seq<char>>,
    base: Seq<char>,
    first: Seq<Seq<char>>,
    second: Seq<Seq<char>>,
)
    ensures
        resolved_spine(manifest, base, first + second) == resolved_spine(manifest, base, first)
            + resolved_spine(manifest, base, second),
    decreases second.len(),
{
    reveal(Seq::filter);
    if second.len() == 0 {
        assert(first + second =~= first);
        assert(resolved_spine(manifest, base, second) =~= seq![]);
        assert(resolved_spine(manifest, base, first) + Seq::<Seq<char>>::empty()
            =~= resolved_spine(manifest, base, first));
    } else {
        let id = second.last();
        let most = second.drop_last();
        assert(first + second =~= (first + most).push(id));
        assert(second =~= most.push(id));
        lemma_resolved_spine_concat(manifest, base, first, most);
        lemma_resolved_spine_push(manifest, base, first + most, id);
        lemma_resolved_spine_push(manifest, base, most, id);
        if manifest.contains_key(id) {
            assert((resolved_spine(manifest, base, first) + resolved_spine(
                manifest,
                base,
                most,
            )).push(base + manifest[id]) =~= resolved_spine(manifest, base, first)
                + resolved_spine(manifest, base, most).push(base + manifest[id]));
        }
    }
}

/// Where the manifest holds every id that the spine refers to, the
/// reading order has one document for each reference, in the order of the
/// references.
pub proof fn lemma_resolved_spine_of_known_ids(
    manifest: Map<Seq<char>, Seq<char>>,
    base: Seq<char>,
    idrefs: Seq<Seq<char>>,
)
    requires
        forall|i: int| 0 <= i < idrefs.len() ==> manifest.contains_key(#[trigger] idrefs[i]),
    ensures
        resolved_spine(manifest, base, idrefs).len() == idrefs.len(),
        forall|i: int|
            0 <= i < idrefs.len() ==> #[trigger] resolved_spine(manifest, base, idrefs)[i] == base
                + manifest[idrefs[i]],
    decreases idrefs.len(),
{
    reveal(Seq::filter);
    if idrefs.len() > 0 {
        let id = idrefs.last();
        let most = idrefs.drop_last();
        assert(idrefs =~= most.push(id));
        lemma_resolved_spine_of_known_ids(manifest, base, most);
        lemma_resolved_spine_push(manifest, base, most, id);
    }
}

/// The spine of a package that resolves is what its `itemref` elements
/// declare, in the order of their declaration, without the references
/// that the manifest does not hold.
pub proof fn lemma_spine_follows_declarations(events: Seq<EventView>, base: Seq<char>)
    requires
        resolve_package(events, base) is Ok,
    ensures
        ({
            let opened = start_index(events, 0, "manifest"@);
            let closed = end_index(events, opened + 1, "manifest"@);
            let spine = start_index(events, closed + 1, "spine"@);
            let done = end_index(events, spine + 1, "spine"@);
            let manifest = manifest_map(declared_items(events.subrange(opened + 1, closed)));
            let idrefs = declared_idrefs(events.subrange(spine + 1, done));
            resolve_package(events, base)->Ok_0.spine == idrefs.filter(
                |id: Seq<char>| manifest.contains_key(id),
            ).map_values(|id: Seq<char>| base + manifest[id])
        }),
{
}

/// The manifest items declared between two places of a document.
pub(crate) fn collect_items(events: &Vec<Event>, from: usize, to: usize) -> (items: Vec<ManifestItem>)
    requires
        from <= to <= events.len(),
    ensures
        items_view(items@) == declared_items(events_view(events@).subrange(from as int, to as int)),
{
    let ghost all = events_view(events@);
    let mut items: Vec<ManifestItem> = Vec::new();
    let mut at = from;
    assert(all.subrange(from as int, at as int) =~= seq![]);
    assert(items_view(items@) =~= seq![]);
    while at < to
        invariant
            from <= at <= to <= events.len(),
            all == events_view(events@),
            items_view(items@) == declared_items(all.subrange(from as int, at as int)),
        decreases to - at,
    {
        let ghost before = items_view(items@);
        proof {
            assert(all.subrange(from as int, at + 1).drop_last() =~= all.subrange(
                from as int,
                at as int,
            ));
            assert(all.subrange(from as int, at + 1).last() == events[at as int]@);
        }
        match manifest_item(&events[at]) {
            Some(item) => {
                items.push(item);
                assert(items_view(items@) =~= before.push(item@));
            },
            None => {},
        }
        at += 1;
    }
    items
}

/// The reading order that the `itemref` elements between two places of a
/// document give, resolved against the manifest.
pub(crate) fn collect_spine(
    events: &Vec<Event>,
    from: usize,
    to: usize,
    items: &Vec<ManifestItem>,
    oebps: &str,
) -> (spine: Vec<String>)
    requires
        from <= to <= events.len(),
    ensures
        strings_view(spine@) == resolved_spine(
            manifest_map(items_view(items@)),
            oebps@,
            declared_idrefs(events_view(events@).subrange(from as int, to as int)),
        ),
{
    let ghost all = events_view(events@);
    let ghost manifest = manifest_map(items_view(items@));
    let mut spine: Vec<String> = Vec::new();
    let mut at = from;
    proof {
        reveal(Seq::filter);
        assert(all.subrange(from as int, at as int) =~= seq![]);
        assert(strings_view(spine@) =~= resolved_spine(manifest, oebps@, seq![]));
    }
    while at < to
        invariant
            from <= at <= to <= events.len(),
            all == events_view(events@),
            manifest == manifest_map(items_view(items@)),
            strings_view(spine@) == resolved_spine(
                manifest,
                oebps@,
                declared_idrefs(all.subrange(from as int, at as int)),
            ),
        decreases to - at,
    {
        let ghost before = strings_view(spine@);
        let ghost idrefs = declared_idrefs(all.subrange(from as int, at as int));
        proof {
            assert(all.subrange(from as int, at + 1).drop_last() =~= all.subrange(
                from as int,
                at as int,
            ));
            assert(all.subrange(from as int, at + 1).last() == events[at as int]@);
        }
        match is_start_element(&events[at], "itemref") {
            Some(attrs) => {
                match get_attribute(attrs, "idref") {
                    Some(id) => {
                        proof {
                            lemma_resolved_spine_push(manifest, oebps@, idrefs, id@);
                        }
                        match manifest_href(items, id.as_str()) {
                            Some(href) => {
                                let path = concat(oebps, href.as_str());
                                spine.push(path);
                                assert(strings_view(spine@) =~= before.push(path@));
                            },
                            None => {},
                        }
                    },
                    None => {},
                }
            },
            None => {},
        }
        at += 1;
    }
    spine
}

/// Resolves a package document given as events: finds the manifest, keeps
/// its textual items, finds the spine and the navigation document that its
/// `toc` attribute names, and lists the spine's documents in the order of
/// their `itemref` elements. An `itemref` whose id the manifest does not
/// hold is passed over. Paths are `oebps` followed by the item's href.
pub fn spine_documents_in(events: &Vec<Event>, oebps: &str) -> (r: Result<
    (String, Vec<String>),
    EpubError,
>)
    ensures
        package_view(r) == resolve_package(events_view(events@), oebps@),
{
    let ghost all = events_view(events@);
    let n = events.len();
    let opened = find_start(events, 0, "manifest");
    if opened >= n || is_start_element(&events[opened], "manifest").is_none() {
        return Err(EpubError::MalformedPackage);
    }
    let closed = find_end(events, opened + 1, "manifest");
    if closed >= n {
        return Err(EpubError::MalformedPackage);
    }
    if !is_end_element(&events[closed], "manifest") {
        return match &events[closed] {
            Event::Malformed => Err(EpubError::MalformedXml),
            _ => Err(EpubError::MalformedPackage),
        };
    }
    let items = collect_items(events, opened + 1, closed);
    let spine_at = find_start(events, closed + 1, "spine");
    if spine_at >= n {
        return Err(EpubError::MalformedPackage);
    }
    let toc_id = match is_start_element(&events[spine_at], "spine") {
        Some(attrs) => match get_attribute(attrs, "toc") {
            Some(toc_id) => toc_id,
            None => {
                return Err(EpubError::MalformedPackage);
            },
        },
        None => {
            return Err(EpubError::MalformedPackage);
        },
    };
    let toc = match manifest_href(&items, toc_id.as_str()) {
        Some(href) => concat(oebps, href.as_str()),
        None => {
            return Err(EpubError::MalformedPackage);
        },
    };
    let done = find_end(events, spine_at + 1, "spine");
    if done >= n || !is_end_element(&events[done], "spine") {
        return Err(EpubError::MalformedPackage);
    }
    let spine = collect_spine(events, spine_at + 1, done, &items, oebps);
    Ok((toc, spine))
}

/// Resolves the package document of an archive. `content` is what the
/// archive holds under `content_file_name`, or `None` where it holds
/// nothing there. The hrefs of the document are relative to the folder
/// that holds it.
pub fn get_spine_documents(content_file_name: &str, content: Option<&[u8]>) -> (r: Result<
    (String, Vec<String>),
    EpubError,
>)
    ensures
        package_view(r) == match content {
            Some(bytes) => resolve_package(
                document_events(bytes@),
                folder_of(content_file_name@),
            ),
            None => Err(EpubError::PackageMissing),
        },
{
    match content {
        Some(bytes) => {
            let oebps = containing_folder(content_file_name);
            let events = read_events(bytes);
            spine_documents_in(&events, oebps.as_str())
        },
        None => Err(EpubError::PackageMissing),
    }
}

} // verus!
