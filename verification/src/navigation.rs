use crate::attribute::attribute_value;
use crate::attribute::get_attribute;
use crate::error::EpubError;
use crate::event::Event;
use crate::event::EventView;
use crate::event::document_events;
use crate::event::events_view;
use crate::event::is_end_element;
use crate::event::is_start_element;
use crate::event::read_events;
use crate::package::attributes_of;
use crate::path::containing_folder;
use crate::path::folder_of;
use crate::scan::collect_text;
use crate::scan::end_index;
use crate::scan::ends_at;
use crate::scan::find_end;
use crate::scan::find_start;
use crate::scan::joined_text;
use crate::scan::start_index;
use crate::scan::starts_at;
use crate::text::concat;
use crate::text::str_eq;
use vstd::prelude::*;
use vstd::string::StringExecFns;

verus! {

/// A point of the table of contents: its label, the document it leads to
/// (empty where it names none) and the points below it.
#[derive(Debug, PartialEq, Eq)]
pub struct NavPoint {
    pub label: String,
    pub content_src: String,
    pub points: Vec<NavPoint>,
}

/// The table of contents: its top-level points in order.
#[derive(Debug, PartialEq, Eq)]
pub struct NavMap {
    pub points: Vec<NavPoint>,
}

/// What a [`NavPoint`] stands for in contracts.
pub struct NavPointView {
    pub label: Seq<char>,
    pub content_src: Seq<char>,
    pub points: Seq<NavPointView>,
}

/// The view of a point: its texts, and the views of the points below it.
pub open spec fn point_view(point: NavPoint) -> NavPointView
    decreases point,
{
    NavPointView {
        label: point.label@,
        content_src: point.content_src@,
        points: Seq::new(
            point.points@.len(),
            |i: int|
                if 0 <= i < point.points@.len() {
                    point_view(point.points@[i])
                } else {
                    arbitrary()
                },
        ),
    }
}

impl View for NavPoint {
    type V = NavPointView;

    open spec fn view(&self) -> NavPointView {
        point_view(*self)
    }
}

/// The views of a list of points, in order.
pub open spec fn points_view(points: Seq<NavPoint>) -> Seq<NavPointView> {
    points.map_values(|p: NavPoint| p@)
}

impl View for NavMap {
    type V = Seq<NavPointView>;

    open spec fn view(&self) -> Seq<NavPointView> {
        points_view(self.points@)
    }
}

/// The text that stands between the labels of a description.
pub open spec fn separator() -> Seq<char> {
    " - "@
}

/// The description of `file` by one point: the point's label if the point
/// leads to the file, else the label followed by the description that the
/// points below give, if they give one.
pub open spec fn describe_point(point: NavPointView, file: Seq<char>) -> Option<Seq<char>>
    decreases point, 0int,
{
    if point.content_src == file {
        Some(point.label)
    } else {
        match describe_from(point.points, 0, file) {
            Some(description) => Some(point.label + separator() + description),
            None => None,
        }
    }
}

/// The description of `file` by the first of the points from `from` on that
/// gives one.
pub open spec fn describe_from(points: Seq<NavPointView>, from: int, file: Seq<char>) -> Option<
    Seq<char>,
>
    decreases points, points.len() - from,
{
    if from < 0 || from >= points.len() {
        None
    } else {
        match describe_point(points[from], file) {
            Some(description) => Some(description),
            None => describe_from(points, from + 1, file),
        }
    }
}

/// The view of an optional string.
pub open spec fn option_view(s: Option<String>) -> Option<Seq<char>> {
    match s {
        Some(s) => Some(s@),
        None => None,
    }
}

/// The view of a point holds the views of the points below it.
pub proof fn lemma_point_view(point: NavPoint)
    ensures
        point@.points == points_view(point.points@),
{
    assert(point@.points =~= points_view(point.points@));
}

impl NavPoint {
    /// Describes where `file` stands below this point, if it does.
    pub fn describe(&self, file: &str) -> (r: Option<String>)
        ensures
            option_view(r) == describe_point(self@, file@),
        decreases self,
    {
        if str_eq(self.content_src.as_str(), file) {
            Some(self.label.clone())
        } else {
            proof {
                lemma_point_view(*self);
            }
            let mut i: usize = 0;
            while i < self.points.len()
                invariant
                    i <= self.points.len(),
                    self@.content_src != file@,
                    self@.points == points_view(self.points@),
                    describe_from(self@.points, 0, file@) == describe_from(
                        self@.points,
                        i as int,
                        file@,
                    ),
                decreases self.points.len() - i,
            {
                assert(self@.points[i as int] == self.points@[i as int]@);
                match self.points[i].describe(file) {
                    Some(description) => {
                        let head = concat(self.label.as_str(), " - ");
                        return Some(concat(head.as_str(), description.as_str()));
                    },
                    None => {},
                }
                i += 1;
            }
            None
        }
    }
}

impl NavMap {
    /// Describes where `file` stands in the table of contents, if it does:
    /// the labels from a top-level point down to the first point, in
    /// document order, that leads to the file.
    pub fn describe(&self, file: &str) -> (r: Option<String>)
        ensures
            option_view(r) == describe_from(self@, 0, file@),
    {
        let mut i: usize = 0;
        while i < self.points.len()
            invariant
                i <= self.points.len(),
                describe_from(self@, 0, file@) == describe_from(self@, i as int, file@),
            decreases self.points.len() - i,
        {
            assert(self@[i as int] == self.points@[i as int]@);
            match self.points[i].describe(file) {
                Some(description) => {
                    return Some(description);
                },
                None => {},
            }
            i += 1;
        }
        None
    }
}

/// A point without label, document or points below it.
pub open spec fn empty_point() -> NavPointView {
    NavPointView { label: seq![], content_src: seq![], points: seq![] }
}

/// The navigation point that the events from `at` on complete, and the
/// place after its end tag. `so_far` is what the events before `at` have
/// given the point. The text inside each `navLabel` is added to the label,
/// a `content` element with a `src` sets the document to `base` followed by
/// the `src`, and each `navPoint` inside is read in the same way and added
/// below. There is no point where the document ends before the end tag.
/// (The bounds tested on `close` and `after` always hold; they show that
/// reading goes forward.)
pub open spec fn nav_point_from(
    events: Seq<EventView>,
    at: int,
    base: Seq<char>,
    so_far: NavPointView,
) -> Option<(NavPointView, int)>
    decreases events.len() - at,
{
    if at < 0 || at >= events.len() || events[at].is_terminal() {
        None
    } else if events[at].ends("navPoint"@) {
        Some((so_far, at + 1))
    } else if events[at].starts("navLabel"@) {
        let close = end_index(events, at + 1, "navLabel"@);
        if close > at && ends_at(events, close, "navLabel"@) {
            nav_point_from(
                events,
                close + 1,
                base,
                NavPointView {
                    label: so_far.label + joined_text(events.subrange(at + 1, close)),
                    ..so_far
                },
            )
        } else {
            None
        }
    } else if events[at].starts("content"@) {
        match attribute_value(attributes_of(events[at]), "src"@) {
            Some(src) => nav_point_from(
                events,
                at + 1,
                base,
                NavPointView { content_src: base + src, ..so_far },
            ),
            None => nav_point_from(events, at + 1, base, so_far),
        }
    } else if events[at].starts("navPoint"@) {
        match nav_point_from(events, at + 1, base, empty_point()) {
            Some((child, after)) => if at < after <= events.len() {
                nav_point_from(
                    events,
                    after,
                    base,
                    NavPointView { points: so_far.points.push(child), ..so_far },
                )
            } else {
                None
            },
            None => None,
        }
    } else {
        nav_point_from(events, at + 1, base, so_far)
    }
}

/// The top-level points that the events from `at` on add to `so_far`, up
/// to the end tag of the navigation map. There is no result where the
/// document ends before that tag, or where one of the points has none.
pub open spec fn nav_points_from(
    events: Seq<EventView>,
    at: int,
    base: Seq<char>,
    so_far: Seq<NavPointView>,
) -> Option<Seq<NavPointView>>
    decreases events.len() - at,
{
    if at < 0 || at >= events.len() || events[at].is_terminal() {
        None
    } else if events[at].ends("navMap"@) {
        Some(so_far)
    } else if events[at].starts("navPoint"@) {
        match nav_point_from(events, at + 1, base, empty_point()) {
            Some((point, after)) => if at < after <= events.len() {
                nav_points_from(events, after, base, so_far.push(point))
            } else {
                None
            },
            None => None,
        }
    } else {
        nav_points_from(events, at + 1, base, so_far)
    }
}

/// The table of contents that a navigation document holds: the points of
/// its `navMap`. There is none where the document has no `navMap`.
pub open spec fn nav_map(events: Seq<EventView>, base: Seq<char>) -> Option<Seq<NavPointView>> {
    let opened = start_index(events, 0, "navMap"@);
    if starts_at(events, opened, "navMap"@) {
        nav_points_from(events, opened + 1, base, seq![])
    } else {
        None
    }
}

/// Reading a point goes forward and stays inside the document.
pub proof fn lemma_nav_point_advances(
    events: Seq<EventView>,
    at: int,
    base: Seq<char>,
    so_far: NavPointView,
)
    requires
        0 <= at,
    ensures
        nav_point_from(events, at, base, so_far) matches Some((_, after)) ==> at < after
            <= events.len(),
    decreases events.len() - at,
{
    if at >= events.len() || events[at].is_terminal() {
    } else if events[at].ends("navPoint"@) {
    } else if events[at].starts("navLabel"@) {
        let close = end_index(events, at + 1, "navLabel"@);
        if close > at && ends_at(events, close, "navLabel"@) {
            lemma_nav_point_advances(
                events,
                close + 1,
                base,
                NavPointView {
                    label: so_far.label + joined_text(events.subrange(at + 1, close)),
                    ..so_far
                },
            );
        }
    } else if events[at].starts("content"@) {
        match attribute_value(attributes_of(events[at]), "src"@) {
            Some(src) => lemma_nav_point_advances(
                events,
                at + 1,
                base,
                NavPointView { content_src: base + src, ..so_far },
            ),
            None => lemma_nav_point_advances(events, at + 1, base, so_far),
        }
    } else if events[at].starts("navPoint"@) {
        lemma_nav_point_advances(events, at + 1, base, empty_point());
        match nav_point_from(events, at + 1, base, empty_point()) {
            Some((child, after)) => {
                lemma_nav_point_advances(
                    events,
                    after,
                    base,
                    NavPointView { points: so_far.points.push(child), ..so_far },
                );
            },
            None => {},
        }
    } else {
        lemma_nav_point_advances(events, at + 1, base, so_far);
    }
}

/// What the result of reading a point stands for in contracts.
pub open spec fn parsed_point_view(r: Option<(NavPoint, usize)>) -> Option<(NavPointView, int)> {
    match r {
        Some((point, after)) => Some((point@, after as int)),
        None => None,
    }
}

/// What the result of reading a table of contents stands for in contracts.
pub open spec fn parsed_map_view(r: Option<NavMap>) -> Option<Seq<NavPointView>> {
    match r {
        Some(map) => Some(map@),
        None => None,
    }
}

/// Reads one navigation point. `at` is the place after its start tag; the
/// result holds the point and the place after its end tag.
pub fn parse_nav_point(events: &Vec<Event>, at: usize, oebps: &str) -> (r: Option<
    (NavPoint, usize),
>)
    ensures
        parsed_point_view(r) == nav_point_from(
            events_view(events@),
            at as int,
            oebps@,
            empty_point(),
        ),
        r matches Some((_, after)) ==> at < after <= events.len(),
    decreases events.len() - at,
{
    if at >= events.len() {
        return None;
    }
    let ghost all = events_view(events@);
    let mut label = String::new();
    let mut content_src = String::new();
    let mut points: Vec<NavPoint> = Vec::new();
    let mut i = at;
    assert(points_view(points@) =~= seq![]);
    while i < events.len()
        invariant
            at <= i <= events.len(),
            all == events_view(events@),
            nav_point_from(all, at as int, oebps@, empty_point()) == nav_point_from(
                all,
                i as int,
                oebps@,
                NavPointView {
                    label: label@,
                    content_src: content_src@,
                    points: points_view(points@),
                },
            ),
        decreases events.len() - i,
    {
        let ghost so_far = NavPointView {
            label: label@,
            content_src: content_src@,
            points: points_view(points@),
        };
        let event = &events[i];
        assert(all[i as int] == event@);
        if event.is_terminal() {
            return None;
        } else if is_end_element(event, "navPoint") {
            let point = NavPoint { label, content_src, points };
            proof {
                lemma_point_view(point);
                assert(point@ == so_far);
            }
            return Some((point, i + 1));
        } else if is_start_element(event, "navLabel").is_some() {
            let close = find_end(events, i + 1, "navLabel");
            if close >= events.len() || !is_end_element(&events[close], "navLabel") {
                return None;
            }
            let text = collect_text(events, i + 1, close);
            label.append(text.as_str());
            i = close + 1;
        } else if let Some(attrs) = is_start_element(event, "content") {
            match get_attribute(attrs, "src") {
                Some(src) => {
                    content_src = concat(oebps, src.as_str());
                },
                None => {},
            }
            i += 1;
        } else if is_start_element(event, "navPoint").is_some() {
            proof {
                lemma_nav_point_advances(all, i + 1, oebps@, empty_point());
            }
            match parse_nav_point(events, i + 1, oebps) {
                Some((child, after)) => {
                    let ghost before = points_view(points@);
                    points.push(child);
                    assert(points_view(points@) =~= before.push(child@));
                    i = after;
                },
                None => {
                    return None;
                },
            }
        } else {
            i += 1;
        }
    }
    None
}

/// Reads the points of a navigation map. `at` is the place after the
/// map's start tag.
pub fn parse_nav_points(events: &Vec<Event>, at: usize, oebps: &str) -> (r: Option<NavMap>)
    ensures
        parsed_map_view(r) == nav_points_from(events_view(events@), at as int, oebps@, seq![]),
{
    if at >= events.len() {
        return None;
    }
    let ghost all = events_view(events@);
    let mut points: Vec<NavPoint> = Vec::new();
    let mut i = at;
    assert(points_view(points@) =~= seq![]);
    while i < events.len()
        invariant
            at <= i <= events.len(),
            all == events_view(events@),
            nav_points_from(all, at as int, oebps@, seq![]) == nav_points_from(
                all,
                i as int,
                oebps@,
                points_view(points@),
            ),
        decreases events.len() - i,
    {
        let event = &events[i];
        assert(all[i as int] == event@);
        if event.is_terminal() {
            return None;
        } else if is_end_element(event, "navMap") {
            return Some(NavMap { points });
        } else if is_start_element(event, "navPoint").is_some() {
            match parse_nav_point(events, i + 1, oebps) {
                Some((point, after)) => {
                    let ghost before = points_view(points@);
                    points.push(point);
                    assert(points_view(points@) =~= before.push(point@));
                    i = after;
                },
                None => {
                    return None;
                },
            }
        } else {
            i += 1;
        }
    }
    None
}

/// Reads the table of contents out of a navigation document given as
/// events. The documents that its points lead to are named relative to
/// `oebps`. There is no table where the document is cut short.
pub fn nav_map_in(events: &Vec<Event>, oebps: &str) -> (r: Option<NavMap>)
    ensures
        parsed_map_view(r) == nav_map(events_view(events@), oebps@),
{
    let opened = find_start(events, 0, "navMap");
    if opened >= events.len() || is_start_element(&events[opened], "navMap").is_none() {
        return None;
    }
    parse_nav_points(events, opened + 1, oebps)
}

/// Reads the table of contents out of the navigation document `toc`.
pub fn parse_toc(toc: &[u8], oebps: &str) -> (r: Option<NavMap>)
    ensures
        parsed_map_view(r) == nav_map(document_events(toc@), oebps@),
{
    let events = read_events(toc);
    nav_map_in(&events, oebps)
}

/// What the result of reading an archive's navigation stands for in contracts.
pub open spec fn navigation_view(r: Result<NavMap, EpubError>) -> Result<
    Seq<NavPointView>,
    EpubError,
> {
    match r {
        Ok(map) => Ok(map@),
        Err(e) => Err(e),
    }
}

/// Reads the table of contents of an archive. `toc` is what the archive
/// holds under `toc_path`, or `None` where it holds nothing there. The
/// documents that the points lead to are named relative to the folder
/// that holds the navigation document.
pub fn read_navigation(toc_path: &str, toc: Option<&[u8]>) -> (r: Result<NavMap, EpubError>)
    ensures
        navigation_view(r) == match toc {
            Some(bytes) => match nav_map(document_events(bytes@), folder_of(toc_path@)) {
                Some(points) => Ok(points),
                None => Err(EpubError::MalformedNavigation),
            },
            None => Err(EpubError::MalformedNavigation),
        },
{
    match toc {
        Some(bytes) => {
            let oebps = containing_folder(toc_path);
            match parse_toc(bytes, oebps.as_str()) {
                Some(map) => Ok(map),
                None => Err(EpubError::MalformedNavigation),
            }
        },
        None => Err(EpubError::MalformedNavigation),
    }
}

} // verus!
