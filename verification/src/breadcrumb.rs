use crate::navigation::NavPointView;
use crate::navigation::describe_from;
use crate::navigation::describe_point;
use crate::navigation::separator;
use vstd::prelude::*;

verus! {

/// The point that a path reaches. A path names a point by its place among
/// the top-level points, then the place of each point on the way down
/// among the points below the one before it.
pub open spec fn node_at(points: Seq<NavPointView>, path: Seq<int>) -> Option<NavPointView>
    decreases path.len(),
{
    if path.len() == 0 || path[0] < 0 || path[0] >= points.len() {
        None
    } else if path.len() == 1 {
        Some(points[path[0]])
    } else {
        node_at(points[path[0]].points, path.drop_first())
    }
}

/// The labels of the points along a path, from the top down, with the
/// separator between them.
pub open spec fn breadcrumb(points: Seq<NavPointView>, path: Seq<int>) -> Seq<char>
    decreases path.len(),
{
    if path.len() == 0 || path[0] < 0 || path[0] >= points.len() {
        seq![]
    } else if path.len() == 1 {
        points[path[0]].label
    } else {
        points[path[0]].label + separator() + breadcrumb(
            points[path[0]].points,
            path.drop_first(),
        )
    }
}

/// Whether the point that a path reaches leads to `file`.
pub open spec fn leads_to(points: Seq<NavPointView>, path: Seq<int>, file: Seq<char>) -> bool {
    node_at(points, path) matches Some(point) && point.content_src == file
}

/// The path of the point that a description is made for: the first point,
/// in document order from `from` on, that leads to `file`.
pub open spec fn described_path(points: Seq<NavPointView>, from: int, file: Seq<char>) -> Seq<int>
    decreases points, points.len() - from,
{
    if from < 0 || from >= points.len() {
        seq![]
    } else if describe_point(points[from], file) is Some {
        if points[from].content_src == file {
            seq![from]
        } else {
            seq![from] + described_path(points[from].points, 0, file)
        }
    } else {
        described_path(points, from + 1, file)
    }
}

/// A description is the breadcrumb of a point that leads to the file.
pub proof fn lemma_description_is_a_breadcrumb(
    points: Seq<NavPointView>,
    from: int,
    file: Seq<char>,
)
    requires
        0 <= from,
        describe_from(points, from, file) is Some,
    ensures
        described_path(points, from, file).len() > 0,
        described_path(points, from, file)[0] >= from,
        leads_to(points, described_path(points, from, file), file),
        describe_from(points, from, file) == Some(
            breadcrumb(points, described_path(points, from, file)),
        ),
    decreases points, points.len() - from,
{
    if from < points.len() {
        if describe_point(points[from], file) is Some {
            if points[from].content_src != file {
                lemma_description_is_a_breadcrumb(points[from].points, 0, file);
                let below = described_path(points[from].points, 0, file);
                let path = seq![from] + below;
                assert(path.drop_first() =~= below);
                assert(path[0] == from);
            }
        } else {
            lemma_description_is_a_breadcrumb(points, from + 1, file);
        }
    }
}

/// Where a point at or after `from`, or a point below one, leads to the
/// file, there is a description.
pub proof fn lemma_match_is_described(
    points: Seq<NavPointView>,
    from: int,
    path: Seq<int>,
    file: Seq<char>,
)
    requires
        0 <= from,
        leads_to(points, path, file),
        path[0] >= from,
    ensures
        describe_from(points, from, file) is Some,
    decreases path.len(), path[0] - from,
{
    if from < path[0] {
        if describe_point(points[from], file) is None {
            lemma_match_is_described(points, from + 1, path, file);
        }
    } else {
        if path.len() > 1 && points[from].content_src != file {
            lemma_match_is_described(points[from].points, 0, path.drop_first(), file);
        }
    }
}

/// There is a description of a file if and only if some point, at any
/// depth, leads to the file.
pub proof fn lemma_described_iff_some_point_leads_there(
    points: Seq<NavPointView>,
    file: Seq<char>,
)
    ensures
        describe_from(points, 0, file) is Some <==> exists|path: Seq<int>|
            leads_to(points, path, file),
{
    if describe_from(points, 0, file) is Some {
        lemma_description_is_a_breadcrumb(points, 0, file);
        assert(leads_to(points, described_path(points, 0, file), file));
    }
    if exists|path: Seq<int>| leads_to(points, path, file) {
        let path = choose|path: Seq<int>| leads_to(points, path, file);
        lemma_match_is_described(points, 0, path, file);
    }
}

/// Where exactly one point leads to a file, the description of the file
/// is the breadcrumb of that point: the labels from the top-level point
/// above it down to the point itself.
pub proof fn lemma_only_match_is_described(
    points: Seq<NavPointView>,
    path: Seq<int>,
    file: Seq<char>,
)
    requires
        leads_to(points, path, file),
        forall|other: Seq<int>| leads_to(points, other, file) ==> other == path,
    ensures
        describe_from(points, 0, file) == Some(breadcrumb(points, path)),
{
    lemma_match_is_described(points, 0, path, file);
    lemma_description_is_a_breadcrumb(points, 0, file);
}

/// Whether the point of path `a` stands before the point of path `b` in
/// document order: above it, or to the left of it or of a point above it.
pub open spec fn comes_before(a: Seq<int>, b: Seq<int>) -> bool
    decreases a.len(),
{
    if a.len() == 0 {
        b.len() > 0
    } else if b.len() == 0 {
        false
    } else if a[0] != b[0] {
        a[0] < b[0]
    } else {
        comes_before(a.drop_first(), b.drop_first())
    }
}

/// No point that leads to the file stands before the one that the
/// description is made for.
pub proof fn lemma_described_point_comes_first(
    points: Seq<NavPointView>,
    from: int,
    other: Seq<int>,
    file: Seq<char>,
)
    requires
        0 <= from,
        leads_to(points, other, file),
        other[0] >= from,
    ensures
        !comes_before(other, described_path(points, from, file)),
    decreases points, points.len() - from,
{
    lemma_match_is_described(points, from, other, file);
    lemma_description_is_a_breadcrumb(points, from, file);
    let path = described_path(points, from, file);
    if other[0] == from {
        if points[from].content_src == file {
            assert(path =~= seq![from]);
            assert(path.drop_first().len() == 0);
            assert(!comes_before(other.drop_first(), path.drop_first()));
        } else {
            lemma_match_is_described(points[from].points, 0, other.drop_first(), file);
            lemma_described_point_comes_first(points[from].points, 0, other.drop_first(), file);
            let below = described_path(points[from].points, 0, file);
            assert(path == seq![from] + below);
            assert(path.drop_first() =~= below);
            assert(path[0] == from);
        }
    } else if describe_point(points[from], file) is None {
        lemma_described_point_comes_first(points, from + 1, other, file);
    } else {
        assert(path[0] == from);
    }
}

} // verus!
