//! What it means for the skyline to dominate the segments it was made of,
//! and the conditions on the lines under which the sweep achieves it.

use crate::compare::{outcome, Outcome};
use crate::line::ProjLine;
use crate::segment::{arc_contains, ProjSegment};
use vstd::prelude::*;

verus! {

/// The elevation of segment `i` at azimuth `k`.
pub open spec fn height<LT: ProjLine>(lines: Seq<ProjSegment<LT>>, i: int, k: int) -> int {
    lines[i].line.elevation(k as i64) as int
}

/// Whether azimuth `k` lies in the range.
pub open spec fn inside(range: (i64, i64), k: int) -> bool {
    range.0 <= k < range.1
}

/// Whether azimuth `k` lies in one of the first `upto` ranges.
pub open spec fn among(ranges: Seq<(i64, i64)>, upto: int, k: int) -> bool {
    exists|t: int| 0 <= t < upto && t < ranges.len() && #[trigger] inside(ranges[t], k)
}

/// Whether what segment `i` gets of `[s, e)` from segment `j` tells which of
/// the two is higher at `k`: `i` where it takes the range, `j` elsewhere.
pub open spec fn settles<LT: ProjLine>(
    lines: Seq<ProjSegment<LT>>,
    eps: i64,
    i: int,
    j: int,
    s: i64,
    e: i64,
    k: int,
) -> bool {
    match outcome(lines[i].line, lines[j].line, s, e, eps) {
        Outcome::Untouched => height(lines, j, k) >= height(lines, i, k),
        Outcome::Taken(a, b) => if a <= k < b {
            height(lines, i, k) >= height(lines, j, k)
        } else {
            height(lines, j, k) >= height(lines, i, k)
        },
        Outcome::Stuck => true,
    }
}

/// Whether the comparisons at the ends of any range, and the crossing found
/// inside it, tell the order of any two lines all over the range.
pub open spec fn faithful<LT: ProjLine>(lines: Seq<ProjSegment<LT>>, eps: i64) -> bool {
    forall|i: int, j: int, s: i64, e: i64, k: int|
        0 <= i < lines.len() && 0 <= j < lines.len() && s <= k < e ==> #[trigger] settles(
            lines,
            eps,
            i,
            j,
            s,
            e,
            k,
        )
}

/// Whether segment `i` is at `k` at least as high as at one end of `[s, e)`.
pub open spec fn rests_on_ends<LT: ProjLine>(
    lines: Seq<ProjSegment<LT>>,
    i: int,
    s: i64,
    e: i64,
    k: int,
) -> bool {
    height(lines, i, k) >= lines[i].line.elevation(s) || height(lines, i, k)
        >= lines[i].line.elevation(e)
}

/// Whether every line is, all over any range, at least as high as at the
/// lower end of the range.
pub open spec fn above_ends<LT: ProjLine>(lines: Seq<ProjSegment<LT>>) -> bool {
    forall|i: int, s: i64, e: i64, k: int|
        0 <= i < lines.len() && s <= k < e ==> #[trigger] rests_on_ends(lines, i, s, e, k)
}

/// Whether segment `i` is at `k`, if that lies in its domain, no higher than
/// its top endpoint.
pub open spec fn under_top<LT: ProjLine>(lines: Seq<ProjSegment<LT>>, i: int, k: int) -> bool {
    arc_contains(lines[i].dom, k) ==> height(lines, i, k) <= lines[i].top()
}

/// Whether the top endpoint of every segment bounds it all over its domain.
pub open spec fn bounded_by_top<LT: ProjLine>(lines: Seq<ProjSegment<LT>>) -> bool {
    forall|i: int, k: int| 0 <= i < lines.len() ==> #[trigger] under_top(lines, i, k)
}

/// The conditions on the lines under which the sweep is known to end in
/// their upper envelope.
pub open spec fn well_behaved<LT: ProjLine>(lines: Seq<ProjSegment<LT>>, eps: i64) -> bool {
    faithful(lines, eps) && above_ends(lines) && bounded_by_top(lines)
}

/// Whether the map covers the domain of segment `u` with segments that are
/// at least as high as it.
pub open spec fn dominated<LT: ProjLine>(
    m: Map<int, usize>,
    lines: Seq<ProjSegment<LT>>,
    u: int,
) -> bool {
    forall|k: int| #[trigger]
        arc_contains(lines[u].dom, k) ==> m.dom().contains(k) && height(lines, m[k] as int, k)
            >= height(lines, u, k)
}

/// Whether no segment in the map is anywhere lower than `lower`.
pub open spec fn floor_holds<LT: ProjLine>(
    m: Map<int, usize>,
    lines: Seq<ProjSegment<LT>>,
    lower: i64,
) -> bool {
    forall|k: int| #[trigger] m.dom().contains(k) ==> height(lines, m[k] as int, k) >= lower
}

/// Whether at azimuth `k` the map `after` holds what `before` held, which
/// is then at least as high as segment `i` if `k` lies on the arc of `dom`;
/// or holds segment `i`, which is then at least as high as what `before`
/// held, if it held anything.
pub open spec fn settled_at<LT: ProjLine>(
    before: Map<int, usize>,
    after: Map<int, usize>,
    lines: Seq<ProjSegment<LT>>,
    i: int,
    dom: (i64, i64),
    k: int,
) -> bool {
    if before.dom().contains(k) {
        ||| (after[k] == before[k] && (arc_contains(dom, k) ==> height(lines, before[k] as int, k)
            >= height(lines, i, k)))
        ||| (after[k] == i && height(lines, i, k) >= height(lines, before[k] as int, k))
    } else {
        after[k] == i
    }
}

/// Whether the map `after` differs from `before` only where segment `i` is
/// at least as high as what was there, or nothing was there, and segment `i`
/// is nowhere on the arc of `dom` higher than what was kept.
pub open spec fn settled<LT: ProjLine>(
    before: Map<int, usize>,
    after: Map<int, usize>,
    lines: Seq<ProjSegment<LT>>,
    i: int,
    dom: (i64, i64),
) -> bool {
    forall|k: int| #[trigger]
        after.dom().contains(k) ==> settled_at(before, after, lines, i, dom, k)
}

/// Whether every azimuth that `before` covers is covered by `after`.
pub open spec fn extends(before: Map<int, usize>, after: Map<int, usize>) -> bool {
    forall|k: int| #[trigger] before.dom().contains(k) ==> after.dom().contains(k)
}

/// A segment that the map dominated is still dominated after another
/// segment has been merged.
pub(crate) proof fn merging_keeps_dominated<LT: ProjLine>(
    before: Map<int, usize>,
    after: Map<int, usize>,
    lines: Seq<ProjSegment<LT>>,
    i: int,
    dom: (i64, i64),
    u: int,
)
    requires
        settled(before, after, lines, i, dom),
        extends(before, after),
        dominated(before, lines, u),
    ensures
        dominated(after, lines, u),
{
    assert forall|k: int| #[trigger] arc_contains(lines[u].dom, k) implies after.dom().contains(k)
        && height(lines, after[k] as int, k) >= height(lines, u, k) by {
        assert(before.dom().contains(k));
        assert(after.dom().contains(k));
    }
}

/// A segment that has been merged is dominated by the map wherever the map
/// covers its domain.
pub(crate) proof fn merged_segment_is_dominated<LT: ProjLine>(
    before: Map<int, usize>,
    after: Map<int, usize>,
    lines: Seq<ProjSegment<LT>>,
    i: int,
)
    requires
        settled(before, after, lines, i, lines[i].dom),
        forall|k: int| #[trigger] arc_contains(lines[i].dom, k) ==> after.dom().contains(k),
    ensures
        dominated(after, lines, i),
{
    assert forall|k: int| #[trigger] arc_contains(lines[i].dom, k) implies after.dom().contains(k)
        && height(lines, after[k] as int, k) >= height(lines, i, k) by {
        assert(after.dom().contains(k));
    }
}

/// A segment whose top endpoint lies below everything in a map that covers
/// its domain is dominated by the map.
pub(crate) proof fn low_segment_is_dominated<LT: ProjLine>(
    m: Map<int, usize>,
    lines: Seq<ProjSegment<LT>>,
    lower: i64,
    u: int,
)
    requires
        0 <= u < lines.len(),
        bounded_by_top(lines),
        floor_holds(m, lines, lower),
        lines[u].top() < lower,
        forall|k: int| #[trigger] arc_contains(lines[u].dom, k) ==> m.dom().contains(k),
    ensures
        dominated(m, lines, u),
{
    assert forall|k: int| #[trigger] arc_contains(lines[u].dom, k) implies m.dom().contains(k)
        && height(lines, m[k] as int, k) >= height(lines, u, k) by {
        assert(under_top(lines, u, k));
        assert(m.dom().contains(k));
    }
}

/// Whether each range of the skyline carries a segment that is, all over the
/// range, at least as high as every segment whose domain reaches there.
pub open spec fn dominant<LT: ProjLine>(
    lines: Seq<ProjSegment<LT>>,
    ranges: Seq<(i64, i64, usize)>,
) -> bool {
    forall|j: int, i: int, k: int|
        0 <= j < ranges.len() && (#[trigger] ranges[j]).0 <= k < ranges[j].1 && 0 <= i
            < lines.len() && #[trigger] arc_contains(lines[i].dom, k) ==> height(
            lines,
            ranges[j].2 as int,
            k,
        ) >= height(lines, i, k)
}

/// An azimuth among the first ranges is still among them after one more
/// range has been added at the end.
pub(crate) proof fn among_after_push(ranges: Seq<(i64, i64)>, extra: (i64, i64), k: int)
    requires
        among(ranges, ranges.len() as int, k),
    ensures
        among(ranges.push(extra), ranges.len() as int + 1, k),
{
    let t = choose|t: int| 0 <= t < ranges.len() && #[trigger] inside(ranges[t], k);
    assert(inside(ranges.push(extra)[t], k));
}

} // verus!
