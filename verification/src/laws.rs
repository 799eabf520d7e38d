//! What holds of every skyline that the sweep returns.

use crate::line::{ProjLine, PI};
use crate::model::{skyline, MissingCrossing};
use crate::ranges::within_some;
use crate::segment::{arc_contains, ProjSegment};
use crate::sweep::is_skyline;
use vstd::prelude::*;

verus! {

/// Whether the azimuth `k` lies in the domain of some segment.
pub open spec fn in_some_domain<LT: ProjLine>(lines: Seq<ProjSegment<LT>>, k: int) -> bool {
    exists|i: int| 0 <= i < lines.len() && #[trigger] arc_contains(lines[i].dom, k)
}

/// Whether every azimuth of the circle lies in the domain of some segment.
pub open spec fn covers_circle<LT: ProjLine>(lines: Seq<ProjSegment<LT>>) -> bool {
    forall|k: int| -PI <= k < PI ==> #[trigger] in_some_domain(lines, k)
}

/// Whether the ranges run from the start of the circle to its end with each
/// range beginning where the one before it ends.
pub open spec fn gapless(ranges: Seq<(i64, i64, usize)>) -> bool {
    &&& ranges.len() > 0
    &&& ranges[0].0 == -PI
    &&& ranges[ranges.len() - 1].1 == PI
    &&& forall|j: int| 0 <= j < ranges.len() - 1 ==> (#[trigger] ranges[j]).1 == ranges[j + 1].0
}

/// Coverage: where the domains of the segments cover the circle between
/// them, their skyline has no gap.
pub proof fn covering_segments_leave_no_gap<LT: ProjLine>(
    lines: Seq<ProjSegment<LT>>,
    ranges: Seq<(i64, i64, usize)>,
)
    requires
        is_skyline(lines, ranges),
        covers_circle(lines),
    ensures
        forall|k: int| -PI <= k < PI ==> within_some(ranges, k),
        gapless(ranges),
{
    assert forall|k: int| -PI <= k < PI implies within_some(ranges, k) by {
        assert(in_some_domain(lines, k));
        let i = choose|i: int| 0 <= i < lines.len() && #[trigger] arc_contains(lines[i].dom, k);
        assert(arc_contains(lines[i].dom, k));
    }
    let first = choose|j: int|
        0 <= j < ranges.len() && (#[trigger] ranges[j]).0 <= -PI < ranges[j].1;
    assert(within_some(ranges, -(PI as int)));
    assert(ranges[first].0 == -PI);
    if first != 0 {
        assert(ranges[0].1 <= ranges[first].0);
    }
    let last = choose|j: int|
        0 <= j < ranges.len() && (#[trigger] ranges[j]).0 <= PI - 1 < ranges[j].1;
    assert(within_some(ranges, PI - 1));
    if last != ranges.len() - 1 {
        assert(ranges[last].1 <= ranges[ranges.len() - 1].0);
    }
    assert forall|j: int| 0 <= j < ranges.len() - 1 implies (#[trigger] ranges[j]).1 == ranges[j
        + 1].0 by {
        let k = ranges[j].1 as int;
        assert(ranges[j].1 <= ranges[j + 1].0);
        if k < ranges[j + 1].0 {
            assert(within_some(ranges, k));
            let h = choose|h: int|
                0 <= h < ranges.len() && (#[trigger] ranges[h]).0 <= k < ranges[h].1;
            if h < j {
                assert(ranges[h].1 <= ranges[j].0);
            } else if h > j + 1 {
                assert(ranges[j + 1].1 <= ranges[h].0);
            }
        }
    }
}

/// Whether the azimuth `k` lies in the range.
pub open spec fn spans(range: (i64, i64, usize), k: int) -> bool {
    range.0 <= k < range.1
}

/// Disjointness: every range of a skyline has an azimuth, and no azimuth
/// lies in two of them.
pub proof fn skyline_ranges_are_disjoint<LT: ProjLine>(
    lines: Seq<ProjSegment<LT>>,
    ranges: Seq<(i64, i64, usize)>,
)
    requires
        is_skyline(lines, ranges),
    ensures
        forall|j: int| 0 <= j < ranges.len() ==> (#[trigger] ranges[j]).0 < ranges[j].1,
        forall|a: int, b: int, k: int|
            0 <= a < ranges.len() && 0 <= b < ranges.len() && a != b && #[trigger] spans(
                ranges[a],
                k,
            ) ==> !#[trigger] spans(ranges[b], k),
{
    assert forall|a: int, b: int, k: int|
        0 <= a < ranges.len() && 0 <= b < ranges.len() && a != b && #[trigger] spans(
            ranges[a],
            k,
        ) implies !#[trigger] spans(ranges[b], k) by {
        if a < b {
            assert(ranges[a].1 <= ranges[b].0);
        } else {
            assert(ranges[b].1 <= ranges[a].0);
        }
    }
}

/// Whether `r` is what the sweep returns for `lines` and `eps`.
pub open spec fn is_sweep_result<LT: ProjLine>(
    lines: Seq<ProjSegment<LT>>,
    eps: i64,
    r: Result<Seq<(i64, i64, usize)>, MissingCrossing>,
) -> bool {
    r == skyline(lines, eps)
}

/// Repeatability: two runs of the sweep on the same segments with the same
/// tolerance end in the same map, or are stuck at the same pair of lines.
pub proof fn sweep_is_repeatable<LT: ProjLine>(
    lines: Seq<ProjSegment<LT>>,
    eps: i64,
    first: Result<Seq<(i64, i64, usize)>, MissingCrossing>,
    second: Result<Seq<(i64, i64, usize)>, MissingCrossing>,
)
    requires
        is_sweep_result(lines, eps, first),
        is_sweep_result(lines, eps, second),
    ensures
        first == second,
{
}

} // verus!
