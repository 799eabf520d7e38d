//! The interval map of the sweep: a `rangemap::RangeMap` from azimuths to
//! segment numbers, described by the value it holds at each azimuth.
//!
//! Nothing in this file is proved: the contracts below restate what the
//! `rangemap` crate documents and its source shows.

use rangemap::RangeMap;
use vstd::prelude::*;

verus! {

#[verifier::external_type_specification]
#[verifier::external_body]
#[verifier::reject_recursive_types(K)]
#[verifier::reject_recursive_types(V)]
pub struct ExRangeMap<K, V>(RangeMap<K, V>);

/// The value that a map holds at each azimuth it covers. A stored range
/// `start..end` covers the azimuths `start, .., end - 1`.
pub uninterp spec fn painted(m: RangeMap<i64, usize>) -> Map<int, usize>;

/// The stored entries, in ascending order, that meet `[start, end)` in a map
/// with the contents `m`: what `RangeMap::overlapping` yields.
pub uninterp spec fn runs_across(m: Map<int, usize>, start: i64, end: i64) -> Seq<
    (i64, i64, usize),
>;

/// The uncovered ranges inside `[start, end)`, in ascending order, of a map
/// with the contents `m`: what `RangeMap::gaps` yields.
pub uninterp spec fn holes_across(m: Map<int, usize>, start: i64, end: i64) -> Seq<(i64, i64)>;

/// All stored entries, in ascending order, of a map with the contents `m`:
/// what `RangeMap::iter` yields.
pub uninterp spec fn stored_runs(m: Map<int, usize>) -> Seq<(i64, i64, usize)>;

/// A map after `value` has been written over `[start, end)`.
pub open spec fn overlay(m: Map<int, usize>, start: int, end: int, value: usize) -> Map<
    int,
    usize,
> {
    Map::new(
        |k: int| start <= k < end || m.dom().contains(k),
        |k: int|
            if start <= k < end {
                value
            } else {
                m[k]
            },
    )
}

/// Whether a map holds the value `run.2` all over the non-empty range
/// `[run.0, run.1)`.
pub open spec fn holds_run(m: Map<int, usize>, run: (i64, i64, usize)) -> bool {
    &&& run.0 < run.1
    &&& forall|k: int| run.0 <= k < run.1 ==> #[trigger] m.dom().contains(k) && m[k] == run.2
}

/// Whether `run` is a range of one value that cannot be extended at either
/// end: what the map stores as one entry.
pub open spec fn whole_run(m: Map<int, usize>, run: (i64, i64, usize)) -> bool {
    &&& holds_run(m, run)
    &&& !(m.dom().contains(run.0 - 1) && m[run.0 - 1] == run.2)
    &&& !(m.dom().contains(run.1 as int) && m[run.1 as int] == run.2)
}

/// Whether the azimuth `k` lies in one of the ranges.
pub open spec fn within_some(runs: Seq<(i64, i64, usize)>, k: int) -> bool {
    exists|j: int| 0 <= j < runs.len() && (#[trigger] runs[j]).0 <= k < runs[j].1
}

/// Whether the ranges come in ascending order without overlap.
pub open spec fn ascending(runs: Seq<(i64, i64, usize)>) -> bool {
    forall|i: int, j: int| 0 <= i < j < runs.len() ==> (#[trigger] runs[i]).1 <= (
    #[trigger] runs[j]).0
}

/// Whether no azimuth of the non-empty range `[gap.0, gap.1)` is covered.
pub open spec fn is_gap(m: Map<int, usize>, gap: (i64, i64)) -> bool {
    &&& gap.0 < gap.1
    &&& forall|k: int| gap.0 <= k < gap.1 ==> !#[trigger] m.dom().contains(k)
}

/// Whether the azimuth `k` lies in one of the gaps.
pub open spec fn in_some_gap(gaps: Seq<(i64, i64)>, k: int) -> bool {
    exists|j: int| 0 <= j < gaps.len() && (#[trigger] gaps[j]).0 <= k < gaps[j].1
}

/// The map that covers nothing.
pub open spec fn no_azimuths() -> Map<int, usize> {
    Map::empty()
}

/// `RangeMap::new`: a map that covers nothing.
#[verifier::external_body]
pub(crate) fn empty_map() -> (m: RangeMap<i64, usize>)
    ensures
        painted(m) == no_azimuths(),
{
    RangeMap::new()
}

/// `RangeMap::insert`: writes `value` over `[start, end)`, replacing what
/// was there and leaving every other azimuth as it was. The crate panics on
/// an empty range, which `requires` leaves out.
#[verifier::external_body]
pub(crate) fn paint(m: &mut RangeMap<i64, usize>, start: i64, end: i64, value: usize)
    requires
        start < end,
    ensures
        painted(*final(m)) == overlay(painted(*old(m)), start as int, end as int, value),
{
    m.insert(start..end, value);
}

/// `RangeMap::overlapping`: the stored entries that share an azimuth with
/// `[start, end)`, in ascending order. Each is a whole run of one value, and
/// every covered azimuth of the query lies in one of them. The map joins
/// neighbours of one value, so its entries depend on its contents alone.
#[verifier::external_body]
pub(crate) fn overlapping(m: &RangeMap<i64, usize>, start: i64, end: i64) -> (runs: Vec<
    (i64, i64, usize),
>)
    requires
        start < end,
    ensures
        runs@ == runs_across(painted(*m), start, end),
        ascending(runs@),
        forall|j: int|
            0 <= j < runs.len() ==> whole_run(painted(*m), #[trigger] runs[j]) && runs[j].0 < end
                && start < runs[j].1,
        forall|k: int|
            start <= k < end && #[trigger] painted(*m).dom().contains(k) ==> within_some(runs@, k),
{
    m.overlapping(start..end).map(|(range, value)| (range.start, range.end, *value)).collect()
}

/// `RangeMap::gaps`: the largest ranges inside `[start, end)` that the map
/// does not cover, in ascending order. Every uncovered azimuth of the query
/// lies in one of them.
#[verifier::external_body]
pub(crate) fn gaps(m: &RangeMap<i64, usize>, start: i64, end: i64) -> (holes: Vec<(i64, i64)>)
    requires
        start < end,
    ensures
        holes@ == holes_across(painted(*m), start, end),
        forall|j: int|
            0 <= j < holes.len() ==> is_gap(painted(*m), #[trigger] holes[j]) && start
                <= holes[j].0 && holes[j].1 <= end,
        forall|i: int, j: int|
            0 <= i < j < holes.len() ==> (#[trigger] holes[i]).1 < (#[trigger] holes[j]).0,
        forall|k: int|
            start <= k < end && !#[trigger] painted(*m).dom().contains(k) ==> in_some_gap(
                holes@,
                k,
            ),
{
    m.gaps(&(start..end)).map(|range| (range.start, range.end)).collect()
}

/// `RangeMap::iter`: all stored entries in ascending order. Each is a whole
/// run of one value, and every covered azimuth lies in one of them.
#[verifier::external_body]
pub(crate) fn entries(m: &RangeMap<i64, usize>) -> (runs: Vec<(i64, i64, usize)>)
    ensures
        runs@ == stored_runs(painted(*m)),
        ascending(runs@),
        forall|j: int| 0 <= j < runs.len() ==> whole_run(painted(*m), #[trigger] runs[j]),
        forall|k: int| #[trigger] painted(*m).dom().contains(k) ==> within_some(runs@, k),
{
    m.iter().map(|(range, value)| (range.start, range.end, *value)).collect()
}

} // verus!
