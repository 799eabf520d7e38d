//! The sweep that merges projected segments into one skyline.

use crate::compare::{contest, line_verdict, Outcome, Verdict};
use crate::dominance::{
    above_ends, among, among_after_push, dominant, dominated, extends, faithful, floor_holds,
    height, inside, low_segment_is_dominated, merged_segment_is_dominated,
    merging_keeps_dominated, rests_on_ends, settled, settled_at, settles, well_behaved,
};
use crate::line::{ProjLine, MINUS_PI, PI};
use crate::model::{
    claimed, clip, committed_from, first_highest, first_highest_is_unique, is_first_highest,
    lowest, merged, positions, skyline, swept, tops_of, wins_from, MissingCrossing,
};
use crate::ranges::{
    ascending, empty_map, entries, gaps, holes_across, in_some_gap, is_gap, overlapping, overlay,
    paint, painted, runs_across, whole_run, within_some,
};
use crate::segment::{arc_contains, ProjSegment};
use rangemap::RangeMap;
use vstd::prelude::*;

verus! {

/// Whether the comparisons at the two ends of a range say that the new line
/// crosses the standing one inside it.
pub open spec fn sign_change<LT: ProjLine>(
    new: LT,
    standing: LT,
    start: i64,
    end: i64,
    eps: i64,
) -> bool {
    let v = line_verdict(new, standing, start, end, eps);
    v == Verdict::Rising || v == Verdict::Falling
}

/// Whether `c` names two segments of `lines` that change order over a
/// non-empty range without crossing inside it.
pub open spec fn unresolved<LT: ProjLine>(
    lines: Seq<ProjSegment<LT>>,
    eps: i64,
    c: MissingCrossing,
) -> bool {
    &&& c.segment < lines.len()
    &&& c.standing < lines.len()
    &&& c.dom.0 < c.dom.1
    &&& sign_change(
        lines[c.segment as int].line,
        lines[c.standing as int].line,
        c.dom.0,
        c.dom.1,
        eps,
    )
    &&& lines[c.segment as int].line.crossing(&lines[c.standing as int].line, c.dom.0, c.dom.1)
        is None
}

/// Whether any two lines that change order over a range cross inside it.
pub open spec fn crossings_found<LT: ProjLine>(lines: Seq<ProjSegment<LT>>, eps: i64) -> bool {
    forall|a: int, b: int, s: i64, e: i64|
        0 <= a < lines.len() && 0 <= b < lines.len() && s < e && sign_change(
            lines[a].line,
            lines[b].line,
            s,
            e,
            eps,
        ) ==> (#[trigger] lines[a].line.crossing(&lines[b].line, s, e)) is Some
}

/// Whether every covered azimuth lies on the circle and carries the number
/// of a segment whose domain contains it.
pub open spec fn tagged_within<LT: ProjLine>(
    m: Map<int, usize>,
    lines: Seq<ProjSegment<LT>>,
) -> bool {
    forall|k: int| #[trigger]
        m.dom().contains(k) ==> -PI <= k < PI && m[k] < lines.len() && arc_contains(
            lines[m[k] as int].dom,
            k,
        )
}

/// Whether the map covers the whole arc of a domain.
pub open spec fn served(m: Map<int, usize>, dom: (i64, i64)) -> bool {
    forall|k: int| #[trigger] arc_contains(dom, k) ==> m.dom().contains(k)
}

/// Whether `ranges` is a skyline of `lines`: disjoint non-empty ranges in
/// ascending order, each tagged with a segment whose domain contains it,
/// neighbours that touch tagged differently, and every azimuth of every
/// segment's domain inside one of the ranges.
pub open spec fn is_skyline<LT: ProjLine>(
    lines: Seq<ProjSegment<LT>>,
    ranges: Seq<(i64, i64, usize)>,
) -> bool {
    &&& ascending(ranges)
    &&& forall|j: int|
        0 <= j < ranges.len() ==> -PI <= (#[trigger] ranges[j]).0 < ranges[j].1 <= PI
            && ranges[j].2 < lines.len()
    &&& forall|j: int, k: int|
        0 <= j < ranges.len() && (#[trigger] ranges[j]).0 <= k < ranges[j].1
            ==> #[trigger] arc_contains(lines[ranges[j].2 as int].dom, k)
    &&& forall|j: int|
        0 <= j < ranges.len() - 1 && (#[trigger] ranges[j]).1 == ranges[j + 1].0 ==> ranges[j].2
            != ranges[j + 1].2
    &&& forall|i: int, k: int|
        0 <= i < lines.len() && #[trigger] arc_contains(lines[i].dom, k) ==> within_some(
            ranges,
            k,
        )
}

/// Finds the position in `remaining` of the segment with the highest top
/// endpoint; of several equally high, the one that comes first.
fn highest(tops: &Vec<i64>, remaining: &Vec<usize>) -> (pos: usize)
    requires
        remaining.len() > 0,
        forall|k: int| 0 <= k < remaining.len() ==> (#[trigger] remaining[k]) < tops.len(),
    ensures
        pos == first_highest(tops@, remaining@),
        is_first_highest(tops@, remaining@, pos as int),
{
    let mut pos: usize = 0;
    let mut k: usize = 1;
    while k < remaining.len()
        invariant
            1 <= k <= remaining.len(),
            pos < k,
            forall|j: int| 0 <= j < remaining.len() ==> (#[trigger] remaining[j]) < tops.len(),
            forall|j: int|
                0 <= j < k ==> tops[(#[trigger] remaining[j]) as int]
                    <= tops[remaining[pos as int] as int],
            forall|j: int|
                0 <= j < pos ==> tops[(#[trigger] remaining[j]) as int]
                    < tops[remaining[pos as int] as int],
        decreases remaining.len() - k,
    {
        if tops[remaining[k]] > tops[remaining[pos]] {
            pos = k;
        }
        k += 1;
    }
    proof {
        assert(is_first_highest(tops@, remaining@, pos as int));
        let chosen = choose|p: int| is_first_highest(tops@, remaining@, p);
        first_highest_is_unique(tops@, remaining@, pos as int, chosen);
    }
    pos
}

/// Writes segment `tag` over `[start, end)` and lowers `lower` to the
/// elevation of its line at the two ends of the range.
fn commit<LT: ProjLine>(
    line: &LT,
    start: i64,
    end: i64,
    tag: usize,
    rmap: &mut RangeMap<i64, usize>,
    lower: &mut i64,
)
    requires
        start < end,
    ensures
        painted(*final(rmap)) == overlay(painted(*old(rmap)), start as int, end as int, tag),
        *final(lower) == lowest(*old(lower), line.elevation(start), line.elevation(end)),
{
    let a = line.at(start);
    let b = line.at(end);
    let m = if a <= b { a } else { b };
    if m < *lower {
        *lower = m;
    }
    paint(rmap, start, end, tag);
}

/// Merges segment `i` into the map over the contiguous range `[s, e)` of
/// its domain. Where it meets a committed range it takes what its line wins
/// there; unless the circle was full already, it also takes every gap.
fn claim<LT: ProjLine>(
    lines: &Vec<ProjSegment<LT>>,
    i: usize,
    s: i64,
    e: i64,
    eps: i64,
    fill_all: bool,
    rmap: &mut RangeMap<i64, usize>,
    lower: &mut i64,
) -> (r: Result<(), MissingCrossing>)
    requires
        i < lines.len(),
        -PI <= s < e <= PI,
        forall|k: int| s <= k < e ==> #[trigger] arc_contains(lines[i as int].dom, k),
        tagged_within(painted(*old(rmap)), lines@),
    ensures
        match claimed(lines@, i, s, e, eps, fill_all, painted(*old(rmap)), *old(lower)) {
            Ok(state) => r is Ok && painted(*final(rmap)) == state.0 && *final(lower) == state.1,
            Err(c) => r matches Err(d) && d == c,
        },
        match r {
            Ok(_) => {
                &&& tagged_within(painted(*final(rmap)), lines@)
                &&& forall|k: int| #[trigger]
                    painted(*old(rmap)).dom().contains(k) ==> painted(*final(rmap)).dom().contains(
                        k,
                    )
                &&& !fill_all ==> forall|k: int|
                    s <= k < e ==> #[trigger] painted(*final(rmap)).dom().contains(k)
            },
            Err(c) => unresolved(lines@, eps, c),
        },
        *final(lower) <= *old(lower),
        r is Ok && faithful(lines@, eps) ==> settled(
            painted(*old(rmap)),
            painted(*final(rmap)),
            lines@,
            i as int,
            (s, e),
        ),
        r is Ok && above_ends(lines@) && floor_holds(painted(*old(rmap)), lines@, *old(lower))
            ==> floor_holds(painted(*final(rmap)), lines@, *final(lower)),
{
    let line = lines[i].line;
    let ghost before = painted(*rmap);
    let ghost lower_before = *lower;
    let over = overlapping(rmap, s, e);
    let ghost goal = wins_from(lines@, i, over@, 0, Seq::empty(), s, e, eps);
    let mut updates: Vec<(i64, i64)> = Vec::new();
    let mut j: usize = 0;
    while j < over.len()
        invariant
            j <= over.len(),
            i < lines.len(),
            s < e,
            line == lines[i as int].line,
            painted(*rmap) == before,
            painted(*old(rmap)) == before,
            *lower == lower_before,
            goal == wins_from(lines@, i, over@, 0, Seq::empty(), s, e, eps),
            tagged_within(before, lines@),
            over@ == runs_across(before, s, e),
            wins_from(lines@, i, over@, j as int, updates@, s, e, eps) == goal,
            forall|t: int|
                0 <= t < over.len() ==> whole_run(before, #[trigger] over[t]) && over[t].0 < e && s
                    < over[t].1,
            forall|t: int|
                0 <= t < updates.len() ==> s <= (#[trigger] updates[t]).0 < updates[t].1 <= e,
            faithful(lines@, eps) ==> forall|t: int, k: int|
                0 <= t < updates.len() && #[trigger] inside(updates[t], k) && before.dom().contains(
                    k,
                ) ==> height(lines@, i as int, k) >= height(lines@, before[k] as int, k),
            faithful(lines@, eps) ==> forall|p: int, k: int|
                0 <= p < j && #[trigger] inside(clip(over[p], s, e), k) ==> among(
                    updates@,
                    updates.len() as int,
                    k,
                ) || height(lines@, before[k] as int, k) >= height(lines@, i as int, k),
        decreases over.len() - j,
    {
        let ghost prior = updates@;
        let (es, ee, v) = over[j];
        let ds = if s >= es { s } else { es };
        let de = if e <= ee { e } else { ee };
        assert(whole_run(before, over[j as int]));
        assert(before.dom().contains(ds as int));
        assert(clip(over[j as int], s, e) == (ds, de));
        let standing = lines[v].line;
        match contest(&line, &standing, ds, de, eps) {
            Outcome::Untouched => {},
            Outcome::Taken(a, b) => {
                updates.push((a, b));
            },
            Outcome::Stuck => {
                let stuck = MissingCrossing { segment: i, standing: v, dom: (ds, de) };
                assert(goal matches Err(c) && c == stuck);
                return Err(stuck);
            },
        }
        proof {
            if faithful(lines@, eps) {
                assert forall|t: int, k: int|
                    0 <= t < updates.len() && #[trigger] inside(updates[t], k)
                        && before.dom().contains(k) implies height(lines@, i as int, k) >= height(
                    lines@,
                    before[k] as int,
                    k,
                ) by {
                    if t < prior.len() {
                        assert(inside(prior[t], k));
                    } else {
                        assert(settles(lines@, eps, i as int, v as int, ds, de, k));
                    }
                }
                assert forall|p: int, k: int|
                    0 <= p < j + 1 && #[trigger] inside(clip(over[p], s, e), k) implies among(
                    updates@,
                    updates.len() as int,
                    k,
                ) || height(lines@, before[k] as int, k) >= height(lines@, i as int, k) by {
                    if p < j {
                        if among(prior, prior.len() as int, k) && updates.len() > prior.len() {
                            among_after_push(prior, updates[prior.len() as int], k);
                            assert(updates@ =~= prior.push(updates[prior.len() as int]));
                        }
                    } else {
                        assert(before.dom().contains(k));
                        assert(settles(lines@, eps, i as int, v as int, ds, de, k));
                        if updates.len() > prior.len() {
                            if inside(updates[prior.len() as int], k) {
                                assert(among(updates@, updates.len() as int, k));
                            }
                        }
                    }
                }
            }
        }
        j += 1;
    }
    let ghost taken = updates@;
    if !fill_all {
        let holes = gaps(rmap, s, e);
        let mut h: usize = 0;
        while h < holes.len()
            invariant
                h <= holes.len(),
                holes@ == holes_across(before, s, e),
                updates@ == taken + holes@.take(h as int),
                forall|p: int| 0 <= p < holes.len() ==> is_gap(before, #[trigger] holes[p]),
                faithful(lines@, eps) ==> forall|t: int, k: int|
                    0 <= t < updates.len() && #[trigger] inside(updates[t], k)
                        && before.dom().contains(k) ==> height(lines@, i as int, k) >= height(
                        lines@,
                        before[k] as int,
                        k,
                    ),
                forall|p: int|
                    0 <= p < holes.len() ==> s <= (#[trigger] holes[p]).0 < holes[p].1 <= e,
                forall|t: int|
                    0 <= t < updates.len() ==> s <= (#[trigger] updates[t]).0 < updates[t].1 <= e,
            decreases holes.len() - h,
        {
            let ghost prior = updates@;
            updates.push(holes[h]);
            proof {
                assert(is_gap(before, holes[h as int]));
                assert forall|t: int, k: int|
                    0 <= t < updates.len() && #[trigger] inside(updates[t], k)
                        && before.dom().contains(k) && faithful(lines@, eps) implies height(
                    lines@,
                    i as int,
                    k,
                ) >= height(lines@, before[k] as int, k) by {
                    if t < prior.len() {
                        assert(inside(prior[t], k));
                    }
                }
            }
            h += 1;
            assert(updates@ =~= taken + holes@.take(h as int));
        }
        assert(holes@.take(h as int) =~= holes@);
    }
    let ghost all = updates@;
    let ghost end_state = committed_from(all, 0, before, lower_before, line, i);
    let mut t: usize = 0;
    while t < updates.len()
        invariant
            t <= updates.len(),
            i < lines.len(),
            -PI <= s < e <= PI,
            updates@ == all,
            forall|k: int| s <= k < e ==> #[trigger] arc_contains(lines[i as int].dom, k),
            forall|u: int|
                0 <= u < updates.len() ==> s <= (#[trigger] updates[u]).0 < updates[u].1 <= e,
            tagged_within(painted(*rmap), lines@),
            committed_from(all, t as int, painted(*rmap), *lower, line, i) == end_state,
            line == lines[i as int].line,
            *lower <= lower_before,
            forall|u: int|
                0 <= u < t ==> *lower <= line.elevation((#[trigger] all[u]).0) && *lower
                    <= line.elevation(all[u].1),
            forall|u: int, k: int|
                0 <= u < t && #[trigger] inside(all[u], k) ==> painted(*rmap).dom().contains(k)
                    && painted(*rmap)[k] == i,
            forall|k: int| #[trigger]
                painted(*rmap).dom().contains(k) ==> (painted(*rmap)[k] == i && among(
                    all,
                    t as int,
                    k,
                )) || (before.dom().contains(k) && painted(*rmap)[k] == before[k]),
            forall|k: int| #[trigger]
                before.dom().contains(k) ==> painted(*rmap).dom().contains(k),
            forall|u: int, k: int|
                0 <= u < t && (#[trigger] updates[u]).0 <= k < updates[u].1
                    ==> #[trigger] painted(*rmap).dom().contains(k),
        decreases updates.len() - t,
    {
        let ghost cur = painted(*rmap);
        let (us, ue) = updates[t];
        commit(&line, us, ue, i, rmap, lower);
        proof {
            assert forall|k: int| #[trigger] painted(*rmap).dom().contains(k) implies (painted(
                *rmap,
            )[k] == i && among(all, t + 1, k)) || (before.dom().contains(k) && painted(*rmap)[k]
                == before[k]) by {
                if us <= k < ue {
                    assert(inside(all[t as int], k));
                } else {
                    assert(cur.dom().contains(k));
                    if cur[k] == i && among(all, t as int, k) {
                        let u = choose|u: int|
                            0 <= u < t && u < all.len() && #[trigger] inside(all[u], k);
                        assert(inside(all[u], k));
                    }
                }
            }
        }
        t += 1;
    }
    proof {
        if !fill_all {
            let holes = holes_across(before, s, e);
            assert forall|k: int| s <= k < e implies #[trigger] painted(*rmap).dom().contains(
                k,
            ) by {
                if !before.dom().contains(k) {
                    assert(in_some_gap(holes, k));
                    let p = choose|p: int|
                        0 <= p < holes.len() && (#[trigger] holes[p]).0 <= k < holes[p].1;
                    assert(updates[taken.len() + p] == holes[p]);
                }
            }
        }
        let after = painted(*rmap);
        if faithful(lines@, eps) {
            assert forall|k: int| #[trigger] after.dom().contains(k) implies settled_at(
                before,
                after,
                lines@,
                i as int,
                (s, e),
                k,
            ) by {
                if after[k] == i && among(all, all.len() as int, k) {
                    let u = choose|u: int|
                        0 <= u < all.len() && u < all.len() && #[trigger] inside(all[u], k);
                    assert(inside(all[u], k));
                } else if s <= k < e {
                    assert(before.dom().contains(k));
                    assert(within_some(over@, k));
                    let p = choose|p: int|
                        0 <= p < over.len() && (#[trigger] over[p]).0 <= k < over[p].1;
                    assert(inside(clip(over[p], s, e), k));
                    if among(taken, taken.len() as int, k) {
                        let u = choose|u: int|
                            0 <= u < taken.len() && u < taken.len() && #[trigger] inside(
                                taken[u],
                                k,
                            );
                        assert(all[u] == taken[u]);
                        assert(inside(all[u], k));
                    }
                }
            }
        }
        if above_ends(lines@) && floor_holds(before, lines@, lower_before) {
            assert forall|k: int| #[trigger] after.dom().contains(k) implies height(
                lines@,
                after[k] as int,
                k,
            ) >= *lower by {
                if after[k] == i && among(all, all.len() as int, k) {
                    let u = choose|u: int|
                        0 <= u < all.len() && u < all.len() && #[trigger] inside(all[u], k);
                    assert(rests_on_ends(lines@, i as int, all[u].0, all[u].1, k));
                }
            }
        }
    }
    Ok(())
}

/// Merges segment `i` into the map over its whole domain: over one range,
/// or over the two sides of the seam in turn.
fn merge<LT: ProjLine>(
    lines: &Vec<ProjSegment<LT>>,
    i: usize,
    eps: i64,
    fill_all: bool,
    rmap: &mut RangeMap<i64, usize>,
    lower: &mut i64,
) -> (r: Result<(), MissingCrossing>)
    requires
        i < lines.len(),
        lines[i as int].wf(),
        tagged_within(painted(*old(rmap)), lines@),
    ensures
        match merged(lines@, i, eps, fill_all, painted(*old(rmap)), *old(lower)) {
            Ok(state) => r is Ok && painted(*final(rmap)) == state.0 && *final(lower) == state.1,
            Err(c) => r matches Err(d) && d == c,
        },
        match r {
            Ok(_) => {
                &&& tagged_within(painted(*final(rmap)), lines@)
                &&& extends(painted(*old(rmap)), painted(*final(rmap)))
                &&& !fill_all ==> served(painted(*final(rmap)), lines[i as int].dom)
            },
            Err(c) => unresolved(lines@, eps, c),
        },
        *final(lower) <= *old(lower),
        r is Ok && faithful(lines@, eps) ==> settled(
            painted(*old(rmap)),
            painted(*final(rmap)),
            lines@,
            i as int,
            lines[i as int].dom,
        ),
        r is Ok && above_ends(lines@) && floor_holds(painted(*old(rmap)), lines@, *old(lower))
            ==> floor_holds(painted(*final(rmap)), lines@, *final(lower)),
{
    let dom = lines[i].dom;
    let ghost before = painted(*rmap);
    if dom.0 < dom.1 {
        match claim(lines, i, dom.0, dom.1, eps, fill_all, rmap, lower) {
            Ok(_) => {},
            Err(c) => {
                return Err(c);
            },
        }
    } else {
        if dom.0 < PI {
            match claim(lines, i, dom.0, PI, eps, fill_all, rmap, lower) {
                Ok(_) => {},
                Err(c) => {
                    return Err(c);
                },
            }
        }
        let ghost mid = painted(*rmap);
        if MINUS_PI < dom.1 {
            match claim(lines, i, MINUS_PI, dom.1, eps, fill_all, rmap, lower) {
                Ok(_) => {},
                Err(c) => {
                    return Err(c);
                },
            }
        }
        proof {
            let after = painted(*rmap);
            assert forall|k: int| #[trigger] before.dom().contains(k) implies after.dom().contains(
                k,
            ) by {
                assert(mid.dom().contains(k));
            }
            if !fill_all {
                assert forall|k: int| #[trigger] arc_contains(dom, k) implies after.dom().contains(
                    k,
                ) by {
                    if dom.0 <= k {
                        assert(mid.dom().contains(k));
                    }
                }
            }
            if faithful(lines@, eps) {
                assert forall|k: int| #[trigger] after.dom().contains(k) implies settled_at(
                    before,
                    after,
                    lines@,
                    i as int,
                    dom,
                    k,
                ) by {
                    if mid.dom().contains(k) {
                        if before.dom().contains(k) {
                            assert(arc_contains(dom, k) ==> arc_contains((dom.0, PI), k)
                                || arc_contains((MINUS_PI, dom.1), k));
                        }
                    }
                }
            }
        }
    }
    Ok(())
}

/// Computes the skyline of a set of projected segments: for each azimuth
/// that some segment covers, the segment whose line stands highest there,
/// where elevations closer than `eps` count as equal.
///
/// Segments are merged in descending order of their top endpoints, earlier
/// ones first among equals. Once the whole circle is covered and a segment's
/// top endpoint lies below every elevation committed so far, the sweep stops.
/// The result lists the ranges in ascending order, each with the position of
/// its segment in `lines`.
///
/// The sweep fails when the comparisons at the two ends of a range say that
/// two lines cross and `cross_point` finds no crossing inside the range.
///
/// Where the comparisons tell the order of the lines all over each range, no
/// line dips below the lower end of a range, and top endpoints bound their
/// segments, each range carries a segment that is nowhere in it lower than
/// any segment whose domain reaches there.
pub fn skymask<LT: ProjLine>(lines: &Vec<ProjSegment<LT>>, eps: i64) -> (r: Result<
    Vec<(i64, i64, usize)>,
    MissingCrossing,
>)
    requires
        forall|i: int| 0 <= i < lines.len() ==> (#[trigger] lines[i]).wf(),
    ensures
        match skyline(lines@, eps) {
            Ok(ranges) => r matches Ok(v) && v@ == ranges,
            Err(c) => r matches Err(d) && d == c,
        },
        match r {
            Ok(ranges) => is_skyline(lines@, ranges@),
            Err(c) => unresolved(lines@, eps, c),
        },
        crossings_found(lines@, eps) ==> r is Ok,
        well_behaved(lines@, eps) ==> (r matches Ok(ranges) ==> dominant(lines@, ranges@)),
{
    let n = lines.len();
    let mut tops: Vec<i64> = Vec::new();
    let mut remaining: Vec<usize> = Vec::new();
    let mut i: usize = 0;
    while i < n
        invariant
            i <= n,
            n == lines.len(),
            tops.len() == i,
            remaining.len() == i,
            forall|k: int| 0 <= k < i ==> (#[trigger] remaining[k]) == k,
            forall|k: int| 0 <= k < i ==> (#[trigger] tops[k]) == lines[k].top(),
        decreases n - i,
    {
        tops.push(lines[i].top_endpoint());
        remaining.push(i);
        i += 1;
    }
    let mut rmap = empty_map();
    let mut lower: i64 = i64::MAX;
    let mut fill_all = false;
    let mut running = true;
    let ghost goal = swept(lines@, tops@, eps, remaining@, painted(rmap), lower, fill_all);
    assert(tops@ =~= tops_of(lines@));
    assert(remaining@ =~= positions(n as nat));
    assert(painted(rmap) =~= Map::empty());
    assert forall|u: int| 0 <= u < n implies (running && remaining@.contains(u as usize)) || (
    #[trigger] served(painted(rmap), lines[u].dom) && dominated(painted(rmap), lines@, u)) by {
        assert(remaining@[u] == u as usize);
    }
    while running && remaining.len() > 0
        invariant
            n == lines.len(),
            tops@ == tops_of(lines@),
            forall|i: int| 0 <= i < lines.len() ==> (#[trigger] lines[i]).wf(),
            forall|k: int| 0 <= k < remaining.len() ==> (#[trigger] remaining[k]) < n,
            tagged_within(painted(rmap), lines@),
            fill_all ==> forall|k: int|
                -PI <= k < PI ==> #[trigger] painted(rmap).dom().contains(k),
            !running ==> fill_all,
            goal == swept(
                lines@,
                tops_of(lines@),
                eps,
                positions(n as nat),
                Map::empty(),
                i64::MAX,
                false,
            ),
            running ==> swept(lines@, tops@, eps, remaining@, painted(rmap), lower, fill_all)
                == goal,
            !running ==> (goal matches Ok(m) && m == painted(rmap)),
            well_behaved(lines@, eps) ==> floor_holds(painted(rmap), lines@, lower),
            forall|u: int|
                0 <= u < n ==> (running && remaining@.contains(u as usize)) || (#[trigger] served(
                    painted(rmap),
                    lines[u].dom,
                ) && (well_behaved(lines@, eps) ==> dominated(painted(rmap), lines@, u))),
        decreases remaining.len(),
    {
        let pos = highest(&tops, &remaining);
        let ghost waiting = remaining@;
        let ghost before = painted(rmap);
        let cur = remaining.remove(pos);
        assert(lines[cur as int].wf());
        if fill_all {
            if tops[cur] < lower {
                running = false;
            }
        } else {
            let holes = gaps(&rmap, MINUS_PI, PI);
            if holes.len() == 0 {
                fill_all = true;
                assert forall|k: int| -PI <= k < PI implies #[trigger] painted(
                    rmap,
                ).dom().contains(k) by {
                    if !painted(rmap).dom().contains(k) {
                        assert(in_some_gap(holes@, k));
                    }
                }
            }
        }
        if running {
            match merge(lines, cur, eps, fill_all, &mut rmap, &mut lower) {
                Ok(_) => {},
                Err(c) => {
                    return Err(c);
                },
            }
        }
        proof {
            let after = painted(rmap);
            assert(extends(before, after));
            assert(running ==> remaining@ == waiting.remove(pos as int));
            if fill_all {
                assert forall|k: int| -PI <= k < PI implies #[trigger] after.dom().contains(k) by {
                    assert(before.dom().contains(k));
                }
            }
            assert forall|u: int| 0 <= u < n implies (running && remaining@.contains(u as usize))
                || (#[trigger] served(painted(rmap), lines[u].dom) && (well_behaved(lines@, eps)
                ==> dominated(painted(rmap), lines@, u))) by {
                assert(lines[u].wf());
                if waiting.contains(u as usize) {
                    let at = choose|at: int| 0 <= at < waiting.len() && waiting[at] == u as usize;
                    if at < pos {
                        assert(remaining@[at] == u as usize);
                    } else if at > pos {
                        assert(remaining@[at - 1] == u as usize);
                    } else {
                        assert(u == cur);
                    }
                    if !running {
                        assert(tops[waiting[at] as int] <= tops[cur as int]);
                        assert(tops[u] == lines[u].top());
                        assert forall|k: int| #[trigger]
                            arc_contains(lines[u].dom, k) implies after.dom().contains(k) by {
                            assert(before.dom().contains(k));
                        }
                        if well_behaved(lines@, eps) {
                            low_segment_is_dominated(after, lines@, lower, u);
                        }
                    } else if u == cur {
                        assert forall|k: int| #[trigger]
                            arc_contains(lines[u].dom, k) implies after.dom().contains(k) by {
                            if fill_all {
                                assert(before.dom().contains(k));
                            }
                        }
                        if well_behaved(lines@, eps) {
                            merged_segment_is_dominated(before, after, lines@, u);
                        }
                    }
                } else {
                    assert(served(before, lines[u].dom));
                    assert forall|k: int| #[trigger]
                        arc_contains(lines[u].dom, k) implies after.dom().contains(k) by {
                        assert(before.dom().contains(k));
                    }
                    if well_behaved(lines@, eps) && running {
                        merging_keeps_dominated(
                            before,
                            after,
                            lines@,
                            cur as int,
                            lines[cur as int].dom,
                            u,
                        );
                    }
                }
            }
        }
    }
    let ranges = entries(&rmap);
    proof {
        let m = painted(rmap);
        assert forall|j: int| 0 <= j < ranges.len() implies -PI <= (#[trigger] ranges[j]).0
            < ranges[j].1 <= PI && ranges[j].2 < lines.len() by {
            assert(whole_run(m, ranges[j]));
            assert(m.dom().contains(ranges[j].0 as int));
            assert(m.dom().contains(ranges[j].1 - 1));
        }
        assert forall|j: int, k: int|
            0 <= j < ranges.len() && (#[trigger] ranges[j]).0 <= k
                < ranges[j].1 implies #[trigger] arc_contains(lines[ranges[j].2 as int].dom, k) by {
            assert(whole_run(m, ranges[j]));
            assert(m.dom().contains(k));
        }
        assert forall|j: int|
            0 <= j < ranges.len() - 1 && (#[trigger] ranges[j]).1 == ranges[j + 1].0
                implies ranges[j].2 != ranges[j + 1].2 by {
            assert(whole_run(m, ranges[j]));
            assert(whole_run(m, ranges[j + 1]));
            assert(m.dom().contains(ranges[j + 1].0 as int));
        }
        assert forall|i: int, k: int|
            0 <= i < lines.len() && #[trigger] arc_contains(lines[i].dom, k) implies within_some(
            ranges@,
            k,
        ) by {
            assert(served(m, lines[i].dom));
            assert(m.dom().contains(k));
        }
        if well_behaved(lines@, eps) {
            assert forall|j: int, i: int, k: int|
                0 <= j < ranges.len() && (#[trigger] ranges[j]).0 <= k < ranges[j].1 && 0 <= i
                    < lines.len() && #[trigger] arc_contains(lines[i].dom, k) implies height(
                lines@,
                ranges[j].2 as int,
                k,
            ) >= height(lines@, i, k) by {
                assert(whole_run(m, ranges[j]));
                assert(m.dom().contains(k));
                assert(served(m, lines[i].dom));
                assert(dominated(m, lines@, i));
            }
        }
    }
    Ok(ranges)
}

} // verus!
