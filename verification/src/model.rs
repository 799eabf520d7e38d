//! The sweep written out as a function of its input: the map it ends in, or
//! the pair of lines at which it is stuck.

use crate::compare::{outcome, Outcome};
use crate::line::{ProjLine, MINUS_PI, PI};
use crate::ranges::{holes_across, overlay, runs_across, stored_runs};
use crate::segment::ProjSegment;
use vstd::prelude::*;

verus! {

/// The sweep found two lines that change order over a range, and no azimuth
/// inside the range at which they cross.
#[derive(Clone, Copy, Debug)]
pub struct MissingCrossing {
    /// The number of the segment that was being merged.
    pub segment: usize,
    /// The number of the segment that held the range.
    pub standing: usize,
    /// The range over which the two were compared.
    pub dom: (i64, i64),
}

/// The least of three elevations.
pub open spec fn lowest(a: i64, b: i64, c: i64) -> i64 {
    let m = if b <= c { b } else { c };
    if a <= m { a } else { m }
}

/// The part of a stored range that lies inside `[s, e)`.
pub open spec fn clip(run: (i64, i64, usize), s: i64, e: i64) -> (i64, i64) {
    (if s >= run.0 { s } else { run.0 }, if e <= run.1 { e } else { run.1 })
}

/// The ranges that segment `i` takes from the stored ranges `runs[j..]`,
/// each clipped to `[s, e)`, appended to `taken`; or the first pair of lines
/// that is stuck.
pub open spec fn wins_from<LT: ProjLine>(
    lines: Seq<ProjSegment<LT>>,
    i: usize,
    runs: Seq<(i64, i64, usize)>,
    j: int,
    taken: Seq<(i64, i64)>,
    s: i64,
    e: i64,
    eps: i64,
) -> Result<Seq<(i64, i64)>, MissingCrossing>
    decreases runs.len() - j,
{
    if j < 0 || j >= runs.len() {
        Ok(taken)
    } else {
        let part = clip(runs[j], s, e);
        match outcome(lines[i as int].line, lines[runs[j].2 as int].line, part.0, part.1, eps) {
            Outcome::Untouched => wins_from(lines, i, runs, j + 1, taken, s, e, eps),
            Outcome::Taken(a, b) => wins_from(lines, i, runs, j + 1, taken.push((a, b)), s, e, eps),
            Outcome::Stuck => Err(
                MissingCrossing { segment: i, standing: runs[j].2, dom: part },
            ),
        }
    }
}

/// The map and the lowest committed elevation after the ranges
/// `updates[t..]` have been written for segment `tag`, one after the other.
pub open spec fn committed_from<LT: ProjLine>(
    updates: Seq<(i64, i64)>,
    t: int,
    m: Map<int, usize>,
    lower: i64,
    line: LT,
    tag: usize,
) -> (Map<int, usize>, i64)
    decreases updates.len() - t,
{
    if t < 0 || t >= updates.len() {
        (m, lower)
    } else {
        committed_from(
            updates,
            t + 1,
            overlay(m, updates[t].0 as int, updates[t].1 as int, tag),
            lowest(lower, line.elevation(updates[t].0), line.elevation(updates[t].1)),
            line,
            tag,
        )
    }
}

/// The map and the lowest committed elevation after segment `i` has been
/// merged over `[s, e)`: it takes what it wins of the stored ranges there
/// and, unless the circle was full, every gap.
pub open spec fn claimed<LT: ProjLine>(
    lines: Seq<ProjSegment<LT>>,
    i: usize,
    s: i64,
    e: i64,
    eps: i64,
    fill_all: bool,
    m: Map<int, usize>,
    lower: i64,
) -> Result<(Map<int, usize>, i64), MissingCrossing> {
    match wins_from(lines, i, runs_across(m, s, e), 0, Seq::empty(), s, e, eps) {
        Err(c) => Err(c),
        Ok(taken) => {
            let all = if fill_all {
                taken
            } else {
                taken + holes_across(m, s, e)
            };
            Ok(committed_from(all, 0, m, lower, lines[i as int].line, i))
        },
    }
}

/// The map and the lowest committed elevation after segment `i` has been
/// merged over its whole domain: over one range, or over the two sides of
/// the seam in turn.
pub open spec fn merged<LT: ProjLine>(
    lines: Seq<ProjSegment<LT>>,
    i: usize,
    eps: i64,
    fill_all: bool,
    m: Map<int, usize>,
    lower: i64,
) -> Result<(Map<int, usize>, i64), MissingCrossing> {
    let dom = lines[i as int].dom;
    if dom.0 < dom.1 {
        claimed(lines, i, dom.0, dom.1, eps, fill_all, m, lower)
    } else {
        let first = if dom.0 < PI {
            claimed(lines, i, dom.0, PI, eps, fill_all, m, lower)
        } else {
            Ok((m, lower))
        };
        match first {
            Err(c) => Err(c),
            Ok(state) => if MINUS_PI < dom.1 {
                claimed(lines, i, MINUS_PI, dom.1, eps, fill_all, state.0, state.1)
            } else {
                Ok(state)
            },
        }
    }
}

/// Whether `pos` is the first position in `remaining` of a segment with the
/// highest top endpoint.
pub open spec fn is_first_highest(tops: Seq<i64>, remaining: Seq<usize>, pos: int) -> bool {
    &&& 0 <= pos < remaining.len()
    &&& forall|k: int|
        0 <= k < remaining.len() ==> tops[(#[trigger] remaining[k]) as int]
            <= tops[remaining[pos] as int]
    &&& forall|k: int|
        0 <= k < pos ==> tops[(#[trigger] remaining[k]) as int] < tops[remaining[pos] as int]
}

/// The first position in `remaining` of a segment with the highest top
/// endpoint.
pub open spec fn first_highest(tops: Seq<i64>, remaining: Seq<usize>) -> int {
    let pos = choose|pos: int| is_first_highest(tops, remaining, pos);
    if 0 <= pos < remaining.len() {
        pos
    } else {
        0
    }
}

/// The map at the end of the sweep that starts from the map `m` with the
/// segments in `remaining` still to merge.
pub open spec fn swept<LT: ProjLine>(
    lines: Seq<ProjSegment<LT>>,
    tops: Seq<i64>,
    eps: i64,
    remaining: Seq<usize>,
    m: Map<int, usize>,
    lower: i64,
    fill_all: bool,
) -> Result<Map<int, usize>, MissingCrossing>
    decreases remaining.len(),
{
    if remaining.len() == 0 {
        Ok(m)
    } else {
        let pos = first_highest(tops, remaining);
        let cur = remaining[pos];
        if fill_all && tops[cur as int] < lower {
            Ok(m)
        } else {
            let full = fill_all || holes_across(m, MINUS_PI, PI).len() == 0;
            match merged(lines, cur, eps, full, m, lower) {
                Err(c) => Err(c),
                Ok(state) => swept(
                    lines,
                    tops,
                    eps,
                    remaining.remove(pos),
                    state.0,
                    state.1,
                    full,
                ),
            }
        }
    }
}

/// The top endpoint of each segment.
pub open spec fn tops_of<LT: ProjLine>(lines: Seq<ProjSegment<LT>>) -> Seq<i64> {
    Seq::new(lines.len(), |i: int| lines[i].top())
}

/// The positions `0, .., n - 1`.
pub open spec fn positions(n: nat) -> Seq<usize> {
    Seq::new(n, |i: int| i as usize)
}

/// The skyline of `lines`: the ranges of the map in which the sweep ends,
/// or the pair of lines at which it is stuck.
pub open spec fn skyline<LT: ProjLine>(lines: Seq<ProjSegment<LT>>, eps: i64) -> Result<
    Seq<(i64, i64, usize)>,
    MissingCrossing,
> {
    match swept(
        lines,
        tops_of(lines),
        eps,
        positions(lines.len()),
        Map::empty(),
        i64::MAX,
        false,
    ) {
        Ok(m) => Ok(stored_runs(m)),
        Err(c) => Err(c),
    }
}

/// Two positions that are both the first of the highest are the same.
pub(crate) proof fn first_highest_is_unique(tops: Seq<i64>, remaining: Seq<usize>, a: int, b: int)
    requires
        is_first_highest(tops, remaining, a),
        is_first_highest(tops, remaining, b),
    ensures
        a == b,
{
    if a < b {
        assert(tops[remaining[a] as int] < tops[remaining[b] as int]);
    } else if b < a {
        assert(tops[remaining[b] as int] < tops[remaining[a] as int]);
    }
}

} // verus!
