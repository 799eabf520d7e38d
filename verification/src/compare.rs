//! Comparison of elevations up to a tolerance, and what a new line gets of
//! a range that another line holds.

use crate::line::ProjLine;
use std::cmp::Ordering;
use std::ops::Range;
use vstd::prelude::*;

verus! {

/// The order of `a` and `b` when values closer than `eps` count as equal.
pub open spec fn tolerant_order(a: i64, b: i64, eps: i64) -> Ordering {
    if a - b < eps && b - a < eps {
        Ordering::Equal
    } else if a < b {
        Ordering::Less
    } else if a > b {
        Ordering::Greater
    } else {
        Ordering::Equal
    }
}

/// Compares `a` with `b`, treating them as equal when they differ by less
/// than `eps`. A tolerance of zero or less gives the plain integer order.
pub fn float_cmp(a: i64, b: i64, eps: i64) -> (r: Ordering)
    ensures
        r == tolerant_order(a, b, eps),
{
    if a == b {
        Ordering::Equal
    } else if a < b {
        // b - a < eps, written so that no difference leaves the type
        if eps > 0 && (a > i64::MAX - eps || b < a + eps) {
            Ordering::Equal
        } else {
            Ordering::Less
        }
    } else {
        if eps > 0 && (b > i64::MAX - eps || a < b + eps) {
            Ordering::Equal
        } else {
            Ordering::Greater
        }
    }
}

/// What becomes of a committed range when a new line is held against the
/// line that stands there.
#[derive(Clone, Copy, Debug, PartialEq, Eq, Structural)]
pub enum Verdict {
    /// The standing line is at least as high at both ends: nothing changes.
    Keep,
    /// The new line is at least as high at both ends: it takes the range.
    Replace,
    /// The new line is lower at the start and higher at the end: it takes
    /// the range from the crossing on.
    Rising,
    /// The new line is higher at the start and lower at the end: it takes
    /// the range up to the crossing.
    Falling,
}

/// The verdict for the two comparisons made at the ends of a range.
pub open spec fn verdict_of(at_start: Ordering, at_end: Ordering) -> Verdict {
    match (at_start, at_end) {
        (Ordering::Less, Ordering::Less) => Verdict::Keep,
        (Ordering::Less, Ordering::Equal) => Verdict::Keep,
        (Ordering::Equal, Ordering::Less) => Verdict::Keep,
        (Ordering::Equal, Ordering::Equal) => Verdict::Keep,
        (Ordering::Greater, Ordering::Greater) => Verdict::Replace,
        (Ordering::Greater, Ordering::Equal) => Verdict::Replace,
        (Ordering::Equal, Ordering::Greater) => Verdict::Replace,
        (Ordering::Less, Ordering::Greater) => Verdict::Rising,
        (Ordering::Greater, Ordering::Less) => Verdict::Falling,
    }
}

/// Decides from the comparisons at the two ends of a range which line keeps
/// it. A tie at both ends leaves the standing line in place.
pub fn judge(at_start: Ordering, at_end: Ordering) -> (r: Verdict)
    ensures
        r == verdict_of(at_start, at_end),
{
    match (at_start, at_end) {
        (Ordering::Less | Ordering::Equal, Ordering::Less | Ordering::Equal) => Verdict::Keep,
        (Ordering::Greater | Ordering::Equal, Ordering::Greater | Ordering::Equal) => {
            Verdict::Replace
        },
        (Ordering::Less, Ordering::Greater) => Verdict::Rising,
        (Ordering::Greater, Ordering::Less) => Verdict::Falling,
    }
}

/// The verdict on `[start, end]` between a new line and the standing one.
pub open spec fn line_verdict<LT: ProjLine>(
    new: LT,
    standing: LT,
    start: i64,
    end: i64,
    eps: i64,
) -> Verdict {
    verdict_of(
        tolerant_order(new.elevation(start), standing.elevation(start), eps),
        tolerant_order(new.elevation(end), standing.elevation(end), eps),
    )
}

/// Holds a new line against the standing one at both ends of a range.
pub fn compare_lines<LT: ProjLine>(new: &LT, standing: &LT, start: i64, end: i64, eps: i64) -> (r:
    Verdict)
    ensures
        r == line_verdict(*new, *standing, start, end, eps),
{
    let at_start = float_cmp(new.at(start), standing.at(start), eps);
    let at_end = float_cmp(new.at(end), standing.at(end), eps);
    judge(at_start, at_end)
}

/// What a new line gets of one committed range.
#[derive(Clone, Copy, Debug, PartialEq, Eq, Structural)]
pub enum Outcome {
    /// Nothing: the standing line keeps the range.
    Untouched,
    /// The part of the range between the two azimuths.
    Taken(i64, i64),
    /// The lines change order over the range and no crossing was found.
    Stuck,
}

/// What `new` gets of `[start, end)`, which `standing` holds.
pub open spec fn outcome<LT: ProjLine>(
    new: LT,
    standing: LT,
    start: i64,
    end: i64,
    eps: i64,
) -> Outcome {
    match line_verdict(new, standing, start, end, eps) {
        Verdict::Keep => Outcome::Untouched,
        Verdict::Replace => Outcome::Taken(start, end),
        Verdict::Rising => match new.crossing(&standing, start, end) {
            Some(c) => Outcome::Taken(c, end),
            None => Outcome::Stuck,
        },
        Verdict::Falling => match new.crossing(&standing, start, end) {
            Some(c) => Outcome::Taken(start, c),
            None => Outcome::Stuck,
        },
    }
}

/// Decides what a new line gets of the range `[start, end)` that a standing
/// line holds: nothing, all of it, or the part on its side of the crossing.
pub fn contest<LT: ProjLine>(new: &LT, standing: &LT, start: i64, end: i64, eps: i64) -> (r:
    Outcome)
    ensures
        r == outcome(*new, *standing, start, end, eps),
        start < end ==> (r matches Outcome::Taken(a, b) ==> start <= a < b <= end),
{
    match compare_lines(new, standing, start, end, eps) {
        Verdict::Keep => Outcome::Untouched,
        Verdict::Replace => Outcome::Taken(start, end),
        Verdict::Rising => match new.cross_point(standing, &Range { start, end }) {
            Some(c) => Outcome::Taken(c, end),
            None => Outcome::Stuck,
        },
        Verdict::Falling => match new.cross_point(standing, &Range { start, end }) {
            Some(c) => Outcome::Taken(start, c),
            None => Outcome::Stuck,
        },
    }
}

} // verus!
