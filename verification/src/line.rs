//! Projected lines: the elevation trace of an unbounded line over azimuth.

use std::ops::Range;
use vstd::prelude::*;

verus! {

/// Half a turn, in angle units (billionths of a radian).
pub const PI: i64 = 3_141_592_654;

/// The azimuth at which the circle begins: half a turn below zero.
pub const MINUS_PI: i64 = -3_141_592_654;

/// Whether two points lie on one ray or on opposite rays through the
/// observer's vertical axis, so that the line through them has no azimuth
/// range of its own.
pub open spec fn same_azimuth(p1: [i64; 3], p2: [i64; 3]) -> bool {
    p2[0] * p1[1] == p1[0] * p2[1]
}

/// The elevation trace of a line in space, as a function of azimuth.
///
/// Implementations must make sure that two traces cross at most once inside
/// any domain on which they are compared. `built`, `elevation` and `crossing`
/// say what `from_points`, `at` and `cross_point` return: each of the three
/// methods is a function of its arguments.
pub trait ProjLine: Sized + Copy {
    /// The line through two points, if there is one.
    spec fn built(p1: [i64; 3], p2: [i64; 3]) -> Option<Self>;

    /// The elevation of the line at azimuth `theta`.
    spec fn elevation(&self, theta: i64) -> i64;

    /// The azimuth strictly between `start` and `end` at which this line and
    /// `other` have the same elevation, if there is one.
    spec fn crossing(&self, other: &Self, start: i64, end: i64) -> Option<i64>;

    /// Creates a line from two points given relative to the observer. Two
    /// points that share an azimuth give no line.
    fn from_points(p1: &[i64; 3], p2: &[i64; 3]) -> (r: Option<Self>)
        ensures
            r == Self::built(*p1, *p2),
            same_azimuth(*p1, *p2) ==> r is None,
    ;

    /// Evaluates the elevation at azimuth `theta`; defined for every `theta`.
    fn at(&self, theta: i64) -> (r: i64)
        ensures
            r == self.elevation(theta),
    ;

    /// Finds where this line and `other` cross inside `dom`, bounds excluded.
    fn cross_point(&self, other: &Self, dom: &Range<i64>) -> (r: Option<i64>)
        ensures
            r == self.crossing(other, dom.start, dom.end),
            r matches Some(c) ==> dom.start < c < dom.end,
    ;
}

/// Tells whether two points share an azimuth as seen from the observer.
pub fn shares_azimuth(p1: &[i64; 3], p2: &[i64; 3]) -> (r: bool)
    ensures
        r == same_azimuth(*p1, *p2),
{
    let (x1, y1): (i128, i128) = (p1[0] as i128, p1[1] as i128);
    let (x2, y2): (i128, i128) = (p2[0] as i128, p2[1] as i128);
    assert(-0x4000_0000_0000_0000_0000_0000_0000_0000 <= x2 * y1
        <= 0x4000_0000_0000_0000_0000_0000_0000_0000) by (nonlinear_arith)
        requires
            -0x8000_0000_0000_0000 <= x2 <= 0x8000_0000_0000_0000,
            -0x8000_0000_0000_0000 <= y1 <= 0x8000_0000_0000_0000,
    ;
    assert(-0x4000_0000_0000_0000_0000_0000_0000_0000 <= x1 * y2
        <= 0x4000_0000_0000_0000_0000_0000_0000_0000) by (nonlinear_arith)
        requires
            -0x8000_0000_0000_0000 <= x1 <= 0x8000_0000_0000_0000,
            -0x8000_0000_0000_0000 <= y2 <= 0x8000_0000_0000_0000,
    ;
    x2 * y1 == x1 * y2
}

/// The crossing that lies strictly inside a domain, given the principal
/// solution of the crossing equation: the principal solution itself, else
/// the solution half a turn away from it, on the side of zero.
pub open spec fn crossing_inside(principal: int, start: int, end: int) -> Option<int> {
    let shifted = if principal >= 0 { principal - PI } else { principal + PI };
    if start < principal < end {
        Some(principal)
    } else if start < shifted < end {
        Some(shifted)
    } else {
        None
    }
}

/// Picks the crossing azimuth inside `dom` from the principal solution of
/// the crossing equation. The equation has two roots half a turn apart; the
/// principal one is tried first, then the other. Neither inside: no value.
pub fn select_cross(principal: i64, dom: &Range<i64>) -> (r: Option<i64>)
    ensures
        match crossing_inside(principal as int, dom.start as int, dom.end as int) {
            Some(c) => r == Some(c as i64) && c == c as i64,
            None => r is None,
        },
{
    if principal > dom.start && principal < dom.end {
        Some(principal)
    } else {
        let shifted: i64 = if principal >= 0 { principal - PI } else { principal + PI };
        if shifted > dom.start && shifted < dom.end {
            Some(shifted)
        } else {
            None
        }
    }
}

} // verus!
