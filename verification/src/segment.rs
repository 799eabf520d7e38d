//! Projected segments: a projected line bounded to an arc of azimuths.

use crate::compare::{float_cmp, tolerant_order};
use crate::line::{same_azimuth, ProjLine, PI};
use std::cmp::Ordering;
use vstd::std_specs::cmp::{PartialEqSpecImpl, PartialOrdSpecImpl};
use vstd::prelude::*;

verus! {

/// A projected line with a domain on the azimuth circle.
///
/// If `dom.0 < dom.1` the domain is `[dom.0, dom.1)`. If `dom.0 > dom.1` it
/// runs through the seam: `[dom.0, PI)` and `[-PI, dom.1)`.
pub struct ProjSegment<LT: ProjLine> {
    pub line: LT,
    pub dom: (i64, i64),
}

/// Whether both ends of a domain are azimuths.
pub open spec fn in_circle(dom: (i64, i64)) -> bool {
    -PI <= dom.0 <= PI && -PI <= dom.1 <= PI
}

/// The distance between the two ends of a domain.
pub open spec fn span(dom: (i64, i64)) -> int {
    if dom.0 >= dom.1 {
        dom.0 - dom.1
    } else {
        dom.1 - dom.0
    }
}

/// Whether the ends of a domain are a whole number of half turns apart, so
/// that neither arc between them is the shorter one.
pub open spec fn antipodal(dom: (i64, i64)) -> bool {
    span(dom) % (PI as int) == 0
}

/// Two azimuths exactly half a turn apart bound no segment.
pub proof fn half_turn_apart_is_antipodal(dom: (i64, i64))
    requires
        span(dom) == PI,
    ensures
        antipodal(dom),
{
}

/// The ends of a domain in the order that encodes the shorter arc.
pub open spec fn oriented(dom: (i64, i64)) -> (i64, i64) {
    let swap = if span(dom) > PI {
        dom.0 < dom.1
    } else {
        dom.0 > dom.1
    };
    if swap {
        (dom.1, dom.0)
    } else {
        dom
    }
}

/// Whether azimuth `theta` lies in the arc that `dom` encodes.
pub open spec fn arc_contains(dom: (i64, i64), theta: int) -> bool {
    if dom.0 < dom.1 {
        dom.0 <= theta < dom.1
    } else {
        dom.0 <= theta < PI || -PI <= theta < dom.1
    }
}

impl<LT: ProjLine> ProjSegment<LT> {
    /// The domain is made of azimuths and encodes an arc shorter than half
    /// a turn.
    pub open spec fn wf(&self) -> bool {
        &&& in_circle(self.dom)
        &&& self.dom.0 < self.dom.1 ==> self.dom.1 - self.dom.0 < PI
        &&& self.dom.0 >= self.dom.1 ==> self.dom.0 - self.dom.1 > PI
    }

    /// The priority of the segment: the highest elevation of its line at the
    /// ends of its domain, the seam included where the domain runs through it.
    pub open spec fn top(&self) -> i64 {
        let a = self.line.elevation(self.dom.0);
        let b = self.line.elevation(self.dom.1);
        let ends = if a >= b { a } else { b };
        if self.dom.0 > self.dom.1 {
            let c = self.line.elevation(PI);
            if ends >= c { ends } else { c }
        } else {
            ends
        }
    }

    /// Bounds `line` to the shorter arc between the two azimuths of `dom`,
    /// whichever order they are given in. Fails if the two are a whole
    /// number of half turns apart.
    pub fn new(line: LT, dom: (i64, i64)) -> (r: Option<Self>)
        requires
            in_circle(dom),
        ensures
            r is None <==> antipodal(dom),
            r matches Some(s) ==> s.line == line && s.dom == oriented(dom) && s.wf(),
    {
        let delta: i64 = if dom.0 >= dom.1 { dom.0 - dom.1 } else { dom.1 - dom.0 };
        if delta % PI == 0 {
            return None;
        }
        let swap = if delta > PI { dom.0 < dom.1 } else { dom.0 > dom.1 };
        Some(ProjSegment { line, dom: if swap { (dom.1, dom.0) } else { dom } })
    }

    /// Builds the segment of the edge between two points given relative to
    /// the observer; `azimuths` holds the azimuth of each point. Fails if
    /// the points give no line or the azimuths no arc.
    pub fn from_points(p1: &[i64; 3], p2: &[i64; 3], azimuths: (i64, i64)) -> (r: Option<Self>)
        requires
            in_circle(azimuths),
        ensures
            r is Some <==> LT::built(*p1, *p2) is Some && !antipodal(azimuths),
            same_azimuth(*p1, *p2) ==> r is None,
            r matches Some(s) ==> Some(s.line) == LT::built(*p1, *p2) && s.dom == oriented(
                azimuths,
            ) && s.wf(),
    {
        match LT::from_points(p1, p2) {
            Some(line) => Self::new(line, azimuths),
            None => None,
        }
    }

    /// Orders two segments by their top endpoints alone: segments with the
    /// same top endpoint are equal, whatever their lines and domains.
    pub fn cmp(&self, other: &Self) -> (r: Ordering)
        ensures
            r == tolerant_order(self.top(), other.top(), 0),
    {
        float_cmp(self.top_endpoint(), other.top_endpoint(), 0)
    }

    /// The highest elevation at the ends of the domain.
    pub fn top_endpoint(&self) -> (r: i64)
        ensures
            r == self.top(),
    {
        let a = self.line.at(self.dom.0);
        let b = self.line.at(self.dom.1);
        let ends = if a >= b { a } else { b };
        if self.dom.0 > self.dom.1 {
            let c = self.line.at(PI);
            if ends >= c { ends } else { c }
        } else {
            ends
        }
    }
}

/// Two segments are equal when their top endpoints are, whatever their
/// lines and domains.
impl<LT: ProjLine> PartialEq for ProjSegment<LT> {
    fn eq(&self, other: &Self) -> (r: bool) {
        self.top_endpoint() == other.top_endpoint()
    }
}

impl<LT: ProjLine> PartialEqSpecImpl for ProjSegment<LT> {
    open spec fn obeys_eq_spec() -> bool {
        true
    }

    open spec fn eq_spec(&self, other: &Self) -> bool {
        self.top() == other.top()
    }
}

/// Segments are ordered by their top endpoints; the order is total.
impl<LT: ProjLine> PartialOrd for ProjSegment<LT> {
    fn partial_cmp(&self, other: &Self) -> (r: Option<Ordering>) {
        Some(float_cmp(self.top_endpoint(), other.top_endpoint(), 0))
    }
}

impl<LT: ProjLine> PartialOrdSpecImpl for ProjSegment<LT> {
    open spec fn obeys_partial_cmp_spec() -> bool {
        true
    }

    open spec fn partial_cmp_spec(&self, other: &Self) -> Option<Ordering> {
        Some(tolerant_order(self.top(), other.top(), 0))
    }
}

} // verus!
