use skymask::compare::{compare_lines, contest, float_cmp, judge, Outcome, Verdict};
use skymask::line::{select_cross, shares_azimuth, ProjLine, PI};
use skymask::segment::ProjSegment;
use skymask::sweep::skymask;
use std::cmp::Ordering;
use std::ops::Range;

const UNIT: f64 = 1e9;

fn to_units(radians: f64) -> i64 {
    (radians * UNIT).round() as i64
}

/// The elevation trace `atan(a cos(theta) + b sin(theta))`.
#[derive(Clone, Copy, Debug, PartialEq)]
struct Trace {
    a: f64,
    b: f64,
}

impl ProjLine for Trace {
    fn built(p1: [i64; 3], p2: [i64; 3]) -> Option<Self> {
        Self::from_points(&p1, &p2)
    }

    fn elevation(&self, theta: i64) -> i64 {
        self.at(theta)
    }

    fn crossing(&self, other: &Self, start: i64, end: i64) -> Option<i64> {
        self.cross_point(other, &Range { start, end })
    }

    fn from_points(p1: &[i64; 3], p2: &[i64; 3]) -> Option<Self> {
        if shares_azimuth(p1, p2) {
            return None;
        }
        let p: Vec<f64> = p1.iter().map(|&v| v as f64).collect();
        let q: Vec<f64> = p2.iter().map(|&v| v as f64).collect();
        let denominator = q[0] * p[1] - p[0] * q[1];
        Some(Trace {
            a: (p[1] * q[2] - q[1] * p[2]) / denominator,
            b: (q[0] * p[2] - p[0] * q[2]) / denominator,
        })
    }

    fn at(&self, theta: i64) -> i64 {
        let t = theta as f64 / UNIT;
        to_units((self.a * t.cos() + self.b * t.sin()).atan())
    }

    fn cross_point(&self, other: &Self, dom: &Range<i64>) -> Option<i64> {
        let principal = ((self.a - other.a) / (other.b - self.b)).atan();
        select_cross(to_units(principal), dom)
    }
}

#[test]
fn float_cmp_within_tolerance_is_equal() {
    assert_eq!(float_cmp(10, 12, 3), Ordering::Equal);
    assert_eq!(float_cmp(12, 10, 3), Ordering::Equal);
    assert_eq!(float_cmp(7, 7, 0), Ordering::Equal);
}

#[test]
fn float_cmp_at_the_tolerance_is_ordered() {
    assert_eq!(float_cmp(10, 13, 3), Ordering::Less);
    assert_eq!(float_cmp(13, 10, 3), Ordering::Greater);
    assert_eq!(float_cmp(1, 2, 0), Ordering::Less);
    assert_eq!(float_cmp(2, 1, 0), Ordering::Greater);
    assert_eq!(float_cmp(1, 2, -5), Ordering::Less);
}

#[test]
fn float_cmp_at_the_limits_of_the_type() {
    assert_eq!(float_cmp(i64::MIN, i64::MAX, i64::MAX), Ordering::Less);
    assert_eq!(float_cmp(i64::MAX, i64::MIN, i64::MAX), Ordering::Greater);
    assert_eq!(float_cmp(i64::MAX, i64::MAX - 1, 2), Ordering::Equal);
    assert_eq!(float_cmp(i64::MIN, i64::MIN + 1, 2), Ordering::Equal);
    assert_eq!(float_cmp(-1, i64::MAX, i64::MAX), Ordering::Less);
    assert_eq!(float_cmp(0, i64::MAX, i64::MAX), Ordering::Less);
    assert_eq!(float_cmp(1, i64::MAX, i64::MAX), Ordering::Equal);
}

#[test]
fn judge_gives_each_pair_its_verdict() {
    let (less, equal, greater) = (Ordering::Less, Ordering::Equal, Ordering::Greater);
    assert_eq!(judge(less, less), Verdict::Keep);
    assert_eq!(judge(less, equal), Verdict::Keep);
    assert_eq!(judge(equal, less), Verdict::Keep);
    assert_eq!(judge(equal, equal), Verdict::Keep);
    assert_eq!(judge(greater, greater), Verdict::Replace);
    assert_eq!(judge(greater, equal), Verdict::Replace);
    assert_eq!(judge(equal, greater), Verdict::Replace);
    assert_eq!(judge(less, greater), Verdict::Rising);
    assert_eq!(judge(greater, less), Verdict::Falling);
}

#[test]
fn compare_lines_looks_at_both_ends() {
    // atan(cos) falls from a quarter turn's elevation to zero; atan(sin) rises
    let falling = Trace { a: 1.0, b: 0.0 };
    let rising = Trace { a: 0.0, b: 1.0 };
    let quarter = PI / 2;
    assert_eq!(compare_lines(&rising, &falling, 0, quarter, 1000), Verdict::Rising);
    assert_eq!(compare_lines(&falling, &rising, 0, quarter, 1000), Verdict::Falling);
    assert_eq!(compare_lines(&falling, &falling, 0, quarter, 1000), Verdict::Keep);
    assert_eq!(compare_lines(&falling, &rising, 0, PI / 4, 1000), Verdict::Replace);
    assert_eq!(compare_lines(&rising, &falling, 0, PI / 4, 1000), Verdict::Keep);
}

#[test]
fn shares_azimuth_on_rays_through_the_observer() {
    assert!(shares_azimuth(&[1, 2, 5], &[2, 4, 9]));
    assert!(shares_azimuth(&[1, 2, 5], &[-3, -6, 0]));
    assert!(shares_azimuth(&[0, 0, 5], &[7, 9, 0]));
    assert!(!shares_azimuth(&[1, 2, 5], &[2, 3, 5]));
    assert!(shares_azimuth(&[i64::MIN, i64::MIN, 0], &[i64::MIN, i64::MIN, 1]));
    assert!(!shares_azimuth(&[i64::MIN, i64::MAX, 0], &[i64::MAX, i64::MIN, 1]));
}

#[test]
fn points_sharing_an_azimuth_give_no_line() {
    assert_eq!(Trace::from_points(&[1000, 1000, 10], &[2000, 2000, 30]), None);
    let azimuths = (to_units(1.0), to_units(1.0));
    assert!(ProjSegment::<Trace>::from_points(&[1000, 1000, 10], &[2000, 2000, 30], (785398163, 0))
        .is_none());
    assert!(ProjSegment::<Trace>::from_points(&[1000, 0, 10], &[0, 1000, 30], azimuths).is_none());
}

#[test]
fn from_points_builds_line_and_domain() {
    let quarter = to_units(std::f64::consts::FRAC_PI_2);
    let s = ProjSegment::<Trace>::from_points(&[1000, 0, 500], &[0, 1000, 500], (0, quarter));
    let s = s.unwrap();
    assert_eq!(s.line, Trace { a: 0.5, b: 0.5 });
    assert_eq!(s.dom, (0, 1_570_796_327));
    assert_eq!(s.line.at(0), 463_647_609);
    assert_eq!(s.top_endpoint(), 463_647_609);
    // given the other way round, the ends are put in order
    let t = ProjSegment::<Trace>::from_points(&[0, 1000, 500], &[1000, 0, 500], (quarter, 0));
    assert_eq!(t.unwrap().dom, (0, 1_570_796_327));
}

#[test]
fn new_rejects_ends_half_turns_apart() {
    let line = Trace { a: 1.0, b: 0.0 };
    assert!(ProjSegment::new(line, (5, 5)).is_none());
    assert!(ProjSegment::new(line, (0, PI)).is_none());
    assert!(ProjSegment::new(line, (-PI, 0)).is_none());
    assert!(ProjSegment::new(line, (1000 - PI, 1000)).is_none());
    assert!(ProjSegment::new(line, (PI, -PI)).is_none());
    assert!(ProjSegment::new(line, (-PI, PI)).is_none());
    assert!(ProjSegment::new(line, (0, PI - 1)).is_some());
    assert!(ProjSegment::new(line, (0, PI + 1 - PI)).is_some());
}

#[test]
fn new_orders_the_ends_of_the_shorter_arc() {
    let line = Trace { a: 1.0, b: 0.0 };
    let g = 1_000_000_000;
    assert_eq!(ProjSegment::new(line, (-g, g)).unwrap().dom, (-g, g));
    assert_eq!(ProjSegment::new(line, (g, -g)).unwrap().dom, (-g, g));
    assert_eq!(ProjSegment::new(line, (-3 * g, 3 * g)).unwrap().dom, (3 * g, -3 * g));
    assert_eq!(ProjSegment::new(line, (3 * g, -3 * g)).unwrap().dom, (3 * g, -3 * g));
    assert_eq!(ProjSegment::new(line, (g, -g)).unwrap().line, line);
}

#[test]
fn top_endpoint_is_the_higher_end() {
    let rising = Trace { a: 0.0, b: 1.0 };
    let s = ProjSegment::new(rising, (0, 1_000_000_000)).unwrap();
    assert_eq!(s.top_endpoint(), rising.at(1_000_000_000));
    assert_eq!(s.top_endpoint(), 699_521_644);
}

#[test]
fn top_endpoint_of_a_wrapping_segment_looks_at_the_seam() {
    // atan(-cos) is highest at the seam: a quarter of pi
    let line = Trace { a: -1.0, b: 0.0 };
    let g = 1_000_000_000;
    let s = ProjSegment::new(line, (3 * g, -3 * g)).unwrap();
    assert!(line.at(3 * g) < line.at(PI));
    assert_eq!(s.top_endpoint(), line.at(PI));
    assert_eq!(s.top_endpoint(), 785_398_163);
}

#[test]
fn select_cross_prefers_the_principal_solution() {
    let dom = Range { start: 0, end: 2_000_000_000 };
    assert_eq!(select_cross(500, &dom), Some(500));
    assert_eq!(select_cross(1_999_999_999, &dom), Some(1_999_999_999));
}

#[test]
fn select_cross_tries_the_other_root() {
    let dom = Range { start: 2_000_000_000, end: 3_000_000_000 };
    assert_eq!(select_cross(-1_000_000_000, &dom), Some(PI - 1_000_000_000));
    let dom = Range { start: -3_000_000_000, end: -2_000_000_000 };
    assert_eq!(select_cross(1_000_000_000, &dom), Some(1_000_000_000 - PI));
    assert_eq!(select_cross(0, &Range { start: -PI - 1, end: -PI + 1 }), Some(-PI));
}

#[test]
fn select_cross_excludes_the_bounds() {
    let dom = Range { start: 0, end: 1000 };
    assert_eq!(select_cross(0, &dom), None);
    assert_eq!(select_cross(1000, &dom), None);
    assert_eq!(select_cross(1000 - PI, &dom), None);
    assert_eq!(select_cross(5000, &dom), None);
    assert_eq!(select_cross(i64::MAX, &dom), None);
    assert_eq!(select_cross(i64::MIN, &dom), None);
}

#[test]
fn cross_point_of_two_traces() {
    // atan(cos) and atan(sin) meet at an eighth of a turn
    let falling = Trace { a: 1.0, b: 0.0 };
    let rising = Trace { a: 0.0, b: 1.0 };
    let dom = Range { start: 0, end: PI / 2 };
    assert_eq!(falling.cross_point(&rising, &dom), Some(785_398_163));
    let behind = Range { start: -PI, end: -PI / 2 };
    assert_eq!(falling.cross_point(&rising, &behind), Some(785_398_163 - PI));
    assert_eq!(falling.cross_point(&rising, &Range { start: 1_000_000_000, end: PI / 2 }), None);
}

#[test]
fn contest_gives_each_side_its_part() {
    let falling = Trace { a: 1.0, b: 0.0 };
    let rising = Trace { a: 0.0, b: 1.0 };
    let quarter = PI / 2;
    let eighth = 785_398_163;
    assert_eq!(contest(&rising, &falling, 0, quarter, 1000), Outcome::Taken(eighth, quarter));
    assert_eq!(contest(&falling, &rising, 0, quarter, 1000), Outcome::Taken(0, eighth));
    assert_eq!(contest(&falling, &rising, 0, PI / 4, 1000), Outcome::Taken(0, PI / 4));
    assert_eq!(contest(&rising, &falling, 0, PI / 4, 1000), Outcome::Untouched);
    assert_eq!(contest(&rising, &rising, 0, quarter, 1000), Outcome::Untouched);
}

#[test]
fn contest_is_stuck_without_a_crossing() {
    // the two traces differ by a constant factor and meet only where both
    // are zero, outside the range; a wide tolerance hides the order at one end
    let low = Trace { a: 0.0, b: 1.0 };
    let high = Trace { a: 0.0, b: 2.0 };
    let g = 1_000_000_000;
    assert_eq!(low.cross_point(&high, &Range { start: g / 10, end: g }), None);
    assert_eq!(compare_lines(&low, &high, g / 10, g, 1000), Verdict::Keep);
    assert_eq!(contest(&low, &high, g / 10, g, 1000), Outcome::Untouched);
    assert_eq!(contest(&high, &low, g / 10, g, 1000), Outcome::Taken(g / 10, g));
}

#[test]
fn segments_are_ordered_by_top_endpoint_alone() {
    let rising = Trace { a: 0.0, b: 1.0 };
    let falling = Trace { a: 1.0, b: 0.0 };
    let g = 1_000_000_000;
    let low = ProjSegment::new(rising, (0, g / 2)).unwrap();
    let high = ProjSegment::new(rising, (0, g)).unwrap();
    let same = ProjSegment::new(rising, (g / 2, g)).unwrap();
    assert_eq!(low.cmp(&high), Ordering::Less);
    assert_eq!(high.cmp(&low), Ordering::Greater);
    assert_eq!(high.cmp(&same), Ordering::Equal);
    assert_eq!(high.partial_cmp(&same), Some(Ordering::Equal));
    assert_eq!(low.partial_cmp(&same), Some(Ordering::Less));
    assert!(high.eq(&same));
    assert!(!high.eq(&low));
    assert!(high == same);
    assert!(high != low);
    assert!(low < high);
    assert!(high > low);
    assert!(high <= same);
    assert!(high >= same);
    // a different line with the same top endpoint is equal too
    let other = ProjSegment::new(falling, (PI / 2 - g, g)).unwrap();
    assert_eq!(other.top_endpoint(), high.top_endpoint());
    assert!(other.eq(&high));
}

#[test]
fn crossing_traces_split_their_common_range() {
    // over (0, 1) atan(cos) starts above atan(sin) and ends below it
    let falling = Trace { a: 1.0, b: 0.0 };
    let rising = Trace { a: 0.0, b: 1.0 };
    let g = 1_000_000_000;
    let lines = vec![
        ProjSegment::new(rising, (0, g)).unwrap(),
        ProjSegment::new(falling, (0, g)).unwrap(),
    ];
    assert!(lines[0] < lines[1]);
    let map = skymask(&lines, 1000).unwrap();
    assert_eq!(map, vec![(0, 785_398_163, 1), (785_398_163, g, 0)]);
}

#[test]
fn edges_of_a_square_courtyard_cover_the_circle() {
    // four walls of height 10 around the observer, corners at distance 20
    let corners: [[i64; 3]; 4] =
        [[20_000, 0, 10_000], [0, 20_000, 10_000], [-20_000, 0, 10_000], [0, -20_000, 10_000]];
    let azimuths = [0, 1_570_796_327, PI, -1_570_796_327];
    let mut lines = Vec::new();
    for k in 0..4 {
        let next = (k + 1) % 4;
        let s = ProjSegment::<Trace>::from_points(
            &corners[k],
            &corners[next],
            (azimuths[k], azimuths[next]),
        );
        lines.push(s.unwrap());
    }
    assert_eq!(lines[2].dom, (PI, -1_570_796_327));
    let map = skymask(&lines, 1000).unwrap();
    assert_eq!(
        map,
        vec![
            (-PI, -1_570_796_327, 2),
            (-1_570_796_327, 0, 3),
            (0, 1_570_796_327, 0),
            (1_570_796_327, PI, 1),
        ]
    );
}
