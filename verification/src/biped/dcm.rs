//! The reference for the divergent component of motion, and the law that tracks
//! it.
//!
//! Under the linear inverted pendulum the centre of mass splits into a stable and
//! an unstable part. The unstable one, `xi = c + c_dot / omega`, obeys
//! `xi_dot = omega (xi - p)`, where `p` is the pressure: first order, and steered
//! by where the pressure is put.
//!
//! Along a segment on which the pressure moves evenly from `p0` to `p1` the
//! solution is taken BACKWARDS, from the end of the segment to its start. With a
//! decaying exponential nothing is amplified: `xi` at the start is a weighted mean
//! of `p0`, `p1` and `xi` at the end, so the reference can never leave what the
//! pressure spans. The weights come from the exponential, which is computed
//! elsewhere.
//!
//! Points are in half-millionths of a micrometre, times in microseconds, the rate
//! `omega` in billionths of a radian per second.

use vstd::prelude::*;

use crate::biped::pressure::{ZmpPlan, Footsteps, Point2, ZmpSeg, MAX_COORDINATE, MAX_DURATION};
use crate::biped::gait::{GaitPlan, Side, Support};
use crate::root::root;

verus! {

/// The parts that weights are given in.
pub const WHOLE_WEIGHT: u64 = 0x4000_0000_0000;

/// What a stretch of time does to the unstable part, backwards: `end` is how much
/// of a deviation at the end is left at the start, `exp(-omega T)`, and `mean` is
/// the average of that over the stretch, `(1 - exp(-omega T)) / (omega T)`.
#[derive(Clone, Copy, PartialEq, Eq, Structural, Debug)]
pub struct Decay {
    pub end: u64,
    pub mean: u64,
}

impl Decay {
    /// A decaying exponential is nowhere below its end and nowhere above one.
    pub open spec fn valid(self) -> bool {
        self.end <= self.mean <= WHOLE_WEIGHT
    }

    /// Nothing is left of the stretch.
    pub open spec fn over(self) -> bool {
        self.end == WHOLE_WEIGHT && self.mean == WHOLE_WEIGHT
    }
}

/// The weighted sum of a coordinate of both ends of the pressure and of the
/// unstable part at the end.
pub open spec fn weighed(p0: int, p1: int, xi_end: int, w: Decay) -> int {
    (WHOLE_WEIGHT - w.mean) * p0 + (w.mean - w.end) * p1 + w.end * xi_end
}

/// A coordinate of the unstable part at the start of a segment, rounded down.
pub open spec fn backed(p0: int, p1: int, xi_end: int, w: Decay) -> int {
    weighed(p0, p1, xi_end, w) / (WHOLE_WEIGHT as int)
}

proof fn lemma_term(w: int, p: int, lo: int, hi: int)
    requires
        w >= 0,
        lo <= p <= hi,
    ensures
        w * lo <= w * p <= w * hi,
        lo * w <= p * w <= hi * w,
{
    assert(w * lo <= w * p <= w * hi && lo * w <= p * w <= hi * w) by (nonlinear_arith)
        requires
            w >= 0,
            lo <= p <= hi,
    ;
}

/// Whatever the pressure and the unstable part at the end lie between, the
/// unstable part at the start lies between as well.
pub proof fn law_reference_stays_in_the_hull(
    p0: int,
    p1: int,
    xi_end: int,
    w: Decay,
    lo: int,
    hi: int,
)
    requires
        w.valid(),
        lo <= p0 <= hi,
        lo <= p1 <= hi,
        lo <= xi_end <= hi,
    ensures
        lo <= backed(p0, p1, xi_end, w) <= hi,
        WHOLE_WEIGHT * lo <= weighed(p0, p1, xi_end, w) <= WHOLE_WEIGHT * hi,
{
    let (a, b, c) = (WHOLE_WEIGHT - w.mean, w.mean - w.end, w.end as int);
    lemma_term(a, p0, lo, hi);
    lemma_term(b, p1, lo, hi);
    lemma_term(c, xi_end, lo, hi);
    assert(a * lo + b * lo + c * lo == (a + b + c) * lo) by (nonlinear_arith);
    assert(a * hi + b * hi + c * hi == (a + b + c) * hi) by (nonlinear_arith);
}

/// At the end of a segment the reference is what the segment ends with, and where
/// neither the pressure nor the unstable part moves it stays.
pub proof fn law_reference_meets_its_end(p0: int, p1: int, xi_end: int, w: Decay)
    requires
        w.valid(),
    ensures
        w.over() ==> backed(p0, p1, xi_end, w) == xi_end,
        p0 == xi_end && p1 == xi_end ==> backed(p0, p1, xi_end, w) == xi_end,
{
    if w.over() {
        assert((WHOLE_WEIGHT - w.mean) * p0 == 0) by (nonlinear_arith)
            requires
                w.mean == WHOLE_WEIGHT,
        ;
        assert((w.mean - w.end) * p1 == 0) by (nonlinear_arith)
            requires
                w.mean == w.end,
        ;
    }
    if p0 == xi_end && p1 == xi_end {
        law_reference_stays_in_the_hull(p0, p1, xi_end, w, xi_end, xi_end);
    }
}

fn back(p0: i128, p1: i128, xi_end: i128, w: &Decay) -> (r: i128)
    requires
        w.valid(),
        in_range(p0 as int),
        in_range(p1 as int),
        in_range(xi_end as int),
    ensures
        r == backed(p0 as int, p1 as int, xi_end as int, *w),
        in_range(r as int),
{
    let a: i128 = WHOLE_WEIGHT as i128 - w.mean as i128;
    let b: i128 = w.mean as i128 - w.end as i128;
    let c: i128 = w.end as i128;
    proof {
        let m = MAX_COORDINATE as int;
        law_reference_stays_in_the_hull(p0 as int, p1 as int, xi_end as int, *w, -m, m);
        lemma_term(a as int, p0 as int, -m, m);
        lemma_term(b as int, p1 as int, -m, m);
        lemma_term(c as int, xi_end as int, -m, m);
    }
    let sum: i128 = a * p0 + b * p1 + c * xi_end;
    match sum.checked_div_euclid(WHOLE_WEIGHT as i128) {
        Some(q) => q,
        None => 0,
    }
}

/// A coordinate is small enough to be moved along segments.
pub open spec fn in_range(v: int) -> bool {
    -MAX_COORDINATE <= v <= MAX_COORDINATE
}

/// Both coordinates are.
pub open spec fn point_in_range(p: Point2) -> bool {
    in_range(p.x as int) && in_range(p.y as int)
}

/// A segment of the planned pressure, with its ends on the ground.
#[derive(Clone, Copy, PartialEq, Eq, Structural, Debug)]
pub struct Span {
    pub seg: ZmpSeg,
    pub p0: Point2,
    pub p1: Point2,
}

/// The unstable part while the pressure is at `p` on its way to `p1`, with `left`
/// for what is left of the segment.
pub open spec fn carried(p: Point2, p1: Point2, xi_end: Point2, left: Decay) -> Point2 {
    Point2 {
        x: backed(p.x as int, p1.x as int, xi_end.x as int, left) as i128,
        y: backed(p.y as int, p1.y as int, xi_end.y as int, left) as i128,
    }
}

fn carry(p: &Point2, p1: &Point2, xi_end: &Point2, left: &Decay) -> (r: Point2)
    requires
        left.valid(),
        point_in_range(*p),
        point_in_range(*p1),
        point_in_range(*xi_end),
    ensures
        r == carried(*p, *p1, *xi_end, *left),
        point_in_range(r),
{
    Point2 { x: back(p.x, p1.x, xi_end.x, left), y: back(p.y, p1.y, xi_end.y, left) }
}

impl Span {
    pub open spec fn valid(self) -> bool {
        &&& point_in_range(self.p0)
        &&& point_in_range(self.p1)
        &&& self.seg.t1 - self.seg.t0 <= MAX_DURATION
    }

    /// Where the pressure is planned at `t`, rounded down.
    pub open spec fn pressure(self, t: u64) -> Point2 {
        let f = self.seg.passed(t);
        Point2 {
            x: (crate::biped::pressure::on_the_way(self.p0.x as int, self.p1.x as int, f) / (
            f.den as int)) as i128,
            y: (crate::biped::pressure::on_the_way(self.p0.y as int, self.p1.y as int, f) / (
            f.den as int)) as i128,
        }
    }

    fn pressure_at(&self, t: u64) -> (r: Point2)
        requires
            self.valid(),
        ensures
            r == self.pressure(t),
            point_in_range(r),
    {
        let at: (Point2, u64) = self.seg.at(t, &self.p0, &self.p1);
        proof {
            lemma_pressure_between(*self, t);
        }
        Point2 { x: part(at.0.x, at.1), y: part(at.0.y, at.1) }
    }
}

fn part(v: i128, den: u64) -> (r: i128)
    requires
        den > 0,
    ensures
        r == v as int / (den as int),
{
    proof {
        lemma_part_fits(v as int, den as int);
    }
    match v.checked_div_euclid(den as i128) {
        Some(q) => q,
        None => 0,
    }
}

proof fn lemma_part_fits(v: int, den: int)
    requires
        den > 0,
    ensures
        v >= 0 ==> 0 <= v / den <= v,
        v < 0 ==> v <= v / den <= 0,
{
    assert(v >= 0 ==> 0 <= v / den <= v) by (nonlinear_arith)
        requires
            den > 0,
    ;
    assert(v < 0 ==> v <= v / den <= 0) by (nonlinear_arith)
        requires
            den > 0,
    ;
}

proof fn lemma_quotient_between(v: int, den: int, lo: int, hi: int)
    requires
        den > 0,
        lo * den <= v <= hi * den,
    ensures
        lo <= v / den <= hi,
{
    assert(lo <= v / den <= hi) by (nonlinear_arith)
        requires
            den > 0,
            lo * den <= v <= hi * den,
    ;
}

pub(crate) proof fn lemma_pressure_between(span: Span, t: u64)
    requires
        span.valid(),
    ensures
        span.seg.passed(t).den > 0,
        ({
            let f = span.seg.passed(t);
            let x = crate::biped::pressure::on_the_way(span.p0.x as int, span.p1.x as int, f);
            let y = crate::biped::pressure::on_the_way(span.p0.y as int, span.p1.y as int, f);
            in_range(x / (f.den as int)) && in_range(y / (f.den as int))
        }),
{
    let f = span.seg.passed(t);
    let den = f.den as int;
    let m = MAX_COORDINATE as int;
    crate::biped::pressure::law_pressure_stays_between(
        span.seg,
        t,
        span.p0.x as int,
        span.p1.x as int,
    );
    crate::biped::pressure::law_pressure_stays_between(
        span.seg,
        t,
        span.p0.y as int,
        span.p1.y as int,
    );
    lemma_term(den, span.p0.x as int, -m, m);
    lemma_term(den, span.p1.x as int, -m, m);
    lemma_term(den, span.p0.y as int, -m, m);
    lemma_term(den, span.p1.y as int, -m, m);
    let x = crate::biped::pressure::on_the_way(span.p0.x as int, span.p1.x as int, f);
    let y = crate::biped::pressure::on_the_way(span.p0.y as int, span.p1.y as int, f);
    lemma_quotient_between(x, den, -m, m);
    lemma_quotient_between(y, den, -m, m);
}

// ---------------------------------------------------------------- the plan

/// The unstable part at the end of each segment. The last segment ends at rest
/// over its pressure: anything else asks the robot to still be moving when the
/// plan runs out.
pub open spec fn end_of(spans: Seq<Span>, decays: Seq<Decay>, i: int) -> Point2
    decreases spans.len() - i,
{
    if i + 1 >= spans.len() {
        spans[i].p1
    } else {
        carried(
            spans[i + 1].p0,
            spans[i + 1].p1,
            end_of(spans, decays, i + 1),
            decays[i + 1],
        )
    }
}

/// A planned pressure and the unstable part that lands on it.
pub struct DcmPlan {
    /// How fast the unstable part runs away from the pressure.
    pub omega: u64,
    pub zmp: ZmpPlan,
    pub spans: Vec<Span>,
    /// What each whole segment does to the unstable part.
    pub decays: Vec<Decay>,
    /// The unstable part at the END of each segment.
    pub xi_eos: Vec<Point2>,
}

/// Where the unstable part should be, how fast it should move, and where the
/// pressure was planned while it does that.
#[derive(Clone, Copy, PartialEq, Eq, Structural, Debug)]
pub struct DcmRef {
    pub xi: Point2,
    pub xi_dot: Point2,
    pub p: Point2,
}

impl DcmRef {
    /// The reference moves no faster than any plan asks.
    pub open spec fn is_slow(self) -> bool {
        &&& -MAX_SPEED <= self.xi_dot.x <= MAX_SPEED
        &&& -MAX_SPEED <= self.xi_dot.y <= MAX_SPEED
    }
}

/// How fast a coordinate of the unstable part moves off the pressure,
/// `omega (xi - p)`, rounded down.
pub open spec fn leaving(xi: int, p: int, omega: int) -> int {
    omega * (xi - p) / 1_000_000_000
}

/// Both coordinates of it.
pub open spec fn departure(xi: Point2, p: Point2, omega: u64) -> Point2 {
    Point2 {
        x: leaving(xi.x as int, p.x as int, omega as int) as i128,
        y: leaving(xi.y as int, p.y as int, omega as int) as i128,
    }
}

fn leave(xi: i128, p: i128, omega: u64) -> (r: i128)
    requires
        in_range(xi as int),
        in_range(p as int),
        omega <= MAX_OMEGA,
    ensures
        r == leaving(xi as int, p as int, omega as int),
        -MAX_SPEED <= r <= MAX_SPEED,
{
    let off: i128 = xi - p;
    proof {
        let m = 2 * MAX_COORDINATE as int;
        lemma_term(omega as int, off as int, -m, m);
        lemma_term(m, omega as int, 0, MAX_OMEGA as int);
        assert(omega * (-m) == -(m * omega)) by (nonlinear_arith);
        assert(omega * m == m * omega) by (nonlinear_arith);
    }
    part(omega as i128 * off, 1_000_000_000)
}

/// No rate is higher: that of a mass a micrometre above the ground.
pub const MAX_OMEGA: u64 = 0x400_0000_0000;

/// No reference moves faster.
pub const MAX_SPEED: i128 = 0x800_0000_0000_0000_0000_0000;

/// `omega` is the pendulum's rate at the height `z` in micrometres: its square is
/// `g / z`, up to the last digit.
pub open spec fn is_rate(omega: int, z: int) -> bool {
    omega * omega * z <= GRAVITY * 1_000_000_000_000_000_000 < (omega + 1) * (omega + 1) * z
}

/// The rate of the pendulum whose mass is `z_com` micrometres above the ground,
/// `sqrt(g / z)`, rounded down.
pub fn natural_rate(z_com: u64) -> (omega: u64)
    requires
        z_com > 0,
    ensures
        is_rate(omega as int, z_com as int),
        omega <= MAX_OMEGA,
{
    let all: u128 = GRAVITY as u128 * 1_000_000_000_000_000_000;
    let most: u128 = all / z_com as u128;
    let omega: u64 = root(most);
    proof {
        let (z, up) = (z_com as int, (omega + 1) * (omega + 1));
        assert(most * z <= all < (most + 1) * z) by (nonlinear_arith)
            requires
                z > 0,
                most == all as int / z,
        ;
        assert(most <= all) by (nonlinear_arith)
            requires
                z > 0,
                most * z <= all,
                most >= 0,
        ;
        assert(omega * omega * z <= most * z) by (nonlinear_arith)
            requires
                omega * omega <= most,
                z > 0,
        ;
        assert((most + 1) * z <= up * z) by (nonlinear_arith)
            requires
                most + 1 <= up,
                z > 0,
        ;
        assert(omega <= 0x400_0000_0000) by (nonlinear_arith)
            requires
                omega * omega <= 9_810_000_000_000_000_000_000_000,
                omega >= 0,
        ;
    }
    omega
}

/// A higher mass falls no faster.
pub proof fn law_higher_falls_slower(omega1: int, z1: int, omega2: int, z2: int)
    requires
        0 <= omega1,
        0 <= omega2,
        0 < z1 <= z2,
        is_rate(omega1, z1),
        is_rate(omega2, z2),
    ensures
        omega2 <= omega1,
{
    if omega2 > omega1 {
        let a = (omega1 + 1) * (omega1 + 1);
        let b = omega2 * omega2;
        assert(a <= b) by (nonlinear_arith)
            requires
                a == (omega1 + 1) * (omega1 + 1),
                b == omega2 * omega2,
                0 <= omega1 < omega2,
        ;
        assert(a * z1 <= b * z2) by (nonlinear_arith)
            requires
                0 <= a <= b,
                0 < z1 <= z2,
        {
            assert(a * z1 <= a * z2);
            assert(a * z2 <= b * z2);
        }
    }
}

/// No foot stands further out than this, in micrometres.
pub const MAX_STEP: i64 = 0x100_0000_0000;

/// The footsteps are within range.
pub open spec fn steps_in_range(steps: Seq<Footsteps>) -> bool {
    forall|i: int|
        0 <= i < steps.len() ==> {
            let s = #[trigger] steps[i];
            &&& -MAX_STEP <= s.left_x <= MAX_STEP
            &&& -MAX_STEP <= s.left_y <= MAX_STEP
            &&& -MAX_STEP <= s.right_x <= MAX_STEP
            &&& -MAX_STEP <= s.right_y <= MAX_STEP
        }
}

/// A point of the plan on the ground.
pub open spec fn ground_point(
    p: crate::biped::pressure::PressurePoint,
    steps: Seq<Footsteps>,
    scale: int,
) -> Point2 {
    Point2 { x: p.place(steps, scale).0 as i128, y: p.place(steps, scale).1 as i128 }
}

/// A segment of the plan on the ground.
pub open spec fn span_of(seg: ZmpSeg, steps: Seq<Footsteps>, scale: int) -> Span {
    Span {
        seg,
        p0: ground_point(seg.p0, steps, scale),
        p1: ground_point(seg.p1, steps, scale),
    }
}

proof fn lemma_rests_are_slices(slices: Seq<crate::biped::gait::Slice>, i: int)
    requires
        0 <= i <= slices.len(),
        slices.len() <= usize::MAX,
    ensures
        crate::biped::pressure::rest_before(slices, i) matches Some(p) ==> 0 <= p.slice_of()
            < slices.len(),
    decreases i,
{
    if i > 0 {
        lemma_rests_are_slices(slices, i - 1);
    }
}

proof fn lemma_next_rests_are_slices(slices: Seq<crate::biped::gait::Slice>, i: int)
    requires
        0 <= i <= slices.len(),
        slices.len() <= usize::MAX,
    ensures
        crate::biped::pressure::rest_from(slices, i) matches Some(p) ==> 0 <= p.slice_of()
            < slices.len(),
    decreases slices.len() - i,
{
    if i < slices.len() {
        lemma_next_rests_are_slices(slices, i + 1);
    }
}

proof fn lemma_place_in_range(
    p: crate::biped::pressure::PressurePoint,
    steps: Seq<Footsteps>,
    scale: int,
)
    requires
        0 <= p.slice_of() < steps.len(),
        steps_in_range(steps),
        0 <= scale <= 0xffff_ffff,
    ensures
        in_range(p.place(steps, scale).0),
        in_range(p.place(steps, scale).1),
{
    let s = steps[p.slice_of()];
    assert(-MAX_STEP <= s.left_x <= MAX_STEP);
    if let crate::biped::pressure::PressurePoint::Foot { side, .. } = p {
        lemma_pull_in_range(s.at(0).0, s.at(1).0, s.at(side).0, scale);
        lemma_pull_in_range(s.at(0).1, s.at(1).1, s.at(side).1, scale);
    }
}

proof fn lemma_pull_in_range(left: int, right: int, foot: int, scale: int)
    requires
        -MAX_STEP <= left <= MAX_STEP,
        -MAX_STEP <= right <= MAX_STEP,
        -MAX_STEP <= foot <= MAX_STEP,
        0 <= scale <= 0xffff_ffff,
    ensures
        in_range(crate::biped::pressure::pulled(left, right, foot, scale)),
{
    let out = 2 * foot - (left + right);
    let m: int = 0x400_0000_0000;
    assert(-(m * 0xffff_ffff) <= out * scale <= m * 0xffff_ffff) by (nonlinear_arith)
        requires
            -m <= out <= m,
            0 <= scale <= 0xffff_ffff,
            m > 0,
    ;
}

impl DcmPlan {
    pub open spec fn valid(&self) -> bool {
        &&& self.omega <= MAX_OMEGA
        &&& self.spans@.len() > 0
        &&& self.zmp.segs@.len() == self.spans@.len()
        &&& self.decays@.len() == self.spans@.len()
        &&& self.xi_eos@.len() == self.spans@.len()
        &&& forall|i: int| 0 <= i < self.spans@.len() ==> (#[trigger] self.spans@[i]).valid()
        &&& forall|i: int| 0 <= i < self.decays@.len() ==> (#[trigger] self.decays@[i]).valid()
        &&& forall|i: int|
            0 <= i < self.xi_eos@.len() ==> {
                &&& point_in_range(#[trigger] self.xi_eos@[i])
                &&& self.xi_eos@[i] == end_of(self.spans@, self.decays@, i)
            }
    }

    /// The plan for stepping in place: the feet stand where they stand throughout.
    pub fn from_schedule(
        plan: &GaitPlan,
        steps: &Footsteps,
        decays: Vec<Decay>,
        z_com: u64,
        lateral_scale: u32,
    ) -> (r: DcmPlan)
        requires
            z_com > 0,
            plan.slices@.len() > 0,
            decays@.len() == plan.slices@.len(),
            steps_in_range(seq![*steps]),
            forall|i: int| 0 <= i < decays@.len() ==> (#[trigger] decays@[i]).valid(),
            forall|i: int|
                0 <= i < plan.slices@.len() ==> (#[trigger] plan.slices@[i]).t1
                    - plan.slices@[i].t0 <= MAX_DURATION,
        ensures
            r.valid(),
            is_rate(r.omega as int, z_com as int),
            r.zmp.segs@ == Seq::new(
                plan.slices@.len(),
                |i: int| crate::biped::pressure::segment(plan.slices@, i),
            ),
            r.spans@ == Seq::new(
                plan.slices@.len(),
                |i: int|
                    span_of(
                        crate::biped::pressure::segment(plan.slices@, i),
                        Seq::new(plan.slices@.len(), |k: int| *steps),
                        lateral_scale as int,
                    ),
            ),
            r.decays == decays,
    {
        let mut all: Vec<Footsteps> = Vec::new();
        while all.len() < plan.slices.len()
            invariant
                all@.len() <= plan.slices@.len(),
                forall|k: int| 0 <= k < all@.len() ==> #[trigger] all@[k] == *steps,
            decreases plan.slices.len() - all.len(),
        {
            all.push(*steps);
        }
        proof {
            assert(seq![*steps][0] == *steps);
            assert(all@ =~= Seq::new(plan.slices@.len(), |k: int| *steps));
        }
        DcmPlan::from_footsteps(plan, &all, decays, z_com, lateral_scale)
    }

    /// The plan of a support schedule: where the feet stand in each slice, what
    /// each slice does to the unstable part, how high the mass is in micrometres,
    /// and how far the pressure goes towards the stance foot, in millionths.
    pub fn from_footsteps(
        plan: &GaitPlan,
        steps: &Vec<Footsteps>,
        decays: Vec<Decay>,
        z_com: u64,
        lateral_scale: u32,
    ) -> (r: DcmPlan)
        requires
            z_com > 0,
            plan.slices@.len() > 0,
            steps@.len() == plan.slices@.len(),
            decays@.len() == plan.slices@.len(),
            steps_in_range(steps@),
            forall|i: int| 0 <= i < decays@.len() ==> (#[trigger] decays@[i]).valid(),
            forall|i: int|
                0 <= i < plan.slices@.len() ==> (#[trigger] plan.slices@[i]).t1
                    - plan.slices@[i].t0 <= MAX_DURATION,
        ensures
            r.valid(),
            is_rate(r.omega as int, z_com as int),
            r.zmp.segs@ == Seq::new(
                plan.slices@.len(),
                |i: int| crate::biped::pressure::segment(plan.slices@, i),
            ),
            r.spans@ == Seq::new(
                plan.slices@.len(),
                |i: int|
                    span_of(
                        crate::biped::pressure::segment(plan.slices@, i),
                        steps@,
                        lateral_scale as int,
                    ),
            ),
            r.decays == decays,
    {
        let pressure: ZmpPlan = ZmpPlan::from_schedule(plan);
        let n: usize = plan.slices.len();
        let ghost slices = plan.slices@;
        let ghost want = Seq::new(
            slices.len(),
            |i: int|
                span_of(crate::biped::pressure::segment(slices, i), steps@, lateral_scale as int),
        );
        let mut spans: Vec<Span> = Vec::new();
        let mut i: usize = 0;
        while i < n
            invariant
                i <= n,
                n == slices.len(),
                slices == plan.slices@,
                steps@.len() == n,
                steps_in_range(steps@),
                pressure.segs@ == Seq::new(
                    slices.len(),
                    |i: int| crate::biped::pressure::segment(slices, i),
                ),
                want == Seq::new(
                    slices.len(),
                    |i: int|
                        span_of(
                            crate::biped::pressure::segment(slices, i),
                            steps@,
                            lateral_scale as int,
                        ),
                ),
                forall|k: int|
                    0 <= k < slices.len() ==> (#[trigger] slices[k]).t1 - slices[k].t0
                        <= MAX_DURATION,
                spans@ == want.take(i as int),
                forall|k: int| 0 <= k < spans@.len() ==> (#[trigger] spans@[k]).valid(),
            decreases n - i,
        {
            let seg: ZmpSeg = pressure.segs[i];
            proof {
                lemma_rests_are_slices(slices, i as int);
                lemma_next_rests_are_slices(slices, i + 1);
                lemma_place_in_range(seg.p0, steps@, lateral_scale as int);
                lemma_place_in_range(seg.p1, steps@, lateral_scale as int);
                assert(slices[i as int].t1 - slices[i as int].t0 <= MAX_DURATION);
            }
            let span: Span = Span {
                seg,
                p0: seg.p0.on_ground(steps, lateral_scale),
                p1: seg.p1.on_ground(steps, lateral_scale),
            };
            proof {
                assert(span == want[i as int]);
            }
            spans.push(span);
            proof {
                assert(spans@ =~= want.take(i + 1));
            }
            i += 1;
        }
        proof {
            assert(spans@ =~= want);
        }
        let mut xi_eos: Vec<Point2> = Vec::new();
        let mut k: usize = 0;
        while k < n
            invariant
                k <= n,
                n > 0,
                n == spans@.len(),
                xi_eos@.len() == k,
                forall|j: int| 0 <= j < k ==> #[trigger] xi_eos@[j] == spans@[j].p1,
            decreases n - k,
        {
            xi_eos.push(spans[k].p1);
            k += 1;
        }
        proof {
            assert(xi_eos@[n - 1] == end_of(spans@, decays@, n - 1));
            assert(spans@[n - 1].valid());
        }
        let mut at: usize = n - 1;
        while at > 0
            invariant
                at < n,
                n == spans@.len(),
                n == decays@.len(),
                n == xi_eos@.len(),
                forall|j: int| 0 <= j < n ==> (#[trigger] spans@[j]).valid(),
                forall|j: int| 0 <= j < n ==> (#[trigger] decays@[j]).valid(),
                forall|j: int|
                    at <= j < n ==> {
                        &&& point_in_range(#[trigger] xi_eos@[j])
                        &&& xi_eos@[j] == end_of(spans@, decays@, j)
                    },
            decreases at,
        {
            proof {
                assert(spans@[at as int].valid());
                assert(decays@[at as int].valid());
                assert(point_in_range(xi_eos@[at as int]));
            }
            let start: Point2 = carry(&spans[at].p0, &spans[at].p1, &xi_eos[at], &decays[at]);
            xi_eos.set(at - 1, start);
            at -= 1;
        }
        DcmPlan { omega: natural_rate(z_com), zmp: pressure, spans, decays, xi_eos }
    }

    /// The segment covering `t`.
    pub open spec fn index(&self, t: u64) -> int {
        crate::biped::pressure::covering(self.zmp.segs@, t, 0)
    }

    /// The segment covering `t`.
    pub fn index_at(&self, t: u64) -> (r: usize)
        requires
            self.valid(),
        ensures
            r == self.index(t),
            r < self.spans@.len(),
    {
        self.zmp.index_at(t)
    }

    /// The unstable part planned for the end of the segment covering `t`.
    pub fn eos_at(&self, t: u64) -> (r: Point2)
        requires
            self.valid(),
        ensures
            r == self.xi_eos@[self.index(t)],
    {
        self.xi_eos[self.index_at(t)]
    }

    /// The reference while segment `i` is gone through at `t`, with `left` for what
    /// is left of it.
    pub open spec fn within(&self, i: int, t: u64, left: Decay) -> DcmRef {
        let p = self.spans@[i].pressure(t);
        let xi = carried(p, self.spans@[i].p1, self.xi_eos@[i], left);
        DcmRef { xi, xi_dot: departure(xi, p, self.omega), p }
    }

    /// The reference at `t`. `left` says what is left of the segment covering `t`
    /// does to the unstable part.
    pub fn reference(&self, t: u64, left: &Decay) -> (r: DcmRef)
        requires
            self.valid(),
            left.valid(),
        ensures
            r == self.within(self.index(t), t, *left),
            point_in_range(r.xi),
            point_in_range(r.p),
            r.is_slow(),
    {
        let i: usize = self.index_at(t);
        proof {
            assert(self.spans@[i as int].valid());
            assert(point_in_range(self.xi_eos@[i as int]));
        }
        let p: Point2 = self.spans[i].pressure_at(t);
        let xi: Point2 = carry(&p, &self.spans[i].p1, &self.xi_eos[i], left);
        let xi_dot: Point2 = Point2 {
            x: leave(xi.x, p.x, self.omega),
            y: leave(xi.y, p.y, self.omega),
        };
        DcmRef { xi, xi_dot, p }
    }

    /// The numbers hold both coordinates of the prediction.
    pub open spec fn foresees(&self, t: u64, xi: Point2, grown: Growth) -> bool {
        let span = self.spans@[self.index(t)];
        let p = span.pressure(t);
        &&& foreseeable(p.x as int, span.p1.x as int, xi.x as int, grown)
        &&& foreseeable(p.y as int, span.p1.y as int, xi.y as int, grown)
    }

    /// Where `xi` is at the end of the segment covering `t`.
    pub open spec fn foreseen(&self, t: u64, xi: Point2, grown: Growth) -> Point2 {
        let span = self.spans@[self.index(t)];
        let p = span.pressure(t);
        Point2 {
            x: ahead(p.x as int, span.p1.x as int, xi.x as int, grown) as i128,
            y: ahead(p.y as int, span.p1.y as int, xi.y as int, grown) as i128,
        }
    }

    /// Where the measured unstable part will be at the end of the segment covering
    /// `t`, if the pressure follows the plan from here. This is what footstep
    /// adaptation steers on: the next foot should land under where the motion is
    /// going, not under where the plan assumed it would go.
    ///
    /// It looks FORWARD, over what is left of the segment: `grown` says what that
    /// makes of a deviation. There is nothing where the deviation outgrows the
    /// numbers.
    pub fn predict_eos(&self, t: u64, xi: &Point2, grown: &Growth) -> (r: Option<Point2>)
        requires
            self.valid(),
            grown.valid(),
            point_in_range(*xi),
        ensures
            r is Some <==> self.foresees(t, *xi, *grown),
            r matches Some(end) ==> end == self.foreseen(t, *xi, *grown),
    {
        let i: usize = self.index_at(t);
        proof {
            assert(self.spans@[i as int].valid());
        }
        let p: Point2 = self.spans[i].pressure_at(t);
        let p1: Point2 = self.spans[i].p1;
        match (forward(p.x, p1.x, xi.x, grown), forward(p.y, p1.y, xi.y, grown)) {
            (Some(x), Some(y)) => Some(Point2 { x, y }),
            _ => None,
        }
    }
}

/// What a stretch of time does to the unstable part, forwards, in parts of `whole`:
/// `end` is what a deviation grows to, `exp(omega T)`, and `mean` is the average of
/// that over the stretch, `(exp(omega T) - 1) / (omega T)`. The parts can be large
/// where the growth is.
#[derive(Clone, Copy, PartialEq, Eq, Structural, Debug)]
pub struct Growth {
    pub end: i128,
    pub mean: i128,
    pub whole: i128,
}

impl Growth {
    /// A growing exponential is nowhere below one and nowhere above its end.
    pub open spec fn valid(self) -> bool {
        0 < self.whole <= self.mean <= self.end
    }

    /// Nothing is left of the stretch.
    pub open spec fn over(self) -> bool {
        self.end == self.whole && self.mean == self.whole
    }

    /// What the same stretch does backwards: the weights are those of `left`, each
    /// rounded to a whole part one way or the other.
    pub open spec fn undoes(self, left: Decay) -> bool {
        &&& -self.end <= left.end * self.end - WHOLE_WEIGHT * self.whole <= self.end
        &&& -self.end <= left.mean * self.end - WHOLE_WEIGHT * self.mean <= self.end
    }
}

impl Decay {
    /// The same stretch forwards, in parts of what it leaves.
    pub open spec fn reversed(self) -> Growth {
        Growth { end: WHOLE_WEIGHT as i128, mean: self.mean as i128, whole: self.end as i128 }
    }
}

/// A stretch forwards undoes the same stretch backwards.
pub proof fn law_reversed_growth_undoes(left: Decay)
    requires
        left.valid(),
        left.end > 0,
    ensures
        left.reversed().valid(),
        left.reversed().undoes(left),
{
    let (w, e, m) = (WHOLE_WEIGHT as int, left.end as int, left.mean as int);
    assert(e * w == w * e && m * w == w * m) by (nonlinear_arith);
}

/// How far a coordinate at the end of a segment is off the pressure there, in parts
/// of the growth's whole.
pub open spec fn outgrown(p: int, p1: int, xi: int, grown: Growth) -> int {
    grown.end * (xi - p) + grown.mean * (p - p1)
}

/// A coordinate of the unstable part at the end of a segment, from that at its
/// start, rounded down.
pub open spec fn ahead(p: int, p1: int, xi: int, grown: Growth) -> int {
    p1 + outgrown(p, p1, xi, grown) / (grown.whole as int)
}

/// The largest deviation that is followed.
pub const MAX_GROWN: i128 = 0x2000_0000_0000_0000_0000_0000_0000_0000;

/// The numbers hold what the deviation grows to.
pub open spec fn foreseeable(p: int, p1: int, xi: int, grown: Growth) -> bool {
    &&& -MAX_GROWN <= grown.end * (xi - p) <= MAX_GROWN
    &&& -MAX_GROWN <= grown.mean * (p - p1) <= MAX_GROWN
}

fn forward(p: i128, p1: i128, xi: i128, grown: &Growth) -> (r: Option<i128>)
    requires
        grown.valid(),
        in_range(p as int),
        in_range(p1 as int),
        in_range(xi as int),
    ensures
        r is Some <==> foreseeable(p as int, p1 as int, xi as int, *grown),
        r matches Some(v) ==> v == ahead(p as int, p1 as int, xi as int, *grown),
{
    match (grown.end.checked_mul(xi - p), grown.mean.checked_mul(p - p1)) {
        (Some(a), Some(b)) => {
            if -MAX_GROWN <= a && a <= MAX_GROWN && -MAX_GROWN <= b && b <= MAX_GROWN {
                proof {
                    lemma_part_fits(a + b, grown.whole as int);
                }
                match (a + b).checked_div_euclid(grown.whole) {
                    Some(q) => Some(p1 + q),
                    None => None,
                }
            } else {
                None
            }
        },
        _ => None,
    }
}

/// At the end of a segment the prediction is what was measured.
pub proof fn law_prediction_is_exact_at_the_end(p: int, p1: int, xi: int, now: Growth)
    requires
        now.valid(),
        now.over(),
    ensures
        ahead(p, p1, xi, now) == xi,
{
    let w = now.whole as int;
    assert((w * (xi - p) + w * (p - p1)) / w == xi - p1) by (nonlinear_arith)
        requires
            w > 0,
    ;
}

/// Predicting from the reference gives the planned end back, up to what rounding
/// has grown to: a unit of the reference, and a part of the weights.
pub proof fn law_prediction_undoes_the_reference(
    p: int,
    p1: int,
    xi_end: int,
    left: Decay,
    grown: Growth,
)
    requires
        left.valid(),
        grown.valid(),
        grown.undoes(left),
    ensures
        is_back(
            ahead(p, p1, backed(p, p1, xi_end, left), grown),
            p,
            p1,
            xi_end,
            grown,
        ),
{
    let w = WHOLE_WEIGHT as int;
    let (g, m, v) = (grown.end as int, grown.mean as int, grown.whole as int);
    let (e, n) = (left.end as int, left.mean as int);
    let x = backed(p, p1, xi_end, left);
    let sum = weighed(p, p1, xi_end, left);
    let lost = sum - w * x;
    assert(0 <= lost < w);
    // What the weights' rounding costs.
    let (de, dn) = (e * g - w * v, n * g - w * m);
    let (u1, u2) = (p1 - p, xi_end - p1);
    let cost = dn * u1 + de * u2;
    lemma_cost(dn, u1, g);
    lemma_cost(de, u2, g);
    let top = outgrown(p, p1, x, grown);
    let off = x - p;
    assert(sum == w * p + n * u1 + e * u2) by (nonlinear_arith)
        requires
            sum == (w - n) * p + (n - e) * p1 + e * xi_end,
            u1 == p1 - p,
            u2 == xi_end - p1,
    ;
    assert(w * off == n * u1 + e * u2 - lost) by (nonlinear_arith)
        requires
            sum == w * p + n * u1 + e * u2,
            lost == sum - w * x,
            off == x - p,
    ;
    assert(m * (p - p1) == -(m * u1)) by (nonlinear_arith)
        requires
            u1 == p1 - p,
    ;
    assert(w * (g * off - m * u1) == g * (n * u1 + e * u2 - lost) - w * (m * u1))
        by (nonlinear_arith)
        requires
            w * off == n * u1 + e * u2 - lost,
    ;
    assert(g * (n * u1 + e * u2 - lost) == (n * g) * u1 + (e * g) * u2 - g * lost)
        by (nonlinear_arith);
    assert(dn * u1 == (n * g) * u1 - w * (m * u1)) by (nonlinear_arith)
        requires
            dn == n * g - w * m,
    ;
    assert(de * u2 == (e * g) * u2 - w * (v * u2)) by (nonlinear_arith)
        requires
            de == e * g - w * v,
    ;
    assert(w * (top - v * u2) == w * top - w * (v * u2)) by (nonlinear_arith);
    assert(w * (top - v * u2) == cost - g * lost);
    assert(0 <= g * lost <= g * w) by (nonlinear_arith)
        requires
            g > 0,
            0 <= lost <= w,
    ;
    let q = top / v;
    assert(top - v < v * q <= top) by (nonlinear_arith)
        requires
            v > 0,
            q == top / v,
    ;
    let gap = q - u2;
    assert(w * v * gap == w * (v * q - top) + w * (top - v * u2)) by (nonlinear_arith)
        requires
            gap == q - u2,
    ;
    let rest = v * q - top;
    assert(-(w * v) <= w * rest <= 0) by (nonlinear_arith)
        requires
            -v <= rest <= 0,
            w > 0,
    ;
    let (s1, s2) = (size(p - p1), size(xi_end - p1));
    assert(g * (w + s1 + s2) == g * w + g * s1 + g * s2) by (nonlinear_arith);
    assert(ahead(p, p1, x, grown) - xi_end == gap);
    assert((w * v) * (-gap) == -(w * v * gap)) by (nonlinear_arith);
}

/// How large a number is.
pub open spec fn size(v: int) -> int {
    if v < 0 {
        -v
    } else {
        v
    }
}

/// `seen` is where the segment was planned to end, up to the grown rounding of the
/// reference and of its weights.
pub open spec fn is_back(seen: int, p: int, p1: int, xi_end: int, grown: Growth) -> bool {
    WHOLE_WEIGHT * grown.whole * size(seen - xi_end) <= grown.end * (WHOLE_WEIGHT + size(p - p1)
        + size(xi_end - p1)) + WHOLE_WEIGHT * grown.whole
}

proof fn lemma_cost(d: int, u: int, g: int)
    requires
        -g <= d <= g,
    ensures
        -(g * size(u)) <= d * u <= g * size(u),
{
    assert(-(g * size(u)) <= d * u <= g * size(u)) by (nonlinear_arith)
        requires
            -g <= d <= g,
            size(u) == (if u < 0 {
                -u
            } else {
                u
            }),
    ;
}

/// At every time the prediction from the reference is the planned end of the
/// segment, up to what rounding has grown to.
pub proof fn law_prediction_gives_the_planned_end_back(
    plan: DcmPlan,
    t: u64,
    left: Decay,
    grown: Growth,
)
    requires
        plan.valid(),
        left.valid(),
        grown.valid(),
        grown.undoes(left),
    ensures
        ({
            let i = plan.index(t);
            let r = plan.within(i, t, left);
            let (p1, end) = (plan.spans@[i].p1, plan.xi_eos@[i]);
            &&& is_back(
                ahead(r.p.x as int, p1.x as int, r.xi.x as int, grown),
                r.p.x as int,
                p1.x as int,
                end.x as int,
                grown,
            )
            &&& is_back(
                ahead(r.p.y as int, p1.y as int, r.xi.y as int, grown),
                r.p.y as int,
                p1.y as int,
                end.y as int,
                grown,
            )
        }),
{
    let i = plan.index(t);
    lemma_index_in(plan.zmp.segs@, t, 0);
    let span = plan.spans@[i];
    let (p, p1, end) = (span.pressure(t), span.p1, plan.xi_eos@[i]);
    assert(span.valid());
    lemma_pressure_between(span, t);
    let m = MAX_COORDINATE as int;
    law_reference_stays_in_the_hull(p.x as int, p1.x as int, end.x as int, left, -m, m);
    law_reference_stays_in_the_hull(p.y as int, p1.y as int, end.y as int, left, -m, m);
    law_prediction_undoes_the_reference(p.x as int, p1.x as int, end.x as int, left, grown);
    law_prediction_undoes_the_reference(p.y as int, p1.y as int, end.y as int, left, grown);
}

/// Whatever is left of the segment, an unstable part exactly on the plan is predicted to
/// end the segment where the plan ends it, up to what a unit grows to.
pub proof fn law_plan_is_predicted(plan: DcmPlan, t: u64, left: Decay)
    requires
        plan.valid(),
        left.valid(),
        left.end > 0,
    ensures
        ({
            let i = plan.index(t);
            let r = plan.within(i, t, left);
            let (p1, end, grown) = (plan.spans@[i].p1, plan.xi_eos@[i], left.reversed());
            let seen = plan.foreseen(t, r.xi, grown);
            &&& plan.foresees(t, r.xi, grown)
            &&& is_back(seen.x as int, r.p.x as int, p1.x as int, end.x as int, grown)
            &&& is_back(seen.y as int, r.p.y as int, p1.y as int, end.y as int, grown)
        }),
{
    let i = plan.index(t);
    let grown = left.reversed();
    law_reversed_growth_undoes(left);
    law_prediction_gives_the_planned_end_back(plan, t, left, grown);
    lemma_index_in(plan.zmp.segs@, t, 0);
    let span = plan.spans@[i];
    let (p, p1, end) = (span.pressure(t), span.p1, plan.xi_eos@[i]);
    assert(span.valid());
    lemma_pressure_between(span, t);
    let m = MAX_COORDINATE as int;
    law_reference_stays_in_the_hull(p.x as int, p1.x as int, end.x as int, left, -m, m);
    law_reference_stays_in_the_hull(p.y as int, p1.y as int, end.y as int, left, -m, m);
    let xi = plan.within(i, t, left).xi;
    lemma_foreseeable(p.x as int, p1.x as int, xi.x as int, grown);
    lemma_foreseeable(p.y as int, p1.y as int, xi.y as int, grown);
}

proof fn lemma_foreseeable(p: int, p1: int, xi: int, grown: Growth)
    requires
        grown.valid(),
        grown.end <= WHOLE_WEIGHT,
        in_range(p),
        in_range(p1),
        in_range(xi),
    ensures
        foreseeable(p, p1, xi, grown),
        i128::MIN <= ahead(p, p1, xi, grown) <= i128::MAX,
{
    let (w, m) = (WHOLE_WEIGHT as int, 2 * MAX_COORDINATE as int);
    lemma_term(grown.end as int, xi - p, -m, m);
    lemma_term(grown.mean as int, p - p1, -m, m);
    lemma_term(m, grown.end as int, 0, w);
    lemma_term(m, grown.mean as int, 0, w);
    assert(grown.end * m == m * grown.end && grown.mean * m == m * grown.mean && grown.end * (-m)
        == -(m * grown.end) && grown.mean * (-m) == -(m * grown.mean)) by (nonlinear_arith);
    lemma_part_fits(outgrown(p, p1, xi, grown), grown.whole as int);
}

/// With nothing left of a segment, and so behind the last one, the prediction is what was
/// measured; there is one wherever the growth is given in no more parts than a decay.
pub proof fn law_prediction_at_the_end_is_the_measurement(
    plan: DcmPlan,
    t: u64,
    xi: Point2,
    now: Growth,
)
    requires
        plan.valid(),
        point_in_range(xi),
        now.valid(),
        now.over(),
    ensures
        now.whole <= WHOLE_WEIGHT ==> plan.foresees(t, xi, now),
        plan.foreseen(t, xi, now) == xi,
{
    let i = plan.index(t);
    lemma_index_in(plan.zmp.segs@, t, 0);
    let span = plan.spans@[i];
    let (p, p1) = (span.pressure(t), span.p1);
    assert(span.valid());
    lemma_pressure_between(span, t);
    if now.whole <= WHOLE_WEIGHT {
        lemma_foreseeable(p.x as int, p1.x as int, xi.x as int, now);
        lemma_foreseeable(p.y as int, p1.y as int, xi.y as int, now);
    }
    law_prediction_is_exact_at_the_end(p.x as int, p1.x as int, xi.x as int, now);
    law_prediction_is_exact_at_the_end(p.y as int, p1.y as int, xi.y as int, now);
}

proof fn lemma_index_in(segs: Seq<ZmpSeg>, t: u64, i: int)
    requires
        0 <= i < segs.len(),
    ensures
        i <= crate::biped::pressure::covering(segs, t, i) < segs.len(),
    decreases segs.len() - i,
{
    if !(i + 1 >= segs.len() || t < segs[i].t1) {
        lemma_index_in(segs, t, i + 1);
    }
}

// ---------------------------------------------------------------- laws of the plan

/// Where the whole planned pressure lies between two bounds, so does the unstable
/// part at the end of every segment.
pub proof fn law_plan_stays_in_the_hull(
    spans: Seq<Span>,
    decays: Seq<Decay>,
    i: int,
    lo: Point2,
    hi: Point2,
)
    requires
        0 <= i < spans.len(),
        decays.len() == spans.len(),
        forall|k: int| 0 <= k < decays.len() ==> (#[trigger] decays[k]).valid(),
        forall|k: int|
            0 <= k < spans.len() ==> between((#[trigger] spans[k]).p0, lo, hi) && between(
                spans[k].p1,
                lo,
                hi,
            ),
    ensures
        between(end_of(spans, decays, i), lo, hi),
    decreases spans.len() - i,
{
    assert(between(spans[i].p1, lo, hi));
    if i + 1 < spans.len() {
        law_plan_stays_in_the_hull(spans, decays, i + 1, lo, hi);
        let s = spans[i + 1];
        let e = end_of(spans, decays, i + 1);
        assert(between(s.p0, lo, hi));
        assert(decays[i + 1].valid());
        law_reference_stays_in_the_hull(
            s.p0.x as int,
            s.p1.x as int,
            e.x as int,
            decays[i + 1],
            lo.x as int,
            hi.x as int,
        );
        law_reference_stays_in_the_hull(
            s.p0.y as int,
            s.p1.y as int,
            e.y as int,
            decays[i + 1],
            lo.y as int,
            hi.y as int,
        );
    }
}

/// Both coordinates lie between those of two corners.
pub open spec fn between(p: Point2, lo: Point2, hi: Point2) -> bool {
    lo.x <= p.x <= hi.x && lo.y <= p.y <= hi.y
}

/// The reference does not jump where one segment hands over to the next: both say
/// that the unstable part is where the first was planned to end.
pub proof fn law_reference_is_continuous(plan: DcmPlan, i: int, now: Decay)
    requires
        plan.valid(),
        0 <= i < plan.spans@.len() - 1,
        now.over(),
    ensures
        carried(plan.spans@[i].p1, plan.spans@[i].p1, plan.xi_eos@[i], now)
            == plan.xi_eos@[i],
        carried(
            plan.spans@[i + 1].p0,
            plan.spans@[i + 1].p1,
            plan.xi_eos@[i + 1],
            plan.decays@[i + 1],
        ) == plan.xi_eos@[i],
{
    let s = plan.spans@[i];
    let e = plan.xi_eos@[i];
    law_reference_meets_its_end(s.p1.x as int, s.p1.x as int, e.x as int, now);
    law_reference_meets_its_end(s.p1.y as int, s.p1.y as int, e.y as int, now);
    assert(e == end_of(plan.spans@, plan.decays@, i));
    assert(plan.xi_eos@[i + 1] == end_of(plan.spans@, plan.decays@, i + 1));
}

/// The plan ends at rest over its last pressure, and at its end the reference is
/// there too: the unstable part does not move.
pub proof fn law_plan_ends_at_rest(plan: DcmPlan, now: Decay)
    requires
        plan.valid(),
        now.over(),
    ensures
        ({
            let last = plan.spans@.last().p1;
            &&& plan.xi_eos@.last() == last
            &&& carried(last, last, plan.xi_eos@.last(), now) == last
            &&& departure(last, last, plan.omega) == (Point2 { x: 0, y: 0 })
        }),
{
    let n = plan.spans@.len() - 1;
    let last = plan.spans@[n].p1;
    assert(plan.xi_eos@[n] == end_of(plan.spans@, plan.decays@, n));
    assert(plan.omega * 0 == 0) by (nonlinear_arith);
    law_reference_meets_its_end(last.x as int, last.x as int, last.x as int, now);
    law_reference_meets_its_end(last.y as int, last.y as int, last.y as int, now);
}

// ---------------------------------------------------------------- tracking

/// A coordinate of the unstable part, `c + c_dot / omega`, rounded down.
pub open spec fn leading(c: int, c_dot: int, omega: int) -> int {
    2_000_000 * c + c_dot * 2_000_000_000_000_000 / omega
}

fn lead_by(c: i64, c_dot: i64, omega: u64) -> (r: i128)
    requires
        omega > 0,
    ensures
        r == leading(c as int, c_dot as int, omega as int),
{
    let way: i128 = c_dot as i128 * 2_000_000_000_000_000;
    proof {
        lemma_part_fits(way as int, omega as int);
    }
    2_000_000 * c as i128 + part(way, omega)
}

/// The measured unstable part, from the measured centre of mass in micrometres and
/// its velocity in micrometres per second.
pub fn dcm_of(com: (i64, i64), com_vel: (i64, i64), omega: u64) -> (r: Point2)
    requires
        omega > 0,
    ensures
        r.x == leading(com.0 as int, com_vel.0 as int, omega as int),
        r.y == leading(com.1 as int, com_vel.1 as int, omega as int),
{
    Point2 { x: lead_by(com.0, com_vel.0, omega), y: lead_by(com.1, com_vel.1, omega) }
}

/// A coordinate of the pressure that brings the unstable part back to its
/// reference: `xi - xi_dot_ref / omega + k (xi - xi_ref)`, in millionths of a
/// micrometre, with `k` in millionths. Each of its two parts is rounded down.
pub open spec fn steering(xi: int, xi_ref: int, xi_dot: int, omega: int, k: int) -> int {
    (1_000_000 * xi + (xi - xi_ref) * k) / 2_000_000 - xi_dot * 500_000_000 / omega
}

fn steer(xi: i128, xi_ref: i128, xi_dot: i128, omega: u64, k: u32) -> (r: i128)
    requires
        in_range(xi as int),
        in_range(xi_ref as int),
        -MAX_SPEED <= xi_dot <= MAX_SPEED,
        omega > 0,
    ensures
        r == steering(xi as int, xi_ref as int, xi_dot as int, omega as int, k as int),
{
    let off: i128 = xi - xi_ref;
    proof {
        let m = 2 * MAX_COORDINATE as int;
        lemma_term(k as int, off as int, -m, m);
        lemma_term(m, k as int, 0, 0xffff_ffff);
        assert(k * m == m * k) by (nonlinear_arith);
        assert(-m * k == -(m * k)) by (nonlinear_arith);
        lemma_part_fits(xi_dot * 500_000_000, omega as int);
    }
    part(1_000_000 * xi + off * k as i128, 2_000_000) - part(xi_dot * 500_000_000, omega)
}

/// The tracking law: the pressure the controller wants, in millionths of a
/// micrometre. `k_dcm` is dimensionless, in millionths.
pub fn commanded_zmp(xi_meas: &Point2, r: &DcmRef, omega: u64, k_dcm: u32) -> (p: Point2)
    requires
        point_in_range(*xi_meas),
        point_in_range(r.xi),
        r.is_slow(),
        omega > 0,
    ensures
        p.x == steering(
            xi_meas.x as int,
            r.xi.x as int,
            r.xi_dot.x as int,
            omega as int,
            k_dcm as int,
        ),
        p.y == steering(
            xi_meas.y as int,
            r.xi.y as int,
            r.xi_dot.y as int,
            omega as int,
            k_dcm as int,
        ),
{
    Point2 {
        x: steer(xi_meas.x, r.xi.x, r.xi_dot.x, omega, k_dcm),
        y: steer(xi_meas.y, r.xi.y, r.xi_dot.y, omega, k_dcm),
    }
}

/// The deviation from the reference decays at `k omega`: with the commanded
/// pressure the unstable part moves at `xi_dot_ref - k omega (xi - xi_ref)`, up to
/// a unit of the pressure.
pub proof fn law_deviation_decays(xi: int, xi_ref: int, xi_dot: int, omega: int, k: int)
    requires
        omega > 0,
    ensures
        ({
            let p = steering(xi, xi_ref, xi_dot, omega, k);
            let got = omega * (1_000_000 * xi - 2_000_000 * p);
            let owed = 1_000_000_000_000_000 * xi_dot - omega * (k * (xi - xi_ref));
            owed - 2_000_000 * omega < got < owed + 2_000_000 * omega
        }),
{
    let off = (xi - xi_ref) * k;
    let a = (1_000_000 * xi + off) / 2_000_000;
    let way = xi_dot * 500_000_000;
    let b = way / omega;
    assert(off == k * (xi - xi_ref)) by (nonlinear_arith)
        requires
            off == (xi - xi_ref) * k,
    ;
    assert(way - omega < omega * b <= way) by (nonlinear_arith)
        requires
            omega > 0,
            b == way / omega,
    ;
    let lost = 1_000_000 * xi + off - 2_000_000 * a;
    assert(0 <= lost < 2_000_000);
    assert(0 <= omega * lost < omega * 2_000_000) by (nonlinear_arith)
        requires
            omega > 0,
            0 <= lost < 2_000_000,
    ;
    let p = a - b;
    assert(omega * (1_000_000 * xi - 2_000_000 * p) == omega * lost - omega * off + 2_000_000
        * (omega * b)) by (nonlinear_arith)
        requires
            p == a - b,
            lost == 1_000_000 * xi + off - 2_000_000 * a,
    ;
}

/// On its reference the unstable part is given the planned pressure, up to the
/// rounding of the reference's speed.
pub proof fn law_reference_commands_its_pressure(xi: int, p: int, omega: int, k: int)
    requires
        omega > 0,
    ensures
        ({
            let c = steering(xi, xi, leaving(xi, p, omega), omega, k);
            -2 * omega < omega * (2 * c - p) < 2 * omega + 1_000_000_000
        }),
{
    let xi_dot = leaving(xi, p, omega);
    let c = steering(xi, xi, xi_dot, omega, k);
    law_deviation_decays(xi, xi, xi_dot, omega, k);
    assert(omega * (k * (xi - xi)) == 0) by (nonlinear_arith);
    assert(omega * (1_000_000 * xi - 2_000_000 * c) == 1_000_000 * (omega * (xi - p)) - 1_000_000
        * (omega * (2 * c - p))) by (nonlinear_arith);
}

/// Gravity, in micrometres per second squared.
pub const GRAVITY: i64 = 9_810_000;

/// A coordinate of the commanded acceleration, `omega^2 (c - p)` with
/// `omega^2 = g / z`, in millionths of a micrometre per second squared, rounded
/// down.
pub open spec fn falling(c: int, p: int, z: int) -> int {
    (GRAVITY * (1_000_000 * c - p)) / z
}

/// The commanded acceleration of the centre of mass in the ground plane. The
/// centre of mass is in micrometres, the pressure in millionths of one.
pub fn com_accel_xy(com: (i64, i64), p_cmd: &Point2, z_com: u64) -> (r: (i128, i128))
    requires
        z_com > 0,
        point_in_range(*p_cmd),
    ensures
        r.0 == falling(com.0 as int, p_cmd.x as int, z_com as int),
        r.1 == falling(com.1 as int, p_cmd.y as int, z_com as int),
{
    let g: i128 = GRAVITY as i128;
    (
        part(g * (1_000_000 * com.0 as i128 - p_cmd.x), z_com),
        part(g * (1_000_000 * com.1 as i128 - p_cmd.y), z_com),
    )
}

/// Over the pressure the centre of mass is not accelerated, and off it it falls
/// away from it.
pub proof fn law_mass_falls_off_the_pressure(c: int, p: int, z: int)
    requires
        z > 0,
    ensures
        1_000_000 * c == p ==> falling(c, p, z) == 0,
        1_000_000 * c > p ==> falling(c, p, z) >= 0,
        1_000_000 * c < p ==> falling(c, p, z) < 0,
{
    let v = GRAVITY * (1_000_000 * c - p);
    lemma_part_fits(v, z);
    if 1_000_000 * c < p {
        assert(v / z < 0) by (nonlinear_arith)
            requires
                v < 0,
                z > 0,
        ;
    }
}

/// The commanded acceleration is `omega^2 (c - p)` for the pendulum's rate, up to the
/// last digits of both.
pub proof fn law_mass_falls_at_the_natural_rate(c: int, p: int, z: int, omega: int)
    requires
        z > 0,
        omega >= 0,
        is_rate(omega, z),
    ensures
        ({
            let (d, a) = (1_000_000 * c - p, falling(c, p, z));
            let (low, high) = (omega * omega, (omega + 1) * (omega + 1));
            let unit: int = 1_000_000_000_000_000_000;
            &&& d >= 0 ==> low * d <= unit * (a + 1) && unit * a <= high * d
            &&& d < 0 ==> high * d <= unit * (a + 1) && unit * a <= low * d
        }),
{
    let (d, a) = (1_000_000 * c - p, falling(c, p, z));
    let (low, high) = (omega * omega, (omega + 1) * (omega + 1));
    let unit: int = 1_000_000_000_000_000_000;
    let g = GRAVITY as int;
    let pull = g * d;
    assert(a * z <= pull < (a + 1) * z) by (nonlinear_arith)
        requires
            z > 0,
            a == pull / z,
    ;
    if d >= 0 {
        lemma_falls(low, unit * g, d, z, unit, a + 1);
        lemma_falls_back(high, unit * g, d, z, unit, a);
    } else {
        let e = -d;
        assert(g * e == -pull) by (nonlinear_arith)
            requires
                pull == g * d,
                e == -d,
        ;
        assert((-a) * z == -(a * z) && (-a - 1) * z == -((a + 1) * z)) by (nonlinear_arith);
        lemma_falls(low, unit * g, e, z, unit, -a);
        lemma_falls_back(high, unit * g, e, z, unit, -a - 1);
        assert(low * e == -(low * d) && high * e == -(high * d)) by (nonlinear_arith)
            requires
                e == -d,
        ;
    }
}

proof fn lemma_falls(low: int, all: int, d: int, z: int, unit: int, top: int)
    requires
        low * z <= all,
        d >= 0,
        z > 0,
        unit > 0,
        all == unit * GRAVITY,
        GRAVITY * d <= top * z,
    ensures
        low * d <= unit * top,
{
    let g = GRAVITY as int;
    assert((low * d) * z <= (unit * top) * z) by (nonlinear_arith)
        requires
            low * z <= unit * g,
            d >= 0,
            unit > 0,
            g * d <= top * z,
    {
        assert((low * z) * d <= (unit * g) * d);
        assert(unit * (g * d) <= unit * (top * z));
    }
    assert(low * d <= unit * top) by (nonlinear_arith)
        requires
            (low * d) * z <= (unit * top) * z,
            z > 0,
    ;
}

proof fn lemma_falls_back(high: int, all: int, d: int, z: int, unit: int, bottom: int)
    requires
        all < high * z,
        d >= 0,
        z > 0,
        unit > 0,
        all == unit * GRAVITY,
        bottom * z <= GRAVITY * d,
    ensures
        unit * bottom <= high * d,
{
    let g = GRAVITY as int;
    assert((unit * bottom) * z <= (high * d) * z) by (nonlinear_arith)
        requires
            unit * g < high * z,
            d >= 0,
            unit > 0,
            bottom * z <= g * d,
    {
        assert((unit * g) * d <= (high * z) * d);
        assert(unit * (bottom * z) <= unit * (g * d));
    }
    assert(unit * bottom <= high * d) by (nonlinear_arith)
        requires
            (unit * bottom) * z <= (high * d) * z,
            z > 0,
    ;
}

// ---------------------------------------------------------------- the support polygon

/// The part of the ground that the commanded pressure is kept in, in millionths
/// of a micrometre.
///
/// An out-of-box command is not dangerous, it is DISHONEST: the solver saturates
/// and the robot tracks something other than what was asked. Clamping makes the
/// saturation a number that can be reported.
///
/// The polygon is approximated by the axis-aligned hull of the stance soles'
/// pressure boxes, which is exact while the feet are parallel and level.
#[derive(Clone, Copy, PartialEq, Eq, Structural, Debug)]
pub struct SupportBox {
    pub lo: Point2,
    pub hi: Point2,
}

/// The lower of two numbers.
pub open spec fn lower(a: int, b: int) -> int {
    if a < b {
        a
    } else {
        b
    }
}

/// The higher of two numbers.
pub open spec fn higher(a: int, b: int) -> int {
    if a > b {
        a
    } else {
        b
    }
}

/// `v` kept between `lo` and `hi`.
pub open spec fn within(v: int, lo: int, hi: int) -> int {
    if v < lo {
        lo
    } else if v > hi {
        hi
    } else {
        v
    }
}

proof fn lemma_reach(half: int, margin: int, m: int)
    requires
        -m <= half <= m,
        -m <= margin <= m,
    ensures
        -(m * m) <= half * margin <= m * m,
        half >= 0 && margin >= 0 ==> half * margin >= 0,
{
    assert(-(m * m) <= half * margin <= m * m) by (nonlinear_arith)
        requires
            -m <= half <= m,
            -m <= margin <= m,
    ;
    assert(half >= 0 && margin >= 0 ==> half * margin >= 0) by (nonlinear_arith);
}

impl SupportBox {
    /// The box around one foot.
    pub open spec fn around(c: (int, int), cop_half: (i64, i64), margin: i64) -> SupportBox {
        SupportBox {
            lo: Point2 {
                x: (c.0 * 1_000_000 - cop_half.0 * margin) as i128,
                y: (c.1 * 1_000_000 - cop_half.1 * margin) as i128,
            },
            hi: Point2 {
                x: (c.0 * 1_000_000 + cop_half.0 * margin) as i128,
                y: (c.1 * 1_000_000 + cop_half.1 * margin) as i128,
            },
        }
    }

    /// The hull of two boxes.
    pub open spec fn hull(a: SupportBox, b: SupportBox) -> SupportBox {
        SupportBox {
            lo: Point2 {
                x: lower(a.lo.x as int, b.lo.x as int) as i128,
                y: lower(a.lo.y as int, b.lo.y as int) as i128,
            },
            hi: Point2 {
                x: higher(a.hi.x as int, b.hi.x as int) as i128,
                y: higher(a.hi.y as int, b.hi.y as int) as i128,
            },
        }
    }

    /// The box of a support.
    pub open spec fn of_support(
        steps: Footsteps,
        support: Support,
        cop_half: (i64, i64),
        margin: i64,
    ) -> SupportBox {
        match support {
            Support::Double => SupportBox::hull(
                SupportBox::around(steps.at(0), cop_half, margin),
                SupportBox::around(steps.at(1), cop_half, margin),
            ),
            Support::Single { stance, .. } => SupportBox::around(
                steps.at(stance),
                cop_half,
                margin,
            ),
        }
    }

    /// The box is no emptier than a point.
    pub open spec fn valid(self) -> bool {
        self.lo.x <= self.hi.x && self.lo.y <= self.hi.y
    }

    fn box_at(c: (i64, i64), cop_half: (i64, i64), margin: i64) -> (r: SupportBox)
        ensures
            r == SupportBox::around((c.0 as int, c.1 as int), cop_half, margin),
            cop_half.0 >= 0 && cop_half.1 >= 0 && margin >= 0 ==> r.valid(),
    {
        proof {
            let m: int = 0x8000_0000_0000_0000;
            lemma_reach(cop_half.0 as int, margin as int, m);
            lemma_reach(cop_half.1 as int, margin as int, m);
            assert(m * m == 0x4000_0000_0000_0000_0000_0000_0000_0000) by (nonlinear_arith)
                requires
                    m == 0x8000_0000_0000_0000,
            ;
        }
        let hx: i128 = cop_half.0 as i128 * margin as i128;
        let hy: i128 = cop_half.1 as i128 * margin as i128;
        let cx: i128 = c.0 as i128 * 1_000_000;
        let cy: i128 = c.1 as i128 * 1_000_000;
        SupportBox {
            lo: Point2 { x: cx - hx, y: cy - hy },
            hi: Point2 { x: cx + hx, y: cy + hy },
        }
    }

    /// The box of the stance feet: half-extents `cop_half` in micrometres about
    /// each sole centre, scaled by `margin` millionths.
    pub fn from_stance(steps: &Footsteps, support: Support, cop_half: (i64, i64), margin: i64) -> (r:
        SupportBox)
        requires
            support matches Support::Single { stance, .. } ==> stance <= 1,
        ensures
            r == SupportBox::of_support(*steps, support, cop_half, margin),
            cop_half.0 >= 0 && cop_half.1 >= 0 && margin >= 0 ==> r.valid(),
    {
        match support {
            Support::Double => {
                let a = SupportBox::box_at(steps.xy(0), cop_half, margin);
                let b = SupportBox::box_at(steps.xy(1), cop_half, margin);
                SupportBox {
                    lo: Point2 {
                        x: if a.lo.x < b.lo.x {
                            a.lo.x
                        } else {
                            b.lo.x
                        },
                        y: if a.lo.y < b.lo.y {
                            a.lo.y
                        } else {
                            b.lo.y
                        },
                    },
                    hi: Point2 {
                        x: if a.hi.x > b.hi.x {
                            a.hi.x
                        } else {
                            b.hi.x
                        },
                        y: if a.hi.y > b.hi.y {
                            a.hi.y
                        } else {
                            b.hi.y
                        },
                    },
                }
            },
            Support::Single { stance, .. } => SupportBox::box_at(
                steps.xy(stance),
                cop_half,
                margin,
            ),
        }
    }

    /// The point of the box nearest to `p`.
    pub open spec fn nearest(self, p: Point2) -> Point2 {
        Point2 {
            x: within(p.x as int, self.lo.x as int, self.hi.x as int) as i128,
            y: within(p.y as int, self.lo.y as int, self.hi.y as int) as i128,
        }
    }

    /// The point lies in the box.
    pub open spec fn holds(self, p: Point2) -> bool {
        self.lo.x <= p.x <= self.hi.x && self.lo.y <= p.y <= self.hi.y
    }

    /// Returns the clamped point and how far it had to move along each axis: zero
    /// along both inside.
    pub fn clamp(&self, p: &Point2) -> (r: (Point2, Shift))
        requires
            self.valid(),
        ensures
            r.0 == self.nearest(*p),
            r.1.x == size(r.0.x - p.x),
            r.1.y == size(r.0.y - p.y),
    {
        let (x, dx): (i128, u128) = clamp_axis(p.x, self.lo.x, self.hi.x);
        let (y, dy): (i128, u128) = clamp_axis(p.y, self.lo.y, self.hi.y);
        (Point2 { x, y }, Shift { x: dx, y: dy })
    }
}

/// How far a point was moved along each axis.
#[derive(Clone, Copy, PartialEq, Eq, Structural, Debug)]
pub struct Shift {
    pub x: u128,
    pub y: u128,
}

fn clamp_axis(v: i128, lo: i128, hi: i128) -> (r: (i128, u128))
    requires
        lo <= hi,
    ensures
        r.0 == within(v as int, lo as int, hi as int),
        r.1 == size(r.0 - v),
{
    if v < lo {
        (lo, stretch(v, lo))
    } else if v > hi {
        (hi, stretch(hi, v))
    } else {
        (v, 0)
    }
}

fn stretch(from: i128, to: i128) -> (r: u128)
    requires
        from <= to,
    ensures
        r == to - from,
{
    if from < 0 && to >= 0 {
        to as u128 + (-(from + 1)) as u128 + 1
    } else {
        (to - from) as u128
    }
}

/// The square of the distance between two points.
pub open spec fn distance_squared(a: Point2, b: Point2) -> int {
    (a.x - b.x) * (a.x - b.x) + (a.y - b.y) * (a.y - b.y)
}

/// The clamped point lies in the box; a point of the box stays where it is.
pub proof fn law_clamp_lands_in_the_box(b: SupportBox, p: Point2)
    requires
        b.valid(),
    ensures
        b.holds(b.nearest(p)),
        b.holds(p) <==> b.nearest(p) == p,
        b.holds(p) <==> size(b.nearest(p).x - p.x) == 0 && size(b.nearest(p).y - p.y) == 0,
        b.nearest(b.nearest(p)) == b.nearest(p),
{
}

/// No point of the box is nearer, along either axis or as the crow flies.
pub proof fn law_clamp_moves_no_further_than_needed(b: SupportBox, p: Point2, q: Point2)
    requires
        b.valid(),
        b.holds(q),
    ensures
        size(b.nearest(p).x - p.x) <= size(q.x - p.x),
        size(b.nearest(p).y - p.y) <= size(q.y - p.y),
        distance_squared(b.nearest(p), p) <= distance_squared(q, p),
{
    let c = b.nearest(p);
    lemma_squares(c.x - p.x, q.x - p.x);
    lemma_squares(c.y - p.y, q.y - p.y);
}

proof fn lemma_squares(a: int, b: int)
    requires
        size(a) <= size(b),
    ensures
        a * a <= b * b,
{
    assert(a * a == size(a) * size(a)) by (nonlinear_arith)
        requires
            size(a) == a || size(a) == -a,
    ;
    assert(b * b == size(b) * size(b)) by (nonlinear_arith)
        requires
            size(b) == b || size(b) == -b,
    ;
    let (u, v) = (size(a), size(b));
    assert(u * u <= v * v) by (nonlinear_arith)
        requires
            0 <= u <= v,
    ;
}

/// Single support shrinks the box: the box of one foot lies within the box of
/// both.
pub proof fn law_single_support_shrinks_the_box(
    steps: Footsteps,
    stance: Side,
    swing: Side,
    cop_half: (i64, i64),
    margin: i64,
)
    requires
        stance <= 1,
        cop_half.0 >= 0,
        cop_half.1 >= 0,
        0 <= margin <= 0x4000_0000_0000_0000,
    ensures
        ({
            let one = SupportBox::of_support(
                steps,
                Support::Single { stance, swing },
                cop_half,
                margin,
            );
            let both = SupportBox::of_support(steps, Support::Double, cop_half, margin);
            &&& both.lo.x <= one.lo.x && one.hi.x <= both.hi.x
            &&& both.lo.y <= one.lo.y && one.hi.y <= both.hi.y
        }),
{
}

proof fn lemma_division(v: int, d: int)
    requires
        d > 0,
    ensures
        0 <= v - d * (v / d) < d,
{
    let q = v / d;
    assert(0 <= v - d * q < d) by (nonlinear_arith)
        requires
            d > 0,
            q == v / d,
    ;
}

/// The centre of mass moves at `omega (xi - c)` towards the measured unstable part: what
/// the point is ahead of it, times the rate, is its velocity, up to the last digit.
pub proof fn law_mass_moves_towards_the_measured_point(c: int, c_dot: int, omega: int)
    requires
        omega > 0,
    ensures
        0 <= 2_000_000_000_000_000 * c_dot - omega * (leading(c, c_dot, omega) - 2_000_000 * c)
            < omega,
        leading(c, 0, omega) == 2_000_000 * c,
{
    lemma_division(c_dot * 2_000_000_000_000_000, omega);
    lemma_division(0, omega);
    let q = 0int / omega;
    assert(q == 0) by (nonlinear_arith)
        requires
            0 <= 0 - omega * q < omega,
            omega > 0,
    ;
}

/// The published speed is `omega (xi - p)`, up to the last digit: none over the pressure,
/// and away from it elsewhere.
pub proof fn law_speed_is_off_the_pressure(xi: int, p: int, omega: int)
    requires
        omega >= 0,
    ensures
        0 <= omega * (xi - p) - 1_000_000_000 * leaving(xi, p, omega) < 1_000_000_000,
        leaving(p, p, omega) == 0,
{
    lemma_division(omega * (xi - p), 1_000_000_000);
    assert(omega * (p - p) == 0) by (nonlinear_arith);
}

/// A mass `d` off the pressure falls by `g d` over its height, up to the last digit.
pub proof fn law_mass_falls_by_gravity_over_height(c: int, p: int, z: int)
    requires
        z > 0,
    ensures
        0 <= 9_810_000 * (1_000_000 * c - p) - z * falling(c, p, z) < z,
{
    lemma_division(GRAVITY * (1_000_000 * c - p), z);
}

/// The square of the rate times the height is gravity, up to the last digit of the rate.
pub proof fn law_rate_squares_to_gravity_over_height(omega: int, z: int)
    requires
        is_rate(omega, z),
    ensures
        omega * omega * z <= 9_810_000_000_000_000_000_000_000,
        (omega + 1) * (omega + 1) * z > 9_810_000_000_000_000_000_000_000,
{
}

/// Backwards a deviation at the end decays to the part that the stretch leaves of it, and a
/// plan that is moved as a whole moves its reference along.
pub proof fn law_deviation_decays_backwards(p0: int, p1: int, xi_end: int, w: Decay, d: int)
    requires
        w.valid(),
    ensures
        ({
            let all: int = 0x4000_0000_0000;
            let (here, there) = (backed(p0, p1, xi_end, w), backed(p0, p1, xi_end + d, w));
            -all < all * (there - here) - w.end * d < all
        }),
        backed(p0 + d, p1 + d, xi_end + d, w) == backed(p0, p1, xi_end, w) + d,
{
    let (all, a, b, e) = (
        WHOLE_WEIGHT as int,
        WHOLE_WEIGHT - w.mean,
        w.mean - w.end,
        w.end as int,
    );
    let v = weighed(p0, p1, xi_end, w);
    assert(e * (xi_end + d) == e * xi_end + e * d) by (nonlinear_arith);
    lemma_division(v, all);
    lemma_division(v + e * d, all);
    assert(a * (p0 + d) + b * (p1 + d) + e * (xi_end + d) == v + (a + b + e) * d)
        by (nonlinear_arith)
        requires
            v == a * p0 + b * p1 + e * xi_end,
    ;
    assert((v + all * d) / all == v / all + d);
}

/// Forwards a deviation grows to what the stretch makes of it.
pub proof fn law_deviation_grows_forwards(p: int, p1: int, xi: int, grown: Growth, d: int)
    requires
        grown.valid(),
    ensures
        ({
            let (here, there) = (ahead(p, p1, xi, grown), ahead(p, p1, xi + d, grown));
            -grown.whole < grown.whole * (there - here) - grown.end * d < grown.whole
        }),
        ahead(p + d, p1 + d, xi + d, grown) == ahead(p, p1, xi, grown) + d,
{
    let (g, w) = (grown.end as int, grown.whole as int);
    let v = outgrown(p, p1, xi, grown);
    assert(g * (xi + d - p) == g * (xi - p) + g * d) by (nonlinear_arith);
    lemma_division(v, w);
    lemma_division(v + g * d, w);
    let (a, b) = (v / w, (v + g * d) / w);
    assert(w * (b - a) == w * b - w * a) by (nonlinear_arith);
}

/// In single support the box is centred on the stance sole and as wide as the margin leaves
/// it: each side is the half-extent times the margin away.
pub proof fn law_single_box_is_centred(
    steps: Footsteps,
    stance: Side,
    swing: Side,
    cop_half: (i64, i64),
    margin: i64,
)
    requires
        stance <= 1,
    ensures
        ({
            let b = SupportBox::of_support(
                steps,
                Support::Single { stance, swing },
                cop_half,
                margin,
            );
            let (x, y) = if stance == 0 {
                (steps.left_x, steps.left_y)
            } else {
                (steps.right_x, steps.right_y)
            };
            &&& b.lo.x + b.hi.x == 2_000_000 * x
            &&& b.lo.y + b.hi.y == 2_000_000 * y
            &&& b.hi.x - b.lo.x == 2 * (cop_half.0 * margin)
            &&& b.hi.y - b.lo.y == 2 * (cop_half.1 * margin)
        }),
{
    lemma_box_fits(steps.at(stance), cop_half, margin);
}

proof fn lemma_box_fits(c: (int, int), cop_half: (i64, i64), margin: i64)
    requires
        i64::MIN <= c.0 <= i64::MAX,
        i64::MIN <= c.1 <= i64::MAX,
    ensures
        ({
            let b = SupportBox::around(c, cop_half, margin);
            &&& b.lo.x == c.0 * 1_000_000 - cop_half.0 * margin
            &&& b.lo.y == c.1 * 1_000_000 - cop_half.1 * margin
            &&& b.hi.x == c.0 * 1_000_000 + cop_half.0 * margin
            &&& b.hi.y == c.1 * 1_000_000 + cop_half.1 * margin
        }),
{
    let m: int = 0x8000_0000_0000_0000;
    lemma_reach(cop_half.0 as int, margin as int, m);
    lemma_reach(cop_half.1 as int, margin as int, m);
    assert(m * m == 0x4000_0000_0000_0000_0000_0000_0000_0000) by (nonlinear_arith)
        requires
            m == 0x8000_0000_0000_0000,
    ;
}

/// In double support the box is the hull of those of both feet: it holds both, and each of
/// its sides is a side of one of them.
pub proof fn law_double_box_is_the_hull(steps: Footsteps, cop_half: (i64, i64), margin: i64)
    ensures
        ({
            let b = SupportBox::of_support(steps, Support::Double, cop_half, margin);
            let (hx, hy) = (cop_half.0 * margin, cop_half.1 * margin);
            let (lx, rx) = (1_000_000 * steps.left_x, 1_000_000 * steps.right_x);
            let (ly, ry) = (1_000_000 * steps.left_y, 1_000_000 * steps.right_y);
            &&& b.lo.x <= lx - hx && b.lo.x <= rx - hx
            &&& b.lo.x == lx - hx || b.lo.x == rx - hx
            &&& b.lo.y <= ly - hy && b.lo.y <= ry - hy
            &&& b.lo.y == ly - hy || b.lo.y == ry - hy
            &&& b.hi.x >= lx + hx && b.hi.x >= rx + hx
            &&& b.hi.x == lx + hx || b.hi.x == rx + hx
            &&& b.hi.y >= ly + hy && b.hi.y >= ry + hy
            &&& b.hi.y == ly + hy || b.hi.y == ry + hy
        }),
{
    lemma_box_fits(steps.at(0), cop_half, margin);
    lemma_box_fits(steps.at(1), cop_half, margin);
}

/// A smaller margin never gives a larger box.
pub proof fn law_smaller_margin_shrinks_the_box(
    steps: Footsteps,
    support: Support,
    cop_half: (i64, i64),
    small: i64,
    large: i64,
)
    requires
        support matches Support::Single { stance, .. } ==> stance <= 1,
        cop_half.0 >= 0,
        cop_half.1 >= 0,
        small <= large,
    ensures
        ({
            let inner = SupportBox::of_support(steps, support, cop_half, small);
            let outer = SupportBox::of_support(steps, support, cop_half, large);
            &&& outer.lo.x <= inner.lo.x && inner.hi.x <= outer.hi.x
            &&& outer.lo.y <= inner.lo.y && inner.hi.y <= outer.hi.y
        }),
{
    lemma_term(cop_half.0 as int, small as int, small as int, large as int);
    lemma_term(cop_half.1 as int, small as int, small as int, large as int);
    lemma_box_fits(steps.at(0), cop_half, small);
    lemma_box_fits(steps.at(0), cop_half, large);
    lemma_box_fits(steps.at(1), cop_half, small);
    lemma_box_fits(steps.at(1), cop_half, large);
}

/// The clamped command lies between the sides of the box, is the command itself where that
/// does, and otherwise lies on the side that it went over.
pub proof fn law_clamp_stops_at_the_sides(b: SupportBox, p: Point2)
    requires
        b.lo.x <= b.hi.x,
        b.lo.y <= b.hi.y,
    ensures
        b.lo.x <= b.nearest(p).x <= b.hi.x,
        b.lo.y <= b.nearest(p).y <= b.hi.y,
        b.lo.x <= p.x <= b.hi.x ==> b.nearest(p).x == p.x,
        b.lo.y <= p.y <= b.hi.y ==> b.nearest(p).y == p.y,
        p.x <= b.lo.x ==> b.nearest(p).x == b.lo.x,
        p.y <= b.lo.y ==> b.nearest(p).y == b.lo.y,
        p.x >= b.hi.x ==> b.nearest(p).x == b.hi.x,
        p.y >= b.hi.y ==> b.nearest(p).y == b.hi.y,
{
}

/// The size of a number is not negative and is the number or its negative.
pub proof fn law_size(v: int)
    ensures
        size(v) >= 0,
        size(v) == v || size(v) == -v,
{
}

/// The reference at the start is the mean of the pressure at both ends and the reference at the
/// end, each with its weight, rounded down.
pub proof fn law_reference_is_the_weighted_mean(p0: int, p1: int, xi_end: int, w: Decay)
    ensures
        ({
            let all: int = 0x4000_0000_0000;
            let sum = (all - w.mean) * p0 + (w.mean - w.end) * p1 + w.end * xi_end;
            0 <= sum - all * backed(p0, p1, xi_end, w) < all
        }),
{
    lemma_division(weighed(p0, p1, xi_end, w), WHOLE_WEIGHT as int);
}

/// The prediction is off the pressure at the end by what the deviation has grown to and what
/// the pressure itself has moved, each by its factor, rounded down.
pub proof fn law_prediction_is_the_grown_deviation(p: int, p1: int, xi: int, grown: Growth)
    requires
        grown.whole > 0,
    ensures
        0 <= grown.end * (xi - p) + grown.mean * (p - p1) - grown.whole * (ahead(p, p1, xi, grown)
            - p1) < grown.whole,
{
    lemma_division(outgrown(p, p1, xi, grown), grown.whole as int);
}

/// On its segment the pressure has gone the part of the way that has passed of the time, rounded
/// down; before it stands at the start and afterwards at the end.
pub proof fn law_pressure_is_read_on_its_way(span: Span, t: u64)
    requires
        span.valid(),
        span.seg.t0 < span.seg.t1,
    ensures
        ({
            let f = span.seg.passed(t);
            let (p, p0, p1) = (span.pressure(t), span.p0, span.p1);
            &&& 0 <= p0.x * f.den + (p1.x - p0.x) * f.num - f.den * p.x < f.den
            &&& 0 <= p0.y * f.den + (p1.y - p0.y) * f.num - f.den * p.y < f.den
            &&& t <= span.seg.t0 ==> p == p0
            &&& t >= span.seg.t1 ==> p == p1
        }),
{
    let f = span.seg.passed(t);
    lemma_pressure_between(span, t);
    crate::biped::gait::law_frac_in_unit_interval(
        crate::biped::gait::Slice {
            support: Support::Double,
            t0: span.seg.t0,
            t1: span.seg.t1,
        },
        t,
    );
    let den = f.den as int;
    let (x, y) = (
        crate::biped::pressure::on_the_way(span.p0.x as int, span.p1.x as int, f),
        crate::biped::pressure::on_the_way(span.p0.y as int, span.p1.y as int, f),
    );
    lemma_division(x, den);
    lemma_division(y, den);
    let (ax, bx) = (span.p0.x as int, span.p1.x as int);
    let (ay, by) = (span.p0.y as int, span.p1.y as int);
    if t <= span.seg.t0 {
        assert(f.num == 0);
        assert((bx - ax) * 0 == 0 && (by - ay) * 0 == 0) by (nonlinear_arith);
        lemma_whole_parts(ax, den);
        lemma_whole_parts(ay, den);
    }
    if t >= span.seg.t1 {
        assert(f.num == f.den);
        assert(ax * den + (bx - ax) * den == bx * den && ay * den + (by - ay) * den == by * den)
            by (nonlinear_arith);
        lemma_whole_parts(bx, den);
        lemma_whole_parts(by, den);
    }
}

proof fn lemma_whole_parts(q: int, d: int)
    requires
        d > 0,
    ensures
        (q * d) / d == q,
{
    assert((q * d) / d == q) by (nonlinear_arith)
        requires
            d > 0,
    ;
}

/// A segment's ends on the ground are where its points are.
pub proof fn law_span_ends_are_its_points(seg: ZmpSeg, steps: Seq<Footsteps>, scale: int)
    ensures
        ({
            let s = span_of(seg, steps, scale);
            &&& s.seg == seg
            &&& s.p0.x == seg.p0.place(steps, scale).0 as i128
            &&& s.p0.y == seg.p0.place(steps, scale).1 as i128
            &&& s.p1.x == seg.p1.place(steps, scale).0 as i128
            &&& s.p1.y == seg.p1.place(steps, scale).1 as i128
        }),
{
}

} // verus!
