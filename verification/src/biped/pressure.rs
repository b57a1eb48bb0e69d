//! The planned centre of pressure.
//!
//! Planning where the pressure goes and tracking the divergent component of
//! motion is the whole balance problem. The plan is generated from the FOOTSTEP
//! PLAN, which is world-frame data that no measurement feeds back into: if a
//! foot moves, that is a disturbance to reject, not a new goal.
//!
//! Sole positions are whole micrometres.

use vstd::prelude::*;

use crate::biped::gait::{Frac, GaitPlan, Side, Slice, Support};

verus! {

/// A point of the planned pressure, given by what it lies under.
#[derive(Clone, Copy, PartialEq, Eq, Structural, Debug)]
pub enum PressurePoint {
    /// Under the foot `side` as it stands in the given slice.
    Foot { slice: usize, side: Side },
    /// Midway between the feet as they stand in the given slice.
    Middle { slice: usize },
}

/// One segment of the planned centre of pressure: linear between its ends. A
/// segment at rest has equal ends, so single and double support share one form.
#[derive(Clone, Copy, PartialEq, Eq, Structural, Debug)]
pub struct ZmpSeg {
    pub p0: PressurePoint,
    pub p1: PressurePoint,
    pub t0: u64,
    pub t1: u64,
}

/// Where the pressure rests in a slice: under the stance foot of a single
/// support.
pub open spec fn rest_point(slices: Seq<Slice>, i: int) -> Option<PressurePoint> {
    if 0 <= i < slices.len() {
        match slices[i].support {
            Support::Single { stance, .. } => Some(
                PressurePoint::Foot { slice: i as usize, side: stance },
            ),
            Support::Double => None,
        }
    } else {
        None
    }
}

/// The rest point of the last single support before slice `i`.
pub open spec fn rest_before(slices: Seq<Slice>, i: int) -> Option<PressurePoint>
    decreases i,
{
    if i <= 0 {
        None
    } else if rest_point(slices, i - 1) is Some {
        rest_point(slices, i - 1)
    } else {
        rest_before(slices, i - 1)
    }
}

/// The rest point of the first single support from slice `i` on.
pub open spec fn rest_from(slices: Seq<Slice>, i: int) -> Option<PressurePoint>
    decreases slices.len() - i,
{
    if i >= slices.len() {
        None
    } else if rest_point(slices, i) is Some {
        rest_point(slices, i)
    } else {
        rest_from(slices, i + 1)
    }
}

/// The segment of slice `i`. Single support holds the pressure at the stance
/// sole. Double support walks it from the previous stance foot to the next one,
/// falling back to mid-stance at the ends: a step in the reference would be a
/// step in the commanded acceleration, and that lands straight in the contact.
pub open spec fn segment(slices: Seq<Slice>, i: int) -> ZmpSeg {
    let s = slices[i];
    let middle = PressurePoint::Middle { slice: i as usize };
    match rest_point(slices, i) {
        Some(p) => ZmpSeg { p0: p, p1: p, t0: s.t0, t1: s.t1 },
        None => ZmpSeg {
            p0: match rest_before(slices, i) {
                Some(p) => p,
                None => middle,
            },
            p1: match rest_from(slices, i + 1) {
                Some(p) => p,
                None => middle,
            },
            t0: s.t0,
            t1: s.t1,
        },
    }
}

/// The first segment from `i` on that ends after `t`, else the last.
pub open spec fn covering(segs: Seq<ZmpSeg>, t: u64, i: int) -> int
    decreases segs.len() - i,
{
    if i + 1 >= segs.len() || t < segs[i].t1 {
        i
    } else {
        covering(segs, t, i + 1)
    }
}

/// The pressure plan of a support schedule.
pub struct ZmpPlan {
    pub segs: Vec<ZmpSeg>,
}

impl ZmpPlan {
    /// Build the pressure plan from the support schedule.
    pub fn from_schedule(plan: &GaitPlan) -> (r: ZmpPlan)
        ensures
            r.segs@ == Seq::new(plan.slices@.len(), |i: int| segment(plan.slices@, i)),
    {
        let n: usize = plan.slices.len();
        let ghost slices = plan.slices@;
        let mut segs: Vec<ZmpSeg> = Vec::new();
        let mut last_rest: Option<PressurePoint> = None;
        let mut i: usize = 0;
        while i < n
            invariant
                n == plan.slices.len(),
                slices == plan.slices@,
                i <= n,
                segs.len() == i,
                last_rest == rest_before(slices, i as int),
                forall|j: int| 0 <= j < i ==> #[trigger] segs@[j] == segment(slices, j),
            decreases n - i,
        {
            let s: Slice = plan.slices[i];
            match s.support {
                Support::Single { stance, .. } => {
                    let p = PressurePoint::Foot { slice: i, side: stance };
                    segs.push(ZmpSeg { p0: p, p1: p, t0: s.t0, t1: s.t1 });
                    last_rest = Some(p);
                },
                Support::Double => {
                    let middle = PressurePoint::Middle { slice: i };
                    let p0 = match last_rest {
                        Some(p) => p,
                        None => middle,
                    };
                    let p1 = match next_rest(plan, i + 1) {
                        Some(p) => p,
                        None => middle,
                    };
                    segs.push(ZmpSeg { p0, p1, t0: s.t0, t1: s.t1 });
                },
            }
            i += 1;
        }
        proof {
            assert(segs@ =~= Seq::new(slices.len(), |i: int| segment(slices, i)));
        }
        ZmpPlan { segs }
    }

    /// The segment covering `t`: the first one that ends after it, else the
    /// last.
    pub fn index_at(&self, t: u64) -> (r: usize)
        requires
            self.segs.len() > 0,
        ensures
            r == covering(self.segs@, t, 0),
            r < self.segs.len(),
            forall|j: int| 0 <= j < r ==> (#[trigger] self.segs@[j]).t1 <= t,
            t < self.segs@[r as int].t1 || r == self.segs.len() - 1,
    {
        let mut i: usize = 0;
        while i < self.segs.len() - 1 && t >= self.segs[i].t1
            invariant
                i < self.segs.len(),
                covering(self.segs@, t, 0) == covering(self.segs@, t, i as int),
                forall|j: int| 0 <= j < i ==> (#[trigger] self.segs@[j]).t1 <= t,
            decreases self.segs.len() - i,
        {
            i += 1;
        }
        i
    }
}

/// The rest point of the first single support from slice `from` on.
fn next_rest(plan: &GaitPlan, from: usize) -> (r: Option<PressurePoint>)
    requires
        from <= plan.slices.len(),
    ensures
        r == rest_from(plan.slices@, from as int),
{
    let mut i: usize = from;
    while i < plan.slices.len()
        invariant
            from <= i <= plan.slices.len(),
            rest_from(plan.slices@, from as int) == rest_from(plan.slices@, i as int),
        decreases plan.slices.len() - i,
    {
        if let Support::Single { stance, .. } = plan.slices[i].support {
            return Some(PressurePoint::Foot { slice: i, side: stance });
        }
        i += 1;
    }
    None
}

/// The planned pressure of a regular gait never jumps: each segment starts where
/// the one before it ended.
pub proof fn law_pressure_is_continuous(p: crate::biped::gait::GaitParams, i: int)
    requires
        p.valid(),
        0 <= i < p.plan().len() - 1,
    ensures
        segment(p.plan(), i).p1 == segment(p.plan(), i + 1).p0,
{
    let s = p.plan();
    crate::biped::gait::law_plan_alternates(p, i);
    crate::biped::gait::law_plan_alternates(p, i + 1);
    if i % 2 == 0 {
        assert(rest_point(s, i + 1) is Some);
        assert(rest_from(s, i + 1) == rest_point(s, i + 1));
    } else {
        assert(rest_point(s, i) is Some);
        assert(rest_before(s, i + 1) == rest_point(s, i));
    }
}

/// A regular gait starts and ends with the pressure midway between the feet, and
/// in every single support the pressure stays under the foot that carries.
pub proof fn law_pressure_rests(p: crate::biped::gait::GaitParams)
    requires
        p.valid(),
    ensures
        segment(p.plan(), 0).p0 == (PressurePoint::Middle { slice: 0 }),
        segment(p.plan(), 2 * p.n_steps).p1 == (PressurePoint::Middle {
            slice: (2 * p.n_steps) as usize,
        }),
        forall|i: int|
            0 <= i < p.plan().len() && (#[trigger] p.plan()[i]).support is Single ==> {
                let foot = PressurePoint::Foot {
                    slice: i as usize,
                    side: p.plan()[i].support->stance,
                };
                segment(p.plan(), i).p0 == foot && segment(p.plan(), i).p1 == foot
            },
{
    crate::biped::gait::law_plan_alternates(p, 0);
    crate::biped::gait::law_plan_alternates(p, 2 * p.n_steps);
    assert(rest_point(p.plan(), 0) is None);
    assert(rest_point(p.plan(), 2 * p.n_steps) is None);
    assert(rest_from(p.plan(), 2 * p.n_steps + 1) is None);
}

/// A point in the ground plane.
#[derive(Clone, Copy, PartialEq, Eq, Structural, Debug)]
pub struct Point2 {
    pub x: i128,
    pub y: i128,
}

/// Where each foot is planted, in the ground plane, at the SOLE.
#[derive(Clone, Copy, PartialEq, Eq, Structural, Debug)]
pub struct Footsteps {
    pub left_x: i64,
    pub left_y: i64,
    pub right_x: i64,
    pub right_y: i64,
}

impl Footsteps {
    /// The sole centre of one foot.
    pub open spec fn at(self, side: Side) -> (int, int) {
        if side == 0 {
            (self.left_x as int, self.left_y as int)
        } else {
            (self.right_x as int, self.right_y as int)
        }
    }

    /// The sole centre of one foot.
    pub fn xy(&self, side: Side) -> (r: (i64, i64))
        ensures
            (r.0 as int, r.1 as int) == self.at(side),
    {
        if side == 0 {
            (self.left_x, self.left_y)
        } else {
            (self.right_x, self.right_y)
        }
    }

    /// The middle of the stance, in half micrometres.
    pub fn mid_xy(&self) -> (r: (i128, i128))
        ensures
            r.0 == self.at(0).0 + self.at(1).0,
            r.1 == self.at(0).1 + self.at(1).1,
    {
        (
            self.left_x as i128 + self.right_x as i128,
            self.left_y as i128 + self.right_y as i128,
        )
    }
}

/// A coordinate pulled from mid-stance towards a foot, in half-millionths of the
/// unit: `scale` millionths of the way.
pub open spec fn pulled(left: int, right: int, foot: int, scale: int) -> int {
    1_000_000 * (left + right) + (2 * foot - (left + right)) * scale
}

fn pull(left: i64, right: i64, foot: i64, scale: u32) -> (r: i128)
    ensures
        r == pulled(left as int, right as int, foot as int, scale as int),
{
    let both: i128 = left as i128 + right as i128;
    let out: i128 = 2 * foot as i128 - both;
    proof {
        assert(-0x4_0000_0000_0000_0000_0000_0000 <= out * scale
            <= 0x4_0000_0000_0000_0000_0000_0000) by (nonlinear_arith)
            requires
                -0x4_0000_0000_0000_0000 <= out <= 0x4_0000_0000_0000_0000,
                0 <= scale <= 0xffff_ffff,
        ;
    }
    1_000_000 * both + out * scale as i128
}

impl PressurePoint {
    /// The slice whose footsteps the point refers to.
    pub open spec fn slice_of(self) -> int {
        match self {
            PressurePoint::Foot { slice, .. } => slice as int,
            PressurePoint::Middle { slice } => slice as int,
        }
    }

    /// Where the point lies on the ground, in half-millionths of a micrometre.
    /// `scale` is how far the pressure goes from mid-stance towards the stance
    /// foot, in millionths: the lateral authority the machine is asked for.
    pub open spec fn place(self, steps: Seq<Footsteps>, scale: int) -> (int, int) {
        let s = steps[self.slice_of()];
        match self {
            PressurePoint::Foot { side, .. } => (
                pulled(s.at(0).0, s.at(1).0, s.at(side).0, scale),
                pulled(s.at(0).1, s.at(1).1, s.at(side).1, scale),
            ),
            PressurePoint::Middle { .. } => (
                1_000_000 * (s.at(0).0 + s.at(1).0),
                1_000_000 * (s.at(0).1 + s.at(1).1),
            ),
        }
    }

    /// Where the point lies on the ground. `steps` holds where the feet stand in
    /// each slice.
    pub fn on_ground(&self, steps: &Vec<Footsteps>, scale: u32) -> (r: Point2)
        requires
            self.slice_of() < steps@.len(),
        ensures
            (r.x as int, r.y as int) == self.place(steps@, scale as int),
    {
        match self {
            PressurePoint::Foot { slice, side } => {
                let s: Footsteps = steps[*slice];
                let foot: (i64, i64) = s.xy(*side);
                Point2 {
                    x: pull(s.left_x, s.right_x, foot.0, scale),
                    y: pull(s.left_y, s.right_y, foot.1, scale),
                }
            },
            PressurePoint::Middle { slice } => {
                let s: Footsteps = steps[*slice];
                let mid: (i128, i128) = s.mid_xy();
                Point2 { x: 1_000_000 * mid.0, y: 1_000_000 * mid.1 }
            },
        }
    }
}

/// With full transfer the pressure of a single support sits on the stance sole,
/// with none it stays midway between the feet.
pub proof fn law_transfer_is_to_the_sole(steps: Seq<Footsteps>, slice: usize, side: Side)
    requires
        slice < steps.len(),
    ensures
        ({
            let foot = PressurePoint::Foot { slice, side };
            let middle = PressurePoint::Middle { slice };
            let s = steps[slice as int];
            &&& foot.place(steps, 1_000_000) == (2_000_000 * s.at(side).0, 2_000_000 * s.at(
                side,
            ).1)
            &&& foot.place(steps, 0) == middle.place(steps, 0)
            &&& middle.place(steps, 0) == (1_000_000 * (s.at(0).0 + s.at(1).0), 1_000_000 * (s.at(
                0,
            ).1 + s.at(1).1))
        }),
{
    let s = steps[slice as int];
    assert((2 * s.at(side).0 - (s.at(0).0 + s.at(1).0)) * 0 == 0) by (nonlinear_arith);
    assert((2 * s.at(side).1 - (s.at(0).1 + s.at(1).1)) * 0 == 0) by (nonlinear_arith);
}

/// A coordinate on the way from `p0` to `p1`, in parts of the way's duration.
pub open spec fn on_the_way(p0: int, p1: int, f: Frac) -> int {
    p0 * f.den + (p1 - p0) * f.num
}

/// Coordinates up to this size are moved along segments.
pub const MAX_COORDINATE: i128 = 0x2000_0000_0000_0000_0000;

/// Longest segment that the pressure is moved along, in microseconds.
pub const MAX_DURATION: u64 = 0x8_0000_0000;

fn go(p0: i128, p1: i128, f: &Frac) -> (r: i128)
    requires
        -MAX_COORDINATE <= p0 <= MAX_COORDINATE,
        -MAX_COORDINATE <= p1 <= MAX_COORDINATE,
        f.num <= f.den <= MAX_DURATION,
    ensures
        r == on_the_way(p0 as int, p1 as int, *f),
{
    proof {
        let m: int = 0x100_0000_0000_0000_0000_0000;
        let d: int = 0x8_0000_0000;
        assert(-(m * d) <= p0 * f.den <= m * d) by (nonlinear_arith)
            requires
                -m <= p0 <= m,
                0 <= f.den <= d,
                m > 0,
        ;
        assert(-(m * d) <= (p1 - p0) * f.num <= m * d) by (nonlinear_arith)
            requires
                -m <= p1 - p0 <= m,
                0 <= f.num <= d,
                m > 0,
        ;
        assert(m * d == 0x800_0000_0000_0000_0000_0000_0000_0000) by (nonlinear_arith)
            requires
                m == 0x100_0000_0000_0000_0000_0000,
                d == 0x8_0000_0000,
        ;
    }
    p0 * f.den as i128 + (p1 - p0) * f.num as i128
}

impl ZmpSeg {
    /// How much of the segment has passed at `t`.
    pub open spec fn passed(self, t: u64) -> Frac {
        (Slice { support: Support::Double, t0: self.t0, t1: self.t1 }).frac_of(t)
    }

    /// Where the planned pressure lies at `t`, given where the segment's ends lie:
    /// a point in parts of the returned number.
    pub fn at(&self, t: u64, p0: &Point2, p1: &Point2) -> (r: (Point2, u64))
        requires
            self.t1 - self.t0 <= MAX_DURATION,
            -MAX_COORDINATE <= p0.x <= MAX_COORDINATE,
            -MAX_COORDINATE <= p0.y <= MAX_COORDINATE,
            -MAX_COORDINATE <= p1.x <= MAX_COORDINATE,
            -MAX_COORDINATE <= p1.y <= MAX_COORDINATE,
        ensures
            r.1 == self.passed(t).den,
            r.0.x == on_the_way(p0.x as int, p1.x as int, self.passed(t)),
            r.0.y == on_the_way(p0.y as int, p1.y as int, self.passed(t)),
    {
        let f: Frac = (Slice { support: Support::Double, t0: self.t0, t1: self.t1 }).frac(t);
        (Point2 { x: go(p0.x, p1.x, &f), y: go(p0.y, p1.y, &f) }, f.den)
    }
}

impl ZmpSeg {
    /// How fast the pressure moves along the segment, given where its ends lie: so
    /// far in so long. A segment without duration does not move.
    pub fn slope(&self, p0: &Point2, p1: &Point2) -> (r: (Point2, u64))
        requires
            -MAX_COORDINATE <= p0.x <= MAX_COORDINATE,
            -MAX_COORDINATE <= p0.y <= MAX_COORDINATE,
            -MAX_COORDINATE <= p1.x <= MAX_COORDINATE,
            -MAX_COORDINATE <= p1.y <= MAX_COORDINATE,
        ensures
            self.t0 < self.t1 ==> {
                &&& r.0.x == p1.x - p0.x
                &&& r.0.y == p1.y - p0.y
                &&& r.1 == self.t1 - self.t0
            },
            self.t0 >= self.t1 ==> r.0.x == 0 && r.0.y == 0 && r.1 == 1,
    {
        if self.t0 < self.t1 {
            (Point2 { x: p1.x - p0.x, y: p1.y - p0.y }, self.t1 - self.t0)
        } else {
            (Point2 { x: 0, y: 0 }, 1)
        }
    }
}

/// Along a segment the pressure starts at the one end, reaches the other, stays
/// between them on the way, and does not move where they are the same.
pub proof fn law_pressure_stays_between(seg: ZmpSeg, t: u64, p0: int, p1: int)
    ensures
        ({
            let f = seg.passed(t);
            let p = on_the_way(p0, p1, f);
            &&& f.den > 0
            &&& p0 <= p1 ==> p0 * f.den <= p <= p1 * f.den
            &&& p1 <= p0 ==> p1 * f.den <= p <= p0 * f.den
            &&& t <= seg.t0 ==> p == p0 * f.den
            &&& seg.t0 < seg.t1 <= t ==> p == p1 * f.den
        }),
{
    let f = seg.passed(t);
    crate::biped::gait::law_frac_in_unit_interval(
        Slice { support: Support::Double, t0: seg.t0, t1: seg.t1 },
        t,
    );
    let (num, den, way) = (f.num as int, f.den as int, p1 - p0);
    assert((p1 - p0) * den == p1 * den - p0 * den) by (nonlinear_arith);
    if p0 <= p1 {
        assert(0 <= way * num <= way * den) by (nonlinear_arith)
            requires
                way >= 0,
                0 <= num <= den,
        ;
    }
    if p1 <= p0 {
        assert(way * den <= way * num <= 0) by (nonlinear_arith)
            requires
                way <= 0,
                0 <= num <= den,
        ;
    }
    assert(way * 0 == 0) by (nonlinear_arith);
}

/// The pressure moves towards the stance foot in proportion to the transfer: from mid-stance
/// with none, over half of the way with half, to the sole with all of it, and beyond.
pub proof fn law_transfer_is_in_proportion(
    steps: Seq<Footsteps>,
    p: PressurePoint,
    scale: int,
)
    requires
        0 <= p.slice_of() < steps.len(),
    ensures
        ({
            let (at, none, full) = (
                p.place(steps, scale),
                p.place(steps, 0),
                p.place(steps, 1_000_000),
            );
            let s = steps[p.slice_of()];
            &&& 1_000_000 * (at.0 - none.0) == scale * (full.0 - none.0)
            &&& 1_000_000 * (at.1 - none.1) == scale * (full.1 - none.1)
            &&& none.0 == 1_000_000 * (s.left_x + s.right_x)
            &&& none.1 == 1_000_000 * (s.left_y + s.right_y)
            &&& p is Middle ==> at == none
        }),
        p matches PressurePoint::Foot { slice, side } ==> {
            let (s, full) = (steps[slice as int], p.place(steps, 1_000_000));
            &&& side == 0 ==> full == (2_000_000 * s.left_x, 2_000_000 * s.left_y)
            &&& side == 1 ==> full == (2_000_000 * s.right_x, 2_000_000 * s.right_y)
        },
{
    let s = steps[p.slice_of()];
    if let PressurePoint::Foot { side, .. } = p {
        let (x, y) = (
            2 * s.at(side).0 - (s.at(0).0 + s.at(1).0),
            2 * s.at(side).1 - (s.at(0).1 + s.at(1).1),
        );
        assert(1_000_000 * (x * scale) == scale * (x * 1_000_000)) by (nonlinear_arith);
        assert(1_000_000 * (y * scale) == scale * (y * 1_000_000)) by (nonlinear_arith);
        assert(x * 0 == 0 && y * 0 == 0) by (nonlinear_arith);
    } else {
        assert(scale * 0 == 0) by (nonlinear_arith);
    }
}

/// The pressure moves evenly: after a part of the segment's time it has gone that part of
/// the way.
pub proof fn law_pressure_moves_evenly(seg: ZmpSeg, t: u64, p0: int, p1: int)
    requires
        seg.t0 < seg.t1,
        seg.t0 <= t <= seg.t1,
    ensures
        ({
            let f = seg.passed(t);
            (seg.t1 - seg.t0) * (on_the_way(p0, p1, f) - p0 * f.den) == (t - seg.t0) * (f.den * (p1
                - p0))
        }),
{
    let f = seg.passed(t);
    crate::biped::gait::law_frac_in_unit_interval(
        Slice { support: Support::Double, t0: seg.t0, t1: seg.t1 },
        t,
    );
    let (num, den, way) = (f.num as int, f.den as int, p1 - p0);
    let (long, gone) = (seg.t1 - seg.t0, t - seg.t0);
    assert(long * (way * num) == gone * (den * way)) by (nonlinear_arith)
        requires
            num * long == den * gone,
    {
        assert(long * (way * num) == way * (num * long));
        assert(gone * (den * way) == way * (den * gone));
    }
}

/// A point under a foot or midway refers to its slice, and a foot's place is that foot's.
pub proof fn law_footsteps_are_by_side(s: Footsteps)
    ensures
        s.at(0) == (s.left_x as int, s.left_y as int),
        s.at(1) == (s.right_x as int, s.right_y as int),
{
}

/// The segment that covers a time is the first that ends after it, or else the last.
pub proof fn law_covering_segment_is_the_first(segs: Seq<ZmpSeg>, t: u64, i: int)
    requires
        0 <= i < segs.len(),
    ensures
        i <= covering(segs, t, i) < segs.len(),
        t < segs[covering(segs, t, i)].t1 || covering(segs, t, i) == segs.len() - 1,
        forall|j: int| i <= j < covering(segs, t, i) ==> (#[trigger] segs[j]).t1 <= t,
    decreases segs.len() - i,
{
    if !(i + 1 >= segs.len() || t < segs[i].t1) {
        law_covering_segment_is_the_first(segs, t, i + 1);
    }
}

/// In a plan each segment lasts as long as its slice, a single support keeps the pressure
/// under its stance foot, and a double support takes it from the stance foot before to the
/// one behind, each the nearest, or midway where there is none.
pub proof fn law_segments_follow_the_feet(slices: Seq<Slice>, i: int, a: int, b: int)
    requires
        slices.len() <= usize::MAX,
        0 <= i < slices.len(),
        -1 <= a < i < b <= slices.len(),
        a >= 0 ==> slices[a].support is Single,
        b < slices.len() ==> slices[b].support is Single,
        forall|k: int| a < k < b && k != i ==> (#[trigger] slices[k]).support is Double,
    ensures
        segment(slices, i).t0 == slices[i].t0,
        segment(slices, i).t1 == slices[i].t1,
        slices[i].support matches Support::Single { stance, .. } ==> segment(slices, i).p0
            == segment(slices, i).p1 && segment(slices, i).p0 == (PressurePoint::Foot {
            slice: i as usize,
            side: stance,
        }),
        slices[i].support is Double ==> {
            let middle = PressurePoint::Middle { slice: i as usize };
            let (p0, p1) = (segment(slices, i).p0, segment(slices, i).p1);
            &&& a < 0 ==> p0 == middle
            &&& b == slices.len() ==> p1 == middle
            &&& a >= 0 ==> p0 == (PressurePoint::Foot {
                slice: a as usize,
                side: slices[a].support->stance,
            })
            &&& b < slices.len() ==> p1 == (PressurePoint::Foot {
                slice: b as usize,
                side: slices[b].support->stance,
            })
        },
{
    if slices[i].support is Double {
        lemma_rest_before(slices, i, a);
        lemma_rest_from(slices, i + 1, b);
    }
}

proof fn lemma_rest_before(slices: Seq<Slice>, i: int, a: int)
    requires
        slices.len() <= usize::MAX,
        -1 <= a < i <= slices.len(),
        a >= 0 ==> slices[a].support is Single,
        forall|k: int| a < k < i ==> (#[trigger] slices[k]).support is Double,
    ensures
        rest_before(slices, i) == rest_point(slices, a),
    decreases i,
{
    if i - 1 > a {
        assert(slices[i - 1].support is Double);
        lemma_rest_before(slices, i - 1, a);
    } else if a < 0 {
        assert(rest_before(slices, 0) is None);
    }
}

proof fn lemma_rest_from(slices: Seq<Slice>, i: int, b: int)
    requires
        slices.len() <= usize::MAX,
        0 <= i <= b <= slices.len(),
        b < slices.len() ==> slices[b].support is Single,
        forall|k: int| i <= k < b ==> (#[trigger] slices[k]).support is Double,
    ensures
        rest_from(slices, i) == rest_point(slices, b),
    decreases slices.len() - i,
{
    if i < b {
        assert(slices[i].support is Double);
        lemma_rest_from(slices, i + 1, b);
    }
}

} // verus!
