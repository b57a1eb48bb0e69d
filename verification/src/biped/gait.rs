//! Support schedule for a biped, and its correction by measured contact.
//!
//! The schedule is a plain list of time slices, built once, because for
//! stepping in place it IS known in advance and a plan the controller can look
//! ahead into is what the balance reference needs. A contact-driven correction
//! belongs on top of this, not instead of it: the nominal schedule is still
//! what the reference was planned against.
//!
//! Times are whole microseconds, loads whole millinewtons.

use vstd::prelude::*;

verus! {

/// 0 = left, 1 = right.
pub type Side = usize;

pub const LEFT: Side = 0;

pub const RIGHT: Side = 1;

#[derive(Clone, Copy, PartialEq, Eq, Structural, Debug)]
pub enum Support {
    /// Both feet down.
    Double,
    /// One foot down. `stance` carries the load, `swing` is in the air.
    Single { stance: Side, swing: Side },
}

impl Support {
    /// The foot in the air, if any.
    pub open spec fn swing_of(self) -> Option<Side> {
        match self {
            Support::Double => None,
            Support::Single { swing, .. } => Some(swing),
        }
    }

    /// The foot `side` carries load.
    pub open spec fn has_stance(self, side: Side) -> bool {
        match self {
            Support::Double => true,
            Support::Single { stance, .. } => stance == side,
        }
    }

    pub fn swing(self) -> (r: Option<Side>)
        ensures
            r == self.swing_of(),
    {
        match self {
            Support::Double => None,
            Support::Single { swing, .. } => Some(swing),
        }
    }

    pub fn is_stance(self, side: Side) -> (r: bool)
        ensures
            r == self.has_stance(side),
    {
        match self {
            Support::Double => true,
            Support::Single { stance, .. } => stance == side,
        }
    }
}

/// A stretch of the schedule with one kind of support, from `t0` to `t1`.
#[derive(Clone, Copy, PartialEq, Eq, Structural, Debug)]
pub struct Slice {
    pub support: Support,
    pub t0: u64,
    pub t1: u64,
}

/// A position within a slice: `num / den`, 0 at entry and 1 at exit.
#[derive(Clone, Copy, PartialEq, Eq, Structural, Debug)]
pub struct Frac {
    pub num: u64,
    pub den: u64,
}

impl Slice {
    pub fn duration(&self) -> (r: i128)
        ensures
            r == self.t1 - self.t0,
    {
        self.t1 as i128 - self.t0 as i128
    }

    /// Where `t` lies within the slice.
    pub open spec fn frac_of(self, t: u64) -> Frac {
        if self.t1 <= self.t0 || t <= self.t0 {
            Frac { num: 0, den: 1 }
        } else if t >= self.t1 {
            Frac { num: 1, den: 1 }
        } else {
            Frac { num: (t - self.t0) as u64, den: (self.t1 - self.t0) as u64 }
        }
    }

    /// Position within the slice, 0 at entry and 1 at exit. A slice without
    /// extent counts as just entered.
    pub fn frac(&self, t: u64) -> (r: Frac)
        ensures
            r == self.frac_of(t),
    {
        if self.t1 <= self.t0 || t <= self.t0 {
            Frac { num: 0, den: 1 }
        } else if t >= self.t1 {
            Frac { num: 1, den: 1 }
        } else {
            Frac { num: t - self.t0, den: self.t1 - self.t0 }
        }
    }
}

/// The position within a slice is a proper fraction between 0 and 1 and, inside
/// a slice with extent, it is the elapsed part of the duration.
pub proof fn law_frac_in_unit_interval(s: Slice, t: u64)
    ensures
        s.frac_of(t).den > 0,
        0 <= s.frac_of(t).num <= s.frac_of(t).den,
        s.t0 < s.t1 && s.t0 <= t <= s.t1 ==> s.frac_of(t).num * (s.t1 - s.t0) == s.frac_of(t).den
            * (t - s.t0),
{
    let a = t - s.t0;
    let b = s.t1 - s.t0;
    assert(a * b == b * a) by (nonlinear_arith);
    assert(0 * b == 0 && 1 * b == b && 1 * a == a);
}

#[derive(Clone, Copy, PartialEq, Eq, Structural, Debug)]
pub struct GaitParams {
    /// Double support before the first step. This is the weight shift, and it
    /// is deliberately longer than the inter-step double support: the centre of
    /// mass has to travel from the middle of the stance to over one foot, from
    /// rest.
    pub t_start: u64,
    /// Double support between steps.
    pub t_ds: u64,
    /// Single support per step.
    pub t_ss: u64,
    /// How many steps to take. The plan ends with a double-support segment
    /// that runs to `t_end`, so the robot comes back to rest centred.
    pub n_steps: usize,
    /// Which foot swings first.
    pub first_swing: Side,
    pub t_end: u64,
}

impl Default for GaitParams {
    fn default() -> (r: GaitParams)
        ensures
            r == (GaitParams {
                t_start: 2_000_000,
                t_ds: 200_000,
                t_ss: 450_000,
                n_steps: 20,
                first_swing: RIGHT,
                t_end: 25_000_000,
            }),
    {
        GaitParams {
            t_start: 2_000_000,
            t_ds: 200_000,
            t_ss: 450_000,
            n_steps: 20,
            first_swing: RIGHT,
            t_end: 25_000_000,
        }
    }
}

impl GaitParams {
    /// The foot that swings in step `k`: feet take turns.
    pub open spec fn swing_in(self, k: int) -> Side {
        if k % 2 == 0 {
            self.first_swing
        } else {
            (1 - self.first_swing) as usize
        }
    }

    /// When step `k` begins.
    pub open spec fn step_start(self, k: int) -> int {
        self.t_start + k * (self.t_ss + self.t_ds)
    }

    /// When the schedule proper ends.
    pub open spec fn schedule_end(self) -> int {
        self.step_start(self.n_steps as int)
    }

    /// A foot is named and the schedule fits the clock.
    pub open spec fn valid(self) -> bool {
        &&& self.first_swing <= 1
        &&& self.schedule_end() <= u64::MAX
        &&& 2 * self.n_steps + 1 <= usize::MAX
    }

    /// Slice `i` of the plan, before the last one is drawn out to `t_end`.
    pub open spec fn nominal_slice(self, i: int) -> Slice {
        if i == 0 {
            Slice { support: Support::Double, t0: 0, t1: self.t_start }
        } else if i % 2 == 1 {
            let k = i / 2;
            let swing = self.swing_in(k);
            Slice {
                support: Support::Single { stance: (1 - swing) as usize, swing },
                t0: self.step_start(k) as u64,
                t1: (self.step_start(k) + self.t_ss) as u64,
            }
        } else {
            let k = i / 2 - 1;
            Slice {
                support: Support::Double,
                t0: (self.step_start(k) + self.t_ss) as u64,
                t1: self.step_start(k + 1) as u64,
            }
        }
    }

    /// The plan: double support, then single and double support in turn for
    /// each step, the last slice running to `t_end` where that is later.
    pub open spec fn plan(self) -> Seq<Slice> {
        let last = 2 * self.n_steps;
        Seq::new(
            (last + 1) as nat,
            |i: int|
                {
                    let s = self.nominal_slice(i);
                    if i == last && self.t_end > s.t1 {
                        Slice { support: s.support, t0: s.t0, t1: self.t_end }
                    } else {
                        s
                    }
                },
        )
    }
}

pub struct GaitPlan {
    pub slices: Vec<Slice>,
}

/// The slice that covers `t`: the first one that ends after it, else the last.
pub open spec fn covers(slices: Seq<Slice>, t: u64, i: int) -> bool {
    &&& 0 <= i < slices.len()
    &&& forall|j: int| 0 <= j < i ==> #[trigger] slices[j].t1 <= t
    &&& t < slices[i].t1 || i == slices.len() - 1
}

/// How many single-support slices among the first `n` begin before `t`.
pub open spec fn steps_before(slices: Seq<Slice>, t: u64, n: nat) -> nat
    decreases n,
{
    if n == 0 || n > slices.len() {
        0
    } else {
        let s = slices[n - 1];
        steps_before(slices, t, (n - 1) as nat) + if s.support is Single && s.t0 < t {
            1nat
        } else {
            0nat
        }
    }
}

proof fn lemma_step_start(p: GaitParams, k: int)
    requires
        p.valid(),
        0 <= k < p.n_steps,
    ensures
        p.step_start(k + 1) == p.step_start(k) + p.t_ss + p.t_ds,
        0 <= p.step_start(k) <= p.step_start(k + 1) <= u64::MAX,
{
    let d = p.t_ss + p.t_ds;
    assert((k + 1) * d == k * d + d) by (nonlinear_arith);
    assert(0 <= k * d) by (nonlinear_arith)
        requires
            0 <= k,
            0 <= d,
    ;
    assert((k + 1) * d <= p.n_steps * d) by (nonlinear_arith)
        requires
            k + 1 <= p.n_steps,
            0 <= d,
    ;
}

impl GaitPlan {
    /// At least one slice.
    pub open spec fn valid(self) -> bool {
        self.slices.len() > 0
    }

    pub fn new(p: &GaitParams) -> (r: GaitPlan)
        requires
            p.valid(),
        ensures
            r.slices@ == p.plan(),
            r.valid(),
    {
        let mut slices: Vec<Slice> = Vec::new();
        proof {
            assert(0 * (p.t_ss + p.t_ds) == 0) by (nonlinear_arith);
            if p.n_steps > 0 {
                lemma_step_start(*p, p.n_steps - 1);
            }
        }
        let mut t: u64 = p.t_start;
        slices.push(Slice { support: Support::Double, t0: 0, t1: t });
        let mut swing: Side = p.first_swing;
        let mut k: usize = 0;
        while k < p.n_steps
            invariant
                p.valid(),
                k <= p.n_steps,
                slices.len() == 2 * k + 1,
                t == p.step_start(k as int),
                swing == p.swing_in(k as int),
                swing <= 1,
                forall|i: int| 0 <= i < slices.len() ==> #[trigger] slices@[i] == p.nominal_slice(i),
            decreases p.n_steps - k,
        {
            proof {
                lemma_step_start(*p, k as int);
            }
            let stance: Side = 1 - swing;
            slices.push(Slice { support: Support::Single { stance, swing }, t0: t, t1: t + p.t_ss });
            t = t + p.t_ss;
            slices.push(Slice { support: Support::Double, t0: t, t1: t + p.t_ds });
            t = t + p.t_ds;
            swing = 1 - swing;
            k += 1;
        }
        // Run out to the end of the experiment on both feet, so the last
        // touchdown has somewhere to settle.
        let last: usize = slices.len() - 1;
        let tail: Slice = slices[last];
        if p.t_end > tail.t1 {
            slices.set(last, Slice { support: tail.support, t0: tail.t0, t1: p.t_end });
        }
        proof {
            assert(slices@ =~= p.plan());
        }
        GaitPlan { slices }
    }

    /// The slice covering `t`, clamped to the ends.
    pub fn index_at(&self, t: u64) -> (r: usize)
        requires
            self.valid(),
        ensures
            covers(self.slices@, t, r as int),
    {
        let mut i: usize = 0;
        while i < self.slices.len()
            invariant
                self.valid(),
                i <= self.slices.len(),
                forall|j: int| 0 <= j < i ==> #[trigger] self.slices@[j].t1 <= t,
            decreases self.slices.len() - i,
        {
            if t < self.slices[i].t1 {
                return i;
            }
            i += 1;
        }
        self.slices.len() - 1
    }

    /// The slice covering `t`, and where in it `t` lies.
    pub fn at(&self, t: u64) -> (r: (&Slice, Frac))
        requires
            self.valid(),
        ensures
            exists|i: int|
                #[trigger] covers(self.slices@, t, i) && *r.0 == self.slices@[i] && r.1
                    == self.slices@[i].frac_of(t),
    {
        let i: usize = self.index_at(t);
        (&self.slices[i], self.slices[i].frac(t))
    }

    /// The support at `t`.
    pub fn support_at(&self, t: u64) -> (r: Support)
        requires
            self.valid(),
        ensures
            exists|i: int| #[trigger] covers(self.slices@, t, i) && r == self.slices@[i].support,
    {
        self.slices[self.index_at(t)].support
    }

    /// Number of single-support phases entered by time `t`: the step count a
    /// summary line should report.
    pub fn steps_taken(&self, t: u64) -> (r: usize)
        ensures
            r == steps_before(self.slices@, t, self.slices@.len()),
    {
        let mut n: usize = 0;
        let mut i: usize = 0;
        while i < self.slices.len()
            invariant
                i <= self.slices.len(),
                n <= i,
                n == steps_before(self.slices@, t, i as nat),
            decreases self.slices.len() - i,
        {
            let s: Slice = self.slices[i];
            if let Support::Single { .. } = s.support {
                if s.t0 < t {
                    n += 1;
                }
            }
            i += 1;
        }
        n
    }
}

#[verifier::spinoff_prover]
proof fn lemma_nominal_bounds(p: GaitParams, i: int)
    requires
        p.valid(),
        0 <= i <= 2 * p.n_steps,
    ensures
        p.nominal_slice(i).t0 <= p.nominal_slice(i).t1,
        i < 2 * p.n_steps ==> p.nominal_slice(i).t1 == p.nominal_slice(i + 1).t0,
        i == 2 * p.n_steps ==> p.nominal_slice(i).t1 == p.schedule_end(),
        i % 2 == 1 ==> p.nominal_slice(i).t0 == p.step_start(i / 2),
{
    assert(p.step_start(0) == p.t_start) by {
        assert(0 * (p.t_ss + p.t_ds) == 0) by (nonlinear_arith);
    }
    if i % 2 == 1 {
        let k = i / 2;
        lemma_step_start(p, k);
        assert((i + 1) % 2 == 0 && (i + 1) / 2 - 1 == k);
    } else if i > 0 {
        let k = i / 2 - 1;
        lemma_step_start(p, k);
        assert((i + 1) % 2 == 1 && (i + 1) / 2 == k + 1);
        if i < 2 * p.n_steps {
            lemma_step_start(p, k + 1);
        }
    } else if p.n_steps > 0 {
        lemma_step_start(p, 0);
    }
}

/// The plan has a slice for the weight shift and two for each step, starts at
/// time 0 and runs without a gap to the end of the schedule, or to `t_end`
/// where that is later. No slice ends before it begins.
pub proof fn law_plan_covers_the_timeline(p: GaitParams)
    requires
        p.valid(),
    ensures
        p.plan().len() == 2 * p.n_steps + 1,
        p.plan()[0].t0 == 0,
        forall|i: int| 0 <= i < p.plan().len() ==> (#[trigger] p.plan()[i]).t0 <= p.plan()[i].t1,
        forall|i: int, j: int|
            0 <= i && j == i + 1 && j < p.plan().len() ==> (#[trigger] p.plan()[i]).t1
                == (#[trigger] p.plan()[j]).t0,
        p.plan().last().t1 == if p.t_end > p.schedule_end() {
            p.t_end as int
        } else {
            p.schedule_end()
        },
{
    assert forall|i: int| 0 <= i < p.plan().len() implies (#[trigger] p.plan()[i]).t0
        <= p.plan()[i].t1 by {
        lemma_nominal_bounds(p, i);
    }
    assert forall|i: int, j: int| 0 <= i && j == i + 1 && j < p.plan().len() implies (
    #[trigger] p.plan()[i]).t1 == (#[trigger] p.plan()[j]).t0 by {
        lemma_nominal_bounds(p, i);
    }
    lemma_nominal_bounds(p, 2 * p.n_steps);
}

/// Feet take turns: the first, third, ... slice is double support, and the
/// slices between are single support in which the foot that just landed carries
/// the load. Every single support has one foot down and the other in the air.
pub proof fn law_plan_alternates(p: GaitParams, i: int)
    requires
        p.valid(),
        0 <= i < p.plan().len(),
    ensures
        i % 2 == 0 <==> p.plan()[i].support == Support::Double,
        i % 2 == 1 ==> p.plan()[i].support is Single && p.plan()[i].support->stance + p.plan()[i].support->swing
            == 1,
        i == 1 ==> p.plan()[i].support->swing == p.first_swing,
        i % 2 == 1 && i >= 3 ==> p.plan()[i].support->stance == p.plan()[i - 2].support->swing,
{
    if i % 2 == 1 && i >= 3 {
        assert((i - 2) / 2 == i / 2 - 1);
    }
}

/// One slice covers a given time, and only one.
pub proof fn law_cover_is_unique(slices: Seq<Slice>, t: u64, i: int, j: int)
    requires
        covers(slices, t, i),
        covers(slices, t, j),
    ensures
        i == j,
{
}

/// The slice that covers a time before the end of the plan holds that time.
pub proof fn law_covering_slice_holds_time(p: GaitParams, t: u64, i: int)
    requires
        p.valid(),
        covers(p.plan(), t, i),
        t < p.plan().last().t1,
    ensures
        p.plan()[i].t0 <= t < p.plan()[i].t1,
{
    law_plan_covers_the_timeline(p);
    if i > 0 {
        assert(p.plan()[i - 1].t1 == p.plan()[i].t0);
    }
}

proof fn lemma_steps_before(p: GaitParams, t: u64, k: nat)
    requires
        p.valid(),
        k <= p.n_steps,
        k > 0 ==> p.step_start(k - 1) < t,
    ensures
        steps_before(p.plan(), t, 2 * k + 1) == k,
    decreases k,
{
    if k == 0 {
        assert(steps_before(p.plan(), t, 0) == 0);
    } else {
        if k > 1 {
            lemma_step_start(p, k - 2);
        }
        lemma_steps_before(p, t, (k - 1) as nat);
        lemma_nominal_bounds(p, 2 * k - 1);
        assert((2 * k - 1) / 2 == k - 1);
        assert(p.plan()[2 * k - 1].t0 < t);
        assert(p.plan()[2 * k as int].support is Double);
        assert(steps_before(p.plan(), t, (2 * k) as nat) == steps_before(
            p.plan(),
            t,
            (2 * k - 1) as nat,
        ) + 1);
    }
}

/// Once the last step has begun, all steps are counted.
pub proof fn law_all_steps_are_counted(p: GaitParams, t: u64)
    requires
        p.valid(),
        p.n_steps > 0 ==> p.step_start(p.n_steps - 1) < t,
    ensures
        steps_before(p.plan(), t, p.plan().len()) == p.n_steps,
{
    lemma_steps_before(p, t, p.n_steps as nat);
}

/// Corrects the scheduled support set with what the feet are ACTUALLY doing.
///
/// The schedule is a plan, and the plant does not read it: a swing foot lands
/// early and carries load while it is still out of the contact set, and a
/// scheduled stance foot bounces to no load while it is counted on. Either way
/// the force distribution is computed against a contact set that does not
/// exist.
///
/// Hysteresis matters in both directions: a foot momentarily unloaded during a
/// weight transfer is normal and must not be dropped, and contact chatter on
/// touchdown must not add and remove the foot on alternate ticks.
#[derive(Clone, Copy, Debug)]
pub struct ContactCorrection {
    /// Load above which an unscheduled foot is admitted to the contact set, in
    /// micronewtons.
    pub on_n: i64,
    /// Load below which a scheduled stance foot is dropped from it, in
    /// micronewtons.
    pub off_n: i64,
    /// Consecutive ticks the condition must hold before acting.
    pub ticks: u32,
    /// Ticks in a row each foot was loaded.
    pub on_count: [u32; 2],
    /// Ticks in a row each foot was unloaded.
    pub off_count: [u32; 2],
    /// The feet believed to be in contact.
    pub state: [bool; 2],
}

/// What the correction remembers of one foot.
pub struct FootMemory {
    /// Ticks in a row with the foot loaded.
    pub on: nat,
    /// Ticks in a row with the foot unloaded.
    pub off: nat,
    /// The foot is believed to be in contact.
    pub down: bool,
}

/// One more tick of a streak, or its end. Streaks are counted up to `u32::MAX`.
pub open spec fn streak(count: nat, goes_on: bool) -> nat {
    if !goes_on {
        0
    } else if count < u32::MAX {
        count + 1
    } else {
        count
    }
}

impl ContactCorrection {
    pub open spec fn foot(&self, side: int) -> FootMemory {
        FootMemory {
            on: self.on_count@[side] as nat,
            off: self.off_count@[side] as nat,
            down: self.state@[side],
        }
    }

    /// A measured load in millinewtons is above the admission threshold.
    pub open spec fn loads(&self, fz: i64) -> bool {
        fz * 1000 > self.on_n
    }

    /// A measured load in millinewtons is below the drop threshold.
    pub open spec fn unloads(&self, fz: i64) -> bool {
        fz * 1000 < self.off_n
    }

    /// The next memory of a foot, before the contact set is kept from being
    /// empty.
    pub open spec fn next_foot(&self, side: usize, nominal: Support, fz: i64) -> FootMemory {
        let old_foot = self.foot(side as int);
        let on = streak(old_foot.on, self.loads(fz));
        let off = streak(old_foot.off, self.unloads(fz));
        // A commanded lift is not negotiable. Otherwise a foot that is down
        // stays until it has been unloaded long enough, a foot that is up
        // comes down once it has been loaded long enough, and a foot that the
        // schedule counts on is admitted as soon as it is loaded.
        let down = nominal.swing_of() != Some(side) && (if old_foot.down {
            off < self.ticks
        } else {
            on >= self.ticks
        } || nominal.has_stance(side) && self.loads(fz));
        FootMemory { on, off, down }
    }

    /// The foot to stand on when no foot is in contact.
    pub open spec fn last_resort(nominal: Support, fz: [i64; 2]) -> int {
        match nominal {
            Support::Single { stance, .. } => stance as int,
            Support::Double => if fz[1] > fz[0] {
                1
            } else {
                0
            },
        }
    }

    /// The next memory of both feet, left first. The contact set is never
    /// empty: with no foot in contact, the last resort counts as down.
    pub open spec fn next_feet(&self, nominal: Support, fz: [i64; 2]) -> (FootMemory, FootMemory) {
        let left = self.next_foot(0, nominal, fz[0]);
        let right = self.next_foot(1, nominal, fz[1]);
        let keep = ContactCorrection::last_resort(nominal, fz);
        let none = !left.down && !right.down;
        (
            FootMemory { on: left.on, off: left.off, down: left.down || none && keep == 0 },
            FootMemory { on: right.on, off: right.off, down: right.down || none && keep == 1 },
        )
    }

    /// The feet whose contact is newly established, left first: those that are
    /// in the contact set now and were not before, the last resort among them.
    pub open spec fn fresh_feet(&self, nominal: Support, fz: [i64; 2]) -> Seq<Side> {
        let next = self.next_feet(nominal, fz);
        feet(next.0.down && !self.foot(0).down, next.1.down && !self.foot(1).down)
    }

    /// Thresholds as a fraction of body weight, which is given in
    /// millinewtons: admit at 10%, drop at 2%.
    pub fn new(weight_n: i64, ticks: u32) -> (r: ContactCorrection)
        requires
            i64::MIN <= weight_n * 100 <= i64::MAX,
        ensures
            r.on_n == weight_n * 100,
            r.off_n == weight_n * 20,
            r.ticks == ticks,
            forall|side: int|
                0 <= side < 2 ==> #[trigger] r.foot(side) == (FootMemory {
                    on: 0,
                    off: 0,
                    down: true,
                }),
    {
        ContactCorrection {
            on_n: weight_n * 100,
            off_n: weight_n * 20,
            ticks,
            on_count: [0, 0],
            off_count: [0, 0],
            state: [true, true],
        }
    }

    /// One foot's part of [`Self::update`].
    fn update_foot(&mut self, side: usize, nominal: Support, fz: i64)
        requires
            side < 2,
        ensures
            final(self).on_n == old(self).on_n,
            final(self).off_n == old(self).off_n,
            final(self).ticks == old(self).ticks,
            final(self).foot(side as int) == old(self).next_foot(side, nominal, fz),
            final(self).foot(1 - side) == old(self).foot(1 - side),
    {
        let sched = nominal.is_stance(side);
        let load: i128 = fz as i128 * 1000;
        let loaded = load > self.on_n as i128;
        let unloaded = load < self.off_n as i128;
        let on: u32 = if loaded { self.on_count[side].saturating_add(1) } else { 0 };
        let off: u32 = if unloaded { self.off_count[side].saturating_add(1) } else { 0 };
        self.on_count[side] = on;
        self.off_count[side] = off;
        let lift = match nominal.swing() {
            Some(s) => s == side,
            None => false,
        };
        if lift {
            self.state[side] = false;
        } else {
            let was = self.state[side];
            let now = if was { !(off >= self.ticks) } else { on >= self.ticks };
            self.state[side] = now || (sched && loaded);
        }
    }

    /// Feed this tick's measured vertical load per foot and the scheduled
    /// support; returns the support set to actually solve against, plus the
    /// sides whose contact was newly established (they need a fresh anchor).
    pub fn update(&mut self, nominal: Support, fz: [i64; 2]) -> (r: (Vec<Side>, Vec<Side>))
        requires
            nominal matches Support::Single { stance, .. } ==> stance <= 1,
        ensures
            final(self).on_n == old(self).on_n,
            final(self).off_n == old(self).off_n,
            final(self).ticks == old(self).ticks,
            final(self).foot(0) == old(self).next_feet(nominal, fz).0,
            final(self).foot(1) == old(self).next_feet(nominal, fz).1,
            r.0@ == feet(final(self).foot(0).down, final(self).foot(1).down),
            r.1@ == old(self).fresh_feet(nominal, fz),
    {
        let was_left = self.state[0];
        let was_right = self.state[1];
        self.update_foot(0, nominal, fz[0]);
        self.update_foot(1, nominal, fz[1]);
        let mut stance: Vec<Side> = Vec::new();
        let mut fresh: Vec<Side> = Vec::new();
        if self.state[0] {
            stance.push(0);
            if !was_left {
                fresh.push(0);
            }
        }
        if self.state[1] {
            stance.push(1);
            if !was_right {
                fresh.push(1);
            }
        }
        // Never hand on an empty contact set: with no contact there is no way
        // to hold the robot up at all. Keep the foot the schedule believes in.
        if stance.len() == 0 {
            let keep: usize = match nominal {
                Support::Single { stance, .. } => stance,
                Support::Double => if fz[1] > fz[0] {
                    1
                } else {
                    0
                },
            };
            let was = if keep == 0 {
                was_left
            } else {
                was_right
            };
            if !was {
                fresh.push(keep);
            }
            self.state[keep] = true;
            stance.push(keep);
        }
        (stance, fresh)
    }

    /// The sides currently believed to be in contact, for logging.
    pub fn state(&self) -> (r: [bool; 2])
        ensures
            r[0] == self.foot(0).down,
            r[1] == self.foot(1).down,
    {
        self.state
    }
}

/// The sides of a set of feet, left first.
pub open spec fn feet(left: bool, right: bool) -> Seq<Side> {
    if left && right {
        seq![0usize, 1usize]
    } else if left {
        seq![0usize]
    } else if right {
        seq![1usize]
    } else {
        Seq::empty()
    }
}

/// The contact set is never empty.
pub proof fn law_contact_set_is_never_empty(c: ContactCorrection, nominal: Support, fz: [i64; 2])
    requires
        nominal matches Support::Single { stance, .. } ==> stance <= 1,
    ensures
        c.next_feet(nominal, fz).0.down || c.next_feet(nominal, fz).1.down,
        feet(c.next_feet(nominal, fz).0.down, c.next_feet(nominal, fz).1.down).len() > 0,
{
}

/// A commanded lift is always honoured: in single support the swing foot is out
/// of the contact set, whatever was measured, and the stance foot is in it
/// whenever the swing foot would leave it empty.
pub proof fn law_lift_is_honoured(c: ContactCorrection, stance: Side, swing: Side, fz: [i64; 2])
    requires
        stance <= 1,
        swing <= 1,
        stance != swing,
    ensures
        swing == 0 ==> feet(
            c.next_feet(Support::Single { stance, swing }, fz).0.down,
            c.next_feet(Support::Single { stance, swing }, fz).1.down,
        ) == seq![RIGHT],
        swing == 1 ==> feet(
            c.next_feet(Support::Single { stance, swing }, fz).0.down,
            c.next_feet(Support::Single { stance, swing }, fz).1.down,
        ) == seq![LEFT],
{
}

/// The feet that need a fresh anchor are exactly those that have come into the
/// contact set.
pub proof fn law_fresh_feet_are_in_contact(
    c: ContactCorrection,
    nominal: Support,
    fz: [i64; 2],
    side: Side,
)
    requires
        side <= 1,
    ensures
        c.fresh_feet(nominal, fz).contains(side) <==> feet(
            c.next_feet(nominal, fz).0.down,
            c.next_feet(nominal, fz).1.down,
        ).contains(side) && !c.foot(side as int).down,
{
    let next = c.next_feet(nominal, fz);
    lemma_feet(next.0.down && !c.foot(0).down, next.1.down && !c.foot(1).down, side);
    lemma_feet(next.0.down, next.1.down, side);
}

/// A set of feet holds the sides that it is made of.
proof fn lemma_feet(left: bool, right: bool, side: Side)
    requires
        side <= 1,
    ensures
        feet(left, right).contains(side) <==> (side == 0 && left || side == 1 && right),
{
    let f = feet(left, right);
    if left {
        assert(f[0] == 0);
    }
    if right {
        assert(f[f.len() - 1] == 1);
    }
}

/// Chatter does not change the contact set: a foot on which neither threshold
/// has been crossed for long enough keeps its state in double support, unless it
/// is loaded (then it is admitted) or no foot would be left.
pub proof fn law_short_streaks_change_nothing(
    c: ContactCorrection,
    side: Side,
    nominal: Support,
    fz: i64,
)
    requires
        side <= 1,
        nominal == Support::Double,
        !c.loads(fz),
        streak(c.foot(side as int).off, c.unloads(fz)) < c.ticks,
        c.ticks > 0,
    ensures
        c.next_foot(side, nominal, fz).down == c.foot(side as int).down,
{
}

/// The memory of a foot after an update, left or right.
pub open spec fn foot_after(
    c: ContactCorrection,
    nominal: Support,
    fz: [i64; 2],
    side: int,
) -> FootMemory {
    if side == 0 {
        c.next_feet(nominal, fz).0
    } else {
        c.next_feet(nominal, fz).1
    }
}

/// Streaks start over: a load in millinewtons that is not below the drop threshold ends
/// the count of unloaded ticks, one that is not above the admission threshold ends the
/// count of loaded ones, and any other load makes the count one longer.
pub proof fn law_streaks_start_over(
    c: ContactCorrection,
    nominal: Support,
    fz: [i64; 2],
    side: int,
)
    requires
        0 <= side < 2,
    ensures
        ({
            let now = foot_after(c, nominal, fz, side);
            let (on, off) = (c.on_count@[side], c.off_count@[side]);
            &&& fz[side] * 1000 >= c.off_n ==> now.off == 0
            &&& fz[side] * 1000 <= c.on_n ==> now.on == 0
            &&& fz[side] * 1000 < c.off_n ==> now.off == off + 1 || now.off == off == u32::MAX
            &&& fz[side] * 1000 > c.on_n ==> now.on == on + 1 || now.on == on == u32::MAX
        }),
{
}

/// `states` are the corrections of a run in double support: each is what an update with
/// the loads of its tick makes of the one before.
pub open spec fn is_run(states: Seq<ContactCorrection>, loads: Seq<[i64; 2]>) -> bool {
    &&& states.len() == loads.len() + 1
    &&& forall|k: int|
        #![trigger loads[k]]
        0 <= k < loads.len() ==> {
            let (was, now) = (states[k], states[k + 1]);
            &&& now.on_n == was.on_n
            &&& now.off_n == was.off_n
            &&& now.ticks == was.ticks
            &&& now.foot(0) == was.next_feet(Support::Double, loads[k]).0
            &&& now.foot(1) == was.next_feet(Support::Double, loads[k]).1
        }
}

proof fn lemma_run_keeps_thresholds(
    states: Seq<ContactCorrection>,
    loads: Seq<[i64; 2]>,
    n: nat,
)
    requires
        is_run(states, loads),
        n < states.len(),
    ensures
        states[n as int].on_n == states[0].on_n,
        states[n as int].off_n == states[0].off_n,
        states[n as int].ticks == states[0].ticks,
    decreases n,
{
    if n > 0 {
        lemma_run_keeps_thresholds(states, loads, (n - 1) as nat);
        let l = loads[n - 1];
    }
}

/// The count of unloaded ticks is no more than the ticks of the run, and each of those
/// that it counts was unloaded.
proof fn lemma_off_counts_ticks(
    states: Seq<ContactCorrection>,
    loads: Seq<[i64; 2]>,
    side: int,
    n: nat,
)
    requires
        is_run(states, loads),
        0 <= side < 2,
        states[0].off_count@[side] == 0,
        n < states.len(),
    ensures
        states[n as int].foot(side).off <= n,
        forall|j: int|
            #![trigger loads[j]]
            n - states[n as int].foot(side).off <= j < n ==> loads[j][side] * 1000
                < states[0].off_n,
    decreases n,
{
    if n > 0 {
        lemma_off_counts_ticks(states, loads, side, (n - 1) as nat);
        lemma_run_keeps_thresholds(states, loads, (n - 1) as nat);
        let l = loads[n - 1];
        law_streaks_start_over(states[n - 1], Support::Double, l, side);
    }
}

/// Chatter drops no foot. Over a run of updates in double support that starts with a fresh
/// count, a foot that is in the contact set leaves it only if its load was below the drop
/// threshold on each of the last `ticks` updates.
pub proof fn law_foot_leaves_only_after_its_ticks(
    states: Seq<ContactCorrection>,
    loads: Seq<[i64; 2]>,
    side: int,
    n: int,
)
    requires
        is_run(states, loads),
        0 <= side < 2,
        states[0].off_count@[side] == 0,
        0 < n < states.len(),
        states[n - 1].state@[side],
        !states[n].state@[side],
    ensures
        states[0].ticks <= n,
        forall|j: int|
            #![trigger loads[j]]
            n - states[0].ticks <= j < n ==> loads[j][side] * 1000 < states[0].off_n,
{
    lemma_off_counts_ticks(states, loads, side, n as nat);
    lemma_run_keeps_thresholds(states, loads, (n - 1) as nat);
    let l = loads[n - 1];
    assert(states[n].foot(side).down == states[n].state@[side]);
    assert(states[n - 1].foot(side).down == states[n - 1].state@[side]);
}

proof fn lemma_off_grows(
    states: Seq<ContactCorrection>,
    loads: Seq<[i64; 2]>,
    side: int,
    n: int,
    k: nat,
)
    requires
        is_run(states, loads),
        0 <= side < 2,
        0 <= k <= n < states.len(),
        k <= u32::MAX,
        forall|j: int|
            #![trigger loads[j]]
            n - k <= j < n ==> loads[j][side] * 1000 < states[0].off_n,
    ensures
        states[n].foot(side).off >= k,
    decreases k,
{
    if k > 0 {
        lemma_off_grows(states, loads, side, n - 1, (k - 1) as nat);
        lemma_run_keeps_thresholds(states, loads, (n - 1) as nat);
        let l = loads[n - 1];
        law_streaks_start_over(states[n - 1], Support::Double, l, side);
    }
}

/// A foot whose load was below both thresholds on each of the last `ticks` updates is out
/// of the contact set, unless the other is out too.
pub proof fn law_unloaded_foot_leaves(
    states: Seq<ContactCorrection>,
    loads: Seq<[i64; 2]>,
    side: int,
    n: int,
)
    requires
        is_run(states, loads),
        0 <= side < 2,
        0 < states[0].ticks <= n < states.len(),
        loads[n - 1][side] * 1000 <= states[0].on_n,
        forall|j: int|
            #![trigger loads[j]]
            n - states[0].ticks <= j < n ==> loads[j][side] * 1000 < states[0].off_n,
    ensures
        states[n].state@[side] ==> !states[n].state@[1 - side],
{
    lemma_off_grows(states, loads, side, n, states[0].ticks as nat);
    lemma_run_keeps_thresholds(states, loads, (n - 1) as nat);
    let l = loads[n - 1];
    law_streaks_start_over(states[n - 1], Support::Double, l, side);
    assert(states[n].foot(side).down == states[n].state@[side]);
    assert(states[n].foot(1 - side).down == states[n].state@[1 - side]);
}

/// A foot that the schedule counts on is admitted as soon as its load is above the
/// admission threshold, and one that is up stays up on a smaller load, unless no foot
/// would be left.
pub proof fn law_loaded_foot_is_admitted(
    c: ContactCorrection,
    nominal: Support,
    fz: [i64; 2],
    side: int,
)
    requires
        0 <= side < 2,
        c.ticks > 0,
        nominal == Support::Double || (nominal is Single && nominal->stance == side
            && nominal->swing == 1 - side),
    ensures
        fz[side] * 1000 > c.on_n ==> foot_after(c, nominal, fz, side).down,
        fz[side] * 1000 <= c.on_n && !c.state@[side] && foot_after(c, nominal, fz, side).down
            ==> !foot_after(c, nominal, fz, 1 - side).down,
{
}

/// With both feet out of contact the robot stands on the one that is loaded more in double
/// support, the left one where neither is, and on the scheduled one in single support.
pub proof fn law_last_resort(c: ContactCorrection, nominal: Support, fz: [i64; 2])
    requires
        c.ticks > 0,
        nominal == Support::Double || (nominal is Single && nominal->stance + nominal->swing == 1),
        forall|side: int|
            0 <= side < 2 ==> #[trigger] fz[side] * 1000 <= c.on_n && (!c.state@[side] || fz[side]
                * 1000 < c.off_n && c.off_count@[side] + 1 >= c.ticks),
    ensures
        ({
            let right = match nominal {
                Support::Double => fz[1] > fz[0],
                Support::Single { stance, .. } => stance == 1,
            };
            &&& foot_after(c, nominal, fz, 1).down == right
            &&& foot_after(c, nominal, fz, 0).down == !right
        }),
{
    assert(fz[0] * 1000 <= c.on_n && fz[1] * 1000 <= c.on_n);
    law_streaks_start_over(c, nominal, fz, 0);
    law_streaks_start_over(c, nominal, fz, 1);
}

/// The sides of a set are its feet, each once and the left one first.
pub proof fn law_feet_are_named_once(left: bool, right: bool)
    ensures
        feet(left, right).len() == (if left {
            1int
        } else {
            0int
        }) + (if right {
            1int
        } else {
            0int
        }),
        left ==> feet(left, right)[0] == 0,
        right ==> feet(left, right).last() == 1,
{
}

/// In double support both feet carry and none swings; in single support exactly the stance
/// foot carries and exactly the swing foot swings.
pub proof fn law_supports(s: Support, side: Side)
    ensures
        s == Support::Double ==> s.has_stance(side) && s.swing_of() is None,
        s matches Support::Single { stance, swing } ==> {
            &&& s.has_stance(side) <==> side == stance
            &&& s.swing_of() == Some(swing)
        },
{
}

/// Each slice of a plan lasts as long as asked for: the weight shift, then swing and double
/// support in turn, up to the last, which may be drawn out.
pub proof fn law_slices_last_as_asked(p: GaitParams, i: int)
    requires
        p.valid(),
        0 <= i < p.plan().len(),
    ensures
        i == 0 && p.n_steps > 0 ==> p.plan()[i].t0 == 0 && p.plan()[i].t1 == p.t_start,
        i % 2 == 1 ==> p.plan()[i].t1 - p.plan()[i].t0 == p.t_ss,
        0 < i < 2 * p.n_steps && i % 2 == 0 ==> p.plan()[i].t1 - p.plan()[i].t0 == p.t_ds,
        i == 2 * p.n_steps && i > 0 ==> p.plan()[i].t1 - p.plan()[i].t0 >= p.t_ds,
        i == 2 * p.n_steps ==> p.plan()[i].t1 >= p.t_end,
        i == 2 * p.n_steps && i > 0 ==> p.plan()[i].t1 - p.plan()[i].t0 == p.t_ds
            || p.plan()[i].t1 == p.t_end,
{
    lemma_nominal_bounds(p, i);
    if i % 2 == 1 {
        lemma_step_start(p, i / 2);
    } else if i > 0 {
        lemma_step_start(p, i / 2 - 1);
    }
}

/// The count of steps goes up by one where a single support begins and never down: two
/// times between which none begins have the same count.
pub proof fn law_steps_are_counted_as_they_begin(slices: Seq<Slice>, t1: u64, t2: u64, n: nat)
    requires
        t1 <= t2,
        n <= slices.len(),
    ensures
        steps_before(slices, t1, n) <= steps_before(slices, t2, n) <= n,
        (forall|i: int|
            0 <= i < n && (#[trigger] slices[i]).support is Single ==> !(t1 <= slices[i].t0 < t2))
            ==> steps_before(slices, t1, n) == steps_before(slices, t2, n),
        forall|i: int|
            0 <= i < n && (#[trigger] slices[i]).support is Single && t1 <= slices[i].t0 < t2
                ==> steps_before(slices, t1, n) < steps_before(slices, t2, n),
        (forall|i: int| 0 <= i < n ==> !((#[trigger] slices[i]).support is Single)) ==> steps_before(
            slices,
            t2,
            n,
        ) == 0,
    decreases n,
{
    if n > 0 {
        law_steps_are_counted_as_they_begin(slices, t1, t2, (n - 1) as nat);
        let last = slices[n - 1];
    }
}

} // verus!
