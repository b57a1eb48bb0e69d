//! Contact anchors, stacked contact Jacobians, and the map from a foot's wrench to
//! its sole.
//!
//! A frozen anchor becomes a phantom force, and a foot that lifts and lands
//! somewhere else must not keep arguing for the place it left.
//!
//! Lengths are nanometres, rotation matrices parts per billion.

use vstd::prelude::*;

use crate::biped::gait::Side;
use crate::biped::rows::copy_row;
use crate::biped::tasks::{track, MAX_GAIN};
use crate::robot::Vec3;

verus! {

/// Per-foot touchdown pose, indexed by side (0 = left, 1 = right).
pub struct Anchors<P> {
    pub left: Option<P>,
    pub right: Option<P>,
}

impl<P: Copy> Anchors<P> {
    /// The anchor of one foot.
    pub open spec fn of(&self, side: Side) -> Option<P> {
        if side == 0 {
            self.left
        } else {
            self.right
        }
    }

    pub fn new() -> (r: Anchors<P>)
        ensures
            r.left is None,
            r.right is None,
    {
        Anchors { left: None, right: None }
    }

    /// Set the anchor for a foot that has just made contact, discarding
    /// whatever it held before.
    pub fn touchdown(&mut self, side: Side, pose: P)
        requires
            side <= 1,
        ensures
            final(self).of(side) == Some(pose),
            final(self).of((1 - side) as usize) == old(self).of((1 - side) as usize),
    {
        if side == 0 {
            self.left = Some(pose);
        } else {
            self.right = Some(pose);
        }
    }

    /// Forget a foot's anchor as it leaves the contact set.
    pub fn release(&mut self, side: Side)
        requires
            side <= 1,
        ensures
            final(self).of(side) is None,
            final(self).of((1 - side) as usize) == old(self).of((1 - side) as usize),
    {
        if side == 0 {
            self.left = None;
        } else {
            self.right = None;
        }
    }

    /// Set the anchor only if the foot does not already have one.
    pub fn ensure(&mut self, side: Side, pose: P)
        requires
            side <= 1,
        ensures
            final(self).of(side) == match old(self).of(side) {
                Some(held) => Some(held),
                None => Some(pose),
            },
            final(self).of((1 - side) as usize) == old(self).of((1 - side) as usize),
    {
        if side == 0 {
            if self.left.is_none() {
                self.left = Some(pose);
            }
        } else {
            if self.right.is_none() {
                self.right = Some(pose);
            }
        }
    }

    /// The anchor of a foot in contact, which must have one.
    pub fn pose(&self, side: Side) -> (r: P)
        requires
            side <= 1,
            self.of(side) is Some,
        ensures
            self.of(side) == Some(r),
    {
        if side == 0 {
            self.left.unwrap()
        } else {
            self.right.unwrap()
        }
    }
}

/// Where a foot is and how it is turned: its position, and the rows of its rotation
/// matrix.
#[derive(Clone, Copy, PartialEq, Eq, Structural, Debug)]
pub struct AnchorPose {
    pub pos: Vec3,
    pub row0: Vec3,
    pub row1: Vec3,
    pub row2: Vec3,
}

/// No entry of a rotation matrix is larger than this; a true one is at most a
/// billion.
pub const MAX_ENTRY: i64 = 0x100_0000_0000;

/// The entries of a row are those of a rotation.
pub open spec fn row_fits(row: Vec3) -> bool {
    &&& -MAX_ENTRY <= row.x <= MAX_ENTRY
    &&& -MAX_ENTRY <= row.y <= MAX_ENTRY
    &&& -MAX_ENTRY <= row.z <= MAX_ENTRY
}

/// A whole share of a leak, in trillionths.
pub const WHOLE_LEAK: i128 = 1_000_000_000_000;

/// How much of the way an anchor goes in `dt` microseconds at a rate in millionths
/// per second: never more than all of it.
pub open spec fn leak_share(rate: int, dt: int) -> int {
    if rate * dt < WHOLE_LEAK {
        rate * dt
    } else {
        WHOLE_LEAK as int
    }
}

/// A coordinate on its way to where it is now, rounded down.
pub open spec fn drifted(held: int, now: int, share: int) -> int {
    held + ((now - held) * share) / (WHOLE_LEAK as int)
}

/// All coordinates of a row on their way.
pub open spec fn drifted_row(held: Vec3, now: Vec3, share: int) -> Vec3 {
    Vec3 {
        x: drifted(held.x as int, now.x as int, share) as i64,
        y: drifted(held.y as int, now.y as int, share) as i64,
        z: drifted(held.z as int, now.z as int, share) as i64,
    }
}

impl AnchorPose {
    pub open spec fn valid(self) -> bool {
        row_fits(self.row0) && row_fits(self.row1) && row_fits(self.row2)
    }

    /// The anchor after it has followed the foot for a tick. Without a leak of the
    /// position nothing moves.
    pub open spec fn leaked(self, now: AnchorPose, leak: i64, leak_rot: i64, dt: u32) -> AnchorPose {
        let pos = leak_share(leak as int, dt as int);
        let rot = leak_share(leak_rot as int, dt as int);
        if leak <= 0 {
            self
        } else {
            AnchorPose {
                pos: drifted_row(self.pos, now.pos, pos),
                row0: drifted_row(self.row0, now.row0, rot),
                row1: drifted_row(self.row1, now.row1, rot),
                row2: drifted_row(self.row2, now.row2, rot),
            }
        }
    }
}

/// An anchor that leaks stays between what it held and where the foot is: it never
/// overshoots.
pub proof fn law_leak_does_not_overshoot(held: int, now: int, share: int)
    requires
        0 <= share <= WHOLE_LEAK,
    ensures
        held <= now ==> held <= drifted(held, now, share) <= now,
        now <= held ==> now <= drifted(held, now, share) <= held,
        share == 1_000_000_000_000 ==> drifted(held, now, share) == now,
        share == 0 ==> drifted(held, now, share) == held,
{
    let way = now - held;
    let w: int = 1_000_000_000_000;
    assert(way >= 0 ==> 0 <= way * share <= way * w) by (nonlinear_arith)
        requires
            0 <= share <= w,
    ;
    assert(way <= 0 ==> way * w <= way * share <= 0) by (nonlinear_arith)
        requires
            0 <= share <= w,
    ;
    assert(share == 0 ==> way * share == 0) by (nonlinear_arith);
}

fn drift(held: i64, now: i64, share: i128) -> (r: i64)
    requires
        0 <= share <= WHOLE_LEAK,
    ensures
        r == drifted(held as int, now as int, share as int),
{
    proof {
        law_leak_does_not_overshoot(held as int, now as int, share as int);
        let m: int = 0x1_0000_0000_0000_0000;
        assert(-(m * 1_000_000_000_000) <= (now - held) * share <= m * 1_000_000_000_000)
            by (nonlinear_arith)
            requires
                -m <= now - held <= m,
                0 <= share <= 1_000_000_000_000,
                m > 0,
        ;
    }
    let way: i128 = (now as i128 - held as i128) * share;
    match way.checked_div_euclid(WHOLE_LEAK) {
        Some(q) => (held as i128 + q) as i64,
        None => held,
    }
}

fn drift_row(held: &Vec3, now: &Vec3, share: i128) -> (r: Vec3)
    requires
        0 <= share <= WHOLE_LEAK,
    ensures
        r == drifted_row(*held, *now, share as int),
        row_fits(*held) && row_fits(*now) ==> row_fits(r),
{
    proof {
        law_leak_does_not_overshoot(held.x as int, now.x as int, share as int);
        law_leak_does_not_overshoot(held.y as int, now.y as int, share as int);
        law_leak_does_not_overshoot(held.z as int, now.z as int, share as int);
    }
    Vec3 {
        x: drift(held.x, now.x, share),
        y: drift(held.y, now.y, share),
        z: drift(held.z, now.z, share),
    }
}

fn share_of(rate: i64, dt: u32) -> (r: i128)
    requires
        rate >= 0,
    ensures
        r == leak_share(rate as int, dt as int),
        0 <= r <= WHOLE_LEAK,
{
    proof {
        assert(0 <= rate * dt <= 0x8000_0000_0000_0000 * 0x1_0000_0000) by (nonlinear_arith)
            requires
                0 <= rate <= 0x8000_0000_0000_0000,
                0 <= dt <= 0x1_0000_0000,
        ;
    }
    let p: i128 = rate as i128 * dt as i128;
    if p < WHOLE_LEAK {
        p
    } else {
        WHOLE_LEAK
    }
}

/// The product of two rows.
pub open spec fn dot(a: Vec3, b: Vec3) -> int {
    a.x * b.x + a.y * b.y + a.z * b.z
}

fn dot_of(a: &Vec3, b: &Vec3) -> (r: i128)
    requires
        row_fits(*a),
        row_fits(*b),
    ensures
        r == dot(*a, *b),
        -0x4_0000_0000_0000_0000_0000 <= r <= 0x4_0000_0000_0000_0000_0000,
{
    proof {
        lemma_entry_product(a.x as int, b.x as int);
        lemma_entry_product(a.y as int, b.y as int);
        lemma_entry_product(a.z as int, b.z as int);
    }
    a.x as i128 * b.x as i128 + a.y as i128 * b.y as i128 + a.z as i128 * b.z as i128
}

proof fn lemma_entry_product(a: int, b: int)
    requires
        -MAX_ENTRY <= a <= MAX_ENTRY,
        -MAX_ENTRY <= b <= MAX_ENTRY,
    ensures
        -0x1_0000_0000_0000_0000_0000 <= a * b <= 0x1_0000_0000_0000_0000_0000,
{
    assert(-0x1_0000_0000_0000_0000_0000 <= a * b <= 0x1_0000_0000_0000_0000_0000)
        by (nonlinear_arith)
        requires
            -0x100_0000_0000 <= a <= 0x100_0000_0000,
            -0x100_0000_0000 <= b <= 0x100_0000_0000,
    ;
}

/// Half the difference of two products, in parts per billion, rounded down: what is
/// skew in the product of two rotations.
pub open spec fn half_skew(a: Vec3, b: Vec3, c: Vec3, d: Vec3) -> int {
    (dot(a, b) - dot(c, d)) / 2_000_000_000
}

fn half_skew_of(a: &Vec3, b: &Vec3, c: &Vec3, d: &Vec3) -> (r: i64)
    requires
        row_fits(*a),
        row_fits(*b),
        row_fits(*c),
        row_fits(*d),
    ensures
        r == half_skew(*a, *b, *c, *d),
{
    let v: i128 = dot_of(a, b) - dot_of(c, d);
    match v.checked_div_euclid(2_000_000_000) {
        Some(q) => q as i64,
        None => 0,
    }
}

impl AnchorPose {
    /// The small turn that carries a foot at `now` back to the anchor, about the
    /// world's axes.
    pub open spec fn turn_from(self, now: AnchorPose) -> (int, int, int) {
        (
            half_skew(self.row2, now.row1, self.row1, now.row2),
            half_skew(self.row0, now.row2, self.row2, now.row0),
            half_skew(self.row1, now.row0, self.row0, now.row1),
        )
    }

    /// The small turn that carries a body at `now` to this pose, about the world's
    /// axes.
    pub fn small_turn(&self, now: &AnchorPose) -> (r: Vec3)
        requires
            self.valid(),
            now.valid(),
        ensures
            (r.x as int, r.y as int, r.z as int) == self.turn_from(*now),
    {
        Vec3 {
            x: half_skew_of(&self.row2, &now.row1, &self.row1, &now.row2),
            y: half_skew_of(&self.row0, &now.row2, &self.row2, &now.row0),
            z: half_skew_of(&self.row1, &now.row0, &self.row0, &now.row1),
        }
    }

    /// The acceleration that pulls a foot back to the anchor, turning before
    /// shifting.
    pub open spec fn pull(self, now: AnchorPose, vel: Seq<i64>, kp: int, kd: int, k: int) -> int {
        let e = if k == 0 {
            self.turn_from(now).0
        } else if k == 1 {
            self.turn_from(now).1
        } else if k == 2 {
            self.turn_from(now).2
        } else if k == 3 {
            self.pos.x - now.pos.x
        } else if k == 4 {
            self.pos.y - now.pos.y
        } else {
            self.pos.z - now.pos.z
        };
        crate::biped::tasks::tracking_ref(e, -vel[k], kp, kd)
    }
}

/// A foot that is where its anchor holds it, and at rest, is not pulled.
pub proof fn law_anchored_foot_is_not_pulled(held: AnchorPose, vel: Seq<i64>, kp: int, kd: int, k: int)
    requires
        vel.len() == 6,
        0 <= k < 6,
        vel[k] == 0,
    ensures
        held.pull(held, vel, kp, kd, k) == 0,
{
    lemma_dot_commutes(held.row2, held.row1);
    lemma_dot_commutes(held.row0, held.row2);
    lemma_dot_commutes(held.row1, held.row0);
    assert(kp * 0 == 0) by (nonlinear_arith);
    assert(kd * 0 == 0) by (nonlinear_arith);
}

proof fn lemma_dot_commutes(a: Vec3, b: Vec3)
    ensures
        dot(a, b) == dot(b, a),
{
    assert(a.x * b.x == b.x * a.x) by (nonlinear_arith);
    assert(a.y * b.y == b.y * a.y) by (nonlinear_arith);
    assert(a.z * b.z == b.z * a.z) by (nonlinear_arith);
}

impl Anchors<AnchorPose> {
    /// What is held is a rotation.
    pub open spec fn valid(&self) -> bool {
        &&& self.left matches Some(p) ==> p.valid()
        &&& self.right matches Some(p) ==> p.valid()
    }

    /// Linear part of the pose error against the anchor: none without one.
    pub fn lin_error(&self, side: Side, pos: &Vec3) -> (r: (i128, i128, i128))
        ensures
            r == match self.of(side) {
                Some(held) => (
                    (held.pos.x - pos.x) as i128,
                    (held.pos.y - pos.y) as i128,
                    (held.pos.z - pos.z) as i128,
                ),
                None => (0i128, 0i128, 0i128),
            },
    {
        let held: Option<AnchorPose> = if side == 0 {
            self.left
        } else {
            self.right
        };
        match held {
            Some(p) => (
                p.pos.x as i128 - pos.x as i128,
                p.pos.y as i128 - pos.y as i128,
                p.pos.z as i128 - pos.z as i128,
            ),
            None => (0, 0, 0),
        }
    }

    /// Let the anchor follow a foot that has genuinely moved. The rates are in
    /// millionths per second, the tick `dt` in microseconds.
    ///
    /// The contact is there to reject drift, not to relitigate where the foot ought
    /// to be. Translation can be conceded; roll cannot, so `leak_rot` is mostly
    /// zero.
    pub fn leak(&mut self, side: Side, now: &AnchorPose, leak: i64, leak_rot: i64, dt: u32)
        requires
            side <= 1,
            leak_rot >= 0,
            old(self).valid(),
            now.valid(),
        ensures
            final(self).valid(),
            final(self).of(side) == match old(self).of(side) {
                Some(held) => Some(held.leaked(*now, leak, leak_rot, dt)),
                None => None,
            },
            final(self).of((1 - side) as usize) == old(self).of((1 - side) as usize),
    {
        if leak <= 0 {
            return ;
        }
        let held: Option<AnchorPose> = if side == 0 {
            self.left
        } else {
            self.right
        };
        if let Some(h) = held {
            let a: i128 = share_of(leak, dt);
            let b: i128 = share_of(leak_rot, dt);
            let moved: AnchorPose = AnchorPose {
                pos: drift_row(&h.pos, &now.pos, a),
                row0: drift_row(&h.row0, &now.row0, b),
                row1: drift_row(&h.row1, &now.row1, b),
                row2: drift_row(&h.row2, &now.row2, b),
            };
            self.touchdown(side, moved);
        }
    }

    /// Reference acceleration of a foot in contact, turning before shifting: what
    /// pulls it back to its anchor. The contact constraint alone pins
    /// accelerations, so without it a foot with any rate drifts for ever.
    pub fn accel_ref(&self, side: Side, now: &AnchorPose, vel: &[i64; 6], kp: i64, kd: i64) -> (r:
        Vec<i128>)
        requires
            side <= 1,
            self.of(side) is Some,
            self.valid(),
            now.valid(),
            -MAX_GAIN <= kp <= MAX_GAIN,
            -MAX_GAIN <= kd <= MAX_GAIN,
        ensures
            r.len() == 6,
            forall|k: int|
                0 <= k < 6 ==> #[trigger] r@[k] == self.of(side)->0.pull(
                    *now,
                    vel@,
                    kp as int,
                    kd as int,
                    k,
                ),
    {
        let held: AnchorPose = self.pose(side);
        let ex: i64 = half_skew_of(&held.row2, &now.row1, &held.row1, &now.row2);
        let ey: i64 = half_skew_of(&held.row0, &now.row2, &held.row2, &now.row0);
        let ez: i64 = half_skew_of(&held.row1, &now.row0, &held.row0, &now.row1);
        vec![
            track(ex, 0, 0, vel[0], kp, kd),
            track(ey, 0, 0, vel[1], kp, kd),
            track(ez, 0, 0, vel[2], kp, kd),
            track(held.pos.x, now.pos.x, 0, vel[3], kp, kd),
            track(held.pos.y, now.pos.y, 0, vel[4], kp, kd),
            track(held.pos.z, now.pos.z, 0, vel[5], kp, kd),
        ]
    }
}

/// Where foot `slot` of the stance list has its rows in stacked contact
/// quantities: six per foot, turning before shifting.
pub fn contact_row(slot: usize, component: usize) -> (r: usize)
    requires
        component < 6,
        6 * slot + 5 <= usize::MAX,
    ensures
        r == 6 * slot + component,
{
    6 * slot + component
}

/// Different feet and components have different rows.
pub proof fn law_contact_rows_are_distinct(s1: int, c1: int, s2: int, c2: int)
    requires
        0 <= c1 < 6,
        0 <= c2 < 6,
        6 * s1 + c1 == 6 * s2 + c2,
    ensures
        s1 == s2,
        c1 == c2,
{
}

/// One stance foot as the dynamics model gives it: the six rows of its Jacobian,
/// and what they add up to without any acceleration.
pub struct FootRows<J> {
    pub jacobian: Vec<Vec<J>>,
    pub drift: [J; 6],
}

/// The rows of all stance feet, in the order of the stance list.
pub fn contact_jacobians<J: Copy>(feet: &Vec<FootRows<J>>) -> (r: (Vec<Vec<J>>, Vec<J>))
    requires
        6 * feet@.len() <= usize::MAX,
        forall|k: int| 0 <= k < feet@.len() ==> (#[trigger] feet@[k]).jacobian@.len() == 6,
    ensures
        r.0@.len() == 6 * feet@.len(),
        r.1@.len() == 6 * feet@.len(),
        forall|row: int|
            0 <= row < 6 * feet@.len() ==> {
                &&& (#[trigger] r.0@[row])@ == feet@[row / 6].jacobian@[row % 6]@
                &&& r.1@[row] == feet@[row / 6].drift@[row % 6]
            },
{
    let mut rows: Vec<Vec<J>> = Vec::new();
    let mut drift: Vec<J> = Vec::new();
    while rows.len() < 6 * feet.len()
        invariant
            6 * feet@.len() <= usize::MAX,
            forall|k: int| 0 <= k < feet@.len() ==> (#[trigger] feet@[k]).jacobian@.len() == 6,
            rows@.len() <= 6 * feet@.len(),
            drift@.len() == rows@.len(),
            forall|row: int|
                0 <= row < rows@.len() ==> {
                    &&& (#[trigger] rows@[row])@ == feet@[row / 6].jacobian@[row % 6]@
                    &&& drift@[row] == feet@[row / 6].drift@[row % 6]
                },
        decreases 6 * feet.len() - rows.len(),
    {
        let slot: usize = rows.len() / 6;
        let component: usize = rows.len() % 6;
        proof {
            assert(feet@[slot as int].jacobian@.len() == 6);
        }
        let ghost (rows_were, drift_was) = (rows@, drift@);
        let row: Vec<J> = copy_row(&feet[slot].jacobian[component]);
        let d: J = feet[slot].drift[component];
        drift.push(d);
        rows.push(row);
        proof {
            assert forall|k: int| 0 <= k < rows@.len() implies {
                &&& (#[trigger] rows@[k])@ == feet@[k / 6].jacobian@[k % 6]@
                &&& drift@[k] == feet@[k / 6].drift@[k % 6]
            } by {
                if k < rows_were.len() {
                    assert(rows@[k] == rows_were[k]);
                    assert(drift@[k] == drift_was[k]);
                }
            }
        }
    }
    (rows, drift)
}

/// A vector in the world frame, exactly.
#[derive(Clone, Copy, PartialEq, Eq, Structural, Debug)]
pub struct Wide3 {
    pub x: i128,
    pub y: i128,
    pub z: i128,
}

impl Wide3 {
    pub open spec fn entry(self, k: int) -> int {
        if k == 0 {
            self.x as int
        } else if k == 1 {
            self.y as int
        } else {
            self.z as int
        }
    }

    fn at(&self, k: usize) -> (r: i128)
        ensures
            r == self.entry(k as int),
    {
        if k == 0 {
            self.x
        } else if k == 1 {
            self.y
        } else {
            self.z
        }
    }
}

impl AnchorPose {
    /// Axis `i` of the foot's frame, in the world.
    pub open spec fn axis(self, i: int) -> Vec3 {
        if i == 0 {
            Vec3 { x: self.row0.x, y: self.row1.x, z: self.row2.x }
        } else if i == 1 {
            Vec3 { x: self.row0.y, y: self.row1.y, z: self.row2.y }
        } else {
            Vec3 { x: self.row0.z, y: self.row1.z, z: self.row2.z }
        }
    }

    fn axis_of(&self, i: usize) -> (r: Vec3)
        requires
            self.valid(),
        ensures
            r == self.axis(i as int),
            row_fits(r),
    {
        if i == 0 {
            Vec3 { x: self.row0.x, y: self.row1.x, z: self.row2.x }
        } else if i == 1 {
            Vec3 { x: self.row0.y, y: self.row1.y, z: self.row2.y }
        } else {
            Vec3 { x: self.row0.z, y: self.row1.z, z: self.row2.z }
        }
    }
}

/// Entry `k` of a row.
pub open spec fn entry(v: Vec3, k: int) -> int {
    if k == 0 {
        v.x as int
    } else if k == 1 {
        v.y as int
    } else {
        v.z as int
    }
}

fn entry_of(v: &Vec3, k: usize) -> (r: i64)
    ensures
        r == entry(*v, k as int),
{
    if k == 0 {
        v.x
    } else if k == 1 {
        v.y
    } else {
        v.z
    }
}

/// From the foot's origin to its sole, in the world: billionths of a nanometre.
pub open spec fn lever(pose: AnchorPose, sole: Vec3, k: int) -> int {
    if k == 0 {
        dot(pose.row0, sole)
    } else if k == 1 {
        dot(pose.row1, sole)
    } else {
        dot(pose.row2, sole)
    }
}

/// Entry `k` of the cross product of the lever and axis `i`.
pub open spec fn levered(pose: AnchorPose, sole: Vec3, i: int, k: int) -> int {
    let c = pose.axis(i);
    if k == 0 {
        lever(pose, sole, 1) * c.z - lever(pose, sole, 2) * c.y
    } else if k == 1 {
        lever(pose, sole, 2) * c.x - lever(pose, sole, 0) * c.z
    } else {
        lever(pose, sole, 0) * c.y - lever(pose, sole, 1) * c.x
    }
}

/// What moments are scaled by, to be in the units of forces on levers.
pub const MOMENT_SCALE: i128 = 1_000_000_000_000_000_000;

/// An entry of the map from the stacked contact wrenches to the wrench of foot
/// `slot` ABOUT ITS SOLE, in the sole's frame: moments first, then forces.
///
/// A wrench is given about the foot's origin. The moment about the sole along an
/// axis `c` is `c . m + (r x c) . f`, with `r` the lever from the origin to the
/// sole; the force along it is `c . f`.
pub open spec fn sole_entry(pose: AnchorPose, sole: Vec3, slot: int, row: int, col: int) -> int {
    let k = col - 6 * slot;
    if row < 3 {
        if 0 <= k < 3 {
            MOMENT_SCALE * entry(pose.axis(row), k)
        } else if 3 <= k < 6 {
            levered(pose, sole, row, k - 3)
        } else {
            0
        }
    } else {
        if 3 <= k < 6 {
            entry(pose.axis(row - 3), k - 3)
        } else {
            0
        }
    }
}

fn levers(pose: &AnchorPose, sole: &Vec3) -> (r: Wide3)
    requires
        pose.valid(),
        row_fits(*sole),
    ensures
        forall|k: int| 0 <= k < 3 ==> #[trigger] r.entry(k) == lever(*pose, *sole, k),
        forall|k: int|
            0 <= k < 3 ==> -0x4_0000_0000_0000_0000_0000 <= #[trigger] r.entry(k)
                <= 0x4_0000_0000_0000_0000_0000,
{
    Wide3 {
        x: dot_of(&pose.row0, sole),
        y: dot_of(&pose.row1, sole),
        z: dot_of(&pose.row2, sole),
    }
}

proof fn lemma_lever_product(r: int, c: int)
    requires
        -0x4_0000_0000_0000_0000_0000 <= r <= 0x4_0000_0000_0000_0000_0000,
        -MAX_ENTRY <= c <= MAX_ENTRY,
    ensures
        -0x400_0000_0000_0000_0000_0000_0000_0000 <= r * c
            <= 0x400_0000_0000_0000_0000_0000_0000_0000,
{
    assert(-0x400_0000_0000_0000_0000_0000_0000_0000 <= r * c
        <= 0x400_0000_0000_0000_0000_0000_0000_0000) by (nonlinear_arith)
        requires
            -0x4_0000_0000_0000_0000_0000 <= r <= 0x4_0000_0000_0000_0000_0000,
            -0x100_0000_0000 <= c <= 0x100_0000_0000,
    ;
}

fn cross_entry(pose: &AnchorPose, sole: &Vec3, r: &Wide3, c: &Vec3, i: usize, k: usize) -> (e: i128)
    requires
        pose.valid(),
        row_fits(*c),
        *c == pose.axis(i as int),
        k < 3,
        forall|j: int| 0 <= j < 3 ==> #[trigger] r.entry(j) == lever(*pose, *sole, j),
        forall|j: int|
            0 <= j < 3 ==> -0x4_0000_0000_0000_0000_0000 <= #[trigger] r.entry(j)
                <= 0x4_0000_0000_0000_0000_0000,
    ensures
        e == levered(*pose, *sole, i as int, k as int),
{
    let a: usize = if k == 0 {
        1
    } else if k == 1 {
        2
    } else {
        0
    };
    let b: usize = if k == 0 {
        2
    } else if k == 1 {
        0
    } else {
        1
    };
    let ra: i128 = r.at(a);
    let rb: i128 = r.at(b);
    let ca: i64 = entry_of(c, a);
    let cb: i64 = entry_of(c, b);
    proof {
        assert(r.entry(a as int) == lever(*pose, *sole, a as int));
        assert(r.entry(b as int) == lever(*pose, *sole, b as int));
        lemma_lever_product(ra as int, cb as int);
        lemma_lever_product(rb as int, ca as int);
    }
    ra * cb as i128 - rb * ca as i128
}

/// `m` maps the stacked contact wrenches to the wrench of foot `slot` about its sole.
pub open spec fn is_sole_selection(
    m: Seq<Vec<i128>>,
    pose: AnchorPose,
    sole: Vec3,
    forces_size: nat,
    slot: int,
) -> bool {
    &&& m.len() == 6
    &&& forall|row: int|
        0 <= row < 6 ==> {
            &&& (#[trigger] m[row])@.len() == forces_size
            &&& forall|col: int|
                0 <= col < forces_size ==> #[trigger] m[row]@[col] == sole_entry(
                    pose,
                    sole,
                    slot,
                    row,
                    col,
                )
        }
}

/// The map from the stacked contact wrenches to the wrench of foot `slot` about its
/// sole. The pressure box is only the real condition about the sole; about the
/// foot's origin, which is higher, a tangential force fakes a moment.
pub fn sole_selection(pose: &AnchorPose, sole: &Vec3, forces_size: usize, slot: usize) -> (m: Vec<
    Vec<i128>,
>)
    requires
        pose.valid(),
        row_fits(*sole),
        6 * slot + 6 <= forces_size,
    ensures
        is_sole_selection(m@, *pose, *sole, forces_size as nat, slot as int),
{
    let r: Wide3 = levers(pose, sole);
    let first: usize = 6 * slot;
    let mut out: Vec<Vec<i128>> = Vec::new();
    while out.len() < 6
        invariant
            out@.len() <= 6,
            pose.valid(),
            first == 6 * slot,
            6 * slot + 6 <= forces_size,
            forall|j: int| 0 <= j < 3 ==> #[trigger] r.entry(j) == lever(*pose, *sole, j),
            forall|j: int|
                0 <= j < 3 ==> -0x4_0000_0000_0000_0000_0000 <= #[trigger] r.entry(j)
                    <= 0x4_0000_0000_0000_0000_0000,
            forall|row: int|
                0 <= row < out@.len() ==> {
                    &&& (#[trigger] out@[row])@.len() == forces_size
                    &&& forall|col: int|
                        0 <= col < forces_size ==> #[trigger] out@[row]@[col] == sole_entry(
                            *pose,
                            *sole,
                            slot as int,
                            row,
                            col,
                        )
                },
        decreases 6 - out.len(),
    {
        let row: usize = out.len();
        let moment: bool = row < 3;
        let i: usize = if moment {
            row
        } else {
            row - 3
        };
        let c: Vec3 = pose.axis_of(i);
        let mut line: Vec<i128> = Vec::new();
        while line.len() < forces_size
            invariant
                line@.len() <= forces_size,
                pose.valid(),
                first == 6 * slot,
                6 * slot + 6 <= forces_size,
                row < 6,
                moment == (row < 3),
                i == (if moment {
                    row as int
                } else {
                    row - 3
                }),
                row_fits(c),
                c == pose.axis(i as int),
                forall|j: int| 0 <= j < 3 ==> #[trigger] r.entry(j) == lever(*pose, *sole, j),
                forall|j: int|
                    0 <= j < 3 ==> -0x4_0000_0000_0000_0000_0000 <= #[trigger] r.entry(j)
                        <= 0x4_0000_0000_0000_0000_0000,
                forall|col: int|
                    0 <= col < line@.len() ==> #[trigger] line@[col] == sole_entry(
                        *pose,
                        *sole,
                        slot as int,
                        row as int,
                        col,
                    ),
            decreases forces_size - line.len(),
        {
            let col: usize = line.len();
            let e: i128 = if col < first || col >= first + 6 {
                0
            } else if col < first + 3 {
                if moment {
                    MOMENT_SCALE * entry_of(&c, col - first) as i128
                } else {
                    0
                }
            } else {
                if moment {
                    cross_entry(pose, sole, &r, &c, i, col - first - 3)
                } else {
                    entry_of(&c, col - first - 3) as i128
                }
            };
            line.push(e);
        }
        out.push(line);
    }
    out
}

/// The moment about the sole along an axis is that of the wrench less what the force
/// makes on the lever: `c . (m - r x f) == c . m + (r x c) . f`.
pub proof fn law_moment_is_about_the_sole(
    pose: AnchorPose,
    sole: Vec3,
    i: int,
    m: (int, int, int),
    f: (int, int, int),
)
    ensures
        ({
            let c = pose.axis(i);
            let (rx, ry, rz) = (lever(pose, sole, 0), lever(pose, sole, 1), lever(pose, sole, 2));
            c.x * (m.0 - (ry * f.2 - rz * f.1)) + c.y * (m.1 - (rz * f.0 - rx * f.2)) + c.z * (m.2
                - (rx * f.1 - ry * f.0)) == c.x * m.0 + c.y * m.1 + c.z * m.2 + levered(
                pose,
                sole,
                i,
                0,
            ) * f.0 + levered(pose, sole, i, 1) * f.1 + levered(pose, sole, i, 2) * f.2
        }),
{
    let c = pose.axis(i);
    let (rx, ry, rz) = (lever(pose, sole, 0), lever(pose, sole, 1), lever(pose, sole, 2));
    lemma_triple(c.x as int, ry, rz, m.0, f.1, f.2);
    lemma_triple(c.y as int, rz, rx, m.1, f.2, f.0);
    lemma_triple(c.z as int, rx, ry, m.2, f.0, f.1);
    lemma_swap(ry, c.z as int, rz, c.y as int, f.0);
    lemma_swap(rz, c.x as int, rx, c.z as int, f.1);
    lemma_swap(rx, c.y as int, ry, c.x as int, f.2);
}

proof fn lemma_triple(c: int, a: int, b: int, m: int, p: int, q: int)
    ensures
        c * (m - (a * q - b * p)) == c * m - (c * a) * q + (c * b) * p,
{
    assert(c * (m - (a * q - b * p)) == c * m - (c * a) * q + (c * b) * p) by (nonlinear_arith);
}

proof fn lemma_swap(a: int, c: int, b: int, d: int, f: int)
    ensures
        (a * c - b * d) * f == (c * a) * f - (d * b) * f,
{
    assert((a * c - b * d) * f == (c * a) * f - (d * b) * f) by (nonlinear_arith);
}

/// The centre of pressure that a sole wrench implies, as two numerators over the
/// vertical load; `None` where the foot is unsupported, which it is unless it is
/// pressed upwards. The wrench is turning
/// moments first, then forces, in micronewtons (and metres).
pub fn cop_from_sole_wrench(w: &[i64; 6]) -> (r: Option<(i128, i64, i64)>)
    ensures
        r is None <==> w[5] <= 0,
        r matches Some(c) ==> c.0 == -w[1] && c.1 == w[0] && c.2 == w[5],
        // About that point the load makes no moment along the sole.
        r matches Some(c) ==> w[1] + c.0 == 0 && w[0] - c.1 == 0 && c.2 > 0,
{
    let fz: i64 = w[5];
    if fz <= 0 {
        None
    } else {
        Some((-(w[1] as i128), w[0], fz))
    }
}

/// Each foot has its own anchor: the left one is side zero.
pub proof fn law_anchors_are_by_side<P: Copy>(a: Anchors<P>)
    ensures
        a.of(0) == a.left,
        a.of(1) == a.right,
{
}

/// The anchor leaks by its rate times the tick, and by no more than the whole.
pub proof fn law_leak_goes_with_the_tick(rate: int, dt: int)
    ensures
        leak_share(rate, dt) <= rate * dt,
        leak_share(rate, dt) <= 1_000_000_000_000,
        leak_share(rate, dt) == rate * dt || leak_share(rate, dt) == 1_000_000_000_000,
{
}

/// A leaking anchor goes that share of the way to the foot, up to the last digit.
pub proof fn law_leak_is_a_share_of_the_way(held: int, now: int, share: int)
    ensures
        0 <= (now - held) * share - 1_000_000_000_000 * (drifted(held, now, share) - held)
            < 1_000_000_000_000,
{
    let (v, q) = ((now - held) * share, (now - held) * share / 1_000_000_000_000);
    assert(0 <= v - 1_000_000_000_000 * q < 1_000_000_000_000) by (nonlinear_arith)
        requires
            q == v / 1_000_000_000_000,
    ;
}

/// Position and attitude leak at their own rates: without a rate of the position nothing
/// leaks, and without one of the attitude that is held.
pub proof fn law_position_and_attitude_leak_apart(
    held: AnchorPose,
    now: AnchorPose,
    leak: i64,
    leak_rot: i64,
    dt: u32,
)
    requires
        leak_rot >= 0,
    ensures
        leak <= 0 ==> held.leaked(now, leak, leak_rot, dt) == held,
        leak_rot == 0 ==> {
            let to = held.leaked(now, leak, leak_rot, dt);
            to.row0 == held.row0 && to.row1 == held.row1 && to.row2 == held.row2
        },
        leak > 0 && leak * dt >= 1_000_000_000_000 ==> held.leaked(now, leak, leak_rot, dt).pos
            == now.pos,
        leak > 0 && leak_rot * dt >= 1_000_000_000_000 ==> {
            let to = held.leaked(now, leak, leak_rot, dt);
            to.row0 == now.row0 && to.row1 == now.row1 && to.row2 == now.row2
        },
        leak > 0 && leak * dt <= 1_000_000_000_000 ==> {
            let (to, unit) = (held.leaked(now, leak, leak_rot, dt).pos, 1_000_000_000_000int);
            let share = leak * dt;
            &&& 0 <= (now.pos.x - held.pos.x) * share - unit * (to.x - held.pos.x) < unit
            &&& 0 <= (now.pos.y - held.pos.y) * share - unit * (to.y - held.pos.y) < unit
            &&& 0 <= (now.pos.z - held.pos.z) * share - unit * (to.z - held.pos.z) < unit
        },
{
    let (ps, rs) = (leak_share(leak as int, dt as int), leak_share(leak_rot as int, dt as int));
    assert(leak_rot * dt >= 0) by (nonlinear_arith)
        requires
            leak_rot >= 0,
            dt >= 0,
    ;
    assert(leak_rot == 0 ==> leak_rot * dt == 0) by (nonlinear_arith);
    assert(leak > 0 ==> leak * dt >= 0) by (nonlinear_arith)
        requires
            dt >= 0,
    ;
    if leak > 0 {
        lemma_row_drifts(held.pos, now.pos, ps);
        lemma_row_drifts(held.row0, now.row0, rs);
        lemma_row_drifts(held.row1, now.row1, rs);
        lemma_row_drifts(held.row2, now.row2, rs);
    }
}

proof fn lemma_row_drifts(held: Vec3, now: Vec3, share: int)
    requires
        0 <= share <= WHOLE_LEAK,
    ensures
        share == 0 ==> drifted_row(held, now, share) == held,
        share == WHOLE_LEAK ==> drifted_row(held, now, share) == now,
        ({
            let (to, unit) = (drifted_row(held, now, share), 1_000_000_000_000int);
            &&& 0 <= (now.x - held.x) * share - unit * (to.x - held.x) < unit
            &&& 0 <= (now.y - held.y) * share - unit * (to.y - held.y) < unit
            &&& 0 <= (now.z - held.z) * share - unit * (to.z - held.z) < unit
        }),
{
    law_leak_does_not_overshoot(held.x as int, now.x as int, share);
    law_leak_does_not_overshoot(held.y as int, now.y as int, share);
    law_leak_does_not_overshoot(held.z as int, now.z as int, share);
    law_leak_is_a_share_of_the_way(held.x as int, now.x as int, share);
    law_leak_is_a_share_of_the_way(held.y as int, now.y as int, share);
    law_leak_is_a_share_of_the_way(held.z as int, now.z as int, share);
}

/// A foot that is turned about one axis, by an angle whose sine is `s`, is told that sine
/// about that axis and nothing about the others, whatever the cosine.
pub proof fn law_turn_is_told_about_its_axis(pos: Vec3, s: i64, c: i64)
    ensures
        ({
            let one = 1_000_000_000i64;
            let v = |x: i64, y: i64, z: i64| Vec3 { x, y, z };
            let n = if s == i64::MIN {
                0
            } else {
                (-s) as i64
            };
            let flat = AnchorPose {
                pos,
                row0: v(one, 0, 0),
                row1: v(0, one, 0),
                row2: v(0, 0, one),
            };
            let about_x = AnchorPose { row1: v(0, c, n), row2: v(0, s, c), ..flat };
            let about_y = AnchorPose { row0: v(c, 0, s), row2: v(n, 0, c), ..flat };
            let about_z = AnchorPose { row0: v(c, n, 0), row1: v(s, c, 0), ..flat };
            &&& s > i64::MIN ==> about_x.turn_from(flat) == (s as int, 0int, 0int)
            &&& s > i64::MIN ==> about_y.turn_from(flat) == (0int, s as int, 0int)
            &&& s > i64::MIN ==> about_z.turn_from(flat) == (0int, 0int, s as int)
        }),
{
}

/// The foot is pulled back by the position gain times what it is off and damped by the
/// velocity gain: turning first, then shifting.
pub proof fn law_pull_is_proportional(
    held: AnchorPose,
    now: AnchorPose,
    vel: Seq<i64>,
    kp: int,
    kd: int,
)
    ensures
        held.pull(now, vel, kp, kd, 0) == kp * held.turn_from(now).0 - kd * vel[0],
        held.pull(now, vel, kp, kd, 1) == kp * held.turn_from(now).1 - kd * vel[1],
        held.pull(now, vel, kp, kd, 2) == kp * held.turn_from(now).2 - kd * vel[2],
        held.pull(now, vel, kp, kd, 3) == kp * (held.pos.x - now.pos.x) - kd * vel[3],
        held.pull(now, vel, kp, kd, 4) == kp * (held.pos.y - now.pos.y) - kd * vel[4],
        held.pull(now, vel, kp, kd, 5) == kp * (held.pos.z - now.pos.z) - kd * vel[5],
{
    assert forall|k: int| kd * (-(#[trigger] vel[k])) == -(kd * vel[k]) by {
        let x = vel[k] as int;
        assert(kd * (-x) == -(kd * x)) by (nonlinear_arith);
    }
    assert(vel[0] == vel[0] && vel[1] == vel[1] && vel[2] == vel[2]);
    assert(vel[3] == vel[3] && vel[4] == vel[4] && vel[5] == vel[5]);
}

/// The axes of a pose are the columns of its attitude.
pub proof fn law_axes_are_columns(pose: AnchorPose)
    ensures
        pose.axis(0) == (Vec3 { x: pose.row0.x, y: pose.row1.x, z: pose.row2.x }),
        pose.axis(1) == (Vec3 { x: pose.row0.y, y: pose.row1.y, z: pose.row2.y }),
        pose.axis(2) == (Vec3 { x: pose.row0.z, y: pose.row1.z, z: pose.row2.z }),
{
}

/// What the selection makes of a wrench in its slot: of the moments and forces that a foot's
/// columns stand for, the moment about the sole along each axis of the foot, and the force
/// along it. Columns of other feet count for nothing.
pub proof fn law_selection_is_the_sole_wrench(
    pose: AnchorPose,
    sole: Vec3,
    slot: int,
    i: int,
    m: (int, int, int),
    f: (int, int, int),
)
    requires
        0 <= i < 3,
    ensures
        ({
            let c = pose.axis(i);
            let rx = pose.row0.x * sole.x + pose.row0.y * sole.y + pose.row0.z * sole.z;
            let ry = pose.row1.x * sole.x + pose.row1.y * sole.y + pose.row1.z * sole.z;
            let rz = pose.row2.x * sole.x + pose.row2.y * sole.y + pose.row2.z * sole.z;
            let at = |row: int, k: int| sole_entry(pose, sole, slot, row, 6 * slot + k);
            let unit: int = 1_000_000_000_000_000_000;
            &&& at(i, 0) * m.0 + at(i, 1) * m.1 + at(i, 2) * m.2 + at(i, 3) * f.0 + at(i, 4) * f.1
                + at(i, 5) * f.2 == c.x * (unit * m.0 - (ry * f.2 - rz * f.1)) + c.y * (unit * m.1
                - (rz * f.0 - rx * f.2)) + c.z * (unit * m.2 - (rx * f.1 - ry * f.0))
            &&& at(i + 3, 0) == 0 && at(i + 3, 1) == 0 && at(i + 3, 2) == 0
            &&& at(i + 3, 3) == c.x && at(i + 3, 4) == c.y && at(i + 3, 5) == c.z
        }),
        forall|col: int|
            col < 6 * slot || col >= 6 * slot + 6 ==> #[trigger] sole_entry(
                pose,
                sole,
                slot,
                i,
                col,
            ) == 0 && sole_entry(pose, sole, slot, i + 3, col) == 0,
{
    let c = pose.axis(i);
    let (cx, cy, cz) = (c.x as int, c.y as int, c.z as int);
    let (rx, ry, rz) = (lever(pose, sole, 0), lever(pose, sole, 1), lever(pose, sole, 2));
    let unit: int = 1_000_000_000_000_000_000;
    let (fx, fy, fz) = f;
    assert(unit * cx * m.0 == cx * (unit * m.0) && unit * cy * m.1 == cy * (unit * m.1) && unit * cz
        * m.2 == cz * (unit * m.2)) by (nonlinear_arith);
    assert((ry * cz - rz * cy) * fx == (ry * cz) * fx - (rz * cy) * fx) by (nonlinear_arith);
    assert((rz * cx - rx * cz) * fy == (rz * cx) * fy - (rx * cz) * fy) by (nonlinear_arith);
    assert((rx * cy - ry * cx) * fz == (rx * cy) * fz - (ry * cx) * fz) by (nonlinear_arith);
    let (a, b, d) = (unit * m.0, unit * m.1, unit * m.2);
    assert(cx * (a - (ry * fz - rz * fy)) == cx * a - (ry * cx) * fz + (rz * cx) * fy)
        by (nonlinear_arith);
    assert(cy * (b - (rz * fx - rx * fz)) == cy * b - (rz * cy) * fx + (rx * cy) * fz)
        by (nonlinear_arith);
    assert(cz * (d - (rx * fy - ry * fx)) == cz * d - (rx * cz) * fy + (ry * cz) * fx)
        by (nonlinear_arith);
}

} // verus!
