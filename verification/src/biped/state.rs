//! What the controller makes of the plant's state: rotors and damping in the
//! equations of motion, and the centre of mass.

use vstd::prelude::*;

use crate::biped::contact::{AnchorPose, Wide3};
use crate::biped::pressure::Footsteps;
use crate::biped::rig::{BipedRig, MassLink};
use crate::joint_map::{pack_positions, pack_rates, JointMap, RATE_BOUND};
use crate::robot::Vec3;

verus! {

// ----------------------------------------------------------- coordinates

/// What the plant reports: where the floating base is and how it is turned, its
/// velocities in the WORLD frame, and the joints. The orientation is given twice,
/// as a quaternion (`i`, `j`, `k`, `w`) and by the base's axes in the world.
pub struct Plant {
    pub body_pos: Vec3,
    pub body_quat: [i64; 4],
    pub body_axes: [Vec3; 3],
    pub v_lin_w: Vec3,
    pub v_ang_w: Vec3,
    pub joint_q: Vec<i64>,
    /// None for a joint that the plant does not report.
    pub joint_qd: Vec<Option<i64>>,
}

impl Plant {
    /// A world-frame vector in the frame of the base.
    pub open spec fn in_body(&self, v: Vec3, i: int) -> int {
        crate::biped::contact::dot(self.body_axes@[i], v) / 1_000_000_000
    }

    /// The report covers `n` joints, and the base is neither distorted nor moving
    /// at speeds that no machine reaches.
    pub open spec fn valid(&self, n: nat) -> bool {
        &&& self.joint_q@.len() == n
        &&& self.joint_qd@.len() == n
        &&& forall|i: int|
            0 <= i < 3 ==> within(triple(#[trigger] self.body_axes@[i]), MAX_TURN as int)
        &&& within(triple(self.v_lin_w), MAX_OFFSET as int)
        &&& within(triple(self.v_ang_w), MAX_OFFSET as int)
    }

    /// The velocity coordinates of the base. They are in the BODY frame, with the
    /// angular ones before the linear.
    pub open spec fn base_rates(&self) -> Seq<i64> {
        seq![
            self.in_body(self.v_ang_w, 0) as i64,
            self.in_body(self.v_ang_w, 1) as i64,
            self.in_body(self.v_ang_w, 2) as i64,
            self.in_body(self.v_lin_w, 0) as i64,
            self.in_body(self.v_lin_w, 1) as i64,
            self.in_body(self.v_lin_w, 2) as i64,
        ]
    }

    /// The position coordinates of the base.
    pub open spec fn base_position(&self) -> Seq<i64> {
        seq![
            self.body_pos.x,
            self.body_pos.y,
            self.body_pos.z,
            self.body_quat@[0],
            self.body_quat@[1],
            self.body_quat@[2],
            self.body_quat@[3],
        ]
    }

    fn turned(&self, v: &Vec3, i: usize) -> (r: i64)
        requires
            i < 3,
            within(triple(self.body_axes@[i as int]), MAX_TURN as int),
            within(triple(*v), MAX_OFFSET as int),
        ensures
            r == self.in_body(*v, i as int),
    {
        billionth_of(dot_row(&self.body_axes[i], v)) as i64
    }
}

/// The coordinates of the dynamics model.
pub struct Coordinates {
    pub q: Vec<i64>,
    pub v: Vec<i64>,
}

impl BipedRig {
    /// The position coordinates at the plant's CURRENT pose, without running a
    /// control tick.
    pub fn q_now(&self, plant: &Plant, neutral: &Vec<i64>) -> (q: Vec<i64>)
        requires
            self.valid(),
            plant.valid(self.q_seed@.len()),
            neutral@.len() == self.map.nq,
        ensures
            q@ == crate::joint_map::placed(
                crate::joint_map::with_base(neutral@, plant.base_position()),
                self.map,
                plant.joint_q@,
                plant.joint_q@.len(),
            ),
    {
        let base: [i64; 7] = [
            plant.body_pos.x,
            plant.body_pos.y,
            plant.body_pos.z,
            plant.body_quat[0],
            plant.body_quat[1],
            plant.body_quat[2],
            plant.body_quat[3],
        ];
        proof {
            assert(base@ =~= plant.base_position());
        }
        pack_positions(&self.map, neutral, &base, &plant.joint_q)
    }

    /// The coordinates of the dynamics model that stand for the plant's state. A
    /// joint without a reading is at rest, and no joint is believed to move faster
    /// than the rate bound.
    pub fn sync(&self, plant: &Plant, neutral: &Vec<i64>) -> (r: Coordinates)
        requires
            self.valid(),
            plant.valid(self.q_seed@.len()),
            neutral@.len() == self.map.nq,
        ensures
            r.q@ == crate::joint_map::placed(
                crate::joint_map::with_base(neutral@, plant.base_position()),
                self.map,
                plant.joint_q@,
                plant.joint_q@.len(),
            ),
            r.v@.len() == self.map.nv,
            r.v@ == crate::joint_map::rates_placed(
                crate::joint_map::with_base(
                    Seq::new(self.map.nv as nat, |i: int| 0i64),
                    plant.base_rates(),
                ),
                self.map,
                plant.joint_qd@,
                Some(5_000_000),
                plant.joint_qd@.len(),
            ),
    {
        let q: Vec<i64> = self.q_now(plant, neutral);
        let base: [i64; 6] = [
            plant.turned(&plant.v_ang_w, 0),
            plant.turned(&plant.v_ang_w, 1),
            plant.turned(&plant.v_ang_w, 2),
            plant.turned(&plant.v_lin_w, 0),
            plant.turned(&plant.v_lin_w, 1),
            plant.turned(&plant.v_lin_w, 2),
        ];
        proof {
            assert(base@ =~= plant.base_rates());
        }
        let v: Vec<i64> = pack_rates(&self.map, &base, &plant.joint_qd, Some(RATE_BOUND));
        Coordinates { q, v }
    }
}

// ------------------------------------------------------------------ soles

/// From a foot's origin to the centre of its sole, in the foot's frame.
pub open spec fn sole_offset(centre_x: i64, below: i64) -> Vec3 {
    Vec3 { x: centre_x, y: 0, z: (-below) as i64 }
}

/// One coordinate of a point of a body, in micrometres: `o` is that coordinate of the
/// body's origin, and `row` the row of its rotation, both of nanometres and parts per
/// billion. Rounded down.
pub open spec fn point_at(o: i64, row: Vec3, offset: Vec3) -> int {
    (1_000_000_000 * o + crate::biped::contact::dot(row, offset)) / 1_000_000_000_000
}

fn point_of(o: i64, row: &Vec3, offset: &Vec3) -> (r: i64)
    requires
        within(triple(*row), MAX_TURN as int),
        within(triple(*offset), MAX_OFFSET as int),
    ensures
        r == point_at(o, *row, *offset),
{
    let v: i128 = 1_000_000_000 * o as i128 + dot_row(row, offset);
    match v.checked_div_euclid(1_000_000_000_000) {
        Some(q) => q as i64,
        None => 0,
    }
}

impl Footsteps {
    /// Where the soles stand, from the placements of all joints, the joints of the
    /// [left, right] feet, and where the centre of a sole is in the foot's frame: how
    /// far ahead of its origin, and how far below.
    pub fn from_fk(
        poses: &Vec<AnchorPose>,
        foot_mi: [usize; 2],
        sole_centre_x: i64,
        sole_below_origin: i64,
    ) -> (r: Footsteps)
        requires
            foot_mi@[0] < poses@.len(),
            foot_mi@[1] < poses@.len(),
            -MAX_OFFSET <= sole_centre_x <= MAX_OFFSET,
            -MAX_OFFSET <= sole_below_origin <= MAX_OFFSET,
            forall|side: int|
                0 <= side < 2 ==> {
                    let pose = poses@[(#[trigger] foot_mi@[side]) as int];
                    within(triple(pose.row0), MAX_TURN as int) && within(
                        triple(pose.row1),
                        MAX_TURN as int,
                    )
                },
        ensures
            ({
                let offset = sole_offset(sole_centre_x, sole_below_origin);
                let left = poses@[foot_mi@[0] as int];
                let right = poses@[foot_mi@[1] as int];
                &&& r.left_x == point_at(left.pos.x, left.row0, offset)
                &&& r.left_y == point_at(left.pos.y, left.row1, offset)
                &&& r.right_x == point_at(right.pos.x, right.row0, offset)
                &&& r.right_y == point_at(right.pos.y, right.row1, offset)
            }),
    {
        let offset: Vec3 = Vec3 { x: sole_centre_x, y: 0, z: -sole_below_origin };
        let left: AnchorPose = poses[foot_mi[0]];
        let right: AnchorPose = poses[foot_mi[1]];
        Footsteps {
            left_x: point_of(left.pos.x, &left.row0, &offset),
            left_y: point_of(left.pos.y, &left.row1, &offset),
            right_x: point_of(right.pos.x, &right.row0, &offset),
            right_y: point_of(right.pos.y, &right.row1, &offset),
        }
    }
}

// ---------------------------------------------------------------- rotors

/// How many of the first `n` joints drive velocity row `vi`.
pub open spec fn rotors(map: JointMap, vi: int, n: nat) -> nat
    decreases n,
{
    if n == 0 || n > map.a2m@.len() {
        0
    } else {
        let before = rotors(map, vi, (n - 1) as nat);
        match map.actuated_row(n - 1) {
            Some(row) => if row == vi {
                before + 1
            } else {
                before
            },
            None => before,
        }
    }
}

/// Largest number of joints, damping, rate and entry that rotors are added for.
pub const MAX_JOINTS: usize = 0x1000_0000;

pub const MAX_DAMPING: i64 = 0x100_0000_0000;

pub const MAX_RATE: i64 = 0x4_0000_0000_0000;

pub const MAX_SUM: i128 = 0x1000_0000_0000_0000_0000_0000_0000_0000;

proof fn lemma_added(n: int, v: int)
    requires
        0 <= n <= MAX_JOINTS,
        -0x400_0000_0000_0000_0000_0000 <= v <= 0x400_0000_0000_0000_0000_0000,
    ensures
        -0x40_0000_0000_0000_0000_0000_0000_0000 <= n * v
            <= 0x40_0000_0000_0000_0000_0000_0000_0000,
        (n + 1) * v == n * v + v,
{
    assert(-0x40_0000_0000_0000_0000_0000_0000_0000 <= n * v
        <= 0x40_0000_0000_0000_0000_0000_0000_0000) by (nonlinear_arith)
        requires
            0 <= n <= 0x1000_0000,
            -0x400_0000_0000_0000_0000_0000 <= v <= 0x400_0000_0000_0000_0000_0000,
    ;
    assert((n + 1) * v == n * v + v) by (nonlinear_arith);
}

proof fn lemma_damped(damping: int, v: int)
    requires
        -MAX_DAMPING <= damping <= MAX_DAMPING,
        -MAX_RATE <= v <= MAX_RATE,
    ensures
        -0x400_0000_0000_0000_0000_0000 <= damping * v <= 0x400_0000_0000_0000_0000_0000,
{
    assert(-0x400_0000_0000_0000_0000_0000 <= damping * v <= 0x400_0000_0000_0000_0000_0000)
        by (nonlinear_arith)
        requires
            -0x100_0000_0000 <= damping <= 0x100_0000_0000,
            -0x4_0000_0000_0000 <= v <= 0x4_0000_0000_0000,
    ;
}

/// At most every joint drives a row.
proof fn lemma_rotors_bounded(map: JointMap, vi: int, n: nat)
    ensures
        rotors(map, vi, n) <= n,
    decreases n,
{
    if n > 0 {
        lemma_rotors_bounded(map, vi, (n - 1) as nat);
    }
}

/// Adds rotor inertia and viscous damping to the equations of motion: the dynamics
/// model carries neither, and without them the controller solves a model that
/// differs from the plant on EVERY actuated joint. Rotor inertia is added to the
/// `diagonal` of the mass matrix, damping times rate to the bias `h`.
pub fn add_rotors(
    map: &JointMap,
    v: &Vec<i64>,
    armature: i64,
    damping: i64,
    diagonal: &mut Vec<i128>,
    h: &mut Vec<i128>,
)
    requires
        map.valid(map.a2m@.len()),
        map.a2m@.len() <= MAX_JOINTS,
        v@.len() == map.nv,
        old(diagonal)@.len() == map.nv,
        old(h)@.len() == map.nv,
        -MAX_DAMPING <= damping <= MAX_DAMPING,
        forall|i: int| 0 <= i < v@.len() ==> -MAX_RATE <= #[trigger] v@[i] <= MAX_RATE,
        forall|i: int|
            0 <= i < map.nv ==> -MAX_SUM <= #[trigger] old(diagonal)@[i] <= MAX_SUM,
        forall|i: int| 0 <= i < map.nv ==> -MAX_SUM <= #[trigger] old(h)@[i] <= MAX_SUM,
    ensures
        final(diagonal)@.len() == map.nv,
        final(h)@.len() == map.nv,
        forall|i: int|
            0 <= i < map.nv ==> #[trigger] final(diagonal)@[i] == old(diagonal)@[i] + rotors(
                *map,
                i,
                map.a2m@.len(),
            ) * armature,
        forall|i: int|
            0 <= i < map.nv ==> #[trigger] final(h)@[i] == old(h)@[i] + rotors(
                *map,
                i,
                map.a2m@.len(),
            ) * (damping * v@[i]),
{
    let mut ji: usize = 0;
    proof {
        assert forall|i: int| 0 <= i < map.nv implies #[trigger] diagonal@[i] == old(
            diagonal,
        )@[i] + rotors(*map, i, 0) * armature by {
            lemma_added(0, armature as int);
        }
        assert forall|i: int| 0 <= i < map.nv implies #[trigger] h@[i] == old(h)@[i] + rotors(
            *map,
            i,
            0,
        ) * (damping * v@[i]) by {
            lemma_damped(damping as int, v@[i] as int);
            lemma_added(0, damping * v@[i]);
        }
    }
    while ji < map.a2m.len()
        invariant
            ji <= map.a2m@.len(),
            map.valid(map.a2m@.len()),
            map.a2m@.len() <= MAX_JOINTS,
            v@.len() == map.nv,
            diagonal@.len() == map.nv,
            h@.len() == map.nv,
            old(diagonal)@.len() == map.nv,
            old(h)@.len() == map.nv,
            -MAX_DAMPING <= damping <= MAX_DAMPING,
            forall|i: int| 0 <= i < v@.len() ==> -MAX_RATE <= #[trigger] v@[i] <= MAX_RATE,
            forall|i: int|
                0 <= i < map.nv ==> -MAX_SUM <= #[trigger] old(diagonal)@[i] <= MAX_SUM,
            forall|i: int| 0 <= i < map.nv ==> -MAX_SUM <= #[trigger] old(h)@[i] <= MAX_SUM,
            forall|i: int|
                0 <= i < map.nv ==> #[trigger] diagonal@[i] == old(diagonal)@[i] + rotors(
                    *map,
                    i,
                    ji as nat,
                ) * armature,
            forall|i: int|
                0 <= i < map.nv ==> #[trigger] h@[i] == old(h)@[i] + rotors(*map, i, ji as nat)
                    * (damping * v@[i]),
        decreases map.a2m.len() - ji,
    {
        let ghost (d_was, h_was) = (diagonal@, h@);
        if let Some(vi) = map.row_of(ji) {
            proof {
                assert(v@[vi as int] <= MAX_RATE);
                assert(old(diagonal)@[vi as int] <= MAX_SUM);
                assert(old(h)@[vi as int] <= MAX_SUM);
                assert(d_was[vi as int] == old(diagonal)@[vi as int] + rotors(
                    *map,
                    vi as int,
                    ji as nat,
                ) * armature);
                lemma_rotors_bounded(*map, vi as int, ji as nat);
                lemma_damped(damping as int, v@[vi as int] as int);
                lemma_added(rotors(*map, vi as int, ji as nat) as int, armature as int);
                lemma_added(rotors(*map, vi as int, ji as nat) as int, damping * v@[vi as int]);
            }
            let d: i128 = diagonal[vi] + armature as i128;
            let b: i128 = h[vi] + damping as i128 * v[vi] as i128;
            diagonal.set(vi, d);
            h.set(vi, b);
        }
        proof {
            assert forall|i: int| 0 <= i < map.nv implies #[trigger] diagonal@[i] == old(
                diagonal,
            )@[i] + rotors(*map, i, (ji + 1) as nat) * armature by {
                assert(d_was[i] == old(diagonal)@[i] + rotors(*map, i, ji as nat) * armature);
            }
            assert forall|i: int| 0 <= i < map.nv implies #[trigger] h@[i] == old(h)@[i]
                + rotors(*map, i, (ji + 1) as nat) * (damping * v@[i]) by {
                assert(h_was[i] == old(h)@[i] + rotors(*map, i, ji as nat) * (damping * v@[i]));
            }
        }
        ji += 1;
    }
}

/// Where no two joints drive the same row, every actuated row gets its rotor once
/// and no other row gets one.
pub proof fn law_each_row_has_one_rotor(map: JointMap, vi: usize, n: nat)
    requires
        n <= map.a2m@.len(),
        forall|a: int, b: int|
            0 <= a < b < map.a2m@.len() ==> {
                ||| #[trigger] map.actuated_row(a) is None
                ||| map.actuated_row(a) != #[trigger] map.actuated_row(b)
            },
    ensures
        rotors(map, vi as int, n) <= 1,
        rotors(map, vi as int, n) == 1 <==> exists|ji: int|
            0 <= ji < n && #[trigger] map.actuated_row(ji) == Some(vi),
    decreases n,
{
    if n > 0 {
        law_each_row_has_one_rotor(map, vi, (n - 1) as nat);
        if map.actuated_row(n - 1) == Some(vi) {
            if rotors(map, vi as int, (n - 1) as nat) == 1 {
                let ji = choose|ji: int|
                    0 <= ji < n - 1 && #[trigger] map.actuated_row(ji) == Some(vi);
                assert(map.actuated_row(ji) != map.actuated_row(n - 1));
            }
        } else {
            if exists|ji: int| 0 <= ji < n && #[trigger] map.actuated_row(ji) == Some(vi) {
                let ji = choose|ji: int|
                    0 <= ji < n && #[trigger] map.actuated_row(ji) == Some(vi);
                assert(ji < n - 1);
            }
            if rotors(map, vi as int, (n - 1) as nat) == 1 {
                let ji = choose|ji: int|
                    0 <= ji < n - 1 && #[trigger] map.actuated_row(ji) == Some(vi);
                assert(0 <= ji < n && map.actuated_row(ji) == Some(vi));
            }
        }
    }
}

// ---------------------------------------------------------- mass averages

/// The terms of the first `n` links, each times the mass of its link.
pub open spec fn weighted(links: Seq<MassLink>, terms: Seq<int>, n: nat) -> int
    decreases n,
{
    if n == 0 || n > links.len() {
        0
    } else {
        weighted(links, terms, (n - 1) as nat) + links[n - 1].m * terms[n - 1]
    }
}

/// No robot is heavier than this, in milligrams.
pub const MAX_MASS: u128 = 0x100_0000_0000;

/// No term that is averaged is larger than this.
pub const MAX_TERM: i128 = 0x40_0000_0000_0000_0000_0000;

/// No average of such terms, in billionths, is larger than this.
pub const MAX_COLUMN: i128 = 0x200_0000_0000_0000;

/// Whole numbers as integers.
pub open spec fn ints(terms: Seq<i128>) -> Seq<int> {
    terms.map_values(|t: i128| t as int)
}

/// A mass average lies between the smallest and the largest of its terms.
pub proof fn law_average_is_between(
    links: Seq<MassLink>,
    terms: Seq<int>,
    n: nat,
    lo: int,
    hi: int,
)
    requires
        n <= links.len(),
        terms.len() == links.len(),
        forall|i: int| 0 <= i < terms.len() ==> lo <= #[trigger] terms[i] <= hi,
    ensures
        lo * crate::biped::rig::mass_sum(links, n) <= weighted(links, terms, n) <= hi
            * crate::biped::rig::mass_sum(links, n),
        crate::biped::rig::mass_sum(links, n) > 0 ==> lo <= weighted(links, terms, n)
            / crate::biped::rig::mass_sum(links, n) as int <= hi,
    decreases n,
{
    let mass = crate::biped::rig::mass_sum(links, n) as int;
    if n > 0 {
        law_average_is_between(links, terms, (n - 1) as nat, lo, hi);
        let before = crate::biped::rig::mass_sum(links, (n - 1) as nat) as int;
        let m = links[n - 1].m as int;
        let t = terms[n - 1];
        assert(lo <= t <= hi);
        assert(lo * (before + m) <= lo * before + m * t) by (nonlinear_arith)
            requires
                lo <= t,
                0 <= m,
        ;
        assert(hi * before + m * t <= hi * (before + m)) by (nonlinear_arith)
            requires
                t <= hi,
                0 <= m,
        ;
    } else {
        assert(lo * 0 == 0 && hi * 0 == 0);
    }
    if mass > 0 {
        let w = weighted(links, terms, n);
        assert(lo <= w / mass <= hi) by (nonlinear_arith)
            requires
                mass > 0,
                lo * mass <= w <= hi * mass,
        ;
    }
}

/// The mass average of the terms, rounded down, in `scale` parts.
fn average(links: &Vec<MassLink>, total: u128, terms: &Vec<i128>, scale: i128) -> (r: i128)
    requires
        total == crate::biped::rig::mass_sum(links@, links@.len()),
        0 < total <= MAX_MASS,
        terms@.len() == links@.len(),
        0 < scale <= 1_000_000_000,
        forall|i: int| 0 <= i < terms@.len() ==> -MAX_TERM <= #[trigger] terms@[i] <= MAX_TERM,
    ensures
        r == weighted(links@, ints(terms@), links@.len()) / (scale * total),
        scale == 1_000_000_000 ==> -MAX_COLUMN <= r <= MAX_COLUMN,
{
    let ghost t = ints(terms@);
    let mut sum: i128 = 0;
    let mut i: usize = 0;
    while i < links.len()
        invariant
            i <= links@.len(),
            t == ints(terms@),
            total == crate::biped::rig::mass_sum(links@, links@.len()),
            total <= MAX_MASS,
            terms@.len() == links@.len(),
            forall|i: int|
                0 <= i < terms@.len() ==> -MAX_TERM <= #[trigger] terms@[i] <= MAX_TERM,
            sum == weighted(links@, t, i as nat),
        decreases links.len() - i,
    {
        proof {
            lemma_term_bounds(links@, terms@, i as nat);
            lemma_term_bounds(links@, terms@, (i + 1) as nat);
            lemma_mass_grows(links@, i as nat);
            lemma_mass_grows(links@, (i + 1) as nat);
            assert(-MAX_TERM <= terms@[i as int] <= MAX_TERM);
            lemma_weighed(links@[i as int].m as int, terms@[i as int] as int);
        }
        sum = sum + links[i].m as i128 * terms[i];
        i += 1;
    }
    proof {
        assert(0 < scale * total <= 0x1_0000_0000_0000_0000_0000) by (nonlinear_arith)
            requires
                0 < scale <= 1_000_000_000,
                0 < total <= 0x100_0000_0000,
        ;
    }
    let parts: i128 = scale * total as i128;
    proof {
        lemma_term_bounds(links@, terms@, links@.len());
        assert(i128::MIN <= sum as int / parts as int <= i128::MAX) by (nonlinear_arith)
            requires
                parts > 0,
                -0x4000_0000_0000_0000_0000_0000_0000_0000 <= sum
                    <= 0x4000_0000_0000_0000_0000_0000_0000_0000,
        ;
    }
    proof {
        assert forall|i: int| 0 <= i < t.len() implies -MAX_TERM <= #[trigger] t[i] <= MAX_TERM by {
            assert(-MAX_TERM <= terms@[i] <= MAX_TERM);
        }
        law_average_is_between(links@, t, links@.len(), -MAX_TERM as int, MAX_TERM as int);
        lemma_column(sum as int, total as int);
    }
    match sum.checked_div_euclid(parts) {
        Some(q) => q,
        None => 0,
    }
}

proof fn lemma_column(sum: int, total: int)
    requires
        total > 0,
        -MAX_TERM * total <= sum <= MAX_TERM * total,
    ensures
        -MAX_COLUMN <= sum / (1_000_000_000 * total) <= MAX_COLUMN,
{
    assert(-0x200_0000_0000_0000 <= sum / (1_000_000_000 * total) <= 0x200_0000_0000_0000)
        by (nonlinear_arith)
        requires
            total > 0,
            -0x40_0000_0000_0000_0000_0000 * total <= sum <= 0x40_0000_0000_0000_0000_0000 * total,
    ;
}

proof fn lemma_mass_grows(links: Seq<MassLink>, n: nat)
    requires
        n <= links.len(),
    ensures
        crate::biped::rig::mass_sum(links, n) <= crate::biped::rig::mass_sum(links, links.len()),
        n < links.len() ==> links[n as int].m <= crate::biped::rig::mass_sum(links, links.len()),
    decreases links.len() - n,
{
    if n < links.len() {
        lemma_mass_grows(links, n + 1);
    }
}

proof fn lemma_weighed(m: int, t: int)
    requires
        0 <= m <= MAX_MASS,
        -MAX_TERM <= t <= MAX_TERM,
    ensures
        -0x4000_0000_0000_0000_0000_0000_0000_0000 <= m * t
            <= 0x4000_0000_0000_0000_0000_0000_0000_0000,
{
    assert(-0x4000_0000_0000_0000_0000_0000_0000_0000 <= m * t
        <= 0x4000_0000_0000_0000_0000_0000_0000_0000) by (nonlinear_arith)
        requires
            0 <= m <= 0x100_0000_0000,
            -0x40_0000_0000_0000_0000_0000 <= t <= 0x40_0000_0000_0000_0000_0000,
    ;
}

proof fn lemma_term_bounds(links: Seq<MassLink>, terms: Seq<i128>, n: nat)
    requires
        n <= links.len(),
        terms.len() == links.len(),
        crate::biped::rig::mass_sum(links, links.len()) <= MAX_MASS,
        forall|i: int| 0 <= i < terms.len() ==> -MAX_TERM <= #[trigger] terms[i] <= MAX_TERM,
    ensures
        -0x4000_0000_0000_0000_0000_0000_0000_0000 <= weighted(links, ints(terms), n)
            <= 0x4000_0000_0000_0000_0000_0000_0000_0000,
{
    let t = ints(terms);
    assert forall|i: int| 0 <= i < t.len() implies -MAX_TERM <= #[trigger] t[i] <= MAX_TERM by {
        assert(-MAX_TERM <= terms[i] <= MAX_TERM);
    }
    law_average_is_between(links, t, n, -MAX_TERM as int, MAX_TERM as int);
    lemma_mass_grows(links, n);
    let mass = crate::biped::rig::mass_sum(links, n) as int;
    lemma_weighed(mass, MAX_TERM as int);
    lemma_weighed(mass, -MAX_TERM as int);
    assert(mass * MAX_TERM == MAX_TERM * mass) by (nonlinear_arith);
    assert(mass * (-MAX_TERM) == (-MAX_TERM) * mass) by (nonlinear_arith);
}

// --------------------------------------------------------- centre of mass

/// The components of a vector.
pub open spec fn triple(v: Vec3) -> (int, int, int) {
    (v.x as int, v.y as int, v.z as int)
}

/// Component `k`.
pub open spec fn pick(t: (int, int, int), k: int) -> int {
    if k == 0 {
        t.0
    } else if k == 1 {
        t.1
    } else {
        t.2
    }
}

/// The cross product.
pub open spec fn cross(a: (int, int, int), b: (int, int, int)) -> (int, int, int) {
    (a.1 * b.2 - a.2 * b.1, a.2 * b.0 - a.0 * b.2, a.0 * b.1 - a.1 * b.0)
}

/// A billionth of each component, rounded down.
pub open spec fn billionth(t: (int, int, int)) -> (int, int, int) {
    (t.0 / 1_000_000_000, t.1 / 1_000_000_000, t.2 / 1_000_000_000)
}

/// From the joint of a link to its centre of mass, in the world, in nanometres.
pub open spec fn arm(l: MassLink, pose: AnchorPose) -> (int, int, int) {
    billionth(
        (
            crate::biped::contact::dot(pose.row0, l.com_local),
            crate::biped::contact::dot(pose.row1, l.com_local),
            crate::biped::contact::dot(pose.row2, l.com_local),
        ),
    )
}

/// No entry of a rotation matrix is larger than this; a true one is at most a
/// billion.
pub const MAX_TURN: i64 = 0x8000_0000;

/// No centre of mass lies further from its joint than this, in nanometres.
pub const MAX_OFFSET: i64 = 0x10_0000_0000;

/// Every component is at most `most`, either way.
pub open spec fn within(t: (int, int, int), most: int) -> bool {
    &&& -most <= t.0 <= most
    &&& -most <= t.1 <= most
    &&& -most <= t.2 <= most
}

/// The link's centre of mass and its pose are of a machine that can stand in a
/// room.
pub open spec fn link_fits(l: MassLink, pose: AnchorPose) -> bool {
    &&& within(triple(l.com_local), MAX_OFFSET as int)
    &&& within(triple(pose.row0), MAX_TURN as int)
    &&& within(triple(pose.row1), MAX_TURN as int)
    &&& within(triple(pose.row2), MAX_TURN as int)
}

/// A vector as integers.
pub open spec fn wide(w: Wide3) -> (int, int, int) {
    (w.x as int, w.y as int, w.z as int)
}

/// What the products of components come to at most.
pub const MAX_ARM: i64 = 0x100_0000_0000;

proof fn lemma_product(a: int, b: int, most_a: int, most_b: int)
    requires
        -most_a <= a <= most_a,
        -most_b <= b <= most_b,
    ensures
        -(most_a * most_b) <= a * b <= most_a * most_b,
{
    assert(-(most_a * most_b) <= a * b <= most_a * most_b) by (nonlinear_arith)
        requires
            -most_a <= a <= most_a,
            -most_b <= b <= most_b,
    ;
}

proof fn lemma_cross_within(a: (int, int, int), b: (int, int, int), most_a: int, most_b: int)
    requires
        within(a, most_a),
        within(b, most_b),
    ensures
        within(cross(a, b), 2 * (most_a * most_b)),
{
    lemma_product(a.1, b.2, most_a, most_b);
    lemma_product(a.2, b.1, most_a, most_b);
    lemma_product(a.2, b.0, most_a, most_b);
    lemma_product(a.0, b.2, most_a, most_b);
    lemma_product(a.0, b.1, most_a, most_b);
    lemma_product(a.1, b.0, most_a, most_b);
}

fn dot_row(row: &Vec3, c: &Vec3) -> (r: i128)
    requires
        within(triple(*row), MAX_TURN as int),
        within(triple(*c), MAX_OFFSET as int),
    ensures
        r == crate::biped::contact::dot(*row, *c),
        -0x18_0000_0000_0000_0000 <= r <= 0x18_0000_0000_0000_0000,
{
    proof {
        lemma_product(row.x as int, c.x as int, MAX_TURN as int, MAX_OFFSET as int);
        lemma_product(row.y as int, c.y as int, MAX_TURN as int, MAX_OFFSET as int);
        lemma_product(row.z as int, c.z as int, MAX_TURN as int, MAX_OFFSET as int);
    }
    row.x as i128 * c.x as i128 + row.y as i128 * c.y as i128 + row.z as i128 * c.z as i128
}

fn billionth_of(v: i128) -> (r: i128)
    ensures
        r == v as int / 1_000_000_000,
{
    match v.checked_div_euclid(1_000_000_000) {
        Some(q) => q,
        None => 0,
    }
}

fn arm_of(l: &MassLink, pose: &AnchorPose) -> (r: Wide3)
    requires
        link_fits(*l, *pose),
    ensures
        wide(r) == arm(*l, *pose),
        within(wide(r), MAX_ARM as int),
{
    Wide3 {
        x: billionth_of(dot_row(&pose.row0, &l.com_local)),
        y: billionth_of(dot_row(&pose.row1, &l.com_local)),
        z: billionth_of(dot_row(&pose.row2, &l.com_local)),
    }
}

fn cross_of(a: &Wide3, b: &Wide3) -> (r: Wide3)
    requires
        within(wide(*a), 0x1000_0000_0000),
        within(wide(*b), 0x4_0000_0000_0000),
    ensures
        wide(r) == cross(wide(*a), wide(*b)),
{
    proof {
        let (a, b) = (wide(*a), wide(*b));
        let (ma, mb) = (0x1000_0000_0000int, 0x4_0000_0000_0000int);
        lemma_product(a.1, b.2, ma, mb);
        lemma_product(a.2, b.1, ma, mb);
        lemma_product(a.2, b.0, ma, mb);
        lemma_product(a.0, b.2, ma, mb);
        lemma_product(a.0, b.1, ma, mb);
        lemma_product(a.1, b.0, ma, mb);
    }
    Wide3 { x: a.y * b.z - a.z * b.y, y: a.z * b.x - a.x * b.z, z: a.x * b.y - a.y * b.x }
}

fn pick_of(t: &Wide3, k: usize) -> (r: i128)
    ensures
        r == pick(wide(*t), k as int),
{
    if k == 0 {
        t.x
    } else if k == 1 {
        t.y
    } else {
        t.z
    }
}

fn widen(v: &Vec3) -> (r: Wide3)
    ensures
        wide(r) == triple(*v),
{
    Wide3 { x: v.x as i128, y: v.y as i128, z: v.z as i128 }
}

/// How a link moves: the Jacobian of its joint, angular rows before linear ones, in
/// parts per billion and nanometres; the rate at which that turns into
/// acceleration without any of the joints' own, angular and linear; and how fast
/// it spins. Angles are nanoradians.
pub struct LinkMotion {
    pub jacobian: Vec<Vec<i64>>,
    pub djv_ang: Vec3,
    pub djv_lin: Vec3,
    pub omega: Vec3,
}

/// Bounds of what a machine does.
pub const MAX_SPIN: i64 = 0x10_0000_0000;

pub const MAX_SPIN_UP: i64 = 0x1000_0000_0000;

pub const MAX_PUSH: i64 = 0x4_0000_0000_0000;

impl LinkMotion {
    /// Column `col` of the Jacobian, its angular part.
    pub open spec fn turning(&self, col: int) -> (int, int, int) {
        (
            self.jacobian@[0]@[col] as int,
            self.jacobian@[1]@[col] as int,
            self.jacobian@[2]@[col] as int,
        )
    }

    /// Column `col` of the Jacobian, its linear part.
    pub open spec fn moving(&self, col: int) -> (int, int, int) {
        (
            self.jacobian@[3]@[col] as int,
            self.jacobian@[4]@[col] as int,
            self.jacobian@[5]@[col] as int,
        )
    }

    /// The Jacobian has `nv` columns, and nothing in it is out of all bounds.
    pub open spec fn valid(&self, nv: int) -> bool {
        &&& self.jacobian@.len() == 6
        &&& forall|i: int| 0 <= i < 6 ==> (#[trigger] self.jacobian@[i])@.len() == nv
        &&& forall|col: int|
            0 <= col < nv ==> within(#[trigger] self.turning(col), MAX_SPIN_UP as int)
        &&& forall|col: int| 0 <= col < nv ==> within(#[trigger] self.moving(col), MAX_PUSH as int)
        &&& within(triple(self.djv_ang), MAX_SPIN_UP as int)
        &&& within(triple(self.djv_lin), MAX_PUSH as int)
        &&& within(triple(self.omega), MAX_SPIN as int)
    }
}

/// Where the centre of mass of a link is.
pub open spec fn own_centre(l: MassLink, pose: AnchorPose, k: int) -> int {
    pick(triple(pose.pos), k) + pick(arm(l, pose), k)
}

/// The linear Jacobian at the link's own centre of mass: with `r` the arm,
/// `v_c = v_o + omega x r`. In billionths of a nanometre.
pub open spec fn own_motion(l: MassLink, pose: AnchorPose, m: LinkMotion, k: int, col: int) -> int {
    1_000_000_000 * pick(m.moving(col), k) + pick(cross(m.turning(col), arm(l, pose)), k)
}

/// The bias acceleration of the link's own centre of mass, the centripetal term
/// among it: `a_o + alpha x r + omega x (omega x r)`. In billionths of a nanometre
/// per second squared.
pub open spec fn own_bias(l: MassLink, pose: AnchorPose, m: LinkMotion, k: int) -> int {
    let r = arm(l, pose);
    let omega = triple(m.omega);
    1_000_000_000 * pick(triple(m.djv_lin), k) + pick(cross(triple(m.djv_ang), r), k) + pick(
        cross(omega, billionth(cross(omega, r))),
        k,
    )
}

/// What is averaged for the centre of mass, for its Jacobian and for its bias.
pub open spec fn centre_terms(links: Seq<MassLink>, poses: Seq<AnchorPose>, k: int) -> Seq<int> {
    Seq::new(links.len(), |i: int| own_centre(links[i], poses[links[i].mi as int], k))
}

pub open spec fn motion_terms(
    links: Seq<MassLink>,
    poses: Seq<AnchorPose>,
    motions: Seq<LinkMotion>,
    k: int,
    col: int,
) -> Seq<int> {
    Seq::new(
        links.len(),
        |i: int| own_motion(links[i], poses[links[i].mi as int], motions[i], k, col),
    )
}

pub open spec fn bias_terms(
    links: Seq<MassLink>,
    poses: Seq<AnchorPose>,
    motions: Seq<LinkMotion>,
    k: int,
) -> Seq<int> {
    Seq::new(
        links.len(),
        |i: int| own_bias(links[i], poses[links[i].mi as int], motions[i], k),
    )
}

/// Average of a quantity in billionths.
pub open spec fn averaged(links: Seq<MassLink>, terms: Seq<int>, parts: int) -> int {
    weighted(links, terms, links.len()) / (parts * crate::biped::rig::mass_sum(links, links.len()))
}

fn own_motion_of(l: &MassLink, pose: &AnchorPose, m: &LinkMotion, k: usize, col: usize) -> (r: i128)
    requires
        link_fits(*l, *pose),
        exists|nv: int| m.valid(nv) && col < nv,
        k < 3,
    ensures
        r == own_motion(*l, *pose, *m, k as int, col as int),
        -MAX_TERM <= r <= MAX_TERM,
{
    let ghost nv = choose|nv: int| m.valid(nv) && col < nv;
    proof {
        assert(within(m.turning(col as int), MAX_SPIN_UP as int));
        assert(within(m.moving(col as int), MAX_PUSH as int));
        assert(m.jacobian@[0]@.len() == nv && m.jacobian@[1]@.len() == nv
            && m.jacobian@[2]@.len() == nv && m.jacobian@[3]@.len() == nv
            && m.jacobian@[4]@.len() == nv && m.jacobian@[5]@.len() == nv);
    }
    let r: Wide3 = arm_of(l, pose);
    let turning: Wide3 = Wide3 {
        x: m.jacobian[0][col] as i128,
        y: m.jacobian[1][col] as i128,
        z: m.jacobian[2][col] as i128,
    };
    let moving: i128 = m.jacobian[3 + k][col] as i128;
    proof {
        lemma_cross_within(wide(turning), wide(r), MAX_SPIN_UP as int, MAX_ARM as int);
        assert(moving == pick(m.moving(col as int), k as int));
    }
    let c: Wide3 = cross_of(&turning, &r);
    1_000_000_000 * moving + pick_of(&c, k)
}

fn own_bias_of(l: &MassLink, pose: &AnchorPose, m: &LinkMotion, k: usize) -> (r: i128)
    requires
        link_fits(*l, *pose),
        within(triple(m.djv_ang), MAX_SPIN_UP as int),
        within(triple(m.djv_lin), MAX_PUSH as int),
        within(triple(m.omega), MAX_SPIN as int),
        k < 3,
    ensures
        r == own_bias(*l, *pose, *m, k as int),
        -MAX_TERM <= r <= MAX_TERM,
{
    let r: Wide3 = arm_of(l, pose);
    let alpha: Wide3 = widen(&m.djv_ang);
    let omega: Wide3 = widen(&m.omega);
    let lin: i128 = pick_of(&widen(&m.djv_lin), k);
    proof {
        lemma_cross_within(wide(alpha), wide(r), MAX_SPIN_UP as int, MAX_ARM as int);
        lemma_cross_within(wide(omega), wide(r), MAX_SPIN as int, MAX_ARM as int);
    }
    let tangential: Wide3 = cross_of(&alpha, &r);
    let spun: Wide3 = cross_of(&omega, &r);
    let speed: Wide3 = Wide3 {
        x: billionth_of(spun.x),
        y: billionth_of(spun.y),
        z: billionth_of(spun.z),
    };
    proof {
        lemma_cross_within(wide(omega), wide(speed), MAX_SPIN as int, 0xa000_0000_0000);
    }
    let inward: Wide3 = cross_of(&omega, &speed);
    1_000_000_000 * lin + pick_of(&tangential, k) + pick_of(&inward, k)
}

/// The centre of mass, in nanometres, how it moves with the joints, and its bias
/// acceleration.
pub struct ComState {
    pub com: Wide3,
    /// Three rows, one column for each velocity coordinate.
    pub j_com: Vec<Vec<i128>>,
    pub djv_com: Wide3,
}

/// A row of a Jacobian times the first `n` velocity coordinates.
pub open spec fn row_times(row: Seq<i128>, v: Seq<i64>, n: nat) -> int
    decreases n,
{
    if n == 0 || n > row.len() {
        0
    } else {
        row_times(row, v, (n - 1) as nat) + row[n - 1] * v[n - 1]
    }
}

/// No machine has more velocity coordinates than this.
pub const MAX_COLUMNS: usize = 0x4_0000;

proof fn lemma_row_times_bound(row: Seq<i128>, v: Seq<i64>, n: nat)
    requires
        n <= row.len(),
        n <= v.len(),
        n <= MAX_COLUMNS,
        forall|i: int| 0 <= i < row.len() ==> -MAX_COLUMN <= #[trigger] row[i] <= MAX_COLUMN,
        forall|i: int| 0 <= i < v.len() ==> -MAX_RATE <= #[trigger] v[i] <= MAX_RATE,
    ensures
        -(n * 0x800_0000_0000_0000_0000_0000_0000) <= row_times(row, v, n) <= n
            * 0x800_0000_0000_0000_0000_0000_0000,
        n < row.len() && n < v.len() ==> -0x800_0000_0000_0000_0000_0000_0000 <= row[n as int]
            * v[n as int] <= 0x800_0000_0000_0000_0000_0000_0000,
    decreases n,
{
    if n < row.len() && n < v.len() {
        lemma_product(row[n as int] as int, v[n as int] as int, MAX_COLUMN as int, MAX_RATE as int);
    }
    if n > 0 {
        lemma_row_times_bound(row, v, (n - 1) as nat);
    }
}

fn row_times_of(row: &Vec<i128>, v: &Vec<i64>) -> (r: i128)
    requires
        row@.len() == v@.len(),
        row@.len() <= MAX_COLUMNS,
        forall|i: int| 0 <= i < row@.len() ==> -MAX_COLUMN <= #[trigger] row@[i] <= MAX_COLUMN,
        forall|i: int| 0 <= i < v@.len() ==> -MAX_RATE <= #[trigger] v@[i] <= MAX_RATE,
    ensures
        r == row_times(row@, v@, v@.len()),
{
    let mut sum: i128 = 0;
    let mut i: usize = 0;
    while i < v.len()
        invariant
            i <= v@.len(),
            row@.len() == v@.len(),
            row@.len() <= MAX_COLUMNS,
            forall|i: int| 0 <= i < row@.len() ==> -MAX_COLUMN <= #[trigger] row@[i] <= MAX_COLUMN,
            forall|i: int| 0 <= i < v@.len() ==> -MAX_RATE <= #[trigger] v@[i] <= MAX_RATE,
            sum == row_times(row@, v@, i as nat),
        decreases v.len() - i,
    {
        proof {
            lemma_row_times_bound(row@, v@, i as nat);
            lemma_row_times_bound(row@, v@, (i + 1) as nat);
        }
        sum = sum + row[i] * v[i] as i128;
        i += 1;
    }
    sum
}

impl ComState {
    /// The Jacobian has three rows of `nv` columns that are not out of all bounds.
    pub open spec fn fits(&self, nv: int) -> bool {
        &&& self.j_com@.len() == 3
        &&& forall|k: int| 0 <= k < 3 ==> (#[trigger] self.j_com@[k])@.len() == nv
        &&& forall|k: int, col: int|
            0 <= k < 3 && 0 <= col < nv ==> -MAX_COLUMN <= #[trigger] self.j_com@[k]@[col]
                <= MAX_COLUMN
    }

    /// How fast the centre of mass moves, in nanometres per second times the unit of
    /// the rates.
    pub fn com_vel(&self, v: &Vec<i64>) -> (r: Wide3)
        requires
            self.fits(v@.len() as int),
            v@.len() <= MAX_COLUMNS,
            forall|i: int| 0 <= i < v@.len() ==> -MAX_RATE <= #[trigger] v@[i] <= MAX_RATE,
        ensures
            forall|k: int|
                0 <= k < 3 ==> #[trigger] pick(wide(r), k) == row_times(
                    self.j_com@[k]@,
                    v@,
                    v@.len(),
                ),
    {
        proof {
            assert(self.j_com@[0]@.len() == v@.len());
            assert(self.j_com@[1]@.len() == v@.len());
            assert(self.j_com@[2]@.len() == v@.len());
        }
        Wide3 {
            x: row_times_of(&self.j_com[0], v),
            y: row_times_of(&self.j_com[1], v),
            z: row_times_of(&self.j_com[2], v),
        }
    }
}

impl BipedRig {
    /// The masses add up, and every link with mass has a pose in which it fits.
    pub open spec fn poses_fit(&self, poses: Seq<AnchorPose>) -> bool {
        &&& self.total_mass == crate::biped::rig::mass_sum(
            self.mass_links@,
            self.mass_links@.len(),
        )
        &&& 0 < self.total_mass <= MAX_MASS
        &&& forall|i: int|
            0 <= i < self.mass_links@.len() ==> {
                &&& (#[trigger] self.mass_links@[i]).mi < poses.len()
                &&& link_fits(self.mass_links@[i], poses[self.mass_links@[i].mi as int])
            }
    }

    /// Every link with mass moves within bounds.
    pub open spec fn motions_fit(&self, motions: Seq<LinkMotion>) -> bool {
        &&& motions.len() == self.mass_links@.len()
        &&& forall|i: int|
            0 <= i < motions.len() ==> (#[trigger] motions[i]).valid(self.map.nv as int)
    }

    fn com_axis(&self, poses: &Vec<AnchorPose>, k: usize) -> (r: i128)
        requires
            self.poses_fit(poses@),
            k < 3,
        ensures
            r == averaged(
                self.mass_links@,
                centre_terms(self.mass_links@, poses@, k as int),
                1,
            ),
    {
        let ghost wanted = centre_terms(self.mass_links@, poses@, k as int);
        let mut terms: Vec<i128> = Vec::new();
        while terms.len() < self.mass_links.len()
            invariant
                self.poses_fit(poses@),
                k < 3,
                wanted == centre_terms(self.mass_links@, poses@, k as int),
                terms@.len() <= self.mass_links@.len(),
                forall|i: int| 0 <= i < terms@.len() ==> #[trigger] terms@[i] == wanted[i],
                forall|i: int|
                    0 <= i < terms@.len() ==> -MAX_TERM <= #[trigger] terms@[i] <= MAX_TERM,
            decreases self.mass_links.len() - terms.len(),
        {
            let l: MassLink = self.mass_links[terms.len()];
            proof {
                assert(l.mi < poses@.len());
            }
            let r: Wide3 = arm_of(&l, &poses[l.mi]);
            let o: Wide3 = widen(&poses[l.mi].pos);
            let t: i128 = pick_of(&o, k) + pick_of(&r, k);
            terms.push(t);
        }
        proof {
            assert(ints(terms@) =~= wanted);
        }
        average(&self.mass_links, self.total_mass, &terms, 1)
    }

    fn jacobian_entry(
        &self,
        poses: &Vec<AnchorPose>,
        motions: &Vec<LinkMotion>,
        k: usize,
        col: usize,
    ) -> (r: i128)
        requires
            self.poses_fit(poses@),
            self.motions_fit(motions@),
            k < 3,
            col < self.map.nv,
        ensures
            r == averaged(
                self.mass_links@,
                motion_terms(self.mass_links@, poses@, motions@, k as int, col as int),
                1_000_000_000,
            ),
            -MAX_COLUMN <= r <= MAX_COLUMN,
    {
        let ghost wanted = motion_terms(
            self.mass_links@,
            poses@,
            motions@,
            k as int,
            col as int,
        );
        let mut terms: Vec<i128> = Vec::new();
        while terms.len() < self.mass_links.len()
            invariant
                self.poses_fit(poses@),
                self.motions_fit(motions@),
                k < 3,
                col < self.map.nv,
                wanted == motion_terms(self.mass_links@, poses@, motions@, k as int, col as int),
                terms@.len() <= self.mass_links@.len(),
                forall|i: int| 0 <= i < terms@.len() ==> #[trigger] terms@[i] == wanted[i],
                forall|i: int|
                    0 <= i < terms@.len() ==> -MAX_TERM <= #[trigger] terms@[i] <= MAX_TERM,
            decreases self.mass_links.len() - terms.len(),
        {
            let i: usize = terms.len();
            let l: MassLink = self.mass_links[i];
            proof {
                assert(l.mi < poses@.len());
                assert(motions@[i as int].valid(self.map.nv as int));
            }
            let t: i128 = own_motion_of(&l, &poses[l.mi], &motions[i], k, col);
            terms.push(t);
        }
        proof {
            assert(ints(terms@) =~= wanted);
        }
        average(&self.mass_links, self.total_mass, &terms, 1_000_000_000)
    }

    fn bias_axis(&self, poses: &Vec<AnchorPose>, motions: &Vec<LinkMotion>, k: usize) -> (r: i128)
        requires
            self.poses_fit(poses@),
            self.motions_fit(motions@),
            k < 3,
        ensures
            r == averaged(
                self.mass_links@,
                bias_terms(self.mass_links@, poses@, motions@, k as int),
                1_000_000_000,
            ),
    {
        let ghost wanted = bias_terms(self.mass_links@, poses@, motions@, k as int);
        let mut terms: Vec<i128> = Vec::new();
        while terms.len() < self.mass_links.len()
            invariant
                self.poses_fit(poses@),
                self.motions_fit(motions@),
                k < 3,
                wanted == bias_terms(self.mass_links@, poses@, motions@, k as int),
                terms@.len() <= self.mass_links@.len(),
                forall|i: int| 0 <= i < terms@.len() ==> #[trigger] terms@[i] == wanted[i],
                forall|i: int|
                    0 <= i < terms@.len() ==> -MAX_TERM <= #[trigger] terms@[i] <= MAX_TERM,
            decreases self.mass_links.len() - terms.len(),
        {
            let i: usize = terms.len();
            let l: MassLink = self.mass_links[i];
            proof {
                assert(l.mi < poses@.len());
                assert(motions@[i as int].valid(self.map.nv as int));
            }
            let t: i128 = own_bias_of(&l, &poses[l.mi], &motions[i], k);
            terms.push(t);
        }
        proof {
            assert(ints(terms@) =~= wanted);
        }
        average(&self.mass_links, self.total_mass, &terms, 1_000_000_000)
    }

    /// The centre of mass of the machine, its joints placed as given: the mass average
    /// of the links' own, to the nanometre.
    pub fn com_of(&self, poses: &Vec<AnchorPose>) -> (r: Wide3)
        requires
            self.poses_fit(poses@),
        ensures
            forall|k: int|
                0 <= k < 3 ==> #[trigger] pick(wide(r), k) == averaged(
                    self.mass_links@,
                    centre_terms(self.mass_links@, poses@, k),
                    1,
                ),
    {
        Wide3 {
            x: self.com_axis(poses, 0),
            y: self.com_axis(poses, 1),
            z: self.com_axis(poses, 2),
        }
    }

    /// The centre of mass with its Jacobian and its bias, all in the world frame.
    /// Each link's joint Jacobian holds at the JOINT, so its linear part is shifted
    /// out to the link's own centre of mass before it is averaged.
    pub fn com_state(&self, poses: &Vec<AnchorPose>, motions: &Vec<LinkMotion>) -> (r: ComState)
        requires
            self.poses_fit(poses@),
            self.motions_fit(motions@),
        ensures
            forall|k: int|
                0 <= k < 3 ==> #[trigger] pick(wide(r.com), k) == averaged(
                    self.mass_links@,
                    centre_terms(self.mass_links@, poses@, k),
                    1,
                ),
            r.j_com@.len() == 3,
            forall|k: int, col: int|
                0 <= k < 3 && 0 <= col < self.map.nv ==> #[trigger] r.j_com@[k]@[col] == averaged(
                    self.mass_links@,
                    motion_terms(self.mass_links@, poses@, motions@, k, col),
                    1_000_000_000,
                ),
            forall|k: int| 0 <= k < 3 ==> (#[trigger] r.j_com@[k])@.len() == self.map.nv,
            forall|k: int|
                0 <= k < 3 ==> #[trigger] pick(wide(r.djv_com), k) == averaged(
                    self.mass_links@,
                    bias_terms(self.mass_links@, poses@, motions@, k),
                    1_000_000_000,
                ),
            r.fits(self.map.nv as int),
    {
        let com: Wide3 = self.com_of(poses);
        let row0: Vec<i128> = self.jacobian_row(poses, motions, 0);
        let row1: Vec<i128> = self.jacobian_row(poses, motions, 1);
        let row2: Vec<i128> = self.jacobian_row(poses, motions, 2);
        let mut j_com: Vec<Vec<i128>> = Vec::new();
        j_com.push(row0);
        j_com.push(row1);
        j_com.push(row2);
        let djv_com: Wide3 = Wide3 {
            x: self.bias_axis(poses, motions, 0),
            y: self.bias_axis(poses, motions, 1),
            z: self.bias_axis(poses, motions, 2),
        };
        ComState { com, j_com, djv_com }
    }

    fn jacobian_row(
        &self,
        poses: &Vec<AnchorPose>,
        motions: &Vec<LinkMotion>,
        k: usize,
    ) -> (row: Vec<i128>)
        requires
            self.poses_fit(poses@),
            self.motions_fit(motions@),
            k < 3,
        ensures
            row@.len() == self.map.nv,
            forall|col: int|
                0 <= col < self.map.nv ==> #[trigger] row@[col] == averaged(
                    self.mass_links@,
                    motion_terms(self.mass_links@, poses@, motions@, k as int, col),
                    1_000_000_000,
                ),
            forall|col: int|
                0 <= col < row@.len() ==> -MAX_COLUMN <= #[trigger] row@[col] <= MAX_COLUMN,
    {
        let mut row: Vec<i128> = Vec::new();
        while row.len() < self.map.nv
            invariant
                self.poses_fit(poses@),
                self.motions_fit(motions@),
                k < 3,
                row@.len() <= self.map.nv,
                forall|col: int|
                    0 <= col < row@.len() ==> #[trigger] row@[col] == averaged(
                        self.mass_links@,
                        motion_terms(self.mass_links@, poses@, motions@, k as int, col),
                        1_000_000_000,
                    ),
                forall|col: int|
                    0 <= col < row@.len() ==> -MAX_COLUMN <= #[trigger] row@[col] <= MAX_COLUMN,
            decreases self.map.nv - row.len(),
        {
            let e: i128 = self.jacobian_entry(poses, motions, k, row.len());
            row.push(e);
        }
        row
    }
}

/// The centre of mass lies among the links' own: no further out along any axis than
/// the outermost of them.
pub proof fn law_com_lies_among_the_links(
    rig: BipedRig,
    poses: Seq<AnchorPose>,
    k: int,
    lo: int,
    hi: int,
)
    requires
        rig.poses_fit(poses),
        forall|i: int|
            0 <= i < rig.mass_links@.len() ==> lo <= #[trigger] own_centre(
                rig.mass_links@[i],
                poses[rig.mass_links@[i].mi as int],
                k,
            ) <= hi,
    ensures
        lo <= averaged(rig.mass_links@, centre_terms(rig.mass_links@, poses, k), 1) <= hi,
{
    let links = rig.mass_links@;
    let terms = centre_terms(links, poses, k);
    assert forall|i: int| 0 <= i < terms.len() implies lo <= #[trigger] terms[i] <= hi by {
        assert(lo <= own_centre(links[i], poses[links[i].mi as int], k) <= hi);
    }
    law_average_is_between(links, terms, links.len(), lo, hi);
}

proof fn lemma_weighted_shift(
    links: Seq<MassLink>,
    a: Seq<int>,
    b: Seq<int>,
    d: int,
    n: nat,
)
    requires
        n <= links.len(),
        a.len() == links.len(),
        b.len() == links.len(),
        forall|i: int| 0 <= i < links.len() ==> #[trigger] b[i] == a[i] + d,
    ensures
        weighted(links, b, n) == weighted(links, a, n) + d * crate::biped::rig::mass_sum(links, n),
    decreases n,
{
    if n > 0 {
        lemma_weighted_shift(links, a, b, d, (n - 1) as nat);
        let before = crate::biped::rig::mass_sum(links, (n - 1) as nat) as int;
        let m = links[n - 1].m as int;
        let t = a[n - 1];
        assert(b[n - 1] == t + d);
        assert(m * (t + d) == m * t + d * m) by (nonlinear_arith);
        assert(d * (before + m) == d * before + d * m) by (nonlinear_arith);
    } else {
        assert(d * 0 == 0);
    }
}

/// Put the whole machine somewhere else, turned as it is, and its centre of mass
/// moves along by exactly as much.
pub proof fn law_com_moves_with_the_body(
    rig: BipedRig,
    poses: Seq<AnchorPose>,
    moved: Seq<AnchorPose>,
    d: (int, int, int),
    k: int,
)
    requires
        rig.poses_fit(poses),
        moved.len() == poses.len(),
        forall|i: int|
            0 <= i < poses.len() ==> {
                &&& (#[trigger] moved[i]).row0 == poses[i].row0
                &&& moved[i].row1 == poses[i].row1
                &&& moved[i].row2 == poses[i].row2
                &&& moved[i].pos.x == poses[i].pos.x + d.0
                &&& moved[i].pos.y == poses[i].pos.y + d.1
                &&& moved[i].pos.z == poses[i].pos.z + d.2
            },
        0 <= k < 3,
    ensures
        averaged(rig.mass_links@, centre_terms(rig.mass_links@, moved, k), 1) == averaged(
            rig.mass_links@,
            centre_terms(rig.mass_links@, poses, k),
            1,
        ) + pick(d, k),
{
    let links = rig.mass_links@;
    let a = centre_terms(links, poses, k);
    let b = centre_terms(links, moved, k);
    let dk = pick(d, k);
    assert forall|i: int| 0 <= i < links.len() implies #[trigger] b[i] == a[i] + dk by {
        let mi = links[i].mi as int;
        assert(mi < poses.len());
        assert(moved[mi].row0 == poses[mi].row0);
    }
    lemma_weighted_shift(links, a, b, dk, links.len());
    let w = weighted(links, a, links.len());
    let mass = crate::biped::rig::mass_sum(links, links.len()) as int;
    assert((w + dk * mass) / mass == w / mass + dk) by (nonlinear_arith)
        requires
            mass > 0,
    ;
}

/// A velocity coordinate along which every joint slides alike, without turning,
/// such as one of the floating base, carries the centre of mass along as it is.
pub proof fn law_sliding_carries_the_com(
    rig: BipedRig,
    poses: Seq<AnchorPose>,
    motions: Seq<LinkMotion>,
    e: (int, int, int),
    k: int,
    col: int,
)
    requires
        rig.poses_fit(poses),
        rig.motions_fit(motions),
        0 <= col < rig.map.nv,
        0 <= k < 3,
        forall|i: int|
            0 <= i < motions.len() ==> {
                &&& (#[trigger] motions[i]).turning(col) == (0int, 0int, 0int)
                &&& motions[i].moving(col) == e
            },
    ensures
        averaged(
            rig.mass_links@,
            motion_terms(rig.mass_links@, poses, motions, k, col),
            1_000_000_000,
        ) == pick(e, k),
{
    let links = rig.mass_links@;
    let terms = motion_terms(links, poses, motions, k, col);
    let c = 1_000_000_000 * pick(e, k);
    assert forall|i: int| 0 <= i < terms.len() implies c <= #[trigger] terms[i] <= c by {
        let m = motions[i];
        assert(m.turning(col) == (0int, 0int, 0int));
        let r = arm(links[i], poses[links[i].mi as int]);
        assert(0 * r.0 == 0 && 0 * r.1 == 0 && 0 * r.2 == 0);
        assert(cross((0int, 0int, 0int), r) == (0int, 0int, 0int));
    }
    law_average_is_between(links, terms, links.len(), c, c);
    let mass = crate::biped::rig::mass_sum(links, links.len()) as int;
    let x = pick(e, k);
    assert((1_000_000_000 * x * mass) / (1_000_000_000 * mass) == x) by (nonlinear_arith)
        requires
            mass > 0,
    ;
}

proof fn lemma_rounded_down(v: int, d: int)
    requires
        d > 0,
    ensures
        0 <= v - d * (v / d) < d,
{
    let q = v / d;
    assert(0 <= v - d * q < d) by (nonlinear_arith)
        requires
            d > 0,
            q == v / d,
    ;
}

/// A world vector in the body's frame is what each axis of the body sees of it, up to the
/// last digit.
pub proof fn law_body_frame_sees_along_its_axes(plant: Plant, v: Vec3, i: int)
    ensures
        ({
            let a = plant.body_axes@[i];
            0 <= (a.x * v.x + a.y * v.y + a.z * v.z) - 1_000_000_000 * plant.in_body(v, i)
                < 1_000_000_000
        }),
{
    lemma_rounded_down(crate::biped::contact::dot(plant.body_axes@[i], v), 1_000_000_000);
}

/// The base's coordinates are its position and then its attitude, and its rates the turning
/// and then the shifting, both as the body sees them.
pub proof fn law_base_coordinates(plant: Plant, i: int)
    requires
        plant.valid(plant.joint_q@.len()),
        0 <= i < 3,
    ensures
        plant.base_position().len() == 7,
        plant.base_position()[0] == plant.body_pos.x,
        plant.base_position()[1] == plant.body_pos.y,
        plant.base_position()[2] == plant.body_pos.z,
        forall|k: int| 0 <= k < 4 ==> #[trigger] plant.base_position()[3 + k] == plant.body_quat@[k],
        plant.base_rates().len() == 6,
        plant.base_rates()[i] == plant.in_body(plant.v_ang_w, i) as i64,
        plant.base_rates()[3 + i] == plant.in_body(plant.v_lin_w, i) as i64,
{
}

/// The sole lies below the ankle and ahead of it by its centre.
pub proof fn law_sole_lies_below(centre_x: i64, below: i64)
    requires
        below > i64::MIN,
    ensures
        sole_offset(centre_x, below).x == centre_x,
        sole_offset(centre_x, below).y == 0,
        sole_offset(centre_x, below).z + below == 0,
{
}

/// A point that is fixed to a link lies at the link's origin plus its offset as the link is
/// turned, up to the last digit.
pub proof fn law_fixed_point_turns_with_its_link(o: i64, row: Vec3, offset: Vec3)
    ensures
        0 <= 1_000_000_000 * o + (row.x * offset.x + row.y * offset.y + row.z * offset.z)
            - 1_000_000_000_000 * point_at(o, row, offset) < 1_000_000_000_000,
{
    lemma_rounded_down(
        1_000_000_000 * o + crate::biped::contact::dot(row, offset),
        1_000_000_000_000,
    );
}

/// Each link counts with its mass: what one of them changes by, the sum changes by that times
/// its mass. Nothing weighs nothing.
pub proof fn law_links_count_with_their_mass(
    links: Seq<MassLink>,
    a: Seq<int>,
    b: Seq<int>,
    n: nat,
    i: int,
)
    requires
        n <= links.len(),
        a.len() == links.len(),
        b.len() == links.len(),
        0 <= i < n,
        forall|k: int| 0 <= k < links.len() && k != i ==> a[k] == #[trigger] b[k],
    ensures
        weighted(links, b, n) - weighted(links, a, n) == links[i].m * (b[i] - a[i]),
        weighted(links, a, 0) == 0,
    decreases n,
{
    let (x, y, m) = (a[n - 1], b[n - 1], links[n - 1].m as int);
    assert(m * y - m * x == m * (y - x)) by (nonlinear_arith);
    if i < n - 1 {
        law_links_count_with_their_mass(links, a, b, (n - 1) as nat, i);
        assert(a[n - 1] == b[n - 1]);
    } else {
        lemma_same_terms(links, a, b, (n - 1) as nat);
    }
}

proof fn lemma_same_terms(links: Seq<MassLink>, a: Seq<int>, b: Seq<int>, n: nat)
    requires
        n <= links.len(),
        forall|k: int| 0 <= k < n ==> a[k] == #[trigger] b[k],
    ensures
        weighted(links, a, n) == weighted(links, b, n),
    decreases n,
{
    if n > 0 {
        lemma_same_terms(links, a, b, (n - 1) as nat);
        assert(a[n - 1] == b[n - 1]);
    }
}

/// An average times the whole mass is the weighted sum again, up to the last digit.
pub proof fn law_average_times_mass_is_the_sum(links: Seq<MassLink>, terms: Seq<int>, parts: int)
    requires
        parts > 0,
        crate::biped::rig::mass_sum(links, links.len()) > 0,
    ensures
        ({
            let whole = parts * crate::biped::rig::mass_sum(links, links.len());
            0 <= weighted(links, terms, links.len()) - whole * averaged(links, terms, parts) < whole
        }),
{
    let m = crate::biped::rig::mass_sum(links, links.len());
    assert(parts * m > 0) by (nonlinear_arith)
        requires
            parts > 0,
            m > 0,
    ;
    lemma_rounded_down(weighted(links, terms, links.len()), parts * m);
}

/// The cross product stands upright on both of its factors, turns around with their order,
/// and takes the first axis and the second to the third.
pub proof fn law_cross_product(a: (int, int, int), b: (int, int, int))
    ensures
        ({
            let c = cross(a, b);
            &&& a.0 * c.0 + a.1 * c.1 + a.2 * c.2 == 0
            &&& b.0 * c.0 + b.1 * c.1 + b.2 * c.2 == 0
            &&& c.0 == -cross(b, a).0 && c.1 == -cross(b, a).1 && c.2 == -cross(b, a).2
            &&& cross((a.0, 0, 0), (0, b.1, 0)) == (0int, 0int, a.0 * b.1)
            &&& cross((0, a.1, 0), (0, 0, b.2)) == (a.1 * b.2, 0int, 0int)
        }),
{
    let ((p, q, r), (x, y, z)) = (a, b);
    assert(p * (q * z - r * y) + q * (r * x - p * z) + r * (p * y - q * x) == 0)
        by (nonlinear_arith);
    assert(x * (q * z - r * y) + y * (r * x - p * z) + z * (p * y - q * x) == 0)
        by (nonlinear_arith);
    assert(y * r == r * y && z * q == q * z && z * p == p * z && x * r == r * x && x * q == q * x
        && y * p == p * y) by (nonlinear_arith);
    assert(p * 0 == 0 && q * 0 == 0 && 0 * y == 0 && 0 * z == 0 && 0 * 0 == 0) by (nonlinear_arith);
}

/// The mass of a link lies off its joint by its own offset as the link is turned, up to the
/// last digit.
pub proof fn law_arm_turns_with_its_link(l: MassLink, pose: AnchorPose)
    ensures
        ({
            let (r, c) = (arm(l, pose), l.com_local);
            let unit: int = 1_000_000_000;
            let (a, b, d) = (pose.row0, pose.row1, pose.row2);
            &&& 0 <= (a.x * c.x + a.y * c.y + a.z * c.z) - unit * r.0 < unit
            &&& 0 <= (b.x * c.x + b.y * c.y + b.z * c.z) - unit * r.1 < unit
            &&& 0 <= (d.x * c.x + d.y * c.y + d.z * c.z) - unit * r.2 < unit
            &&& own_centre(l, pose, 0) == pose.pos.x + r.0
            &&& own_centre(l, pose, 1) == pose.pos.y + r.1
            &&& own_centre(l, pose, 2) == pose.pos.z + r.2
        }),
{
}

/// The mass of a link moves with its joint and around it: where the joint only shifts it
/// shifts alike, and where the joint only turns it moves across its arm.
pub proof fn law_mass_moves_with_and_around_its_joint(
    l: MassLink,
    pose: AnchorPose,
    m: LinkMotion,
    col: int,
)
    ensures
        ({
            let (r, t, p) = (arm(l, pose), m.turning(col), m.moving(col));
            let (x, y, z) = (
                own_motion(l, pose, m, 0, col) - 1_000_000_000 * m.jacobian@[3]@[col],
                own_motion(l, pose, m, 1, col) - 1_000_000_000 * m.jacobian@[4]@[col],
                own_motion(l, pose, m, 2, col) - 1_000_000_000 * m.jacobian@[5]@[col],
            );
            let (tx, ty, tz) = (
                m.jacobian@[0]@[col],
                m.jacobian@[1]@[col],
                m.jacobian@[2]@[col],
            );
            &&& r.0 * x + r.1 * y + r.2 * z == 0
            &&& x == ty * r.2 - tz * r.1
            &&& y == tz * r.0 - tx * r.2
            &&& z == tx * r.1 - ty * r.0
        }),
{
    let r = arm(l, pose);
    let (tx, ty, tz) = (
        m.jacobian@[0]@[col] as int,
        m.jacobian@[1]@[col] as int,
        m.jacobian@[2]@[col] as int,
    );
    let (x, y, z) = (ty * r.2 - tz * r.1, tz * r.0 - tx * r.2, tx * r.1 - ty * r.0);
    let (a, b, c) = r;
    assert(a * (ty * c - tz * b) + b * (tz * a - tx * c) + c * (tx * b - ty * a) == 0)
        by (nonlinear_arith);
}

/// What drifts of a link's mass without any joint accelerating: its joint's drift, that of
/// turning across the arm, and the pull towards the axis that it turns about.
pub proof fn law_drift_of_a_mass(l: MassLink, pose: AnchorPose, m: LinkMotion)
    ensures
        ({
            let (r, a, w, d) = (arm(l, pose), m.djv_ang, m.omega, m.djv_lin);
            let u: int = 1_000_000_000;
            let s = (
                (w.y * r.2 - w.z * r.1) / u,
                (w.z * r.0 - w.x * r.2) / u,
                (w.x * r.1 - w.y * r.0) / u,
            );
            &&& own_bias(l, pose, m, 0) == u * d.x + (a.y * r.2 - a.z * r.1) + (w.y * s.2 - w.z
                * s.1)
            &&& own_bias(l, pose, m, 1) == u * d.y + (a.z * r.0 - a.x * r.2) + (w.z * s.0 - w.x
                * s.2)
            &&& own_bias(l, pose, m, 2) == u * d.z + (a.x * r.1 - a.y * r.0) + (w.x * s.1 - w.y
                * s.0)
        }),
{
}

/// A row times rates is linear: what one rate changes by, the product changes by that times
/// its column, and at rest it is nothing.
pub proof fn law_row_times_rates_is_linear(
    row: Seq<i128>,
    a: Seq<i64>,
    b: Seq<i64>,
    n: nat,
    i: int,
)
    requires
        n <= row.len(),
        0 <= i < n,
        forall|k: int| 0 <= k < n && k != i ==> a[k] == #[trigger] b[k],
    ensures
        row_times(row, b, n) - row_times(row, a, n) == row[i] * (b[i] - a[i]),
        (forall|k: int| 0 <= k < n ==> #[trigger] a[k] == 0) ==> row_times(row, a, n) == 0,
    decreases n,
{
    let (x, y, m) = (a[n - 1] as int, b[n - 1] as int, row[n - 1] as int);
    assert(m * y - m * x == m * (y - x)) by (nonlinear_arith);
    assert(x == 0 ==> m * x == 0) by (nonlinear_arith);
    if i < n - 1 {
        law_row_times_rates_is_linear(row, a, b, (n - 1) as nat, i);
        assert(a[n - 1] == b[n - 1]);
    } else {
        lemma_same_rates(row, a, b, (n - 1) as nat);
        if n > 1 {
            law_row_times_rates_is_linear(row, a, a, (n - 1) as nat, 0);
        }
    }
}

proof fn lemma_same_rates(row: Seq<i128>, a: Seq<i64>, b: Seq<i64>, n: nat)
    requires
        n <= row.len(),
        forall|k: int| 0 <= k < n ==> a[k] == #[trigger] b[k],
    ensures
        row_times(row, a, n) == row_times(row, b, n),
    decreases n,
{
    if n > 0 {
        lemma_same_rates(row, a, b, (n - 1) as nat);
        assert(a[n - 1] == b[n - 1]);
    }
}

} // verus!
