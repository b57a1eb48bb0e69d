//! How each priority level's rows and references are laid out.
//!
//! The level ORDER is the driver's business, not this module's: it changes
//! between double and single support and between experiments.
//!
//! Angles are whole microradians, rates microradians per second; gains are in
//! millionths, so that references come out in millionths of a microradian per
//! second squared.

use vstd::prelude::*;

use crate::biped::contact::{contact_row, sole_selection, AnchorPose, Anchors};
use crate::biped::gait::Side;
use crate::biped::rows::choose_rows;
use crate::joint_map::BASE_ROWS;
use crate::robot::Vec3;

verus! {

/// Rows of a foot's Jacobian: turning about x, y, z, then moving along x, y, z.
pub const ROW_YAW: usize = 2;

pub const ROW_X: usize = 3;

pub const ROW_Y: usize = 4;

pub const ROW_Z: usize = 5;

/// Which rows of the swing foot's Jacobian to constrain.
#[derive(Clone, Copy, PartialEq, Eq, Structural, Debug)]
pub enum SwingAxes {
    /// Clearance only. What single-leg STANCE wants: constraining x and y as
    /// well pins the swing foot to the world position it happened to occupy.
    ZOnly,
    /// Full 3-D tracking. What STEPPING wants: the target is a planned footstep
    /// that moves, so there is nothing to fight.
    Xyz,
    /// Position plus YAW only, four rows. The middle ground, and usually the
    /// right one: taking all six of the foot's freedoms leaves the swing leg no
    /// null space at all.
    XyzYaw,
    /// Position AND orientation, six rows.
    Pose,
}

impl SwingAxes {
    /// The rows that are constrained, in order.
    pub open spec fn rows_of(self) -> Seq<usize> {
        match self {
            SwingAxes::ZOnly => seq![5usize],
            SwingAxes::Xyz => seq![3usize, 4, 5],
            SwingAxes::XyzYaw => seq![2usize, 3, 4, 5],
            SwingAxes::Pose => seq![0usize, 1, 2, 3, 4, 5],
        }
    }

    /// The rows that are constrained, in order.
    pub fn rows(self) -> (r: Vec<usize>)
        ensures
            r@ == self.rows_of(),
    {
        let r: Vec<usize> = match self {
            SwingAxes::ZOnly => vec![ROW_Z],
            SwingAxes::Xyz => vec![ROW_X, ROW_Y, ROW_Z],
            SwingAxes::XyzYaw => vec![ROW_YAW, ROW_X, ROW_Y, ROW_Z],
            SwingAxes::Pose => vec![0, 1, ROW_YAW, ROW_X, ROW_Y, ROW_Z],
        };
        proof {
            assert(r@ =~= self.rows_of());
        }
        r
    }

    /// Whether an orientation target is needed.
    pub fn needs_orientation(self) -> (r: bool)
        ensures
            r == exists|k: int| 0 <= k < self.rows_of().len() && (#[trigger] self.rows_of()[k]) < 3,
    {
        let r = matches!(self, SwingAxes::XyzYaw | SwingAxes::Pose);
        proof {
            if self is XyzYaw || self is Pose {
                assert(self.rows_of()[0] < 3);
            }
        }
        r
    }
}

/// Vertical clearance is constrained whichever axes are chosen, always as the
/// last row.
pub proof fn law_clearance_is_always_tracked(axes: SwingAxes)
    ensures
        axes.rows_of().len() > 0,
        axes.rows_of().last() == ROW_Z,
{
}

/// The values of a six-vector in the chosen rows.
pub fn pick_axes<T: Copy>(axes: SwingAxes, full: &[T; 6]) -> (r: Vec<T>)
    ensures
        r@ == axes.rows_of().map_values(|row: usize| full@[row as int]),
{
    let rows: Vec<usize> = axes.rows();
    let mut out: Vec<T> = Vec::new();
    let mut k: usize = 0;
    while k < rows.len()
        invariant
            k <= rows.len(),
            rows@ == axes.rows_of(),
            out@ == axes.rows_of().map_values(|row: usize| full@[row as int]).take(k as int),
        decreases rows.len() - k,
    {
        proof {
            assert(rows@[k as int] < 6);
        }
        out.push(full[rows[k]]);
        k += 1;
    }
    proof {
        let all = axes.rows_of().map_values(|row: usize| full@[row as int]);
        assert(all.take(all.len() as int) =~= all);
    }
    out
}

/// Largest gain that references are computed with.
pub const MAX_GAIN: i64 = 0x20_0000_0000_0000;

/// A deadband on an error: inside it there is none, outside only the excess
/// counts.
pub open spec fn dead(e: int, band: int) -> int {
    if -band <= e <= band {
        0
    } else if e >= 0 {
        e - band
    } else {
        e + band
    }
}

/// Reference acceleration of one trunk axis: a PD towards upright, with a
/// deadband on the POSITION error only. Damping stays live, so the task still
/// resists rate inside the band instead of going open.
pub open spec fn upright_ref(e: int, rate: int, kp: int, kd: int, band: int) -> int {
    kp * (0 - dead(e, band)) + kd * (0 - rate)
}

/// Roll and pitch reference accelerations of the trunk. `sign` is +1, the
/// textbook convention, unless the dynamics count the other way round.
pub fn trunk_rp_ref(
    roll: i64,
    pitch: i64,
    omega_x: i64,
    omega_y: i64,
    kp: i64,
    kd: i64,
    deadband: i64,
    sign: i8,
) -> (r: (i128, i128))
    requires
        -MAX_GAIN <= kp <= MAX_GAIN,
        -MAX_GAIN <= kd <= MAX_GAIN,
    ensures
        r.0 == sign * upright_ref(
            roll as int,
            omega_x as int,
            kp as int,
            kd as int,
            deadband as int,
        ),
        r.1 == sign * upright_ref(
            pitch as int,
            omega_y as int,
            kp as int,
            kd as int,
            deadband as int,
        ),
{
    (
        axis_ref(roll, omega_x, kp, kd, deadband, sign),
        axis_ref(pitch, omega_y, kp, kd, deadband, sign),
    )
}

fn axis_ref(e: i64, rate: i64, kp: i64, kd: i64, band: i64, sign: i8) -> (r: i128)
    requires
        -MAX_GAIN <= kp <= MAX_GAIN,
        -MAX_GAIN <= kd <= MAX_GAIN,
    ensures
        r == sign * upright_ref(e as int, rate as int, kp as int, kd as int, band as int),
{
    let e2: i128 = e as i128;
    let b: i128 = band as i128;
    let d: i128 = if -b <= e2 && e2 <= b {
        0
    } else if e2 >= 0 {
        e2 - b
    } else {
        e2 + b
    };
    proof {
        let m: int = 0x8000_0000_0000_0000;
        let g: int = 0x20_0000_0000_0000;
        assert(-(g * (2 * m)) <= kp * (0 - d) <= g * (2 * m)) by (nonlinear_arith)
            requires
                -g <= kp <= g,
                -2 * m <= d <= 2 * m,
                g > 0,
        ;
        assert(g * (2 * m) == 2 * (g * m)) by (nonlinear_arith);
        assert(-(g * m) <= kd * (0 - rate) <= g * m) by (nonlinear_arith)
            requires
                -g <= kd <= g,
                -m <= rate <= m,
                g > 0,
        ;
        assert(g * m == 0x10_0000_0000_0000_0000_0000_0000_0000) by (nonlinear_arith)
            requires
                m == 0x8000_0000_0000_0000,
                g == 0x20_0000_0000_0000,
        ;
    }
    let a: i128 = kp as i128 * (0 - d) + kd as i128 * (0 - rate as i128);
    proof {
        let top: int = 0x40_0000_0000_0000_0000_0000_0000_0000;
        assert(-(128 * top) <= sign * a <= 128 * top) by (nonlinear_arith)
            requires
                -128 <= sign <= 128,
                -top <= a <= top,
                top > 0,
        ;
    }
    sign as i128 * a
}

/// The deadband never turns an error round or makes it larger.
pub proof fn law_deadband_only_shrinks(e: int, band: int)
    requires
        band >= 0,
    ensures
        e >= 0 ==> 0 <= dead(e, band) <= e,
        e <= 0 ==> e <= dead(e, band) <= 0,
        dead(e, 0) == e,
{
}

/// Weak posture, so the null space does not wander: reference acceleration of
/// one actuated joint.
pub open spec fn posture_ref_of(q_seed: int, q: int, v: int, kp: int, kd: int) -> int {
    kp * (q_seed - q) + kd * (0 - v)
}

/// The posture reference of one actuated joint.
pub fn posture_ref(q_seed: i64, q: i64, v: i64, kp: i64, kd: i64) -> (r: i128)
    requires
        -MAX_GAIN <= kp <= MAX_GAIN,
        -MAX_GAIN <= kd <= MAX_GAIN,
    ensures
        r == posture_ref_of(q_seed as int, q as int, v as int, kp as int, kd as int),
{
    let e: i128 = q_seed as i128 - q as i128;
    proof {
        let m: int = 0x1_0000_0000_0000_0000;
        let g: int = 0x20_0000_0000_0000;
        assert(-(g * m) <= kp * e <= g * m) by (nonlinear_arith)
            requires
                -g <= kp <= g,
                -m <= e <= m,
                g > 0,
        ;
        assert(-(g * m) <= kd * (0 - v) <= g * m) by (nonlinear_arith)
            requires
                -g <= kd <= g,
                -m <= v <= m,
                g > 0,
        ;
        assert(g * m == 0x20_0000_0000_0000_0000_0000_0000_0000) by (nonlinear_arith)
            requires
                m == 0x1_0000_0000_0000_0000,
                g == 0x20_0000_0000_0000,
        ;
    }
    kp as i128 * e + kd as i128 * (0 - v as i128)
}

/// Reference acceleration that tracks a target with its rate fed forward.
pub open spec fn tracking_ref(e: int, e_rate: int, kp: int, kd: int) -> int {
    kp * e + kd * e_rate
}

pub(crate) fn track(target: i64, value: i64, target_rate: i64, rate: i64, kp: i64, kd: i64) -> (r: i128)
    requires
        -MAX_GAIN <= kp <= MAX_GAIN,
        -MAX_GAIN <= kd <= MAX_GAIN,
    ensures
        r == tracking_ref(target - value, target_rate - rate, kp as int, kd as int),
{
    let e: i128 = target as i128 - value as i128;
    let e_rate: i128 = target_rate as i128 - rate as i128;
    proof {
        lemma_gain_bound(kp as int, e as int);
        lemma_gain_bound(kd as int, e_rate as int);
    }
    kp as i128 * e + kd as i128 * e_rate
}

proof fn lemma_gain_bound(k: int, e: int)
    requires
        -MAX_GAIN <= k <= MAX_GAIN,
        -0x1_0000_0000_0000_0000 <= e <= 0x1_0000_0000_0000_0000,
    ensures
        -0x20_0000_0000_0000_0000_0000_0000_0000 <= k * e
            <= 0x20_0000_0000_0000_0000_0000_0000_0000,
{
    assert(-0x20_0000_0000_0000_0000_0000_0000_0000 <= k * e
        <= 0x20_0000_0000_0000_0000_0000_0000_0000) by (nonlinear_arith)
        requires
            -0x20_0000_0000_0000 <= k <= 0x20_0000_0000_0000,
            -0x1_0000_0000_0000_0000 <= e <= 0x1_0000_0000_0000_0000,
    ;
}

/// Reference acceleration of the swing foot. The two axes do different jobs:
/// vertical is clearance and must not scuff, horizontal is placement and can
/// afford to be soft while the stance leg pays for it.
pub fn swing_ref(
    target: &Vec3,
    pos: &Vec3,
    target_vel: &Vec3,
    vel: &Vec3,
    kp_xy: i64,
    kp_z: i64,
    kd: i64,
) -> (r: (i128, i128, i128))
    requires
        -MAX_GAIN <= kp_xy <= MAX_GAIN,
        -MAX_GAIN <= kp_z <= MAX_GAIN,
        -MAX_GAIN <= kd <= MAX_GAIN,
    ensures
        r.0 == tracking_ref(target.x - pos.x, target_vel.x - vel.x, kp_xy as int, kd as int),
        r.1 == tracking_ref(target.y - pos.y, target_vel.y - vel.y, kp_xy as int, kd as int),
        r.2 == tracking_ref(target.z - pos.z, target_vel.z - vel.z, kp_z as int, kd as int),
{
    (
        track(target.x, pos.x, target_vel.x, vel.x, kp_xy, kd),
        track(target.y, pos.y, target_vel.y, vel.y, kp_xy, kd),
        track(target.z, pos.z, target_vel.z, vel.z, kp_z, kd),
    )
}

/// Gains of the trunk's orientation. Tilt and yaw keep separate ones: the first
/// reject disturbances, the second track a commanded turn.
#[derive(Clone, Copy, PartialEq, Eq, Structural, Debug)]
pub struct TrunkGains {
    pub kp: i64,
    pub kd: i64,
    pub deadband: i64,
    pub sign: i8,
    pub kp_yaw: i64,
    pub kd_yaw: i64,
    /// Commanded yaw rate, fed forward into the damping.
    pub wz_ref: i64,
}

impl TrunkGains {
    pub open spec fn valid(&self) -> bool {
        &&& self.deadband >= 0
        &&& -MAX_GAIN <= self.kp <= MAX_GAIN
        &&& -MAX_GAIN <= self.kd <= MAX_GAIN
        &&& -MAX_GAIN <= self.kp_yaw <= MAX_GAIN
        &&& -MAX_GAIN <= self.kd_yaw <= MAX_GAIN
    }
}

/// Reference angular acceleration of the trunk in the world frame, from the
/// rotation vector `e` that carries it to upright at the desired heading. It is
/// right at any heading, where roll and pitch errors are not.
pub fn trunk_ori_ref(e: &Vec3, omega: &Vec3, gains: &TrunkGains) -> (r: (i128, i128, i128))
    requires
        gains.valid(),
    ensures
        r.0 == gains.sign * tracking_ref(
            dead(e.x as int, gains.deadband as int),
            -omega.x,
            gains.kp as int,
            gains.kd as int,
        ),
        r.1 == gains.sign * tracking_ref(
            dead(e.y as int, gains.deadband as int),
            -omega.y,
            gains.kp as int,
            gains.kd as int,
        ),
        r.2 == tracking_ref(
            e.z as int,
            gains.wz_ref - omega.z,
            gains.kp_yaw as int,
            gains.kd_yaw as int,
        ),
{
    (
        tilt_ref(e.x, omega.x, gains),
        tilt_ref(e.y, omega.y, gains),
        track(e.z, 0, gains.wz_ref, omega.z, gains.kp_yaw, gains.kd_yaw),
    )
}

fn tilt_ref(e: i64, rate: i64, gains: &TrunkGains) -> (r: i128)
    requires
        gains.valid(),
    ensures
        r == gains.sign * tracking_ref(
            dead(e as int, gains.deadband as int),
            -rate,
            gains.kp as int,
            gains.kd as int,
        ),
{
    let band: i64 = gains.deadband;
    let d: i64 = if -band <= e && e <= band {
        0
    } else if e > 0 {
        e - band
    } else {
        e + band
    };
    let a: i128 = track(d, 0, 0, rate, gains.kp, gains.kd);
    proof {
        lemma_gain_bound(gains.kp as int, d as int);
        lemma_gain_bound(gains.kd as int, -rate);
        let top: int = 0x40_0000_0000_0000_0000_0000_0000_0000;
        assert(-(128 * top) <= gains.sign * a <= 128 * top) by (nonlinear_arith)
            requires
                -128 <= gains.sign <= 128,
                -top <= a <= top,
                top > 0,
        ;
    }
    gains.sign as i128 * a
}

// ---------------------------------------------------------------- levels

/// A level that asks for accelerations: rows of a Jacobian, what they add up to
/// without any acceleration of the joints, and what they should add up to.
pub struct CartesianTask<J> {
    pub jacobian: Vec<Vec<J>>,
    pub drift: Vec<J>,
    pub accel: Vec<i128>,
}

/// Track an acceleration of the centre of mass.
pub fn com<J: Copy>(j_com: &Vec<Vec<J>>, djv_com: &[J; 3], accel_ref: &[i128; 3]) -> (r:
    CartesianTask<J>)
    requires
        j_com@.len() == 3,
    ensures
        crate::biped::rows::row_views(r.jacobian@) == crate::biped::rows::row_views(j_com@),
        r.drift@ == djv_com@,
        r.accel@ == accel_ref@,
{
    let all: Vec<usize> = vec![0, 1, 2];
    let jacobian: Vec<Vec<J>> = choose_rows(j_com, &all);
    let drift: Vec<J> = vec![djv_com[0], djv_com[1], djv_com[2]];
    let accel: Vec<i128> = vec![accel_ref[0], accel_ref[1], accel_ref[2]];
    proof {
        assert(crate::biped::rows::row_views(jacobian@) =~= crate::biped::rows::row_views(
            j_com@,
        ));
        assert(drift@ =~= djv_com@);
        assert(accel@ =~= accel_ref@);
    }
    CartesianTask { jacobian, drift, accel }
}

/// Hold the trunk upright, by the rows of its WORLD-frame angular Jacobian: those
/// match a world-frame roll and pitch error.
pub fn trunk<J: Copy>(j_trunk: &Vec<Vec<J>>, djv_trunk: &[J; 6], rp_ref: &[i128; 2]) -> (r:
    CartesianTask<J>)
    requires
        j_trunk@.len() == 6,
    ensures
        is_trunk_task(r, j_trunk@, djv_trunk@, rp_ref@),
{
    trunk_rpy(j_trunk, djv_trunk, rp_ref, None)
}

/// The first rows of a trunk, as many as there are accelerations asked for.
pub open spec fn is_trunk_task<J>(
    r: CartesianTask<J>,
    j_trunk: Seq<Vec<J>>,
    djv_trunk: Seq<J>,
    accel: Seq<i128>,
) -> bool {
    &&& crate::biped::rows::row_views(r.jacobian@) == crate::biped::rows::row_views(
        j_trunk,
    ).take(accel.len() as int)
    &&& r.drift@ == djv_trunk.take(accel.len() as int)
    &&& r.accel@ == accel
}

/// [`trunk`] with an optional YAW row. Roll and pitch alone leave nothing that
/// regulates rotation about the vertical.
pub fn trunk_rpy<J: Copy>(
    j_trunk: &Vec<Vec<J>>,
    djv_trunk: &[J; 6],
    rp_ref: &[i128; 2],
    yaw_ref: Option<i128>,
) -> (r: CartesianTask<J>)
    requires
        j_trunk@.len() == 6,
    ensures
        is_trunk_task(
            r,
            j_trunk@,
            djv_trunk@,
            match yaw_ref {
                Some(y) => rp_ref@.push(y),
                None => rp_ref@,
            },
        ),
{
    let mut rows: Vec<usize> = vec![0, 1];
    let mut drift: Vec<J> = vec![djv_trunk[0], djv_trunk[1]];
    let mut accel: Vec<i128> = vec![rp_ref[0], rp_ref[1]];
    proof {
        assert(accel@ =~= rp_ref@);
    }
    if let Some(y) = yaw_ref {
        rows.push(ROW_YAW);
        drift.push(djv_trunk[2]);
        accel.push(y);
    }
    let jacobian: Vec<Vec<J>> = choose_rows(j_trunk, &rows);
    proof {
        let n = accel@.len() as int;
        assert(crate::biped::rows::row_views(jacobian@) =~= crate::biped::rows::row_views(
            j_trunk@,
        ).take(n));
        assert(drift@ =~= djv_trunk@.take(n));
    }
    CartesianTask { jacobian, drift, accel }
}

/// The posture reference of task row `row` once the first `n` actuated joints have
/// been written: the joint in that row pulls towards its seed.
pub open spec fn posture_row(
    actuated: Seq<(usize, usize)>,
    q_now: Seq<i64>,
    q_seed: Seq<i64>,
    v: Seq<i64>,
    kp: int,
    kd: int,
    row: int,
    n: nat,
) -> int
    decreases n,
{
    if n == 0 {
        0
    } else {
        let (ji, vi) = actuated[n - 1];
        if vi - BASE_ROWS == row {
            posture_ref_of(
                q_seed[ji as int] as int,
                q_now[ji as int] as int,
                v[vi as int] as int,
                kp,
                kd,
            )
        } else {
            posture_row(actuated, q_now, q_seed, v, kp, kd, row, (n - 1) as nat)
        }
    }
}

/// One of the first `n` actuated joints has velocity row `vi`.
pub open spec fn drives(actuated: Seq<(usize, usize)>, vi: int, n: nat) -> bool {
    exists|k: int| 0 <= k < n && (#[trigger] actuated[k]).1 == vi
}

/// An entry of the posture level's Jacobian: each actuated joint has a row of its
/// own.
pub open spec fn posture_entry<J>(
    actuated: Seq<(usize, usize)>,
    row: int,
    col: int,
    zero: J,
    one: J,
    n: nat,
) -> J {
    if col == row + BASE_ROWS && drives(actuated, col, n) {
        one
    } else {
        zero
    }
}

/// Weak posture, so that the null space does not wander. `actuated` lists each
/// actuated joint with its velocity row.
pub fn posture<J: Copy>(
    actuated: &Vec<(usize, usize)>,
    q_now: &Vec<i64>,
    q_seed: &Vec<i64>,
    v: &Vec<i64>,
    kp: i64,
    kd: i64,
    zero: J,
    one: J,
) -> (r: CartesianTask<J>)
    requires
        v@.len() >= BASE_ROWS,
        q_now@.len() == q_seed@.len(),
        forall|k: int|
            0 <= k < actuated@.len() ==> (#[trigger] actuated@[k]).0 < q_now@.len() && BASE_ROWS
                <= actuated@[k].1 < v@.len(),
        -MAX_GAIN <= kp <= MAX_GAIN,
        -MAX_GAIN <= kd <= MAX_GAIN,
    ensures
        ({
            let na = v@.len() - BASE_ROWS;
            &&& r.jacobian@.len() == na
            &&& r.drift@ == Seq::new(na as nat, |i: int| zero)
            &&& r.accel@.len() == na
            &&& forall|row: int|
                0 <= row < na ==> #[trigger] r.accel@[row] == posture_row(
                    actuated@,
                    q_now@,
                    q_seed@,
                    v@,
                    kp as int,
                    kd as int,
                    row,
                    actuated@.len(),
                )
            &&& forall|row: int|
                0 <= row < na ==> (#[trigger] r.jacobian@[row])@ == Seq::new(
                    v@.len(),
                    |col: int|
                        posture_entry(actuated@, row, col, zero, one, actuated@.len()),
                )
        }),
{
    let nv: usize = v.len();
    let na: usize = nv - BASE_ROWS;
    let mut drift: Vec<J> = Vec::new();
    let mut accel: Vec<i128> = Vec::new();
    let mut there: Vec<bool> = Vec::new();
    while drift.len() < na
        invariant
            drift@.len() <= na,
            accel@.len() == drift@.len(),
            there@.len() == drift@.len(),
            drift@ == Seq::new(drift@.len(), |i: int| zero),
            forall|i: int| 0 <= i < accel@.len() ==> #[trigger] accel@[i] == 0,
            forall|i: int| 0 <= i < there@.len() ==> !#[trigger] there@[i],
        decreases na - drift.len(),
    {
        drift.push(zero);
        accel.push(0);
        there.push(false);
    }
    let mut k: usize = 0;
    while k < actuated.len()
        invariant
            k <= actuated@.len(),
            nv == v@.len(),
            na == nv - BASE_ROWS,
            accel@.len() == na,
            there@.len() == na,
            q_now@.len() == q_seed@.len(),
            -MAX_GAIN <= kp <= MAX_GAIN,
            -MAX_GAIN <= kd <= MAX_GAIN,
            forall|j: int|
                0 <= j < actuated@.len() ==> (#[trigger] actuated@[j]).0 < q_now@.len()
                    && BASE_ROWS <= actuated@[j].1 < nv,
            forall|row: int|
                0 <= row < na ==> #[trigger] accel@[row] == posture_row(
                    actuated@,
                    q_now@,
                    q_seed@,
                    v@,
                    kp as int,
                    kd as int,
                    row,
                    k as nat,
                ),
            forall|row: int|
                0 <= row < na ==> #[trigger] there@[row] == drives(
                    actuated@,
                    row + BASE_ROWS,
                    k as nat,
                ),
        decreases actuated.len() - k,
    {
        let (ji, vi): (usize, usize) = actuated[k];
        proof {
            assert(actuated@[k as int].0 < q_now@.len());
        }
        let row: usize = vi - BASE_ROWS;
        let ghost there_was = there@;
        accel.set(row, posture_ref(q_seed[ji], q_now[ji], v[vi], kp, kd));
        there.set(row, true);
        proof {
            assert forall|i: int| 0 <= i < na implies #[trigger] there@[i] == drives(
                actuated@,
                i + BASE_ROWS,
                (k + 1) as nat,
            ) by {
                assert(there_was[i] == drives(actuated@, i + BASE_ROWS, k as nat));
                if i == row {
                    assert(actuated@[k as int].1 == i + BASE_ROWS);
                } else {
                    if drives(actuated@, i + BASE_ROWS, (k + 1) as nat) {
                        let j = choose|j: int|
                            0 <= j < k + 1 && (#[trigger] actuated@[j]).1 == i + BASE_ROWS;
                        assert(j < k);
                        assert(drives(actuated@, i + BASE_ROWS, k as nat));
                    }
                    if drives(actuated@, i + BASE_ROWS, k as nat) {
                        let j = choose|j: int|
                            0 <= j < k && (#[trigger] actuated@[j]).1 == i + BASE_ROWS;
                        assert(0 <= j < k + 1 && actuated@[j].1 == i + BASE_ROWS);
                    }
                }
            }
        }
        k += 1;
    }
    let ghost n = actuated@.len();
    let mut jacobian: Vec<Vec<J>> = Vec::new();
    while jacobian.len() < na
        invariant
            jacobian@.len() <= na,
            nv == v@.len(),
            na == nv - BASE_ROWS,
            there@.len() == na,
            n == actuated@.len(),
            forall|row: int|
                0 <= row < na ==> #[trigger] there@[row] == drives(
                    actuated@,
                    row + BASE_ROWS,
                    n,
                ),
            forall|row: int|
                0 <= row < jacobian@.len() ==> (#[trigger] jacobian@[row])@ == Seq::new(
                    v@.len(),
                    |col: int| posture_entry(actuated@, row, col, zero, one, n),
                ),
        decreases na - jacobian.len(),
    {
        let row: usize = jacobian.len();
        let mut line: Vec<J> = Vec::new();
        while line.len() < nv
            invariant
                line@.len() <= nv,
                row < na,
                na == nv - BASE_ROWS,
                there@.len() == na,
                there@[row as int] == drives(actuated@, row + BASE_ROWS, n),
                line@ == Seq::new(
                    line@.len(),
                    |col: int| posture_entry(actuated@, row as int, col, zero, one, n),
                ),
            decreases nv - line.len(),
        {
            let e: J = if line.len() == row + BASE_ROWS && there[row] {
                one
            } else {
                zero
            };
            line.push(e);
            proof {
                assert(line@ =~= Seq::new(
                    line@.len(),
                    |col: int| posture_entry(actuated@, row as int, col, zero, one, n),
                ));
            }
        }
        jacobian.push(line);
    }
    CartesianTask { jacobian, drift, accel }
}

/// What the swing foot's turn should be: the small turn that is left, how fast it
/// turns, and the gains.
#[derive(Clone, Copy, PartialEq, Eq, Structural, Debug)]
pub struct Orientation {
    pub e: Vec3,
    pub omega: Vec3,
    pub kp: i64,
    pub kd: i64,
}

impl Orientation {
    /// Towards the orientation of `target`, from the one that the foot has `now`: the
    /// skew part of the turn between them, which is the turn itself where it is small.
    pub fn towards(target: &AnchorPose, now: &AnchorPose, omega: Vec3, kp: i64, kd: i64) -> (r:
        Orientation)
        requires
            target.valid(),
            now.valid(),
        ensures
            r.e.x == target.turn_from(*now).0 / 1_000,
            r.e.y == target.turn_from(*now).1 / 1_000,
            r.e.z == target.turn_from(*now).2 / 1_000,
            r.omega == omega,
            r.kp == kp,
            r.kd == kd,
    {
        let e: Vec3 = target.small_turn(now);
        Orientation {
            e: Vec3 { x: thousandth(e.x), y: thousandth(e.y), z: thousandth(e.z) },
            omega,
            kp,
            kd,
        }
    }
}

fn thousandth(v: i64) -> (r: i64)
    ensures
        r == v as int / 1_000,
{
    match v.checked_div_euclid(1_000) {
        Some(q) => q,
        None => 0,
    }
}

/// A foot that is turned as it should be has no turn left.
pub proof fn law_no_turn_is_left(pose: AnchorPose)
    ensures
        pose.turn_from(pose) == (0int, 0int, 0int),
{
    assert forall|a: Vec3, b: Vec3| #[trigger]
        crate::biped::contact::dot(a, b) == crate::biped::contact::dot(b, a) by {
        assert(a.x * b.x == b.x * a.x) by (nonlinear_arith);
        assert(a.y * b.y == b.y * a.y) by (nonlinear_arith);
        assert(a.z * b.z == b.z * a.z) by (nonlinear_arith);
    }
    assert(crate::biped::contact::dot(pose.row2, pose.row1) == crate::biped::contact::dot(
        pose.row1,
        pose.row2,
    ));
    assert(crate::biped::contact::dot(pose.row0, pose.row2) == crate::biped::contact::dot(
        pose.row2,
        pose.row0,
    ));
    assert(crate::biped::contact::dot(pose.row1, pose.row0) == crate::biped::contact::dot(
        pose.row0,
        pose.row1,
    ));
}

/// Where the swing foot is and where it should be, and the gains.
#[derive(Clone, Copy, PartialEq, Eq, Structural, Debug)]
pub struct SwingGoal {
    pub pos: Vec3,
    pub vel: Vec3,
    pub target: Vec3,
    pub target_vel: Vec3,
    pub kp_xy: i64,
    pub kp_z: i64,
    pub kd: i64,
}

impl SwingGoal {
    pub open spec fn valid(self) -> bool {
        &&& -MAX_GAIN <= self.kp_xy <= MAX_GAIN
        &&& -MAX_GAIN <= self.kp_z <= MAX_GAIN
        &&& -MAX_GAIN <= self.kd <= MAX_GAIN
    }
}

/// The acceleration asked of each of the swing foot's rows, turning before
/// shifting. Without an orientation the turning rows ask for nothing.
pub open spec fn swing_accel(goal: SwingGoal, orientation: Option<Orientation>, row: int) -> int {
    if row < 3 {
        match orientation {
            Some(o) => tracking_ref(
                crate::biped::contact::entry(o.e, row),
                -crate::biped::contact::entry(o.omega, row),
                o.kp as int,
                o.kd as int,
            ),
            None => 0,
        }
    } else {
        tracking_ref(
            crate::biped::contact::entry(goal.target, row - 3)
                - crate::biped::contact::entry(goal.pos, row - 3),
            crate::biped::contact::entry(goal.target_vel, row - 3)
                - crate::biped::contact::entry(goal.vel, row - 3),
            if row == 5 {
                goal.kp_z as int
            } else {
                goal.kp_xy as int
            },
            goal.kd as int,
        )
    }
}

/// Swing-foot tracking in the rows that `axes` chooses.
pub open spec fn is_swing_task<J>(
    r: CartesianTask<J>,
    j_foot: Seq<Vec<J>>,
    djv: Seq<J>,
    goal: SwingGoal,
    axes: SwingAxes,
    orientation: Option<Orientation>,
) -> bool {
    &&& crate::biped::rows::row_views(r.jacobian@) == axes.rows_of().map_values(
        |row: usize| j_foot[row as int]@,
    )
    &&& r.drift@ == axes.rows_of().map_values(|row: usize| djv[row as int])
    &&& r.accel@ == axes.rows_of().map_values(
        |row: usize| swing_accel(goal, orientation, row as int) as i128,
    )
}

/// Swing-foot tracking by position alone.
pub fn swing<J: Copy>(j_foot: &Vec<Vec<J>>, djv: &[J; 6], goal: &SwingGoal, axes: SwingAxes) -> (r:
    CartesianTask<J>)
    requires
        j_foot@.len() == 6,
        goal.valid(),
        axes == SwingAxes::ZOnly || axes == SwingAxes::Xyz,
    ensures
        is_swing_task(r, j_foot@, djv@, *goal, axes, None),
{
    swing_with_pose(j_foot, djv, goal, axes, None)
}

/// [`swing`] with an orientation. Its target should come from the PLAN, the
/// orientation that the foot is meant to land in, not from where the foot happens
/// to be. Rows that turn the foot need one.
pub fn swing_with_pose<J: Copy>(
    j_foot: &Vec<Vec<J>>,
    djv: &[J; 6],
    goal: &SwingGoal,
    axes: SwingAxes,
    orientation: Option<Orientation>,
) -> (r: CartesianTask<J>)
    requires
        j_foot@.len() == 6,
        goal.valid(),
        orientation is None ==> axes == SwingAxes::ZOnly || axes == SwingAxes::Xyz,
        orientation matches Some(o) ==> -MAX_GAIN <= o.kp <= MAX_GAIN && -MAX_GAIN <= o.kd
            <= MAX_GAIN,
    ensures
        is_swing_task(r, j_foot@, djv@, *goal, axes, orientation),
{
    let a: (i128, i128, i128) = swing_ref(
        &goal.target,
        &goal.pos,
        &goal.target_vel,
        &goal.vel,
        goal.kp_xy,
        goal.kp_z,
        goal.kd,
    );
    let ang: (i128, i128, i128) = match orientation {
        Some(o) => (
            track(o.e.x, 0, 0, o.omega.x, o.kp, o.kd),
            track(o.e.y, 0, 0, o.omega.y, o.kp, o.kd),
            track(o.e.z, 0, 0, o.omega.z, o.kp, o.kd),
        ),
        None => (0, 0, 0),
    };
    let full: [i128; 6] = [ang.0, ang.1, ang.2, a.0, a.1, a.2];
    let rows: Vec<usize> = axes.rows();
    let jacobian: Vec<Vec<J>> = choose_rows(j_foot, &rows);
    let drift: Vec<J> = pick_axes(axes, djv);
    let accel: Vec<i128> = pick_axes(axes, &full);
    proof {
        let want = axes.rows_of().map_values(
            |row: usize| swing_accel(*goal, orientation, row as int) as i128,
        );
        assert forall|k: int| 0 <= k < want.len() implies accel@[k] == want[k] by {
            let row = axes.rows_of()[k];
            assert(full@[row as int] == swing_accel(*goal, orientation, row as int));
        }
        assert(accel@ =~= want);
    }
    CartesianTask { jacobian, drift, accel }
}

/// No foot in contact is limited to less than half a newton.
pub const MIN_PATCH_FORCE: u128 = 500_000;

/// The largest vertical force a stance foot may be asked for: its share, in
/// millionths, of the limit per foot.
pub open spec fn patch_force(f_max_per_foot: int, share: int) -> int {
    let scaled = f_max_per_foot * share / 1_000_000;
    if scaled > MIN_PATCH_FORCE {
        scaled
    } else {
        MIN_PATCH_FORCE as int
    }
}

/// The largest vertical force a stance foot may be asked for, in micronewtons. A
/// foot that is being unloaded stops being able to argue for pressure that it is
/// about to lose.
pub fn patch_limit(f_max_per_foot: u64, share: i64) -> (r: u128)
    ensures
        r == patch_force(f_max_per_foot as int, share as int),
{
    if share <= 0 {
        proof {
            assert(f_max_per_foot * share <= 0) by (nonlinear_arith)
                requires
                    f_max_per_foot >= 0,
                    share <= 0,
            ;
        }
        return MIN_PATCH_FORCE;
    }
    proof {
        assert(0 <= f_max_per_foot * share <= u64::MAX * i64::MAX) by (nonlinear_arith)
            requires
                0 <= f_max_per_foot <= u64::MAX,
                0 <= share <= i64::MAX,
        ;
    }
    let scaled: u128 = f_max_per_foot as u128 * share as u128 / 1_000_000;
    if scaled > MIN_PATCH_FORCE {
        scaled
    } else {
        MIN_PATCH_FORCE
    }
}

/// Everything the contact level needs that is not per-foot state. Gains in
/// millionths, leaks in millionths per second, lengths in nanometres, forces in
/// micronewtons, the tick in microseconds.
pub struct ContactCfg {
    /// Gains on the foot's pose error against its anchor.
    pub kp_c: i64,
    pub kd_c: i64,
    pub anchor_leak: i64,
    pub anchor_leak_rot: i64,
    /// The middle of the sole in the foot's frame.
    pub sole_offset_local: Vec3,
    pub friction_mu: i64,
    /// Half-extents of the pressure box, already scaled by any margin.
    pub cop_half: (i64, i64),
    pub mu_torsion: i64,
    pub f_max_per_foot: u64,
    /// Leave the pressure box out, to see whether it is what is binding.
    pub no_patch: bool,
    pub dt: u32,
}

impl ContactCfg {
    pub open spec fn valid(&self) -> bool {
        &&& -MAX_GAIN <= self.kp_c <= MAX_GAIN
        &&& -MAX_GAIN <= self.kd_c <= MAX_GAIN
        &&& self.anchor_leak_rot >= 0
        &&& crate::biped::contact::row_fits(self.sole_offset_local)
    }
}

/// What a sole bears: the friction cone, the pressure box and the largest vertical
/// force.
#[derive(Clone, Copy, PartialEq, Eq, Debug)]
pub struct ContactPatch {
    pub mu: i64,
    pub cop_half: (i64, i64),
    pub mu_torsion: i64,
    pub f_max: u128,
}

/// One stance foot as it is found.
#[derive(Clone, Copy)]
pub struct StanceFoot {
    pub foot_mi: usize,
    pub pose: AnchorPose,
    /// Its velocity, turning before shifting.
    pub vel: [i64; 6],
    /// Its share of the load, in millionths.
    pub share: i64,
}

/// How one stance foot enters the contact level.
pub struct ContactSlot {
    pub side: Side,
    /// First of the foot's six rows in stacked contact quantities.
    pub row: usize,
    /// The acceleration that is asked of the foot.
    pub accel: Vec<i128>,
    /// The map from the stacked contact wrenches to the foot's wrench about its sole,
    /// kept so that the solved pressure can be measured against the box that
    /// constrained it.
    pub sole_sel: Vec<Vec<i128>>,
    /// What its sole bears; `None` where the patch is left out.
    pub patch: Option<ContactPatch>,
}

/// The contact level.
pub struct ContactLevel {
    pub slots: Vec<ContactSlot>,
    /// Of the LEFT foot: the vertical acceleration that the contact asks for, and
    /// the vertical pose error it is asked against.
    pub acc_dbg: (i128, i128),
}

/// The side of a foot: everything that is not the left one is the right one.
pub open spec fn side_at(foot_mi: usize, left_foot_mi: usize) -> Side {
    if foot_mi == left_foot_mi {
        0
    } else {
        1
    }
}

/// The anchor of a side once the first `n` stance feet have been looked at: a foot
/// that held none takes the pose it is found in, and each anchor follows its foot.
pub open spec fn anchored(
    was: Option<AnchorPose>,
    side: Side,
    feet: Seq<StanceFoot>,
    left_foot_mi: usize,
    cfg: ContactCfg,
    n: nat,
) -> Option<AnchorPose>
    decreases n,
{
    if n == 0 {
        was
    } else {
        let before = anchored(was, side, feet, left_foot_mi, cfg, (n - 1) as nat);
        let foot = feet[n - 1];
        if side_at(foot.foot_mi, left_foot_mi) == side {
            let held = match before {
                Some(h) => h,
                None => foot.pose,
            };
            Some(held.leaked(foot.pose, cfg.anchor_leak, cfg.anchor_leak_rot, cfg.dt))
        } else {
            before
        }
    }
}

/// What the last left foot among the first `n` is asked for, and its error.
pub open spec fn left_debug(
    was: Option<AnchorPose>,
    feet: Seq<StanceFoot>,
    left_foot_mi: usize,
    cfg: ContactCfg,
    n: nat,
) -> (int, int)
    decreases n,
{
    if n == 0 {
        (0, 0)
    } else if feet[n - 1].foot_mi == left_foot_mi {
        let foot = feet[n - 1];
        let held = anchored(was, 0, feet, left_foot_mi, cfg, n)->0;
        (
            held.pull(foot.pose, foot.vel@, cfg.kp_c as int, cfg.kd_c as int, 5),
            held.pos.z - foot.pose.pos.z,
        )
    } else {
        left_debug(was, feet, left_foot_mi, cfg, (n - 1) as nat)
    }
}

/// Slot `i` is filled in for its foot, with `held` as the foot's anchor.
pub open spec fn slot_of(
    slot: ContactSlot,
    i: int,
    foot: StanceFoot,
    left_foot_mi: usize,
    held: AnchorPose,
    cfg: ContactCfg,
    forces_size: nat,
) -> bool {
    &&& slot.side == side_at(foot.foot_mi, left_foot_mi)
    &&& slot.row == 6 * i
    &&& slot.accel@ == Seq::new(
        6,
        |k: int|
            held.pull(foot.pose, foot.vel@, cfg.kp_c as int, cfg.kd_c as int, k) as i128,
    )
    &&& crate::biped::contact::is_sole_selection(
        slot.sole_sel@,
        foot.pose,
        cfg.sole_offset_local,
        forces_size,
        i,
    )
    &&& slot.patch is None <==> cfg.no_patch
    &&& slot.patch matches Some(p) ==> {
        &&& p.mu == cfg.friction_mu
        &&& p.cop_half == cfg.cop_half
        &&& p.mu_torsion == cfg.mu_torsion
        &&& p.f_max == patch_force(cfg.f_max_per_foot as int, foot.share as int)
    }
}

/// The contact level: each stance foot in the order of the stance list, with the
/// acceleration that holds it to its anchor and what its sole bears. Each foot holds an
/// anchor from here on.
pub fn contact_level(
    feet: &Vec<StanceFoot>,
    left_foot_mi: usize,
    cfg: &ContactCfg,
    forces_size: usize,
    anchors: &mut Anchors<AnchorPose>,
) -> (r: ContactLevel)
    requires
        cfg.valid(),
        old(anchors).valid(),
        6 * feet@.len() <= forces_size,
        forall|i: int| 0 <= i < feet@.len() ==> (#[trigger] feet@[i]).pose.valid(),
    ensures
        final(anchors).valid(),
        r.slots@.len() == feet@.len(),
        forall|i: int|
            0 <= i < feet@.len() ==> {
                let side = side_at(feet@[i].foot_mi, left_foot_mi);
                let held = anchored(
                    old(anchors).of(side),
                    side,
                    feet@,
                    left_foot_mi,
                    *cfg,
                    (i + 1) as nat,
                );
                held is Some && slot_of(
                    #[trigger] r.slots@[i],
                    i,
                    feet@[i],
                    left_foot_mi,
                    held->0,
                    *cfg,
                    forces_size as nat,
                )
            },
        (r.acc_dbg.0 as int, r.acc_dbg.1 as int) == left_debug(
            old(anchors).of(0),
            feet@,
            left_foot_mi,
            *cfg,
            feet@.len(),
        ),
        forall|side: Side|
            side <= 1 ==> #[trigger] final(anchors).of(side) == anchored(
                old(anchors).of(side),
                side,
                feet@,
                left_foot_mi,
                *cfg,
                feet@.len(),
            ),
{
    let mut slots: Vec<ContactSlot> = Vec::new();
    let mut acc_dbg: (i128, i128) = (0, 0);
    while slots.len() < feet.len()
        invariant
            cfg.valid(),
            anchors.valid(),
            slots@.len() <= feet@.len(),
            6 * feet@.len() <= forces_size,
            forall|i: int| 0 <= i < feet@.len() ==> (#[trigger] feet@[i]).pose.valid(),
            forall|i: int|
                0 <= i < slots@.len() ==> {
                    let side = side_at(feet@[i].foot_mi, left_foot_mi);
                    let held = anchored(
                        old(anchors).of(side),
                        side,
                        feet@,
                        left_foot_mi,
                        *cfg,
                        (i + 1) as nat,
                    );
                    held is Some && slot_of(
                        #[trigger] slots@[i],
                        i,
                        feet@[i],
                        left_foot_mi,
                        held->0,
                        *cfg,
                        forces_size as nat,
                    )
                },
            (acc_dbg.0 as int, acc_dbg.1 as int) == left_debug(
                old(anchors).of(0),
                feet@,
                left_foot_mi,
                *cfg,
                slots@.len(),
            ),
            forall|side: Side|
                side <= 1 ==> #[trigger] anchors.of(side) == anchored(
                    old(anchors).of(side),
                    side,
                    feet@,
                    left_foot_mi,
                    *cfg,
                    slots@.len(),
                ),
        decreases feet.len() - slots.len(),
    {
        let slot: usize = slots.len();
        let foot: StanceFoot = feet[slot];
        let side: Side = if foot.foot_mi == left_foot_mi {
            0
        } else {
            1
        };
        let ghost before = *anchors;
        proof {
            assert(feet@[slot as int].pose.valid());
            assert(before.of(side) == anchored(
                old(anchors).of(side),
                side,
                feet@,
                left_foot_mi,
                *cfg,
                slot as nat,
            ));
        }
        anchors.ensure(side, foot.pose);
        anchors.leak(side, &foot.pose, cfg.anchor_leak, cfg.anchor_leak_rot, cfg.dt);
        let ghost held = anchors.of(side)->0;
        let accel: Vec<i128> = anchors.accel_ref(side, &foot.pose, &foot.vel, cfg.kp_c, cfg.kd_c);
        if foot.foot_mi == left_foot_mi {
            let e: (i128, i128, i128) = anchors.lin_error(side, &foot.pose.pos);
            acc_dbg = (accel[5], e.2);
        }
        let sole_sel: Vec<Vec<i128>> = sole_selection(
            &foot.pose,
            &cfg.sole_offset_local,
            forces_size,
            slot,
        );
        let patch: Option<ContactPatch> = if cfg.no_patch {
            None
        } else {
            Some(
                ContactPatch {
                    mu: cfg.friction_mu,
                    cop_half: cfg.cop_half,
                    mu_torsion: cfg.mu_torsion,
                    f_max: patch_limit(cfg.f_max_per_foot, foot.share),
                },
            )
        };
        proof {
            assert(accel@ =~= Seq::new(
                6,
                |k: int|
                    held.pull(foot.pose, foot.vel@, cfg.kp_c as int, cfg.kd_c as int, k) as i128,
            ));
        }
        slots.push(ContactSlot { side, row: contact_row(slot, 0), accel, sole_sel, patch });
        proof {
            assert forall|s: Side| s <= 1 implies #[trigger] anchors.of(s) == anchored(
                old(anchors).of(s),
                s,
                feet@,
                left_foot_mi,
                *cfg,
                slots@.len(),
            ) by {
                assert(before.of(s) == anchored(
                    old(anchors).of(s),
                    s,
                    feet@,
                    left_foot_mi,
                    *cfg,
                    slot as nat,
                ));
                if s != side {
                    assert(s == (1 - side) as usize);
                }
            }
        }
    }
    ContactLevel { slots, acc_dbg }
}

/// Every stance foot holds an anchor; and where anchors do not leak, one that was
/// held is kept.
pub proof fn law_stance_feet_are_anchored(
    was: Option<AnchorPose>,
    feet: Seq<StanceFoot>,
    left_foot_mi: usize,
    cfg: ContactCfg,
    i: int,
    n: nat,
)
    requires
        0 <= i < n <= feet.len(),
    ensures
        ({
            let side = side_at(feet[i].foot_mi, left_foot_mi);
            let now = anchored(was, side, feet, left_foot_mi, cfg, n);
            now is Some && (was is Some && cfg.anchor_leak <= 0 ==> now == was)
        }),
    decreases n,
{
    let side = side_at(feet[i].foot_mi, left_foot_mi);
    if i < n - 1 {
        law_stance_feet_are_anchored(was, feet, left_foot_mi, cfg, i, (n - 1) as nat);
    } else if was is Some && cfg.anchor_leak <= 0 {
        lemma_anchor_is_kept(was, side, feet, left_foot_mi, cfg, (n - 1) as nat);
    }
}

proof fn lemma_anchor_is_kept(
    was: Option<AnchorPose>,
    side: Side,
    feet: Seq<StanceFoot>,
    left_foot_mi: usize,
    cfg: ContactCfg,
    n: nat,
)
    requires
        was is Some,
        cfg.anchor_leak <= 0,
    ensures
        anchored(was, side, feet, left_foot_mi, cfg, n) == was,
    decreases n,
{
    if n > 0 {
        lemma_anchor_is_kept(was, side, feet, left_foot_mi, cfg, (n - 1) as nat);
    }
}

/// The first `n` shares together.
pub open spec fn share_sum(shares: Seq<u32>, n: nat) -> nat
    decreases n,
{
    if n == 0 || n > shares.len() {
        0
    } else {
        share_sum(shares, (n - 1) as nat) + shares[n - 1] as nat
    }
}

/// The nominal force of stacked row `i`: each stance foot's share of the body
/// weight in the vertical row of its wrench block, nothing elsewhere.
pub open spec fn nominal_force(shares: Seq<u32>, weight: u64, i: int) -> int {
    let total = if share_sum(shares, shares.len()) == 0 {
        1
    } else {
        share_sum(shares, shares.len())
    };
    if i % 6 == 5 && i / 6 < shares.len() {
        (weight * shares[i / 6]) as int / total as int
    } else {
        0
    }
}

/// Build the nominal forces: each stance foot's share of body weight, rounded
/// down, in the vertical row of its wrench block. The load split is NOT an equal
/// share: that would make the regulariser walk the pressure outward instead.
pub fn force_nominal(forces_size: usize, shares: &Vec<u32>, weight: u64) -> (r: Vec<u128>)
    requires
        6 * shares.len() <= forces_size,
    ensures
        r.len() == forces_size,
        forall|i: int| 0 <= i < r.len() ==> #[trigger] r@[i] == nominal_force(shares@, weight, i),
{
    let mut total: u128 = 0;
    let mut k: usize = 0;
    while k < shares.len()
        invariant
            k <= shares.len(),
            total == share_sum(shares@, k as nat),
            total <= k * u32::MAX,
        decreases shares.len() - k,
    {
        proof {
            assert((k + 1) * u32::MAX == k * u32::MAX + u32::MAX) by (nonlinear_arith);
            assert((k + 1) * u32::MAX <= u128::MAX) by (nonlinear_arith)
                requires
                    k + 1 <= usize::MAX <= u64::MAX,
            ;
        }
        total = total + shares[k] as u128;
        k += 1;
    }
    let divisor: u128 = if total == 0 {
        1
    } else {
        total
    };
    let mut out: Vec<u128> = Vec::new();
    while out.len() < forces_size
        invariant
            out.len() <= forces_size,
            6 * shares.len() <= forces_size,
            total == share_sum(shares@, shares@.len()),
            divisor == if total == 0 {
                1
            } else {
                total
            },
            forall|i: int|
                0 <= i < out.len() ==> #[trigger] out@[i] == nominal_force(shares@, weight, i),
        decreases forces_size - out.len(),
    {
        let i: usize = out.len();
        if i % 6 == 5 && i / 6 < shares.len() {
            let share: u32 = shares[i / 6];
            proof {
                assert(0 <= weight * share <= u128::MAX) by (nonlinear_arith)
                    requires
                        0 <= weight <= u64::MAX,
                        0 <= share <= u32::MAX,
                ;
            }
            out.push(weight as u128 * share as u128 / divisor);
        } else {
            out.push(0);
        }
    }
    out
}

/// Each choice of axes tracks those of the one before and more: height, then all positions,
/// then the heading, then the whole attitude. Rows are in order.
pub proof fn law_axes_are_nested(row: usize)
    ensures
        SwingAxes::ZOnly.rows_of().contains(row) <==> row == 5,
        SwingAxes::Xyz.rows_of().contains(row) <==> 3 <= row <= 5,
        SwingAxes::XyzYaw.rows_of().contains(row) <==> 2 <= row <= 5,
        SwingAxes::Pose.rows_of().contains(row) <==> row <= 5,
        SwingAxes::ZOnly.rows_of().len() == 1,
        SwingAxes::Xyz.rows_of().len() == 3,
        SwingAxes::XyzYaw.rows_of().len() == 4,
        SwingAxes::Pose.rows_of().len() == 6,
{
    let (a, b, c, d) = (
        SwingAxes::ZOnly.rows_of(),
        SwingAxes::Xyz.rows_of(),
        SwingAxes::XyzYaw.rows_of(),
        SwingAxes::Pose.rows_of(),
    );
    assert(a[0] == 5);
    assert(b[0] == 3 && b[1] == 4 && b[2] == 5);
    assert(c[0] == 2 && c[1] == 3 && c[2] == 4 && c[3] == 5);
    assert(d[0] == 0 && d[1] == 1 && d[2] == 2 && d[3] == 3 && d[4] == 4 && d[5] == 5);
}

/// Within the band an error counts for nothing, and beyond it for what it is beyond.
pub proof fn law_deadband_takes_the_band_off(e: int, band: int)
    requires
        band >= 0,
    ensures
        -band <= e <= band ==> dead(e, band) == 0,
        e > band ==> dead(e, band) + band == e,
        e < -band ==> dead(e, band) - band == e,
{
}

/// A reference is the position gain times what is missing and the velocity gain times what
/// is missing of the rate: each more of an error makes that gain more of it, and without
/// errors there is none.
pub proof fn law_tracking_is_linear(e: int, e_rate: int, kp: int, kd: int, d: int)
    ensures
        tracking_ref(e + d, e_rate, kp, kd) - tracking_ref(e, e_rate, kp, kd) == kp * d,
        tracking_ref(e, e_rate + d, kp, kd) - tracking_ref(e, e_rate, kp, kd) == kd * d,
        tracking_ref(0, 0, kp, kd) == 0,
{
    assert(kp * (e + d) == kp * e + kp * d && kd * (e_rate + d) == kd * e_rate + kd * d && kp * 0
        == 0 && kd * 0 == 0) by (nonlinear_arith);
}

/// The posture is a spring to the seed and a damper: it pulls towards the seed with the
/// position gain and against the motion with the velocity gain.
pub proof fn law_posture_pulls_to_the_seed(q_seed: int, q: int, v: int, kp: int, kd: int, d: int)
    ensures
        posture_ref_of(q, q, 0, kp, kd) == 0,
        posture_ref_of(q_seed + d, q, v, kp, kd) - posture_ref_of(q_seed, q, v, kp, kd) == kp * d,
        posture_ref_of(q_seed, q + d, v, kp, kd) - posture_ref_of(q_seed, q, v, kp, kd) == -(kp
            * d),
        posture_ref_of(q_seed, q, v + d, kp, kd) - posture_ref_of(q_seed, q, v, kp, kd) == -(kd
            * d),
{
    assert(kp * (q_seed + d - q) == kp * (q_seed - q) + kp * d && kp * (q_seed - (q + d)) == kp * (
    q_seed - q) - kp * d && kd * (0 - (v + d)) == kd * (0 - v) - kd * d && kp * 0 == 0 && kd * 0
        == 0) by (nonlinear_arith);
}

/// The trunk is pulled upright against its lean beyond the band, and damped.
pub proof fn law_trunk_is_pulled_upright(e: int, rate: int, kp: int, kd: int, band: int, d: int)
    requires
        band >= 0,
        d >= 0,
    ensures
        -band <= e <= band ==> upright_ref(e, 0, kp, kd, band) == 0,
        upright_ref(band + d, 0, kp, kd, band) == -(kp * d),
        upright_ref(-band - d, 0, kp, kd, band) == kp * d,
        upright_ref(e, rate, kp, kd, band) - upright_ref(e, 0, kp, kd, band) == -(kd * rate),
{
    assert(kp * (0 - d) == -(kp * d) && kp * (0 - (-d)) == kp * d && kp * 0 == 0 && kd * 0 == 0
        && kd * (0 - rate) == -(kd * rate) && kp * (0 - 0) == 0 && kd * (0 - 0) == 0)
        by (nonlinear_arith);
}

/// The row of an actuated joint holds its posture reference, and a row without one nothing.
pub proof fn law_posture_rows_are_of_their_joints(
    actuated: Seq<(usize, usize)>,
    q_now: Seq<i64>,
    q_seed: Seq<i64>,
    v: Seq<i64>,
    kp: int,
    kd: int,
    row: int,
    n: nat,
    k: int,
)
    requires
        n <= actuated.len(),
        -1 <= k < n,
        k >= 0 ==> actuated[k].1 == row + 6,
        forall|j: int| k < j < n ==> (#[trigger] actuated[j]).1 != row + 6,
    ensures
        k < 0 ==> posture_row(actuated, q_now, q_seed, v, kp, kd, row, n) == 0,
        k >= 0 ==> {
            let (ji, vi) = actuated[k];
            posture_row(actuated, q_now, q_seed, v, kp, kd, row, n) == kp * (q_seed[ji as int]
                - q_now[ji as int]) - kd * v[vi as int]
        },
    decreases n,
{
    if n > 0 {
        if k < n - 1 {
            assert(actuated[n - 1].1 != row + 6);
            law_posture_rows_are_of_their_joints(
                actuated,
                q_now,
                q_seed,
                v,
                kp,
                kd,
                row,
                (n - 1) as nat,
                k,
            );
        } else {
            let x = v[actuated[k].1 as int] as int;
            assert(kd * (0 - x) == -(kd * x)) by (nonlinear_arith);
        }
    }
}

/// The posture's matrix picks for each row its own column, where a joint drives it, and is
/// empty elsewhere.
pub proof fn law_posture_matrix_is_diagonal<J>(
    actuated: Seq<(usize, usize)>,
    row: int,
    col: int,
    zero: J,
    one: J,
    n: nat,
)
    ensures
        col != row + 6 ==> posture_entry(actuated, row, col, zero, one, n) == zero,
        col == row + 6 && (exists|k: int| 0 <= k < n && (#[trigger] actuated[k]).1 == col)
            ==> posture_entry(actuated, row, col, zero, one, n) == one,
        col == row + 6 && (forall|k: int| 0 <= k < n ==> (#[trigger] actuated[k]).1 != col)
            ==> posture_entry(actuated, row, col, zero, one, n) == zero,
{
}

/// The swing foot is tracked along each axis by what is missing there: across the ground with
/// the one gain, in height with the other, and in attitude where one is given.
pub proof fn law_swing_is_tracked_along_its_axes(g: SwingGoal, o: Orientation)
    ensures
        swing_accel(g, None, 3) == g.kp_xy * (g.target.x - g.pos.x) + g.kd * (g.target_vel.x
            - g.vel.x),
        swing_accel(g, None, 4) == g.kp_xy * (g.target.y - g.pos.y) + g.kd * (g.target_vel.y
            - g.vel.y),
        swing_accel(g, None, 5) == g.kp_z * (g.target.z - g.pos.z) + g.kd * (g.target_vel.z
            - g.vel.z),
        forall|row: int|
            3 <= row < 6 ==> #[trigger] swing_accel(g, Some(o), row) == swing_accel(g, None, row),
        forall|row: int| 0 <= row < 3 ==> #[trigger] swing_accel(g, None, row) == 0,
        swing_accel(g, Some(o), 0) == o.kp * o.e.x - o.kd * o.omega.x,
        swing_accel(g, Some(o), 1) == o.kp * o.e.y - o.kd * o.omega.y,
        swing_accel(g, Some(o), 2) == o.kp * o.e.z - o.kd * o.omega.z,
{
    let (k, x, y, z) = (o.kd as int, o.omega.x as int, o.omega.y as int, o.omega.z as int);
    assert(k * (-x) == -(k * x) && k * (-y) == -(k * y) && k * (-z) == -(k * z))
        by (nonlinear_arith);
}

/// A foot may be loaded by its share of the limit, up to the last digit, and always by a
/// little.
pub proof fn law_patch_is_loaded_by_its_share(f_max: int, share: int)
    ensures
        patch_force(f_max, share) >= 500_000,
        patch_force(f_max, share) > 500_000 ==> 0 <= f_max * share - 1_000_000
            * patch_force(f_max, share) < 1_000_000,
        patch_force(f_max, share) == 500_000 ==> f_max * share < 1_000_000 * (
        500_000 + 1),
{
}

/// The weight is shared out over the feet: each foot's share of it goes straight up, by its
/// share of all shares, up to the last digit, and nothing else is asked for.
pub proof fn law_weight_is_shared_out(shares: Seq<u32>, weight: u64, i: int)
    requires
        0 <= i < 6 * shares.len(),
    ensures
        i % 6 != 5 ==> nominal_force(shares, weight, i) == 0,
        i % 6 == 5 && share_sum(shares, shares.len()) > 0 ==> {
            let all = share_sum(shares, shares.len());
            0 <= weight * shares[i / 6] - all * nominal_force(shares, weight, i) < all
        },
        i % 6 == 5 && share_sum(shares, shares.len()) == 0 ==> nominal_force(shares, weight, i)
            == weight * shares[i / 6],
{
    let all = share_sum(shares, shares.len()) as int;
    let v = weight * shares[i / 6];
    if all > 0 {
        let q = v / all;
        assert(0 <= v - all * q < all) by (nonlinear_arith)
            requires
                all > 0,
                q == v / all,
        ;
    }
}

/// All shares are those of the feet, added up: one more share makes the sum that much more.
pub proof fn law_shares_add_up(shares: Seq<u32>, n: nat)
    requires
        n < shares.len(),
    ensures
        share_sum(shares, n + 1) == share_sum(shares, n) + shares[n as int],
        share_sum(shares, 0) == 0,
{
}

/// The foot on the left link is the left one and any other the right one.
pub proof fn law_feet_are_told_by_their_links(foot_mi: usize, left_foot_mi: usize)
    ensures
        side_at(left_foot_mi, left_foot_mi) == 0,
        foot_mi != left_foot_mi ==> side_at(foot_mi, left_foot_mi) == 1,
{
}

/// A foot that stands for the first time is anchored where it is, one that stood before keeps
/// its anchor but for the leak, and the other foot's is left alone.
pub proof fn law_first_stance_anchors_in_place(
    was: Option<AnchorPose>,
    side: Side,
    feet: Seq<StanceFoot>,
    left_foot_mi: usize,
    cfg: ContactCfg,
)
    requires
        feet.len() == 1,
        side <= 1,
    ensures
        ({
            let now = anchored(was, side, feet, left_foot_mi, cfg, 1);
            let mine = (feet[0].foot_mi == left_foot_mi) == (side == 0);
            &&& !mine ==> now == was
            &&& mine && was is None && cfg.anchor_leak <= 0 ==> now == Some(feet[0].pose)
            &&& mine && was is Some && cfg.anchor_leak <= 0 ==> now == was
            &&& mine && was is Some ==> now == Some(
                was->0.leaked(feet[0].pose, cfg.anchor_leak, cfg.anchor_leak_rot, cfg.dt),
            )
        }),
{
    assert(anchored(was, side, feet, left_foot_mi, cfg, 0) == was);
}

/// Foot by foot: a stance foot's anchor leaks towards it from where it was held, or is set where
/// it stands; the other foot's is left alone.
pub proof fn law_stance_feet_move_their_anchors(
    was: Option<AnchorPose>,
    side: Side,
    feet: Seq<StanceFoot>,
    left_foot_mi: usize,
    cfg: ContactCfg,
    n: nat,
)
    requires
        n < feet.len(),
        side <= 1,
    ensures
        ({
            let before = anchored(was, side, feet, left_foot_mi, cfg, n);
            let now = anchored(was, side, feet, left_foot_mi, cfg, n + 1);
            let foot = feet[n as int];
            let mine = (foot.foot_mi == left_foot_mi) == (side == 0);
            &&& !mine ==> now == before
            &&& mine ==> now is Some
            &&& mine && before is None && cfg.anchor_leak <= 0 ==> now == Some(foot.pose)
            &&& mine && before is Some && cfg.anchor_leak <= 0 ==> now == before
            &&& mine && before is Some ==> now == Some(
                before->0.leaked(foot.pose, cfg.anchor_leak, cfg.anchor_leak_rot, cfg.dt),
            )
        }),
        anchored(was, side, feet, left_foot_mi, cfg, 0) == was,
{
}

/// What is told of the left foot is how it is pulled upwards by its anchor and how far that is
/// above it; without a left foot in stance it is nothing.
pub proof fn law_left_foot_is_told(
    was: Option<AnchorPose>,
    feet: Seq<StanceFoot>,
    left_foot_mi: usize,
    cfg: ContactCfg,
    n: nat,
)
    requires
        n < feet.len(),
    ensures
        ({
            let foot = feet[n as int];
            let held = anchored(was, 0, feet, left_foot_mi, cfg, n + 1);
            let told = left_debug(was, feet, left_foot_mi, cfg, n + 1);
            &&& foot.foot_mi == left_foot_mi ==> {
                &&& held is Some
                &&& told.0 == held->0.pull(
                    foot.pose,
                    foot.vel@,
                    cfg.kp_c as int,
                    cfg.kd_c as int,
                    5,
                )
                &&& told.1 == held->0.pos.z - foot.pose.pos.z
            }
            &&& foot.foot_mi != left_foot_mi ==> told == left_debug(
                was,
                feet,
                left_foot_mi,
                cfg,
                n,
            )
        }),
        left_debug(was, feet, left_foot_mi, cfg, 0) == (0int, 0int),
{
}

/// A stance foot has its six rows, pulled to its anchor, and its own patch: with the friction
/// and the size of the sole, and loaded by its share; where patches are off it has none.
pub proof fn law_stance_foot_has_its_rows(
    slot: ContactSlot,
    i: int,
    foot: StanceFoot,
    left_foot_mi: usize,
    held: AnchorPose,
    cfg: ContactCfg,
    forces_size: nat,
    k: int,
)
    requires
        slot_of(slot, i, foot, left_foot_mi, held, cfg, forces_size),
        0 <= k < 6,
    ensures
        foot.foot_mi == left_foot_mi <==> slot.side == 0,
        slot.side <= 1,
        slot.row == 6 * i,
        slot.accel@.len() == 6,
        slot.accel@[k] == held.pull(
            foot.pose,
            foot.vel@,
            cfg.kp_c as int,
            cfg.kd_c as int,
            k,
        ) as i128,
        slot.sole_sel@.len() == 6,
        slot.sole_sel@[k]@.len() == forces_size,
        cfg.no_patch <==> slot.patch is None,
        slot.patch matches Some(p) ==> p.mu == cfg.friction_mu && p.cop_half == cfg.cop_half
            && p.mu_torsion == cfg.mu_torsion && p.f_max == patch_force(
            cfg.f_max_per_foot as int,
            foot.share as int,
        ),
{
    assert(slot.sole_sel@[k]@.len() == forces_size);
}

/// A trunk task takes as many rows of the trunk's motion as it has accelerations, from the
/// first.
pub proof fn law_trunk_task_takes_the_first_rows<J>(
    r: CartesianTask<J>,
    j_trunk: Seq<Vec<J>>,
    djv_trunk: Seq<J>,
    accel: Seq<i128>,
    k: int,
)
    requires
        is_trunk_task(r, j_trunk, djv_trunk, accel),
        0 <= k < accel.len(),
        accel.len() <= j_trunk.len(),
        accel.len() <= djv_trunk.len(),
    ensures
        r.accel@ == accel,
        r.jacobian@.len() == accel.len(),
        r.jacobian@[k]@ == j_trunk[k]@,
        r.drift@.len() == accel.len(),
        r.drift@[k] == djv_trunk[k],
{
    assert(crate::biped::rows::row_views(j_trunk).len() == j_trunk.len());
    assert(crate::biped::rows::row_views(r.jacobian@).len() == accel.len());
    assert(r.jacobian@.len() == accel.len());
    assert(crate::biped::rows::row_views(r.jacobian@)[k] == r.jacobian@[k]@);
    assert(crate::biped::rows::row_views(j_trunk)[k] == j_trunk[k]@);
    assert(crate::biped::rows::row_views(j_trunk).take(accel.len() as int)[k] == j_trunk[k]@);
}

} // verus!
