//! World-frame attitude hold for a single head joint: the head stays level while
//! the trunk under it moves.
//!
//! To first order the head's world attitude about the held axis is the trunk's
//! attitude plus `sign * q`, so holding it at a reference needs
//! `q = sign * (reference - trunk)`, clamped to the joint's limits. Angles are
//! whole microradians, rates microradians per second.

use vstd::prelude::*;
use vstd::string::*;

use crate::robot::{RobotModel, Vec3};

verus! {

/// Which attitude of the trunk a joint holds the head against.
#[derive(Clone, Copy, PartialEq, Eq, Structural, Debug)]
pub enum StabAxis {
    Roll,
    Pitch,
    Yaw,
}

impl StabAxis {
    /// The component of `v` along the axis.
    pub open spec fn of(self, v: Vec3) -> i64 {
        match self {
            StabAxis::Roll => v.x,
            StabAxis::Pitch => v.y,
            StabAxis::Yaw => v.z,
        }
    }

    /// The component of `v` along the axis.
    pub fn component(self, v: &Vec3) -> (r: i64)
        ensures
            r == self.of(*v),
    {
        match self {
            StabAxis::Roll => v.x,
            StabAxis::Pitch => v.y,
            StabAxis::Yaw => v.z,
        }
    }
}

/// What is held, and how.
pub struct ChickenHeadConfig {
    /// While false nothing is commanded.
    pub enabled: bool,
    pub joint_name: String,
    pub joint_idx: usize,
    pub axis: StabAxis,
    /// How a positive turn of the joint maps onto the held axis: `1` or `-1`.
    pub axis_sign: i8,
    /// World attitude the head is held at; zero is level.
    pub target_world_angle: i64,
    pub limit_lo: i64,
    pub limit_hi: i64,
    /// Gains of the acceleration task.
    pub kp: i32,
    pub kd: i32,
}

/// A value kept between two limits.
pub open spec fn kept(v: int, lo: int, hi: int) -> int {
    if v < lo {
        lo
    } else if v > hi {
        hi
    } else {
        v
    }
}

impl ChickenHeadConfig {
    /// The joint angle that would hold the head, whatever the limits.
    pub open spec fn free_angle(&self, attitude: Vec3) -> int {
        self.axis_sign * (self.target_world_angle - self.axis.of(attitude))
    }

    /// The joint angle that is asked for.
    pub open spec fn angle(&self, attitude: Vec3) -> int {
        kept(self.free_angle(attitude), self.limit_lo as int, self.limit_hi as int)
    }

    /// The joint rate that is fed forward.
    pub open spec fn rate(&self, omega: Vec3) -> int {
        -self.axis_sign * self.axis.of(omega)
    }

    /// A hold for the joint `joint_name`, with its sign and limits read from the
    /// robot. It starts disabled, so that making it commands nothing.
    pub fn for_joint(robot: &RobotModel, joint_name: &str, axis: StabAxis) -> (r: Option<
        ChickenHeadConfig,
    >)
        ensures
            r is Some <==> crate::robot::joint_at(robot.joints@, joint_name@) is Some,
            r matches Some(c) ==> {
                let ji = crate::robot::joint_at(robot.joints@, joint_name@)->0;
                let joint = robot.joints@[ji];
                &&& !c.enabled
                &&& c.joint_name@ == joint_name@
                &&& c.joint_idx == ji
                &&& c.axis == axis
                &&& c.axis_sign == (if axis.of(joint.axis) >= 0 {
                    1int
                } else {
                    -1int
                })
                &&& c.target_world_angle == 0
                &&& c.limit_lo == joint.lower
                &&& c.limit_hi == joint.upper
                &&& c.kp == 100
                &&& c.kd == 10
            },
    {
        match robot.joint_index(joint_name) {
            None => None,
            Some(idx) => {
                let along: i64 = axis.component(&robot.joints[idx].axis);
                let axis_sign: i8 = if along >= 0 {
                    1
                } else {
                    -1
                };
                Some(
                    ChickenHeadConfig {
                        enabled: false,
                        joint_name: joint_name.to_owned(),
                        joint_idx: idx,
                        axis,
                        axis_sign,
                        target_world_angle: 0,
                        limit_lo: robot.joints[idx].lower,
                        limit_hi: robot.joints[idx].upper,
                        kp: 100,
                        kd: 10,
                    },
                )
            },
        }
    }

    /// Joint angle reference, from the trunk's roll, pitch and yaw.
    pub fn target_angle(&self, attitude: &Vec3) -> (r: i64)
        requires
            self.limit_lo <= self.limit_hi,
        ensures
            r == self.angle(*attitude),
    {
        let off: i128 = self.target_world_angle as i128 - self.axis.component(attitude) as i128;
        proof {
            lemma_scaled(self.axis_sign as int, off as int);
        }
        let q: i128 = self.axis_sign as i128 * off;
        if q < self.limit_lo as i128 {
            self.limit_lo
        } else if q > self.limit_hi as i128 {
            self.limit_hi
        } else {
            q as i64
        }
    }

    /// Joint rate fed forward, from the trunk's body rates. The limits do not
    /// bear on it.
    pub fn target_velocity(&self, omega: &Vec3) -> (r: i128)
        ensures
            r == self.rate(*omega),
    {
        let rate: i128 = self.axis.component(omega) as i128;
        proof {
            lemma_scaled(-(self.axis_sign as int), rate as int);
        }
        (-(self.axis_sign as i128)) * rate
    }

    /// Joint acceleration asked of the controller:
    /// `kp * (q* - q) + kd * (qd* - qd)`.
    pub fn target_accel(&self, attitude: &Vec3, omega: &Vec3, q_meas: i64, qd_meas: i64) -> (r:
        i128)
        requires
            self.limit_lo <= self.limit_hi,
        ensures
            r == self.kp * (self.angle(*attitude) - q_meas) + self.kd * (self.rate(*omega)
                - qd_meas),
    {
        let q_ref: i128 = self.target_angle(attitude) as i128;
        let qd_ref: i128 = self.target_velocity(omega);
        let dq: i128 = q_ref - q_meas as i128;
        proof {
            lemma_scaled(-(self.axis_sign as int), self.axis.of(*omega) as int);
        }
        let dqd: i128 = qd_ref - qd_meas as i128;
        proof {
            lemma_gained(self.kp as int, dq as int);
            lemma_gained(self.kd as int, dqd as int);
        }
        self.kp as i128 * dq + self.kd as i128 * dqd
    }
}

proof fn lemma_scaled(sign: int, v: int)
    requires
        -128 <= sign <= 128,
        -0x1_0000_0000_0000_0000 <= v <= 0x1_0000_0000_0000_0000,
    ensures
        -0x80_0000_0000_0000_0000 <= sign * v <= 0x80_0000_0000_0000_0000,
{
    assert(-0x80_0000_0000_0000_0000 <= sign * v <= 0x80_0000_0000_0000_0000) by (nonlinear_arith)
        requires
            -128 <= sign <= 128,
            -0x1_0000_0000_0000_0000 <= v <= 0x1_0000_0000_0000_0000,
    ;
}

proof fn lemma_gained(k: int, v: int)
    requires
        -0x8000_0000 <= k <= 0x8000_0000,
        -0x100_0000_0000_0000_0000 <= v <= 0x100_0000_0000_0000_0000,
    ensures
        -0x80_0000_0000_0000_0000_0000_0000 <= k * v <= 0x80_0000_0000_0000_0000_0000_0000,
{
    assert(-0x80_0000_0000_0000_0000_0000_0000 <= k * v
        <= 0x80_0000_0000_0000_0000_0000_0000) by (nonlinear_arith)
        requires
            -0x8000_0000 <= k <= 0x8000_0000,
            -0x100_0000_0000_0000_0000 <= v <= 0x100_0000_0000_0000_0000,
    ;
}

/// The angle asked for respects the joint's limits.
pub proof fn law_angle_within_limits(c: ChickenHeadConfig, attitude: Vec3)
    requires
        c.limit_lo <= c.limit_hi,
    ensures
        c.limit_lo <= c.angle(attitude) <= c.limit_hi,
{
}

/// Away from the limits the head's world attitude, trunk plus `sign * q`, is the
/// reference, however the trunk is turned.
pub proof fn law_head_holds_its_attitude(c: ChickenHeadConfig, attitude: Vec3)
    requires
        c.axis_sign == 1 || c.axis_sign == -1,
        c.limit_lo <= c.free_angle(attitude) <= c.limit_hi,
    ensures
        c.axis.of(attitude) + c.axis_sign * c.angle(attitude) == c.target_world_angle,
{
    let off = c.target_world_angle - c.axis.of(attitude);
    if c.axis_sign == 1 {
        assert(c.axis_sign * off == off) by (nonlinear_arith)
            requires
                c.axis_sign == 1,
        ;
        assert(c.axis_sign * (c.axis_sign * off) == off) by (nonlinear_arith)
            requires
                c.axis_sign == 1,
        ;
    } else {
        assert(c.axis_sign * off == -off) by (nonlinear_arith)
            requires
                c.axis_sign == -1,
        ;
        assert(c.axis_sign * (-off) == off) by (nonlinear_arith)
            requires
                c.axis_sign == -1,
        ;
    }
}

/// What an axis reads of an attitude or of rates.
pub proof fn law_axes(v: Vec3)
    ensures
        StabAxis::Roll.of(v) == v.x,
        StabAxis::Pitch.of(v) == v.y,
        StabAxis::Yaw.of(v) == v.z,
{
}

/// The joint is asked for the angle that puts the head at its world angle, as far as its
/// limits let it: beyond a limit that limit is asked for.
pub proof fn law_head_is_held_as_far_as_the_limits_let(c: ChickenHeadConfig, attitude: Vec3)
    requires
        c.axis_sign == 1 || c.axis_sign == -1,
        c.limit_lo <= c.limit_hi,
    ensures
        ({
            let tilt = match c.axis {
                StabAxis::Roll => attitude.x,
                StabAxis::Pitch => attitude.y,
                StabAxis::Yaw => attitude.z,
            };
            let asked = c.angle(attitude);
            let head = tilt + c.axis_sign * asked;
            &&& c.limit_lo <= asked <= c.limit_hi
            &&& c.limit_lo < asked < c.limit_hi ==> head == c.target_world_angle
            &&& asked == c.limit_lo && c.limit_lo < c.limit_hi ==> c.axis_sign
                * (c.target_world_angle - head) <= 0
            &&& asked == c.limit_hi && c.limit_lo < c.limit_hi ==> c.axis_sign
                * (c.target_world_angle - head) >= 0
        }),
{
    let tilt = c.axis.of(attitude) as int;
    let (s, goal) = (c.axis_sign as int, c.target_world_angle as int);
    let asked = c.angle(attitude);
    let head = tilt + s * asked;
    assert(s * (goal - head) == s * (goal - tilt) - asked) by (nonlinear_arith)
        requires
            head == tilt + s * asked,
            s == 1 || s == -1,
    ;
    assert(s * (s * (goal - tilt)) == goal - tilt) by (nonlinear_arith)
        requires
            s == 1 || s == -1,
    ;
}

/// The rate that is fed forward takes the trunk's turning off the head: along its axis the
/// head does not turn.
pub proof fn law_head_does_not_turn(c: ChickenHeadConfig, omega: Vec3)
    requires
        c.axis_sign == 1 || c.axis_sign == -1,
    ensures
        ({
            let turning = match c.axis {
                StabAxis::Roll => omega.x,
                StabAxis::Pitch => omega.y,
                StabAxis::Yaw => omega.z,
            };
            turning + c.axis_sign * c.rate(omega) == 0
        }),
{
    let (s, t) = (c.axis_sign as int, c.axis.of(omega) as int);
    assert(t + s * (-s * t) == 0) by (nonlinear_arith)
        requires
            s == 1 || s == -1,
    ;
}

} // verus!
