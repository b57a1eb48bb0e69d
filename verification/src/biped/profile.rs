//! Per-machine constants for the biped controller.
//!
//! Everything in the controller that is a property of the ROBOT rather than of
//! the control law. Lengths are whole micrometres, angles microradians, times
//! microseconds; gains, damping, rotor inertia and ratios are in millionths of
//! their SI unit.

use vstd::prelude::*;

use crate::text::same;

verus! {

/// Sole plane, pressure box, seed pose, gains and periods for one machine.
#[derive(Clone, Copy, Debug)]
pub struct Profile {
    pub name: &'static str,
    pub urdf: &'static str,
    pub root_link: &'static str,
    pub foot_links: [&'static str; 2],
    /// hip_pitch / knee / ankle_pitch of the left side, for the crouch seed.
    pub sagittal_left: [&'static str; 3],
    /// hip_pitch / knee / ankle_pitch of the right side.
    pub sagittal_right: [&'static str; 3],
    pub hip_roll: [&'static str; 2],
    /// Sole plane, in the foot link's own frame: how far below the origin it
    /// sits, and where its centre is fore/aft. MUST match the robot description:
    /// a wrong centre silently describes a footprint the robot does not have.
    pub sole_below_origin: i64,
    pub sole_centre_x: i64,
    /// Pressure box half-extents (fore/aft, lateral).
    pub cop_half: (i64, i64),
    /// Height to drop the model from while measuring where the soles land.
    pub probe_z: i64,
    /// Crouch seed: knee angle. hip_pitch and ankle_pitch are minus half of it,
    /// so the three sum to zero and the sole stays parallel to the floor.
    pub knee_seed: i64,
    /// Burn-in position PD, and the rotor inertia / viscous damping added to the
    /// dynamics. All four scale with the machine.
    pub burnin_kp: i64,
    pub burnin_kv: i64,
    pub armature: i64,
    pub joint_damping: i64,
    /// Drop mesh collision shapes and contact only on the primitives.
    pub collide_primitives_only: bool,
    /// Body whose orientation is held upright. `None` = the floating base.
    pub trunk_link: Option<&'static str>,
    /// Control period.
    pub ctrl_dt: i64,
    /// Swing-foot clearance and the gains that hold it.
    pub lift_h: i64,
    pub kp_swing: i64,
    pub kd_swing: i64,
    /// Degraded-solve fallback PD. TORQUE dimension, so it does not carry across
    /// machines.
    pub hold_kp: i64,
    pub hold_kd: i64,
    /// Time of base-welded settling before the free-base run.
    pub burnin_s: i64,
    /// Friction planned against, as a share of the plant's. Deliberately below
    /// one, so that the planner is the conservative side.
    pub friction_margin: i64,
    /// Joints written to the trajectory log, in order.
    pub log_joints: [&'static str; 16],
}

/// A 6.6 kg robot whose floating base is its torso.
pub open spec fn kyo46rs_profile() -> Profile {
    Profile {
        name: "kyo46rs",
        urdf: "/home/takara/work/dp/humanoid/kyo46rs_description/urdf/kyo46rs.urdf",
        root_link: "torso",
        foot_links: ["left_foot_link", "right_foot_link"],
        sagittal_left: ["left_hip_pitch_joint", "left_knee_joint", "left_ankle_pitch_joint"],
        sagittal_right: ["right_hip_pitch_joint", "right_knee_joint", "right_ankle_pitch_joint"],
        hip_roll: ["left_hip_roll_joint", "right_hip_roll_joint"],
        sole_below_origin: 35_000,
        sole_centre_x: 0,
        cop_half: (49_000, 19_000),
        probe_z: 470_000,
        knee_seed: 700_000,
        burnin_kp: 150_000_000,
        burnin_kv: 2_000_000,
        armature: 500,
        joint_damping: 150_000,
        collide_primitives_only: false,
        trunk_link: None,
        ctrl_dt: 5_000,
        lift_h: 40_000,
        kp_swing: 400_000_000,
        kd_swing: 40_000_000,
        hold_kp: 15_000_000,
        hold_kd: 2_000_000,
        burnin_s: 1_200_000,
        friction_margin: 857_000,
        log_joints: [
            "left_hip_yaw_joint",
            "left_hip_roll_joint",
            "left_hip_pitch_joint",
            "left_knee_joint",
            "left_ankle_pitch_joint",
            "left_ankle_roll_joint",
            "right_hip_yaw_joint",
            "right_hip_roll_joint",
            "right_hip_pitch_joint",
            "right_knee_joint",
            "right_ankle_pitch_joint",
            "right_ankle_roll_joint",
            "left_shoulder_pitch_joint",
            "left_elbow_joint",
            "right_shoulder_pitch_joint",
            "right_elbow_joint",
        ],
    }
}

pub fn kyo46rs() -> (r: Profile)
    ensures
        r == kyo46rs_profile(),
{
    Profile {
        name: "kyo46rs",
        urdf: "/home/takara/work/dp/humanoid/kyo46rs_description/urdf/kyo46rs.urdf",
        root_link: "torso",
        foot_links: ["left_foot_link", "right_foot_link"],
        sagittal_left: ["left_hip_pitch_joint", "left_knee_joint", "left_ankle_pitch_joint"],
        sagittal_right: ["right_hip_pitch_joint", "right_knee_joint", "right_ankle_pitch_joint"],
        hip_roll: ["left_hip_roll_joint", "right_hip_roll_joint"],
        sole_below_origin: 35_000,
        sole_centre_x: 0,
        cop_half: (49_000, 19_000),
        probe_z: 470_000,
        knee_seed: 700_000,
        burnin_kp: 150_000_000,
        burnin_kv: 2_000_000,
        armature: 500,
        joint_damping: 150_000,
        collide_primitives_only: false,
        trunk_link: None,
        ctrl_dt: 5_000,
        lift_h: 40_000,
        kp_swing: 400_000_000,
        kd_swing: 40_000_000,
        hold_kp: 15_000_000,
        hold_kd: 2_000_000,
        burnin_s: 1_200_000,
        friction_margin: 857_000,
        log_joints: [
            "left_hip_yaw_joint",
            "left_hip_roll_joint",
            "left_hip_pitch_joint",
            "left_knee_joint",
            "left_ankle_pitch_joint",
            "left_ankle_roll_joint",
            "right_hip_yaw_joint",
            "right_hip_roll_joint",
            "right_hip_pitch_joint",
            "right_knee_joint",
            "right_ankle_pitch_joint",
            "right_ankle_roll_joint",
            "left_shoulder_pitch_joint",
            "left_elbow_joint",
            "right_shoulder_pitch_joint",
            "right_elbow_joint",
        ],
    }
}

/// The same robot with CAD geometry and mesh-derived inertia. What differs is
/// the inertia; kinematics, limits, masses and collision shapes do not.
pub open spec fn kyo46rs2_profile() -> Profile {
    Profile {
        urdf: "/home/takara/work/dp/humanoid/kyo46rs2_description/urdf/kyo46rs2.urdf",
        name: "kyo46rs2",
        ..kyo46rs_profile()
    }
}

pub fn kyo46rs2() -> (r: Profile)
    ensures
        r == kyo46rs2_profile(),
{
    Profile {
        urdf: "/home/takara/work/dp/humanoid/kyo46rs2_description/urdf/kyo46rs2.urdf",
        name: "kyo46rs2",
        ..kyo46rs()
    }
}

/// Unitree G1, 23-DOF variant: 34 kg, with a waist joint between its floating
/// base, the pelvis, and the upper body. The contact patch is not centred on the
/// ankle.
pub open spec fn g1_23dof_profile() -> Profile {
    Profile {
        name: "g1_23dof",
        urdf: "/home/takara/work/dp/articara/models/unitree_g1_src/robots/g1_description/g1_23dof.urdf",
        root_link: "pelvis",
        foot_links: ["left_ankle_roll_link", "right_ankle_roll_link"],
        sagittal_left: ["left_hip_pitch_joint", "left_knee_joint", "left_ankle_pitch_joint"],
        sagittal_right: ["right_hip_pitch_joint", "right_knee_joint", "right_ankle_pitch_joint"],
        hip_roll: ["left_hip_roll_joint", "right_hip_roll_joint"],
        sole_below_origin: 35_000,
        sole_centre_x: 35_000,
        cop_half: (85_000, 30_000),
        probe_z: 900_000,
        knee_seed: 700_000,
        burnin_kp: 2_000_000_000,
        burnin_kv: 20_000_000,
        armature: 10_000,
        joint_damping: 1_000_000,
        collide_primitives_only: true,
        trunk_link: Some("torso_link"),
        ctrl_dt: 2_000,
        lift_h: 80_000,
        kp_swing: 400_000_000,
        kd_swing: 40_000_000,
        hold_kp: 15_000_000,
        hold_kd: 2_000_000,
        burnin_s: 1_200_000,
        friction_margin: 857_000,
        log_joints: [
            "left_hip_pitch_joint",
            "left_hip_roll_joint",
            "left_hip_yaw_joint",
            "left_knee_joint",
            "left_ankle_pitch_joint",
            "left_ankle_roll_joint",
            "right_hip_pitch_joint",
            "right_hip_roll_joint",
            "right_hip_yaw_joint",
            "right_knee_joint",
            "right_ankle_pitch_joint",
            "right_ankle_roll_joint",
            "left_shoulder_pitch_joint",
            "left_elbow_joint",
            "right_shoulder_pitch_joint",
            "right_elbow_joint",
        ],
    }
}

pub fn g1_23dof() -> (r: Profile)
    ensures
        r == g1_23dof_profile(),
{
    Profile {
        name: "g1_23dof",
        urdf: "/home/takara/work/dp/articara/models/unitree_g1_src/robots/g1_description/g1_23dof.urdf",
        root_link: "pelvis",
        foot_links: ["left_ankle_roll_link", "right_ankle_roll_link"],
        sagittal_left: ["left_hip_pitch_joint", "left_knee_joint", "left_ankle_pitch_joint"],
        sagittal_right: ["right_hip_pitch_joint", "right_knee_joint", "right_ankle_pitch_joint"],
        hip_roll: ["left_hip_roll_joint", "right_hip_roll_joint"],
        sole_below_origin: 35_000,
        sole_centre_x: 35_000,
        cop_half: (85_000, 30_000),
        probe_z: 900_000,
        knee_seed: 700_000,
        burnin_kp: 2_000_000_000,
        burnin_kv: 20_000_000,
        armature: 10_000,
        joint_damping: 1_000_000,
        collide_primitives_only: true,
        trunk_link: Some("torso_link"),
        ctrl_dt: 2_000,
        lift_h: 80_000,
        kp_swing: 400_000_000,
        kd_swing: 40_000_000,
        hold_kp: 15_000_000,
        hold_kd: 2_000_000,
        burnin_s: 1_200_000,
        friction_margin: 857_000,
        log_joints: [
            "left_hip_pitch_joint",
            "left_hip_roll_joint",
            "left_hip_yaw_joint",
            "left_knee_joint",
            "left_ankle_pitch_joint",
            "left_ankle_roll_joint",
            "right_hip_pitch_joint",
            "right_hip_roll_joint",
            "right_hip_yaw_joint",
            "right_knee_joint",
            "right_ankle_pitch_joint",
            "right_ankle_roll_joint",
            "left_shoulder_pitch_joint",
            "left_elbow_joint",
            "right_shoulder_pitch_joint",
            "right_elbow_joint",
        ],
    }
}

/// The machine of a given name. The empty name stands for the first one.
pub open spec fn profile_named(name: Seq<char>) -> Option<Profile> {
    if name.len() == 0 || name == "kyo46rs"@ {
        Some(kyo46rs_profile())
    } else if name == "kyo46rs2"@ || name == "v2"@ {
        Some(kyo46rs2_profile())
    } else if name == "g1"@ || name == "g1_23dof"@ {
        Some(g1_23dof_profile())
    } else {
        None
    }
}

/// Looks a machine up by name. Unknown names are not admitted rather than given
/// a default: silently running the wrong machine's sole geometry is the single
/// most expensive mistake available here.
pub fn by_name(name: &str) -> (r: Profile)
    requires
        profile_named(name@) is Some,
    ensures
        profile_named(name@) == Some(r),
{
    if name.is_empty() || same(name, "kyo46rs") {
        kyo46rs()
    } else if same(name, "kyo46rs2") || same(name, "v2") {
        kyo46rs2()
    } else {
        g1_23dof()
    }
}

/// The second robot of the kind differs from the first in its name and its file alone.
pub proof fn law_second_of_its_kind()
    ensures
        ({
            let (a, b) = (kyo46rs_profile(), kyo46rs2_profile());
            &&& b.name == "kyo46rs2"
            &&& b == (Profile { name: b.name, urdf: b.urdf, ..a })
        }),
{
}

/// A profile is known by each of its names, the first also by none at all, and any other name
/// is unknown.
pub proof fn law_profiles_by_name(name: Seq<char>)
    ensures
        name.len() == 0 || name == "kyo46rs"@ ==> profile_named(name) == Some(kyo46rs_profile()),
        name.len() > 0 && name != "kyo46rs"@ && (name == "kyo46rs2"@ || name == "v2"@)
            ==> profile_named(name) == Some(kyo46rs2_profile()),
        name.len() > 0 && name != "kyo46rs"@ && name != "kyo46rs2"@ && name != "v2"@ && (name
            == "g1"@ || name == "g1_23dof"@) ==> profile_named(name) == Some(g1_23dof_profile()),
        name.len() > 0 && name != "kyo46rs"@ && name != "kyo46rs2"@ && name != "v2"@ && name
            != "g1"@ && name != "g1_23dof"@ ==> profile_named(name) is None,
{
}

/// Every robot has the same swing and holding gains, settles as long and keeps the same margin
/// of friction; sides come left first, and each leg's joints from the hip down.
pub proof fn law_profiles_agree(name: Seq<char>)
    requires
        profile_named(name) is Some,
    ensures
        ({
            let p = profile_named(name)->0;
            &&& p.kp_swing == 400_000_000 && p.kd_swing == 40_000_000
            &&& p.hold_kp == 15_000_000 && p.hold_kd == 2_000_000
            &&& p.burnin_s == 1_200_000 && p.friction_margin == 857_000
            &&& p.knee_seed == 700_000 && p.sole_below_origin == 35_000
            &&& p.sagittal_left@ == seq![
                "left_hip_pitch_joint",
                "left_knee_joint",
                "left_ankle_pitch_joint",
            ]
            &&& p.sagittal_right@ == seq![
                "right_hip_pitch_joint",
                "right_knee_joint",
                "right_ankle_pitch_joint",
            ]
            &&& p.hip_roll@ == seq!["left_hip_roll_joint", "right_hip_roll_joint"]
        }),
{
}

/// The small robots step at five milliseconds and four centimetres and collide with all of
/// their shapes; the large one at two milliseconds and eight centimetres, with its primitive
/// ones alone and a trunk of its own.
pub proof fn law_small_and_large_robots()
    ensures
        ({
            let p = kyo46rs_profile();
            &&& p.ctrl_dt == 5_000 && p.lift_h == 40_000
            &&& !p.collide_primitives_only && p.trunk_link is None
            &&& p.cop_half.0 == 49_000 && p.cop_half.1 == 19_000 && p.sole_centre_x == 0
            &&& p.probe_z == 470_000 && p.armature == 500 && p.joint_damping == 150_000
            &&& p.burnin_kp == 150_000_000 && p.burnin_kv == 2_000_000
            &&& p.root_link == "torso"
            &&& p.foot_links@ == seq!["left_foot_link", "right_foot_link"]
        }),
        ({
            let p = g1_23dof_profile();
            &&& p.ctrl_dt == 2_000 && p.lift_h == 80_000
            &&& p.collide_primitives_only && p.trunk_link == Some("torso_link")
            &&& p.cop_half.0 == 85_000 && p.cop_half.1 == 30_000 && p.sole_centre_x == 35_000
            &&& p.probe_z == 900_000 && p.armature == 10_000 && p.joint_damping == 1_000_000
            &&& p.burnin_kp == 2_000_000_000 && p.burnin_kv == 20_000_000
            &&& p.root_link == "pelvis"
            &&& p.foot_links@ == seq!["left_ankle_roll_link", "right_ankle_roll_link"]
        }),
{
}

} // verus!
