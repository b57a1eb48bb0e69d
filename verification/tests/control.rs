//! Command policy, tasks, trajectory log and bring-up of the biped.

use articara::biped::actuate::{
    gravity_plus_posture, write_to_plant, CommandPolicy, DegradedTally, Notice, PlantCommand,
    SolveStatus,
};
use articara::biped::bringup::{BringUp, Reply, Request, Stage};
use articara::biped::contact::{sole_selection, AnchorPose, Anchors};
use articara::biped::gait::{LEFT, RIGHT};
use articara::biped::log::{
    header, measure_contacts, FootContact, FootGround, MeasuredRow, Row, TrajLog,
};
use articara::biped::pressure::Footsteps;
use articara::biped::profile::{by_name, g1_23dof, kyo46rs, kyo46rs2};
use articara::biped::rig::{
    check_rig, check_self_contact, effective_gains, effort_summary, frames, moved_joints,
    report_footprint, spawn_height, worst_move, BipedRig, BodyPair, BuildError, CtrlMode, LinkEntry,
    RigOptions, RowLimits, Seed,
};
use articara::biped::state::{add_rotors, LinkMotion, Plant};
use articara::biped::tasks::{
    com, contact_level, force_nominal, patch_limit, pick_axes, posture, posture_ref, swing,
    swing_ref, swing_with_pose, trunk, trunk_ori_ref, trunk_rp_ref, trunk_rpy, ContactCfg,
    ContactPatch, Orientation, StanceFoot, SwingAxes, SwingGoal, TrunkGains,
};
use articara::estimator::{coordinates, joint_state, rates, LkfPipeline, CONTACT_FORCE_THRESHOLD};
use articara::joint_map::JointMap;
use articara::robot::{
    ActuatorMode, CollisionData, GeomData, JointData, LinkData, Placement, RobotModel, Vec3,
};

fn names(ns: &[&str]) -> Vec<String> {
    ns.iter().map(|n| n.to_string()).collect()
}

fn v3(x: i64, y: i64, z: i64) -> Vec3 {
    Vec3 { x, y, z }
}

// Tally.

#[test]
fn tally_is_reported_by_name() {
    let mut t = DegradedTally::default();
    assert_eq!(t.report(), None);
    assert_eq!(t.observe(SolveStatus::Optimal, 1, &names(&["a", "b"])), None);
    assert_eq!(t.n, 0);
    let s = SolveStatus::Degraded { level: 1 };
    assert_eq!(t.observe(s, 1, &names(&["a", "b"])), Some("b".to_string()));
    t.observe(s, 2, &names(&["a", "c"]));
    let far = SolveStatus::Degraded { level: 40 };
    assert_eq!(t.observe(far, 3, &names(&["a", "c"])), Some("?".to_string()));
    t.observe(SolveStatus::Degraded { level: 5 }, 3, &names(&["a", "c"]));
    assert_eq!(t.n, 4);
    assert_eq!(t.report(), Some("    by level: c=2  ?=1".to_string()));
}

#[test]
fn only_some_failures_are_worth_a_line() {
    let mut t = DegradedTally::new();
    let s = SolveStatus::Degraded { level: 0 };
    for _ in 0..6 {
        assert!(t.observe(s, 1, &names(&["eom"])).is_some());
    }
    assert!(t.observe(s, 1, &names(&["eom"])).is_none());
    assert!(t.observe(s, 400, &names(&["eom"])).is_some());
}

// Command policy.

const BAD: SolveStatus = SolveStatus::Degraded { level: 0 };

#[test]
fn an_unusable_solve_is_bridged_and_then_replaced() {
    let mut p = CommandPolicy::new(2, 999, 2, false, 0);
    let fallback = vec![7, 7];
    // Nothing good was seen yet: the solve goes out as it is.
    let mut taus = vec![1, 2];
    assert_eq!(p.apply(BAD, &mut taus, &fallback), (false, None));
    assert_eq!(taus, vec![1, 2]);
    let mut taus = vec![3, 4];
    assert_eq!(p.apply(SolveStatus::Optimal, &mut taus, &fallback), (false, None));
    for _ in 0..2 {
        let mut taus = vec![0, 0];
        assert_eq!(p.apply(BAD, &mut taus, &fallback), (true, None));
        assert_eq!(taus, vec![3, 4]);
    }
    let mut taus = vec![0, 0];
    assert!(p.apply(BAD, &mut taus, &fallback).0);
    assert_eq!(taus, fallback);
    assert_eq!(p.consecutive_degraded(), 3);
}

#[test]
fn a_late_failure_is_sent_but_not_held() {
    let mut p = CommandPolicy::new(1, 1, 5, false, 0);
    p.apply(SolveStatus::Optimal, &mut vec![10], &vec![0]);
    let mut taus = vec![20];
    assert!(!p.apply(SolveStatus::Degraded { level: 2 }, &mut taus, &vec![0]).0);
    assert_eq!(taus, vec![20]);
    let mut taus = vec![30];
    assert!(p.apply(SolveStatus::Degraded { level: 1 }, &mut taus, &vec![0]).0);
    assert_eq!(taus, vec![10]);
}

#[test]
fn a_long_run_of_failures_is_announced() {
    let mut p = CommandPolicy::new(1, 999, 0, true, 9);
    assert_eq!(p.blend_ticks, 0);
    p.apply(SolveStatus::Optimal, &mut vec![5], &vec![0]);
    for tick in 1..=12u32 {
        let mut taus = vec![1];
        let (driving, notice) = p.apply(BAD, &mut taus, &vec![0]);
        assert!(driving);
        assert_eq!(taus, vec![5]);
        let want = if tick == 10 {
            Some(Notice::OpenLoop { ticks: 10, held: true })
        } else {
            None
        };
        assert_eq!(notice, want);
    }
    let (_, notice) = p.apply(SolveStatus::Optimal, &mut vec![5], &vec![0]);
    assert_eq!(notice, Some(Notice::Recovered { ticks: 12 }));
    assert_eq!(p.apply(SolveStatus::Optimal, &mut vec![5], &vec![0]).1, None);
}

#[test]
fn handovers_are_crossfaded() {
    let mut p = CommandPolicy::new(1, 999, 0, false, 4);
    p.apply(SolveStatus::Optimal, &mut vec![100], &vec![0]);
    let mut sent = vec![];
    for _ in 0..5 {
        let mut taus = vec![999];
        p.apply(BAD, &mut taus, &vec![0]);
        sent.push(taus[0]);
    }
    assert_eq!(sent, vec![100, 75, 50, 25, 0]);
}

// Rig.

fn link(name: &str, mass: u64) -> LinkData {
    LinkData {
        name: name.to_string(),
        mass,
        com: v3(0, 0, 0),
        visuals: vec![],
        collisions: vec![CollisionData {
            origin: Placement::identity(),
            geometry: GeomData::Sphere { radius: 1 },
        }],
    }
}

fn joint(name: &str, child: &str, effort: i64) -> JointData {
    JointData {
        name: name.to_string(),
        joint_type: "revolute".to_string(),
        parent_link: "torso".to_string(),
        child_link: child.to_string(),
        origin: Placement::identity(),
        axis: v3(0, 1_000_000_000, 0),
        lower: -5,
        upper: 6,
        effort,
        velocity: 7,
        actuator_mode: ActuatorMode::Torque,
        actuator_kp: 0,
        actuator_kv: 0,
        armature: 0,
        joint_damping: 0,
    }
}

/// A torso with two one-jointed legs.
fn walker() -> RobotModel {
    let mut foot = link("left_foot_link", 1_000);
    foot.collisions.push(CollisionData {
        origin: Placement::identity(),
        geometry: GeomData::Mesh { floats: 9, filename: None },
    });
    RobotModel {
        name: "walker".to_string(),
        links: vec![link("torso", 5_000), foot, link("right_foot_link", 0)],
        joints: vec![
            joint("left_knee_joint", "left_foot_link", 20_000_000),
            joint("right_knee_joint", "right_foot_link", 500),
        ],
        root_link: "torso".to_string(),
        source_path: None,
        joint_positions: vec![0, 0],
        collision_pairs: vec![],
    }
}

fn walker_map() -> JointMap {
    JointMap {
        a2m: vec![Some(2), Some(3)],
        joint_nq: vec![0, 7, 1, 1],
        joint_nv: vec![0, 6, 1, 1],
        q_idx: vec![0, 0, 7, 8],
        v_idx: vec![0, 0, 6, 7],
        nq: 9,
        nv: 8,
    }
}

fn walker_index() -> Vec<LinkEntry> {
    vec![
        LinkEntry { name: "torso".to_string(), mi: 1 },
        LinkEntry { name: "left_foot_link".to_string(), mi: 2 },
        LinkEntry { name: "right_foot_link".to_string(), mi: 3 },
    ]
}

fn walker_rig() -> BipedRig {
    let o = RigOptions::from_profile(&kyo46rs());
    BipedRig::assemble(&kyo46rs(), &o, &walker(), walker_map(), &walker_index(), vec![10, 20])
        .ok()
        .unwrap()
}

#[test]
fn control_modes_by_name() {
    for m in [CtrlMode::Torque, CtrlMode::Hybrid, CtrlMode::Velocity, CtrlMode::Servo] {
        assert_eq!(CtrlMode::from_env_name(m.name()), m);
    }
    assert_eq!(CtrlMode::Servo.name(), "servo");
    assert!(CtrlMode::Servo.is_velocity() && CtrlMode::Velocity.is_velocity());
    assert!(!CtrlMode::Torque.is_velocity() && !CtrlMode::Hybrid.is_velocity());
}

#[test]
fn machines_by_name() {
    assert_eq!(by_name("").name, kyo46rs().name);
    assert_eq!(by_name("v2").name, kyo46rs2().name);
    assert_eq!(by_name("g1").name, g1_23dof().name);
    assert_eq!(by_name("g1_23dof").urdf, g1_23dof().urdf);
    let p = kyo46rs();
    assert_eq!((p.knee_seed, p.cop_half, p.ctrl_dt), (700_000, (49_000, 19_000), 5_000));
}

#[test]
fn options_start_from_the_profile() {
    let o = RigOptions::from_profile(&kyo46rs());
    assert_eq!((o.knee, o.hip_pitch, o.ankle_pitch), (700_000, -350_000, -350_000));
    assert_eq!((o.torque_scale, o.sim_dt, o.mu_ground), (1_000_000, 1_000, 700_000));
    assert_eq!(o.ctrl_mode, CtrlMode::Torque);
    assert_eq!((o.run_kp, o.run_kv), (o.burnin_kp, o.burnin_kv));
}

#[test]
fn a_rig_knows_feet_masses_and_limits() {
    let rig = walker_rig();
    assert_eq!((rig.left_foot_mi(), rig.right_foot_mi(), rig.trunk_mi), (2, 3, 1));
    assert!(rig.trunk_from_base);
    assert_eq!((rig.side_of(2), rig.side_of(3), rig.side_of(9)), (0, 1, 1));
    // The massless foot does not count.
    assert_eq!(rig.mass_links.len(), 2);
    assert_eq!(rig.total_mass, 6_000);
    assert_eq!(rig.weight(), 6_000 * 981);
    assert_eq!(
        rig.limits[0],
        RowLimits { torque: 20_000_000_000_000, q_min: -5, q_max: 6, v_max: 7 }
    );
    // An effort that is not believed counts as one newton metre.
    assert_eq!(rig.limits[1].torque, 1_000_000_000_000);
    assert_eq!(rig.actuated(), vec![(0, 6), (1, 7)]);
    assert_eq!(rig.gravity_torque(&vec![0, 0, 0, 0, 0, 0, 4, 5]), vec![4, 5]);
}

#[test]
fn a_rig_needs_its_feet_and_every_row() {
    let o = RigOptions::from_profile(&kyo46rs());
    let mut index = walker_index();
    index.remove(2);
    let r = BipedRig::assemble(&kyo46rs(), &o, &walker(), walker_map(), &index, vec![0, 0]);
    assert!(matches!(r, Err(BuildError::NoLink { name: "right_foot_link" })));
    let mut map = walker_map();
    map.a2m[0] = None;
    let r = BipedRig::assemble(&kyo46rs(), &o, &walker(), map, &walker_index(), vec![0, 0]);
    match r {
        Err(BuildError::UnsetRows { rows }) => assert_eq!(rows, vec![0]),
        _ => panic!("row 0 has no joint"),
    }
}

#[test]
fn fallback_is_gravity_plus_posture_in_the_box() {
    let rig = walker_rig();
    let mut out = vec![0, 0];
    // 1000 + 2 * (10 - 4) - 3 * 5 in millionths of the gains' unit.
    gravity_plus_posture(
        &rig,
        &vec![1_000, 2_000_000],
        &vec![4, 20],
        &vec![0, 0, 0, 0, 0, 0, 5, 0],
        2_000_000,
        3_000_000,
        &mut out,
    );
    assert_eq!(out, vec![997, 1_000_000]);
}

#[test]
fn commands_take_the_form_of_the_mode() {
    let rig = walker_rig();
    let taus = vec![11, 12];
    let qddot = vec![0, 0, 0, 0, 0, 0, 3, 4];
    let q = vec![100, 200];
    let v = vec![0, 0, 0, 0, 0, 0, 5, 6];
    let dt = 1_000;
    let w = |m| write_to_plant(&rig, m, &taus, &qddot, &q, &v, dt);
    assert_eq!(w(CtrlMode::Torque), vec![PlantCommand::Torques]);
    assert_eq!(
        w(CtrlMode::Servo),
        vec![
            PlantCommand::Servo { joint: 0, rate: 5_003_000 },
            PlantCommand::Servo { joint: 1, rate: 6_004_000 },
        ]
    );
    assert!(matches!(w(CtrlMode::Velocity)[1], PlantCommand::Velocity { joint: 1, rate: 6_004_000 }));
    let position = 100 * 2_000_000_000_000i128 + 5 * 1_000 * 2_000_000 + 3 * 1_000_000;
    assert_eq!(
        w(CtrlMode::Hybrid)[0],
        PlantCommand::Hybrid { joint: 0, position, rate: 5_003_000, torque: 11 }
    );
}

#[test]
fn spawn_height_and_frames() {
    // The foot hung at 50 mm with its sole 35 mm below: 15 mm up, 1 mm is kept.
    assert_eq!(spawn_height(470_000, 50_000, 35_000), 456_000);
    assert_eq!(frames(1_200_000, 1_000), 1_200);
    assert_eq!(frames(u64::MAX, 1), u32::MAX);
}

#[test]
fn settling_is_summed_up() {
    assert_eq!(worst_move(&vec![0, 0, 0], &vec![5, -9, 9]), (1, 9));
    assert_eq!(worst_move(&vec![1], &vec![1]), (0, 0));
    let seed = vec![0; 9];
    let q = vec![20_000, 0, -30_000, 10_000, 40_000, 20_000, 50_000, 60_000, 70_000];
    assert_eq!(
        moved_joints(&seed, &q),
        vec![(8, 70_000), (7, 60_000), (6, 50_000), (4, 40_000), (2, 30_000), (0, 20_000)]
    );
    let (efforts, n) = effort_summary(&walker().joints, &walker_map());
    assert_eq!((efforts, n), (vec![500, 20_000_000], 2));
}

#[test]
fn plants_are_checked() {
    assert!(check_rig("<freejoint/> <geom type=\"plane\"/>").is_ok());
    assert!(matches!(check_rig("<geom type=\"plane\"/>"), Err(BuildError::BaseNotFree)));
    assert!(matches!(check_rig("<freejoint/>"), Err(BuildError::NoGround)));
    let pair = |a: &str, b: &str| BodyPair {
        body1: a.to_string(),
        body2: b.to_string(),
        force: 2_500_000,
    };
    assert!(check_self_contact(&vec![pair("", "foot"), pair("foot", "")], false).is_ok());
    match check_self_contact(&vec![pair("", "foot"), pair("arm", "hip")], false) {
        Err(BuildError::SelfCollision { hits }) => assert_eq!(hits, vec!["arm <-> hip"]),
        _ => panic!("the arm touches the hip"),
    }
    match check_self_contact(&vec![pair("arm", "hip")], true) {
        Err(BuildError::SelfCollision { hits }) => assert_eq!(hits, vec!["arm <-> hip (2 N)"]),
        _ => panic!("the arm presses against the hip"),
    }
}

#[test]
fn gains_in_effect() {
    let mut o = RigOptions::from_profile(&kyo46rs());
    o.run_kp = 3;
    o.run_kv = 4;
    let mut at = |m| {
        o.ctrl_mode = m;
        effective_gains(&o)
    };
    assert_eq!(at(CtrlMode::Torque), (0, 0));
    assert_eq!(at(CtrlMode::Hybrid), (3, 4));
    assert_eq!(at(CtrlMode::Velocity), (0, 4));
    assert_eq!(at(CtrlMode::Servo), (0, 4));
}

#[test]
fn footprint_margins() {
    let f = report_footprint((0, 0), 5, 10, 40);
    assert_eq!((f.ankle, f.back, f.front), (0, -60, 100));
    assert_eq!((f.com, f.margin_back, f.margin_front), (10, 70, 90));
}

// Bring-up.

fn free_xml() -> Reply {
    Reply::Exported { xml: "<freejoint/><geom type=\"plane\"/>".to_string() }
}

fn spawned(contacts: Vec<BodyPair>) -> Reply {
    Reply::Spawned { contacts, dt: 1_000, map: walker_map(), index: walker_index() }
}

fn started(mode: CtrlMode) -> BringUp {
    let mut o = RigOptions::from_profile(&kyo46rs());
    o.ctrl_mode = mode;
    o.run_kp = 33;
    o.extra_seed = vec![Seed { joint: "right_knee_joint".to_string(), angle: 42 }];
    BringUp::start(kyo46rs(), o, walker()).ok().unwrap().0
}

#[test]
fn bring_up_runs_through_its_stages() {
    let mut b = started(CtrlMode::Hybrid);
    assert_eq!(b.q_seed, vec![700_000, 42]);
    assert_eq!(b.model.joints[0].actuator_mode, ActuatorMode::Position);
    assert_eq!(b.model.joints[0].actuator_kp, kyo46rs().burnin_kp);
    assert_eq!(b.request(), Request::Probe { z: 470_000 });
    assert!(b.advance(Reply::Probed { foot_z: 50_000 }).is_ok());
    assert_eq!(b.request(), Request::Export { z: 456_000 });
    assert!(b.advance(free_xml()).is_ok());
    assert_eq!(b.request(), Request::Spawn { z: 456_000 });
    assert!(b.advance(spawned(vec![])).is_ok());
    assert_eq!(b.rig.as_ref().unwrap().q_seed, vec![700_000, 42]);
    assert_eq!(b.request(), Request::Brace { z: 456_000 });
    assert!(b.advance(Reply::Braced { contacts: vec![] }).is_ok());
    assert_eq!(b.request(), Request::Settle { frames: 1_200 });
    assert!(b.advance(Reply::Settled { positions: vec![1, 2] }).is_ok());
    assert_eq!(b.model.joints[1].actuator_kp, 33);
    assert_eq!(b.request(), Request::Run { z: 456_000, frames: 50 });
    assert!(b.advance(Reply::Held { positions: vec![3, 4] }).is_ok());
    assert_eq!(b.stage, Stage::Ready);
    assert_eq!(b.request(), Request::Done);
    assert_eq!(b.model.joint_positions, vec![3, 4]);
    assert_eq!(b.model.joints[0].actuator_mode, ActuatorMode::Position);
}

#[test]
fn torque_control_keeps_the_burn_in_gains() {
    let mut b = started(CtrlMode::Torque);
    b.advance(Reply::Probed { foot_z: 0 }).ok();
    b.advance(free_xml()).ok();
    b.advance(spawned(vec![])).ok();
    b.advance(Reply::Braced { contacts: vec![] }).ok();
    b.advance(Reply::Settled { positions: vec![0, 0] }).ok();
    assert_eq!(b.model.joints[0].actuator_kp, kyo46rs().burnin_kp);
    b.advance(Reply::Held { positions: vec![0, 0] }).ok();
    assert_eq!(b.model.joints[0].actuator_mode, ActuatorMode::Torque);
}

#[test]
fn a_braced_robot_is_not_run() {
    let touch = || {
        vec![BodyPair {
            body1: "arm".to_string(),
            body2: "hip".to_string(),
            force: 241_900_000_000,
        }]
    };
    let mut b = started(CtrlMode::Torque);
    b.advance(Reply::Probed { foot_z: 0 }).ok();
    let bad = Reply::Exported { xml: "<freejoint/>".to_string() };
    assert!(matches!(b.advance(bad), Err(BuildError::NoGround)));
    assert_eq!(b.stage, Stage::Exporting);
    b.advance(free_xml()).ok();
    assert!(matches!(b.advance(spawned(touch())), Err(BuildError::SelfCollision { .. })));
    assert_eq!(b.stage, Stage::Spawning);
    b.advance(spawned(vec![])).ok();
    match b.advance(Reply::Braced { contacts: touch() }) {
        Err(BuildError::SelfCollision { hits }) => {
            assert_eq!(hits, vec!["arm <-> hip (241900 N)"]);
        }
        _ => panic!("the arm presses against the hip"),
    }
    assert_eq!(b.stage, Stage::Bracing);
}

#[test]
fn a_model_is_prepared_or_refused() {
    let mut o = RigOptions::from_profile(&kyo46rs());
    o.extra_seed = vec![
        Seed { joint: "left_knee_joint".to_string(), angle: 1 },
        Seed { joint: "tail".to_string(), angle: 2 },
    ];
    let r = BringUp::start(kyo46rs(), o, walker());
    assert!(matches!(r, Err(BuildError::UnknownSeedJoint { seed: 1 })));

    let mut prof = kyo46rs();
    prof.collide_primitives_only = true;
    let mut o = RigOptions::from_profile(&prof);
    o.uncollide_links = vec!["right_".to_string()];
    let (b, p) = BringUp::start(prof, o, walker()).ok().unwrap();
    assert_eq!((p.dropped, p.kept, p.uncollided), (1, 3, 1));
    let shapes: Vec<usize> = b.model.links.iter().map(|l| l.collisions.len()).collect();
    assert_eq!(shapes, vec![1, 1, 0]);

    let mut bare = walker();
    for l in bare.links.iter_mut() {
        l.collisions.clear();
    }
    let o = RigOptions::from_profile(&prof);
    assert!(matches!(BringUp::start(prof, o, bare), Err(BuildError::NoPrimitives)));
}

// Tasks.

#[test]
fn swing_axes_choose_rows() {
    let full = [10, 11, 12, 13, 14, 15];
    assert_eq!(pick_axes(SwingAxes::ZOnly, &full), vec![15]);
    assert_eq!(pick_axes(SwingAxes::Xyz, &full), vec![13, 14, 15]);
    assert_eq!(pick_axes(SwingAxes::XyzYaw, &full), vec![12, 13, 14, 15]);
    assert_eq!(pick_axes(SwingAxes::Pose, &full), full.to_vec());
    assert!(SwingAxes::Pose.needs_orientation() && SwingAxes::XyzYaw.needs_orientation());
    assert!(!SwingAxes::Xyz.needs_orientation() && !SwingAxes::ZOnly.needs_orientation());
}

#[test]
fn trunk_is_pulled_upright_outside_the_deadband() {
    assert_eq!(trunk_rp_ref(10, -3, 2, -4, 5, 7, 4, 1), (-30 - 14, 28));
    assert_eq!(trunk_rp_ref(10, -3, 2, -4, 5, 7, 4, -1), (44, -28));
    let g = TrunkGains { kp: 5, kd: 7, deadband: 4, sign: 1, kp_yaw: 2, kd_yaw: 3, wz_ref: 10 };
    assert_eq!(trunk_ori_ref(&v3(10, -3, 6), &v3(2, -4, 1), &g), (30 - 14, 28, 12 + 27));
}

#[test]
fn references_are_pd() {
    assert_eq!(posture_ref(10, 4, 5, 2, 3), 12 - 15);
    let r = swing_ref(&v3(1, 2, 3), &v3(0, 0, 0), &v3(1, 1, 1), &v3(0, 2, 1), 10, 100, 7);
    assert_eq!(r, (17, 13, 300));
}

fn six_rows() -> Vec<Vec<i64>> {
    (0..6).map(|r| vec![10 * r, 10 * r + 1]).collect()
}

#[test]
fn levels_take_their_rows() {
    let drift = [0, 1, 2, 3, 4, 5];
    let t = trunk(&six_rows(), &drift, &[7, 8]);
    assert_eq!(t.jacobian, vec![vec![0, 1], vec![10, 11]]);
    assert_eq!((t.drift, t.accel), (vec![0, 1], vec![7, 8]));
    let t = trunk_rpy(&six_rows(), &drift, &[7, 8], Some(9));
    assert_eq!(t.jacobian[2], vec![20, 21]);
    assert_eq!((t.drift, t.accel), (vec![0, 1, 2], vec![7, 8, 9]));
    let rows = vec![vec![1], vec![2], vec![3]];
    let t = com(&rows, &[4, 5, 6], &[7, 8, 9]);
    assert_eq!((t.jacobian, t.drift, t.accel), (rows, vec![4, 5, 6], vec![7, 8, 9]));
}

#[test]
fn posture_pulls_each_actuated_joint() {
    let actuated = vec![(1, 7), (0, 6)];
    let v = vec![0, 0, 0, 0, 0, 0, 5, 0, 0];
    let t = posture(&actuated, &vec![4, 20], &vec![10, 30], &v, 2, 3, 0, 1);
    assert_eq!(t.accel, vec![2 * 6 - 3 * 5, 20, 0]);
    assert_eq!(t.drift, vec![0, 0, 0]);
    assert_eq!(t.jacobian[0], vec![0, 0, 0, 0, 0, 0, 1, 0, 0]);
    assert_eq!(t.jacobian[1], vec![0, 0, 0, 0, 0, 0, 0, 1, 0]);
    // Nothing is asked of a row that no actuated joint has.
    assert_eq!(t.jacobian[2], vec![0; 9]);
}

#[test]
fn swing_foot_is_tracked_in_its_axes() {
    let drift = [0, 1, 2, 3, 4, 5];
    let goal = SwingGoal {
        pos: v3(0, 0, 0),
        vel: v3(0, 2, 1),
        target: v3(1, 2, 3),
        target_vel: v3(1, 1, 1),
        kp_xy: 10,
        kp_z: 100,
        kd: 7,
    };
    let t = swing(&six_rows(), &drift, &goal, SwingAxes::ZOnly);
    assert_eq!((t.jacobian, t.drift, t.accel), (vec![vec![50, 51]], vec![5], vec![300]));
    let turn = Orientation { e: v3(1, 2, 3), omega: v3(4, 5, 6), kp: 20, kd: 2 };
    let t = swing_with_pose(&six_rows(), &drift, &goal, SwingAxes::XyzYaw, Some(turn));
    assert_eq!(t.jacobian[0], vec![20, 21]);
    assert_eq!(t.drift, vec![2, 3, 4, 5]);
    assert_eq!(t.accel, vec![60 - 12, 17, 13, 300]);
    let t = swing_with_pose(&six_rows(), &drift, &goal, SwingAxes::Pose, Some(turn));
    assert_eq!(t.accel, vec![20 - 8, 40 - 10, 48, 17, 13, 300]);
}

#[test]
fn forces_are_shared_by_load() {
    let f = force_nominal(13, &vec![3, 1], 1_000);
    assert_eq!(f[5], 750);
    assert_eq!(f[11], 250);
    assert_eq!(f.iter().sum::<u128>(), 1_000);
    assert_eq!(force_nominal(6, &vec![0], 1_000)[5], 0);
    assert_eq!(patch_limit(80_000_000, 250_000), 20_000_000);
    assert_eq!(patch_limit(80_000_000, 1), 500_000);
    assert_eq!(patch_limit(80_000_000, -3), 500_000);
}

fn standing(foot_mi: usize, z: i64, share: i64) -> StanceFoot {
    StanceFoot { foot_mi, pose: upright(z), vel: [0; 6], share }
}

fn upright(z: i64) -> AnchorPose {
    let one = 1_000_000_000;
    AnchorPose { pos: v3(0, 0, z), row0: v3(one, 0, 0), row1: v3(0, one, 0), row2: v3(0, 0, one) }
}

#[test]
fn stance_feet_take_their_slots() {
    let cfg = ContactCfg {
        kp_c: 10,
        kd_c: 1,
        anchor_leak: 0,
        anchor_leak_rot: 0,
        sole_offset_local: v3(5_000_000, 0, -35_000_000),
        friction_mu: 700_000,
        cop_half: (49_000_000, 19_000_000),
        mu_torsion: 20_000,
        f_max_per_foot: 10_000_000,
        no_patch: false,
        dt: 2_000,
    };
    let mut a: Anchors<AnchorPose> = Anchors::new();
    a.touchdown(LEFT, upright(7));
    let feet = vec![standing(3, 4, 1_000_000), standing(2, 5, 500_000)];
    let level = contact_level(&feet, 2, &cfg, 12, &mut a);
    let slots = &level.slots;
    let bears = |f_max: u128| {
        Some(ContactPatch {
            mu: 700_000,
            cop_half: (49_000_000, 19_000_000),
            mu_torsion: 20_000,
            f_max,
        })
    };
    assert_eq!((slots[0].side, slots[0].row, slots[0].patch), (RIGHT, 0, bears(10_000_000)));
    assert_eq!((slots[1].side, slots[1].row, slots[1].patch), (LEFT, 6, bears(5_000_000)));
    // The solved pressure is measured about the sole that constrained it.
    let sole = v3(5_000_000, 0, -35_000_000);
    assert_eq!(slots[1].sole_sel, sole_selection(&upright(5), &sole, 12, 1));
    assert_ne!(slots[1].sole_sel, slots[0].sole_sel);
    // The left foot keeps the anchor it held, the right one takes where it is.
    assert_eq!((a.pose(LEFT), a.pose(RIGHT)), (upright(7), upright(4)));
    assert_eq!(slots[0].accel, vec![0; 6]);
    assert_eq!(slots[1].accel, vec![0, 0, 0, 0, 0, 20]);
    assert_eq!(level.acc_dbg, (20, 2));
    let bare = ContactCfg { no_patch: true, ..cfg };
    let level = contact_level(&vec![standing(2, 7, 1)], 2, &bare, 6, &mut a);
    assert_eq!(level.slots[0].patch, None);
    // A leaking anchor gives way before it pulls.
    let soft = ContactCfg { anchor_leak: 500_000_000, ..bare };
    let level = contact_level(&vec![standing(2, 5, 1)], 2, &soft, 6, &mut a);
    assert_eq!(a.pose(LEFT), upright(5));
    assert_eq!(level.acc_dbg, (0, 0));
}

// Log.

#[test]
fn log_lines_match_their_header() {
    let joints = names(&["hip", "knee"]);
    let h = header(&joints, &names(&["mode"]));
    assert!(h.starts_with("t,x,y,z,qw,"));
    assert!(h.ends_with(",hip,knee,tau_hip,tau_knee,lim_hip,lim_knee,mode\n"));
    let (log, first) = TrajLog::create(Some("a.csv".to_string()), joints, &names(&["mode"]));
    assert_eq!(first, Some(h.clone()));
    assert!(log.is_enabled());
    assert!(log.row_fits(1) && !log.row_fits(0));
    let mut row = quiet_row();
    row.t = 12_345_678_901;
    row.base = v3(-1_234, 2_500_000, -1_999_996_000);
    row.n_stance = 2;
    row.foot_z = 35_000_400;
    row.degraded = true;
    row.f_qp_w[1] = v3(1, -24_000_050_001, 3);
    row.measured.cop[1] = v3(-7_500, 250, 65_100_000_000);
    row.taus = vec![1_234_567, -25];
    row.extra = vec![-4_000_500];
    let line = log.write(&hip_and_knee(), &row).unwrap();
    assert_eq!(line.split(',').count(), h.split(',').count());
    let column = |name: &str| {
        let i = h.trim_end().split(',').position(|c| c == name).unwrap();
        line.trim_end().split(',').nth(i).unwrap()
    };
    assert_eq!(column("t"), "12.3457");
    // Halfway goes to the even digit, and a negative number keeps its sign.
    assert_eq!((column("x"), column("y"), column("z")), ("-0.00000", "0.00250", "-2.00000"));
    assert_eq!((column("n_stance"), column("degraded")), ("2", "1"));
    assert_eq!(column("foot_z"), "0.035000");
    assert_eq!(column("fqp_r_y"), "-24.0001");
    assert_eq!((column("cop_mj_r_x"), column("cop_mj_r_y")), ("-0.000008", "0.000000"));
    assert_eq!(column("fz_mj_r"), "65.1000");
    assert_eq!((column("hip"), column("knee")), ("0.50000", "-0.25000"));
    assert_eq!((column("tau_hip"), column("tau_knee")), ("1.23457", "-0.00002"));
    assert_eq!((column("lim_hip"), column("lim_knee")), ("9.000", "0.250"));
    assert_eq!(column("mode"), "-0.004000");
    assert_eq!(column("slip_l"), "0.0000");
    let (off, first) = TrajLog::create(None, vec![], &vec![]);
    assert_eq!(first, None);
    assert!(!off.is_enabled());
    // Nothing is written, whether the row fits or not.
    assert_eq!(off.write(&hip_and_knee(), &row), None);
    row.extra.clear();
    row.taus.clear();
    assert_eq!(off.write(&hip_and_knee(), &row), None);
}

fn hip_and_knee() -> RobotModel {
    let mut model = walker();
    let name = |model: &mut RobotModel, ji: usize, name: &str, effort: i64, q: i64| {
        model.joints[ji].name = name.to_string();
        model.joints[ji].effort = effort;
        model.joint_positions[ji] = q;
    };
    name(&mut model, 0, "hip", 9_000_000, 500_000);
    name(&mut model, 1, "knee", 250_499, -250_000);
    model
}

fn quiet_row() -> Row {
    let none = [v3(0, 0, 0), v3(0, 0, 0)];
    Row {
        t: 0,
        base: v3(0, 0, 0),
        base_turn: [1_000_000_000, 0, 0, 0],
        com: v3(0, 0, 0),
        com_ref_z: 0,
        com_ref_y: 0,
        tilt: 0,
        trunk_tilt: 0,
        n_stance: 0,
        foot_z: 0,
        swing_z: 0,
        foot_vz: 0,
        acc_dbg: [0, 0],
        a_com: v3(0, 0, 0),
        rp_ref: [0, 0],
        degraded: false,
        cop_box: (0, 0),
        cop_qp: none,
        f_qp_w: none,
        measured: MeasuredRow { cop: none, slip: [0, 0], patch: (0, 0), f_w: none },
        taus: vec![0, 0],
        extra: vec![],
    }
}

#[test]
fn a_joint_that_the_robot_lacks_is_logged_as_zero() {
    let path = Some("a.csv".to_string());
    let (log, _) = TrajLog::create(path, names(&["knee", "tail"]), &vec![]);
    let line = log.write(&hip_and_knee(), &quiet_row()).unwrap();
    assert!(line.ends_with(",-0.25000,0.00000,0.00000,0.00000,0.250,0.000\n"));
    assert!(line.starts_with("0.0000,0.00000,0.00000,0.00000,1.00000,"));
}

#[test]
fn slip_is_the_share_of_the_friction_cone() {
    let at = |fx: i128, fy: i128, fz: i128| FootGround { fx, fy, fz, patch: v3(0, 0, 0) };
    // Five of seven newtons that friction bears.
    let foot = at(3_000_000, -4_000_000, 10_000_000);
    assert_eq!(foot.tangential(), 5_000_000);
    assert_eq!(foot.slip(700_000), 714_285);
    // Without friction the cone is a nanonewton wide.
    assert_eq!(at(3, 4, 10).slip(0), 5_000_000_000);
    assert_eq!(at(0, 0, 0).slip(700_000), 0);
    assert_eq!(at(1, 1, 10).tangential(), 1);
}

#[test]
fn contacts_load_their_feet() {
    let c = |a: &str, b: &str, x: i64, fz: i64| FootContact {
        body1: a.to_string(),
        body2: b.to_string(),
        pos: v3(x, 0, 1),
        force: v3(1, 2, fz),
    };
    let contacts = vec![
        c("", "L", 10, 30),
        c("L", "", 20, 10),
        c("", "R", 5, -3),
        c("", "arm", 5, 9),
    ];
    let measured = measure_contacts(&contacts, "L", "R");
    assert_eq!(measured.left, FootGround { fx: 2, fy: 4, fz: 40, patch: v3(12, 0, 1) });
    let unsupported = FootGround { fx: 0, fy: 0, fz: 0, patch: v3(0, 0, 0) };
    assert_eq!(measured.right, unsupported);
    // Another part of the robot is not the ground.
    let own = measure_contacts(&vec![c("L", "R", 5, 90), c("arm", "L", 5, 90)], "L", "R");
    assert_eq!((own.left, own.right), (unsupported, unsupported));
    // A micronewton does not support a foot; two do.
    assert_eq!(measure_contacts(&vec![c("", "L", 5, 1)], "L", "R").left, unsupported);
    assert_eq!(measure_contacts(&vec![c("", "L", -5, 2)], "L", "R").left.patch, v3(-5, 0, 1));
}

#[test]
fn pressure_is_given_in_the_soles_frame() {
    // Turned a quarter to the left: ahead is along y.
    let foot = AnchorPose {
        pos: v3(1_000, 2_000, 0),
        row0: v3(0, -1_000_000_000, 0),
        row1: v3(1_000_000_000, 0, 0),
        row2: v3(0, 0, 1_000_000_000),
    };
    let g = FootGround { fx: 0, fy: 0, fz: 7, patch: v3(900, 2_050, 0) };
    assert_eq!(g.cop(&foot, 20), (30, 100, 7));
    let up = FootGround { fz: 0, ..g };
    assert_eq!(up.cop(&foot, 20), (0, 0, 0));
}

// Estimator.

#[test]
fn estimator_finds_its_feet() {
    let feet = ["left_foot_link", "right_foot_link", "tail", "torso"].map(|n| n.to_string());
    let lkf = LkfPipeline::new(feet, &walker_index());
    assert_eq!(lkf.foot_idx, [Some(2), Some(3), None, Some(1)]);
    assert_eq!(lkf.contact_force_threshold, CONTACT_FORCE_THRESHOLD);
    let flags = lkf.contact_flags(&[5_000_000, 5_000_001, 0, -9]);
    assert_eq!(flags, [false, true, false, false]);
}

#[test]
fn estimator_coordinates_have_the_body_at_the_origin() {
    let neutral = vec![9, 9, 9, 9, 9, 9, 9, 0, 0];
    let q = coordinates(&walker_map(), &neutral, &[1, 2, 3, 4], &vec![50, 60], 0);
    assert_eq!(q, vec![0, 0, 0, 1, 2, 3, 4, 50, 60]);
    assert_eq!(rates(&walker_map(), &vec![7, 8]), vec![0, 0, 0, 0, 0, 0, 7, 8]);
    let (q, qd) = joint_state(&vec![Some((1, 2)), None], 0);
    assert_eq!((q, qd), (vec![1, 0], vec![2, 0]));
}

#[test]
fn estimator_inputs_are_those_of_the_feet() {
    let feet = [
        "left_foot_link".to_string(),
        "right_foot_link".to_string(),
        "missing".to_string(),
        "torso".to_string(),
    ];
    let lkf = LkfPipeline::new(feet, &walker_index());
    let offsets = vec![v3(0, 0, 1), v3(0, 0, 2), v3(0, 0, 3), v3(0, 0, 4)];
    let velocities = vec![v3(1, 0, 0), v3(2, 0, 0), v3(3, 0, 0), v3(4, 0, 0)];
    let forces = [5_000_001, 0, 9_000_000, 5_000_000];
    let r = lkf.inputs(&offsets, &velocities, &forces, v3(7, 8, 9), 2_000);
    assert_eq!(r.dt, 2_000);
    assert_eq!(r.accel_world, v3(7, 8, 9));
    assert_eq!(r.foot_pos_world_offset, [v3(0, 0, 3), v3(0, 0, 4), v3(0, 0, 0), v3(0, 0, 2)]);
    assert_eq!(r.foot_vel_world, [v3(3, 0, 0), v3(4, 0, 0), v3(0, 0, 0), v3(2, 0, 0)]);
    assert_eq!(r.contact_flag, [true, false, true, false]);
}

// Plant state.

const ONE: i64 = 1_000_000_000;

fn unturned(pos: Vec3) -> AnchorPose {
    AnchorPose { pos, row0: v3(ONE, 0, 0), row1: v3(0, ONE, 0), row2: v3(0, 0, ONE) }
}

/// Torso and left foot carry the mass; the foot is turned a quarter to the left.
fn loaded_rig() -> (BipedRig, Vec<AnchorPose>) {
    let mut rig = walker_rig();
    assert_eq!(rig.mass_links.len(), 2);
    rig.mass_links[0].com_local = v3(6, 0, 0);
    rig.mass_links[1].com_local = v3(0, -60, 0);
    let foot = AnchorPose {
        pos: v3(12, 0, 0),
        row0: v3(0, -ONE, 0),
        row1: v3(ONE, 0, 0),
        row2: v3(0, 0, ONE),
    };
    (rig, vec![unturned(v3(0, 0, 0)), unturned(v3(0, 0, 1_000_000)), foot, unturned(v3(0, 0, 0))])
}

fn still(nv: usize) -> LinkMotion {
    LinkMotion {
        jacobian: vec![vec![0; nv]; 6],
        djv_ang: v3(0, 0, 0),
        djv_lin: v3(0, 0, 0),
        omega: v3(0, 0, 0),
    }
}

#[test]
fn the_turn_that_is_left_is_about_the_worlds_axes() {
    let now = unturned(v3(0, 0, 0));
    let still = Orientation::towards(&now, &now, v3(1, 2, 3), 20, 2);
    assert_eq!(still, Orientation { e: v3(0, 0, 0), omega: v3(1, 2, 3), kp: 20, kd: 2 });
    // Six tenths to the left about the vertical.
    let target = AnchorPose {
        row0: v3(800_000_000, -600_000_000, 0),
        row1: v3(600_000_000, 800_000_000, 0),
        ..now
    };
    let left = Orientation::towards(&target, &now, v3(0, 0, 0), 1, 1);
    assert_eq!(left.e, v3(0, 0, 600_000));
    assert_eq!(now.small_turn(&target), v3(0, 0, -600_000_000));
}

#[test]
fn soles_are_found_from_the_feet() {
    let (_, mut poses) = loaded_rig();
    // The left foot is turned a quarter to the left: ahead is along y.
    poses[2].pos = v3(1_000_000, 2_000_000, 90_000_000);
    poses[3].pos = v3(-500, 0, 90_000_000);
    let r = Footsteps::from_fk(&poses, [2, 3], 30_000_000, 90_000_000);
    assert_eq!(r, Footsteps { left_x: 1_000, left_y: 32_000, right_x: 29_999, right_y: 0 });
}

#[test]
fn centre_of_mass_is_the_mass_average() {
    let (rig, poses) = loaded_rig();
    let com = rig.com_of(&poses);
    assert_eq!((com.x, com.y, com.z), (17, 0, 833_333));
}

#[test]
fn centre_of_mass_moves_with_the_body() {
    let (rig, poses) = loaded_rig();
    let moved: Vec<AnchorPose> = poses
        .iter()
        .map(|p| AnchorPose { pos: v3(p.pos.x - 100, p.pos.y + 7, p.pos.z), ..*p })
        .collect();
    let com = rig.com_of(&moved);
    assert_eq!((com.x, com.y, com.z), (-83, 7, 833_333));
}

#[test]
fn jacobian_is_shifted_to_the_links_own_centres() {
    let (rig, poses) = loaded_rig();
    let mut motions = vec![still(8), still(8)];
    for m in motions.iter_mut() {
        // Turning about the vertical, and sliding along x.
        m.jacobian[2][0] = ONE;
        m.jacobian[3][3] = 40;
    }
    let r = rig.com_state(&poses, &motions);
    assert_eq!(r.com.x, 17);
    assert_eq!(r.j_com.len(), 3);
    assert_eq!(r.j_com[0], vec![0, 0, 0, 40, 0, 0, 0, 0]);
    assert_eq!(r.j_com[1], vec![15, 0, 0, 0, 0, 0, 0, 0]);
    assert_eq!(r.j_com[2], vec![0; 8]);
    assert_eq!((r.djv_com.x, r.djv_com.y, r.djv_com.z), (0, 0, 0));
    let vel = r.com_vel(&vec![2, 0, 0, -3, 0, 0, 9, 9]);
    assert_eq!((vel.x, vel.y, vel.z), (-120, 30, 0));
}

#[test]
fn spinning_links_are_pulled_inward() {
    let (rig, poses) = loaded_rig();
    let mut motions = vec![still(8), still(8)];
    motions[0].omega = v3(0, 0, 2 * ONE);
    motions[1].djv_lin = v3(600, 0, 0);
    motions[1].djv_ang = v3(0, 0, ONE);
    let r = rig.com_state(&poses, &motions);
    assert_eq!((r.djv_com.x, r.djv_com.y, r.djv_com.z), (80, 10, 0));
}

#[test]
fn rotors_load_the_actuated_rows() {
    let v = vec![1, 1, 1, 1, 1, 1, 10, -5];
    let mut diagonal = vec![100i128; 8];
    let mut h = vec![7i128; 8];
    add_rotors(&walker_map(), &v, 3, 2, &mut diagonal, &mut h);
    assert_eq!(diagonal, vec![100, 100, 100, 100, 100, 100, 103, 103]);
    assert_eq!(h, vec![7, 7, 7, 7, 7, 7, 27, -3]);
}

#[test]
fn plant_state_becomes_coordinates() {
    let plant = Plant {
        body_pos: v3(1, 2, 3),
        body_quat: [4, 5, 6, 7],
        body_axes: [v3(0, ONE, 0), v3(-ONE, 0, 0), v3(0, 0, ONE)],
        v_lin_w: v3(5, 0, 0),
        v_ang_w: v3(0, 8, 9),
        joint_q: vec![70, 80],
        joint_qd: vec![Some(6_000_000), None],
    };
    let neutral = vec![9, 9, 9, 9, 9, 9, 9, 0, 0];
    let rig = walker_rig();
    let r = rig.sync(&plant, &neutral);
    assert_eq!(r.q, vec![1, 2, 3, 4, 5, 6, 7, 70, 80]);
    assert_eq!(r.v, vec![8, 0, 9, 0, -5, 0, 5_000_000, 0]);
    assert_eq!(rig.q_now(&plant, &neutral), r.q);
}
