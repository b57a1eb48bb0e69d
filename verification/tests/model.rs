//! The robot model, its self-collisions, static loads and the head hold.

use articara::chicken_head::{ChickenHeadConfig, StabAxis};
use articara::collision::{has_self_collision, self_collision_hits, CollisionHit, GeometryPair};
use articara::dynamics::{
    analyze, compute_gravity_torques, compute_payload_capacity, joint_limits, start_payload_sim,
    step_payload_sim, Capacity, DynSim, GravityLoad, PayloadPhase,
};
use articara::joint_map::{pack_positions, pack_rates, pick_rows, JointMap, RATE_BOUND};
use articara::order::{descending, distinct_ascending};
use articara::robot::{
    ActuatorMode, CollisionPair, GeomData, JointData, LinkData, Placement, RobotModel, Vec3,
};

fn link(name: &str, mass: u64) -> LinkData {
    LinkData {
        name: name.to_string(),
        mass,
        com: Vec3 { x: 0, y: 0, z: 0 },
        visuals: vec![],
        collisions: vec![],
    }
}

fn joint(name: &str, kind: &str, parent: &str, child: &str) -> JointData {
    JointData {
        name: name.to_string(),
        joint_type: kind.to_string(),
        parent_link: parent.to_string(),
        child_link: child.to_string(),
        origin: Placement::identity(),
        axis: Vec3 { x: 0, y: 1_000_000_000, z: 0 },
        lower: -1_000_000,
        upper: 1_000_000,
        effort: 10_000_000,
        velocity: 0,
        actuator_mode: ActuatorMode::Position,
        actuator_kp: 50_000_000,
        actuator_kv: 5_000_000,
        armature: 0,
        joint_damping: 0,
    }
}

/// A base with two turning joints and a fixed tip.
fn arm() -> RobotModel {
    RobotModel {
        name: "arm".to_string(),
        links: vec![
            link("base", 2_000_000),
            link("upper", 1_000_000),
            link("lower", 500_000),
            link("tip", 1),
        ],
        joints: vec![
            joint("shoulder", "revolute", "base", "upper"),
            joint("elbow", "revolute", "upper", "lower"),
            joint("mount", "fixed", "lower", "tip"),
        ],
        root_link: "base".to_string(),
        source_path: None,
        joint_positions: vec![100, 200, 0],
        collision_pairs: vec![],
    }
}

/// The arm's joints behind a floating base; the fixed joint has no coordinate.
fn arm_map() -> JointMap {
    JointMap {
        a2m: vec![Some(2), Some(3), None],
        joint_nq: vec![0, 7, 1, 1],
        joint_nv: vec![0, 6, 1, 1],
        q_idx: vec![0, 0, 7, 8],
        v_idx: vec![0, 0, 6, 7],
        nq: 9,
        nv: 8,
    }
}

#[test]
fn total_mass_consistent() {
    let model = arm();
    let total: u128 = model.links.iter().map(|l| l.mass as u128).sum();
    assert_eq!(model.total_mass(), total);
    assert_eq!(total, 3_500_001);
}

#[test]
fn links_and_joints_are_found_by_name() {
    let model = arm();
    assert_eq!(model.link_index("lower"), Some(2));
    assert_eq!(model.link_index("none"), None);
    assert_eq!(model.joint_index("elbow"), Some(1));
    assert_eq!(model.joint_index(""), None);
    assert_eq!(model.parent_joint_of_link("tip"), Some(2));
    assert_eq!(model.parent_joint_of_link("base"), None);
}

#[test]
fn copies_of_shapes_are_equal() {
    let shapes = [
        GeomData::Box { hx: 1, hy: 2, hz: 3 },
        GeomData::Cylinder { radius: 4, half_length: 5 },
        GeomData::Sphere { radius: 6 },
        GeomData::Capsule { radius: 7, half_length: 8 },
        GeomData::Mesh { floats: 9, filename: Some("a.stl".to_string()) },
        GeomData::Mesh { floats: 9, filename: None },
    ];
    for s in &shapes {
        assert_eq!(s.duplicate(), *s);
        assert_eq!(s.is_mesh(), matches!(s, GeomData::Mesh { .. }));
    }
}

#[test]
fn a_pair_matches_in_either_order() {
    let pair = CollisionPair { link_a: "a".to_string(), link_b: "b".to_string(), enabled: true };
    assert!(pair.matches("a", "b"));
    assert!(pair.matches("b", "a"));
    assert!(!pair.matches("a", "a"));
}

#[test]
fn order_is_descending_and_stable() {
    assert_eq!(descending(&vec![3, 9, 3, -1, 9]), vec![1, 4, 0, 2, 3]);
    assert!(descending(&vec![]).is_empty());
    assert_eq!(distinct_ascending(&vec![5, 1, 5, 3, 1]), vec![1, 3, 5]);
}

#[test]
fn actuated_rows_lie_behind_the_base() {
    assert_eq!(arm_map().actuated(), vec![(0, 6), (1, 7)]);
    assert_eq!(arm_map().row_of(2), None);
    assert_eq!(arm_map().position_row(1), Some(8));
}

#[test]
fn coordinates_are_packed_by_row() {
    let neutral = vec![0i64, 0, 0, 0, 0, 0, 1, 50, 60];
    let base = [1i64, 2, 3, 4, 5, 6, 7];
    let q = pack_positions(&arm_map(), &neutral, &base, &vec![100, 200, 300]);
    assert_eq!(q, vec![1, 2, 3, 4, 5, 6, 7, 100, 200]);
}

#[test]
fn rates_are_kept_within_the_bound() {
    let base = [1i64, 2, 3, 4, 5, 6];
    let known = vec![Some(9_000_000), Some(-9_000_000), Some(1)];
    let v = pack_rates(&arm_map(), &base, &known, Some(RATE_BOUND));
    assert_eq!(v, vec![1, 2, 3, 4, 5, 6, 5_000_000, -5_000_000]);
    let v = pack_rates(&arm_map(), &base, &vec![None, Some(-9_000_000), None], None);
    assert_eq!(v, vec![1, 2, 3, 4, 5, 6, 0, -9_000_000]);
}

#[test]
fn actuated_rows_are_picked() {
    let full = vec![9, 9, 9, 9, 9, 9, 11, 12];
    assert_eq!(pick_rows(&full, &arm_map()), vec![11, 12]);
}

#[test]
fn pairs_become_hits_by_link_and_shape() {
    let map = vec![(0usize, 0usize), (1, 0), (1, 1)];
    let pair = |a: usize, b: usize, adjacent: bool| GeometryPair { a, b, adjacent };
    let pairs = vec![pair(0, 2, false), pair(0, 7, false)];
    let hits = self_collision_hits(&map, &pairs, false);
    assert_eq!(
        hits,
        vec![CollisionHit { link_a_idx: 0, collision_a_idx: 0, link_b_idx: 1, collision_b_idx: 1 }]
    );
    assert!(has_self_collision(&pairs, false));
    assert!(!has_self_collision(&vec![], false));
    assert!(arm().has_self_collision(&pairs, true));
    assert_eq!(arm().self_collision_hits(&map, &pairs, true), hits);
    // Where the map covers the pairs there is a hit for each; ignoring neighbours leaves
    // the others.
    let all = vec![pair(0, 1, true), pair(1, 2, false)];
    let (every, left) =
        (arm().self_collision_hits(&map, &all, false), arm().self_collision_hits(&map, &all, true));
    assert_eq!((every.len(), left.len()), (2, 1));
    assert_eq!(every[1], left[0]);
    assert!(arm().has_self_collision(&all, true) && arm().has_self_collision(&all, false));
    assert!(arm().self_collision_hits(&map, &vec![], false).is_empty());
}

/// What touches of two links with a sphere of radius one half each, the one on the other
/// and so far away from it.
fn two_spheres(offset_x: f32) -> Vec<GeometryPair> {
    if offset_x < 0.5 + 0.5 {
        vec![GeometryPair { a: 0, b: 1, adjacent: true }]
    } else {
        vec![]
    }
}

#[test]
fn self_collision_detected_for_overlapping_spheres() {
    let pairs = two_spheres(0.6);
    assert!(has_self_collision(&pairs, false));
    assert!(!self_collision_hits(&vec![(0, 0), (1, 0)], &pairs, false).is_empty());
}

#[test]
fn adjacent_pair_can_be_ignored() {
    let pairs = two_spheres(0.6);
    assert!(!has_self_collision(&pairs, true));
    assert!(self_collision_hits(&vec![(0, 0), (1, 0)], &pairs, true).is_empty());
}

#[test]
fn self_collision_not_detected_when_separated() {
    assert!(!has_self_collision(&two_spheres(2.0), false));
}

#[test]
fn only_positive_efforts_are_limits() {
    let mut model = arm();
    model.joints[1].effort = 0;
    let limits = joint_limits(&model.joints, &arm_map());
    assert_eq!(limits, vec![None, None, None, None, None, None, Some(10_000_000), None]);
}

fn loads() -> Vec<GravityLoad> {
    vec![
        GravityLoad { joint_idx: 2, gravity_torque: -4_000_000 },
        GravityLoad { joint_idx: 9, gravity_torque: 77 },
    ]
}

fn capacity(max_mass: i64) -> Option<Capacity> {
    Some(Capacity {
        max_mass,
        limiting_joint: 3,
        tau_per_kg: vec![0, 0, 0, 0, 0, 0, 500, 0],
    })
}

const M2A: [Option<usize>; 4] = [None, None, Some(0), Some(1)];

#[test]
fn gravity_torques_are_listed_for_movable_joints() {
    let table = compute_gravity_torques(&arm(), &arm_map(), &loads());
    assert_eq!(table.len(), 2);
    assert_eq!(table[0].joint_name, "shoulder");
    assert_eq!(table[0].gravity_torque, -4_000_000);
    assert_eq!(table[0].torque_margin, 6_000_000);
    assert_eq!(table[0].payload_torque_per_kg, 0);
    assert_eq!(table[1].joint_idx, 1);
    assert_eq!(table[1].gravity_torque, 0);
    assert_eq!(table[1].torque_margin, 10_000_000);
}

#[test]
fn payload_names_the_joint_that_gives_in() {
    let mut table = compute_gravity_torques(&arm(), &arm_map(), &loads());
    let positions = vec![10, 11, 12, 13];
    let cap = capacity(3_000_000);
    let r = compute_payload_capacity(
        &arm(),
        &arm_map(),
        &M2A.to_vec(),
        "lower",
        &cap,
        &positions,
        &mut table,
    )
    .unwrap();
    assert_eq!(r.max_mass, 3_000_000);
    assert_eq!(r.limiting_joint, "elbow");
    assert_eq!(r.ee_position, 12);
    assert_eq!(table[0].payload_torque_per_kg, 500);
    assert_eq!(table[1].payload_torque_per_kg, 0);
}

#[test]
fn no_payload_without_a_joint_or_a_capacity() {
    let positions = vec![0, 0, 0, 0];
    let m2a = M2A.to_vec();
    for (ee, cap) in [("base", capacity(1)), ("tip", capacity(1)), ("lower", None)] {
        let r = analyze(&arm(), &arm_map(), &m2a, Some(ee), &loads(), &cap, &positions);
        assert!(r.payload.is_none());
        assert_eq!(r.joint_torques[0].payload_torque_per_kg, 0);
    }
    let r = analyze(&arm(), &arm_map(), &m2a, None, &loads(), &capacity(1), &positions);
    assert!(r.payload.is_none());
    let r = analyze(&arm(), &arm_map(), &m2a, Some("upper"), &loads(), &capacity(1), &positions);
    assert!(r.payload.is_some());
    assert_eq!(r.joint_torques[0].payload_torque_per_kg, 500);
}

#[test]
fn payload_ramp_runs_through_its_phases() {
    let positions = vec![0, 0, 0, 0];
    let m2a = M2A.to_vec();
    let start = |max| {
        start_payload_sim(
            &arm(),
            &arm_map(),
            &m2a,
            "lower",
            &loads(),
            &capacity(max),
            &positions,
            'b',
            2_000_000,
        )
    };
    assert!(start(0).is_none());
    let mut sim = start(1_000).unwrap();
    assert_eq!((sim.ramp_duration, sim.hold_duration), (1_500_000, 1_000_000));
    assert_eq!(sim.saved_positions, vec![100, 200, 0]);
    assert_eq!(sim.saved_base_transform, 'b');

    let tau = vec![0, 0, 0, 0, 0, 0, 500, 0];
    let util = vec![(2, 900_000), (3, 100_000)];
    sim.phase_time = 500_000;
    assert_eq!(sim.mass_at_step(0), 333);
    assert!(step_payload_sim(&mut sim, &arm(), &arm_map(), &m2a, "lower", &util, &tau, 0));
    assert_eq!(sim.current_mass, 333);
    assert_eq!(sim.phase, PayloadPhase::Ramping);
    // The payload does not load the elbow's row: it keeps its idle colour.
    assert_eq!(sim.joint_utilisation, vec![(0, 900_000)]);

    sim.phase_time = 1_500_000;
    assert!(step_payload_sim(&mut sim, &arm(), &arm_map(), &m2a, "lower", &util, &tau, 0));
    assert_eq!((sim.phase, sim.phase_time, sim.current_mass), (PayloadPhase::Holding, 0, 1_000));
    sim.phase_time = 999_999;
    assert!(step_payload_sim(&mut sim, &arm(), &arm_map(), &m2a, "base", &vec![], &tau, 0));
    assert_eq!(sim.phase, PayloadPhase::Holding);
    assert_eq!(sim.joint_utilisation, vec![(0, 900_000)]);
    sim.phase_time = 1_000_000;
    assert!(step_payload_sim(&mut sim, &arm(), &arm_map(), &m2a, "lower", &util, &tau, 0));
    assert_eq!(sim.phase, PayloadPhase::Done);
    assert!(!step_payload_sim(&mut sim, &arm(), &arm_map(), &m2a, "lower", &util, &tau, 0));
    assert!(DynSim::Payload(sim).is_done());
    assert!(!DynSim::Payload(start(1_000).unwrap()).is_done());

    // Stepped by time alone: a second and a half of ramp, a second of hold.
    let mut timed = start(1_000).unwrap();
    let mut steps = 0;
    let mut masses = vec![];
    while step_payload_sim(&mut timed, &arm(), &arm_map(), &m2a, "lower", &util, &tau, 500_000) {
        masses.push(timed.current_mass);
        steps += 1;
    }
    assert_eq!(masses, vec![333, 666, 1_000, 1_000, 1_000]);
    assert_eq!((steps, timed.phase), (5, PayloadPhase::Done));
    // The clock stops at its end.
    let mut late = start(1_000).unwrap();
    late.phase_time = u64::MAX;
    assert!(step_payload_sim(&mut late, &arm(), &arm_map(), &m2a, "lower", &util, &tau, 1));
    assert_eq!((late.phase, late.phase_time), (PayloadPhase::Holding, 0));
}

// Head hold: angles in microradians.

fn cfg_pitch() -> ChickenHeadConfig {
    ChickenHeadConfig {
        enabled: true,
        joint_name: "arm_pitch_joint".to_string(),
        joint_idx: 0,
        axis: StabAxis::Pitch,
        axis_sign: 1,
        target_world_angle: 0,
        limit_lo: -2_300_000,
        limit_hi: 850_000,
        kp: 100,
        kd: 10,
    }
}

fn pitched(pitch: i64) -> Vec3 {
    Vec3 { x: 0, y: pitch, z: 0 }
}

#[test]
fn level_body_holds_at_target() {
    assert_eq!(cfg_pitch().target_angle(&pitched(0)), 0);
}

#[test]
fn compensates_body_pitch_one_for_one() {
    let cfg = cfg_pitch();
    let q = cfg.target_angle(&pitched(300_000));
    assert_eq!(q, -300_000);
    assert_eq!(300_000 + cfg.axis_sign as i64 * q, 0);
}

#[test]
fn nonzero_target_offsets_the_hold() {
    let mut cfg = cfg_pitch();
    cfg.target_world_angle = 200_000;
    assert_eq!(cfg.target_angle(&pitched(-100_000)), 300_000);
}

#[test]
fn clamps_to_joint_limits() {
    let mut cfg = cfg_pitch();
    cfg.target_world_angle = 5_000_000;
    assert_eq!(cfg.target_angle(&pitched(0)), cfg.limit_hi);
    cfg.target_world_angle = -5_000_000;
    assert_eq!(cfg.target_angle(&pitched(0)), cfg.limit_lo);
}

#[test]
fn negative_axis_sign_flips_command() {
    let mut cfg = cfg_pitch();
    cfg.axis_sign = -1;
    assert_eq!(cfg.target_angle(&pitched(300_000)), 300_000);
}

#[test]
fn velocity_feedforward_opposes_body_rate() {
    assert_eq!(cfg_pitch().target_velocity(&pitched(500_000)), -500_000);
}

#[test]
fn accel_task_drives_toward_reference() {
    let a = cfg_pitch().target_accel(&pitched(300_000), &pitched(0), 0, 0);
    assert_eq!(a, -30_000_000);
}

#[test]
fn yaw_axis_wraps_are_left_to_caller() {
    let mut cfg = cfg_pitch();
    cfg.axis = StabAxis::Yaw;
    cfg.limit_lo = -3_141_593;
    cfg.limit_hi = 3_141_593;
    assert_eq!(cfg.target_angle(&Vec3 { x: 0, y: 0, z: 400_000 }), -400_000);
}

#[test]
fn a_hold_is_read_from_the_robot() {
    let mut model = arm();
    model.joints[1].axis = Vec3 { x: -1_000_000_000, y: 0, z: 0 };
    let c = ChickenHeadConfig::for_joint(&model, "elbow", StabAxis::Roll).unwrap();
    assert!(!c.enabled);
    assert_eq!((c.joint_idx, c.axis_sign, c.kp, c.kd), (1, -1, 100, 10));
    assert_eq!((c.limit_lo, c.limit_hi, c.target_world_angle), (-1_000_000, 1_000_000, 0));
    assert_eq!(c.joint_name, "elbow");
    // No component along the axis counts as positive.
    let c = ChickenHeadConfig::for_joint(&model, "elbow", StabAxis::Yaw).unwrap();
    assert_eq!(c.axis_sign, 1);
    assert!(ChickenHeadConfig::for_joint(&model, "neck", StabAxis::Roll).is_none());
}
