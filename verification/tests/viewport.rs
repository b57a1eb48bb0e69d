//! The viewport: picking, dragging, the overlay, the support polygon, the tree.

use articara::editor::frame::{area_of, drag_area, press, Area, Pull, TitleButton, WindowCommand};
use articara::editor::indicator::{
    arrow_fins, axes_centre, axis_marks, dashes, gravity_centre, gravity_picture, has_direction,
    head_length, on_screen, tilt_text, Dash, Spot, ViewRows, GRAVITY_HEAD, GRAVITY_WING,
};
use articara::camera::{CameraEvents, CameraMode, OrbitCamera, TpsSettings, MAX_PITCH};
use articara::editor::balance::{
    draws_polygon, ground_height, stance_feet, support_corners, STANCE_TOLERANCE,
};
use articara::editor::display::{DisplayMode, MeshKind, PinDof, PinnedLink};
use articara::editor::drag::{
    auto_pin, chain_exponents, corrects_base, drive_joint, drive_joint_of, full_exponents,
    gizmo_anchor, ik_route, joint_deltas, release_pins, select_for_drive, select_link,
    start_ik_drag, start_offset_drag, start_single_drag, update_offset_drag, uses_element_axes,
    GizmoAnchor, IkRoute, OffsetMotion,
};
use articara::editor::edit::Edit;
use articara::editor::overlay::{
    body_label, format_force, fps_label, pulse_label, ratio_label, torque_label, velocity_label,
    click_wbc, collision_icon, force_unit, fps_band, group_contacts, marked_link, marker_label,
    ratio_band, ratio_fill, remaining, shows_ik_root, visual_icon, wbc_label, yaw_band, Band,
    Contact, ForceUnit, ToolButton, Toolbar, ViewState,
};
use articara::editor::sim_drag::{
    end_sim_drag, sim_drag_label, sim_drag_step, start_sim_drag, takes_press, SimDragMode,
    SimDragStart, SimDragStep,
};
use articara::editor::state::{DragMode, GizmoOp, InteractionMode, OffsetTarget, Selection};
use articara::editor::tree::{
    can_remove, change_joint_type, children_of, click_joint, click_link, deleted, joint_label,
    link_marks, open_joint_menu, open_link_menu, opens, removal_description, removed, AddChild,
};
use articara::editor::viewport::{
    cursor, drag_description, drag_owner, gizmo_code, highlight, hovered_axis, hovered_link,
    other_camera, pressed_link, route, wipe_label, AxisPass, Cursor, DragOwner, Held, PickB,
    PointerEvents,
};
use articara::joint_map::JointMap;
use articara::robot::{
    ActuatorMode, CollisionData, Color, GeomData, JointData, LinkData, Placement, Quat,
    RobotModel, Vec3, VisualData,
};
use articara::text::{
    contains, decimal, first_word, join, lines_of, longest_common_prefix, same_ignoring_case, trim,
};

fn v(x: i64, y: i64, z: i64) -> Vec3 {
    Vec3 { x, y, z }
}

fn link(name: &str, visuals: usize, collisions: usize) -> LinkData {
    let geometry = || GeomData::Box { hx: 10_000_000, hy: 20_000_000, hz: 30_000_000 };
    LinkData {
        name: name.to_string(),
        mass: 1_000_000,
        com: v(0, 0, 0),
        visuals: (0..visuals)
            .map(|_| VisualData {
                origin: Placement::identity(),
                geometry: geometry(),
                color: Color { r: 1, g: 2, b: 3, a: 4 },
            })
            .collect(),
        collisions: (0..collisions)
            .map(|_| CollisionData { origin: Placement::identity(), geometry: geometry() })
            .collect(),
    }
}

fn joint(name: &str, kind: &str, parent: &str, child: &str) -> JointData {
    JointData {
        name: name.to_string(),
        joint_type: kind.to_string(),
        parent_link: parent.to_string(),
        child_link: child.to_string(),
        origin: Placement::identity(),
        axis: v(0, 0, 1_000_000_000),
        lower: -500_000,
        upper: 500_000,
        effort: 0,
        velocity: 0,
        actuator_mode: ActuatorMode::Position,
        actuator_kp: 0,
        actuator_kv: 0,
        armature: 0,
        joint_damping: 0,
    }
}

/// A base, a turning upper arm, and a tip that is fixed to it.
fn robot() -> RobotModel {
    RobotModel {
        name: "arm".to_string(),
        links: vec![link("base", 0, 1), link("upper", 2, 0), link("tip", 1, 1)],
        joints: vec![
            joint("shoulder", "revolute", "base", "upper"),
            joint("mount", "fixed", "upper", "tip"),
        ],
        root_link: "base".to_string(),
        source_path: None,
        joint_positions: vec![100_000, 0],
        collision_pairs: vec![],
    }
}

fn sel(link: Option<usize>, joint: Option<usize>) -> Selection {
    Selection { link, joint, visual: None, collision: None }
}

// ---------------------------------------------------------------- selecting

#[test]
fn clicking_a_link_starts_with_its_first_shapes() {
    let model = robot();
    let drive = InteractionMode::JointDrive;
    let once = select_link(&model, Selection::none(), 1, drive, OffsetTarget::Visual);
    assert_eq!(
        once,
        Selection { link: Some(1), joint: Some(0), visual: Some(0), collision: None }
    );
    // A second click keeps the shape that was chosen.
    let chosen = Selection { visual: Some(1), ..once };
    assert_eq!(select_link(&model, chosen, 1, drive, OffsetTarget::Visual), chosen);
    let adjust = InteractionMode::OffsetAdjust;
    let shape = select_link(&model, once, 2, adjust, OffsetTarget::Visual);
    assert_eq!(
        shape,
        Selection { link: Some(2), joint: None, visual: Some(0), collision: Some(0) }
    );
    assert_eq!(select_for_drive(&model, chosen, 0), Selection { link: Some(0), joint: None, ..chosen });
}

#[test]
fn the_gizmo_stands_on_the_selection() {
    let model = robot();
    let adjust = InteractionMode::OffsetAdjust;
    let s = Selection { link: Some(2), joint: Some(1), visual: Some(0), collision: Some(5) };
    assert_eq!(
        gizmo_anchor(&model, &s, adjust, OffsetTarget::Joint),
        Some(GizmoAnchor::Joint(1))
    );
    assert_eq!(
        gizmo_anchor(&model, &s, adjust, OffsetTarget::Visual),
        Some(GizmoAnchor::Visual(2, 0))
    );
    assert_eq!(gizmo_anchor(&model, &s, adjust, OffsetTarget::Collision), None);
    assert_eq!(
        gizmo_anchor(&model, &s, InteractionMode::JointDrive, OffsetTarget::Joint),
        None
    );
    assert!(!uses_element_axes(GizmoOp::Translate));
    assert!(uses_element_axes(GizmoOp::Rotate));
    assert!(uses_element_axes(GizmoOp::Scale));
}

#[test]
fn a_gizmo_drag_counts_from_where_it_began() {
    let mut model = robot();
    model.joints[0].origin.translation = v(10, 20, 30);
    let adjust = InteractionMode::OffsetAdjust;
    let s = sel(Some(1), Some(0));
    let drag = start_offset_drag(
        &model, &s, adjust, OffsetTarget::Joint, GizmoOp::Translate, 2, (),
    )
    .unwrap();
    update_offset_drag(&mut model, &drag, OffsetMotion::Translate(v(0, 0, 5)));
    update_offset_drag(&mut model, &drag, OffsetMotion::Translate(v(1, 0, 7)));
    assert_eq!(model.joints[0].origin.translation, v(11, 20, 37));
    let turned = Quat { i: 0, j: 0, k: 707_106_781, w: 707_106_781 };
    update_offset_drag(&mut model, &drag, OffsetMotion::Rotate(turned));
    assert_eq!(model.joints[0].origin.rotation, turned);
    assert_eq!(model.joints[0].origin.translation, v(11, 20, 37));
}

#[test]
fn a_scale_drag_changes_the_shape() {
    let mut model = robot();
    let s = Selection { link: Some(2), joint: None, visual: Some(0), collision: Some(0) };
    let drag = start_offset_drag(
        &model,
        &s,
        InteractionMode::OffsetAdjust,
        OffsetTarget::Collision,
        GizmoOp::Scale,
        0,
        (),
    )
    .unwrap();
    assert_eq!(drag.initial_params, [10_000_000, 20_000_000, 30_000_000]);
    update_offset_drag(&mut model, &drag, OffsetMotion::Scale(3_000_000));
    assert_eq!(
        model.links[2].collisions[0].geometry,
        GeomData::Box { hx: 13_000_000, hy: 20_000_000, hz: 30_000_000 }
    );
    assert_eq!(
        model.links[2].visuals[0].geometry,
        GeomData::Box { hx: 10_000_000, hy: 20_000_000, hz: 30_000_000 }
    );
}

// ---------------------------------------------------------------- driving joints

#[test]
fn a_fixed_link_is_driven_by_the_joint_above() {
    let model = robot();
    assert_eq!(drive_joint_of(&model, "tip"), Some(0));
    assert_eq!(drive_joint_of(&model, "upper"), Some(0));
    assert_eq!(drive_joint_of(&model, "base"), None);
    let drag = start_single_drag(&model, 2, ()).unwrap();
    assert_eq!(drag.joint_idx, 0);
    assert_eq!(drag.mode, DragMode::SingleJoint);
    assert!(start_single_drag(&model, 0, ()).is_none());
}

#[test]
fn a_driven_joint_stops_at_its_limits() {
    let mut model = robot();
    drive_joint(&mut model, 0, 250_000);
    assert_eq!(model.joint_positions, vec![350_000, 0]);
    drive_joint(&mut model, 0, 250_000);
    assert_eq!(model.joint_positions, vec![500_000, 0]);
    drive_joint(&mut model, 0, i64::MIN);
    assert_eq!(model.joint_positions, vec![-500_000, 0]);
    // A drag that does not move leaves even a joint past its limit alone.
    model.joint_positions[0] = 900_000;
    drive_joint(&mut model, 0, 0);
    assert_eq!(model.joint_positions, vec![900_000, 0]);
}

#[test]
fn a_chain_drag_needs_something_to_move_or_hold() {
    let model = robot();
    let no_pins: Vec<PinnedLink<u8>> = vec![];
    assert!(start_ik_drag(&model, 0, vec![], &None, &no_pins, &vec![], 0, ()).is_none());
    assert!(start_ik_drag(&model, 0, vec![], &None, &no_pins, &vec![], 1, ()).is_some());
    let root = Some("base".to_string());
    let d = start_ik_drag(&model, 2, vec![0, 1], &root, &no_pins, &vec![], 0, ()).unwrap();
    assert_eq!(d.joint_idx, 1);
    assert_eq!(d.ee_link, "tip");
    assert_eq!(d.ik_root_link.as_deref(), Some("base"));
    assert_eq!(d.ref_positions, vec![100_000, 0]);
}

#[test]
fn links_that_keep_their_pose_are_pinned_while_dragging() {
    let model = robot();
    let heads = vec!["tip".to_string(), "upper".to_string(), "ghost".to_string()];
    let mut pins: Vec<PinnedLink<i32>> = vec![];
    let at = vec![10, 20, 30];
    let added = auto_pin(&mut pins, &heads, "upper", &model, &at, PinDof::Position);
    assert_eq!(added, vec!["tip".to_string()]);
    assert_eq!(pins.len(), 1);
    assert_eq!(pins[0].link_name, "tip");
    assert_eq!(pins[0].target, 30);
    assert_eq!(pins[0].dof, PinDof::Position);
    release_pins(&mut pins, &added);
    assert!(pins.is_empty());
}

#[test]
fn releasing_a_drag_keeps_the_users_pins() {
    let model = robot();
    let heads = vec!["tip".to_string(), "upper".to_string()];
    let own = PinnedLink { link_name: "tip".to_string(), target: 7, dof: PinDof::Position };
    let mut pins: Vec<PinnedLink<i32>> = vec![own];
    let at = vec![10, 20, 30];
    let added = auto_pin(&mut pins, &heads, "base", &model, &at, PinDof::Position);
    assert_eq!(added, vec!["upper".to_string()]);
    assert_eq!(pins.len(), 2);
    release_pins(&mut pins, &added);
    assert_eq!(pins.len(), 1);
    assert_eq!((pins[0].link_name.as_str(), pins[0].target), ("tip", 7));
}

#[test]
fn pins_decide_how_a_drag_is_solved() {
    assert_eq!(ik_route(3, 0, false), IkRoute::Chain);
    assert_eq!(ik_route(0, 0, true), IkRoute::Constrained);
    assert_eq!(ik_route(3, 1, false), IkRoute::Constrained);
    assert_eq!(ik_route(0, 1, true), IkRoute::Base);
    assert!(!corrects_base(0, 1));
    assert!(corrects_base(3, 1));
    assert!(corrects_base(0, 0));
}

#[test]
fn solutions_are_read_back_per_joint() {
    let map = JointMap {
        a2m: vec![Some(0), None, Some(1)],
        joint_nq: vec![1, 1],
        joint_nv: vec![1, 1],
        q_idx: vec![0, 1],
        v_idx: vec![0, 1],
        nq: 2,
        nv: 2,
    };
    assert_eq!(joint_deltas(&map, &vec![7, 8], 0), vec![7, 0, 8]);
    assert_eq!(joint_deltas(&map, &vec![7], 0), vec![7, 0, 0]);
    assert_eq!(chain_exponents(3), vec![2, 1, 0]);
    assert_eq!(full_exponents(&map, &vec![0, 1, 2]), vec![2, 0]);
    assert_eq!(full_exponents(&map, &vec![2]), vec![0, 0]);
    assert_eq!(full_exponents(&map, &vec![2, 1]), vec![1, 1]);
}

// ---------------------------------------------------------------- pointer

#[test]
fn hovering_waits_for_the_drag() {
    assert_eq!(hovered_link(Some(1), true, true, false, Some(2)), Some(2));
    assert_eq!(hovered_link(Some(1), true, true, true, Some(2)), Some(1));
    assert_eq!(hovered_link(Some(1), false, true, true, Some(2)), None);
    assert_eq!(pressed_link(None, Some(3)), Some(3));
    assert_eq!(pressed_link(Some(4), Some(3)), Some(4));
}

#[test]
fn the_nearest_axis_is_taken() {
    let pass = |along, dist| AxisPass { along, dist };
    let passes = [pass(10_000_000, 9_000_000), pass(20_000_000, 4_000_000), pass(90_000_000, 0)];
    assert_eq!(hovered_axis(GizmoOp::Translate, &passes), Some(1));
    assert_eq!(hovered_axis(GizmoOp::Rotate, &passes), Some(2));
    let far = pass(10_000_000, 12_000_000);
    assert_eq!(hovered_axis(GizmoOp::Scale, &[far, far, far]), None);
    let tie = pass(80_000_000, 1);
    assert_eq!(hovered_axis(GizmoOp::Scale, &[far, tie, tie]), Some(1));
}

#[test]
fn a_press_is_handled_once() {
    let press = PointerEvents { drag_started: true, clicked: false, dragged: true, released: false };
    let r = route(true, &press);
    assert!(r.pick_b && !r.start && !r.select && r.update);
    let r = route(false, &press);
    assert!(!r.pick_b && r.start && !r.select && r.update && !r.release);
    assert_eq!(drag_owner(true, true, true), DragOwner::Simulation);
    assert_eq!(drag_owner(false, true, true), DragOwner::Gizmo);
    assert_eq!(drag_owner(false, false, true), DragOwner::Joints);
    assert_eq!(drag_owner(false, false, false), DragOwner::Camera);
}

#[test]
fn the_second_link_of_a_loop_is_picked() {
    let model = robot();
    let mut pick = PickB { picking: true, link_b: None };
    assert_eq!(pick.click(false, Some(&model), Some(1), None), None);
    assert!(pick.picking);
    assert_eq!(
        pick.click(true, Some(&model), None, None).as_deref(),
        Some("Loop-closure pick: no link under cursor")
    );
    assert!(!pick.picking);
    pick.picking = true;
    assert_eq!(
        pick.click(true, Some(&model), None, Some(2)).as_deref(),
        Some("Loop-closure link B = 'tip'")
    );
    assert_eq!(pick.link_b, Some(2));
}

#[test]
fn drags_are_undo_steps() {
    let at = GizmoAnchor::Visual(0, 0);
    assert_eq!(
        drag_description(false, Held::Gizmo(at, GizmoOp::Rotate)).as_deref(),
        Some("Rotate visual origin")
    );
    assert_eq!(
        drag_description(false, Held::Joints(DragMode::SingleJoint)).as_deref(),
        Some("Drive joint")
    );
    assert_eq!(
        drag_description(false, Held::Joints(DragMode::InverseKinematics)).as_deref(),
        Some("IK drag")
    );
    assert_eq!(drag_description(true, Held::Gizmo(at, GizmoOp::Rotate)), None);
    assert_eq!(drag_description(false, Held::Nothing), None);
}

#[test]
fn what_is_lit_and_what_the_pointer_shows() {
    let model = robot();
    let s = sel(Some(0), None);
    assert_eq!(highlight(Some(&model), Some(2), Some(1), &s).as_deref(), Some("tip"));
    assert_eq!(highlight(Some(&model), None, Some(1), &s).as_deref(), Some("upper"));
    assert_eq!(highlight(Some(&model), None, None, &s).as_deref(), Some("base"));
    assert_eq!(highlight(None, None, None, &s), None);
    assert_eq!(marked_link(&s, None, Some(1)), Some(0));
    assert_eq!(marked_link(&s, Some(0), None), None);
    assert_eq!(gizmo_code(GizmoOp::Scale), 2);
    let drive = InteractionMode::JointDrive;
    let at = |li| cursor(Some(&model), false, false, li, drive, DragMode::SingleJoint, 0, 0);
    assert_eq!(at(Some(1)), Cursor::Grab);
    assert_eq!(at(Some(2)), Cursor::Default);
    assert_eq!(at(None), Cursor::Default);
    let ik = DragMode::InverseKinematics;
    assert_eq!(cursor(Some(&model), false, false, Some(0), drive, ik, 0, 1), Cursor::Grab);
    assert_eq!(cursor(Some(&model), true, false, None, drive, ik, 0, 0), Cursor::Grabbing);
    assert_eq!(cursor(None, false, true, None, drive, ik, 0, 0), Cursor::Grab);
}

#[test]
fn two_cameras() {
    assert_eq!(CameraMode::ALL.len(), 2);
    for mode in CameraMode::ALL {
        assert_ne!(other_camera(mode), mode);
    }
    assert_eq!(CameraMode::Free.label(), "Free orbit");
    assert_eq!(CameraMode::Tps.label(), "TPS (follow)");
    assert_eq!(wipe_label(CameraMode::Free), "TPS");
    assert_eq!(wipe_label(CameraMode::Tps), "Free");
}

#[test]
fn the_pointer_moves_the_camera() {
    let still = CameraEvents { orbit: None, pan: None, pan_middle: None, scroll: 0 };
    let mut c = OrbitCamera::new();
    c.handle_orbit_pan_zoom(&still, 0, 1_000_000_000);
    assert_eq!(c, OrbitCamera::new());
    // An eighth of a turn high, from a millimetre to a hundred metres.
    assert_eq!((c.fov_y, c.near, c.far), (785_398, 1_000_000, 100_000_000_000));
    // Ten pixels across and down.
    let ev = CameraEvents { orbit: Some((10_000, 10_000)), ..still };
    c.handle_orbit_pan_zoom(&ev, 0, 1_000_000_000);
    assert_eq!((c.yaw, c.pitch), (785_398 - 50_000, 550_000));
    let ev = CameraEvents { orbit: Some((0, 1_000_000)), ..still };
    c.handle_orbit_pan_zoom(&ev, 0, 1_000_000_000);
    assert_eq!(c.pitch, MAX_PITCH);
    // At 0.8 m ten pixels pan 16 mm; facing along x, across is along y.
    let ev = CameraEvents { pan: Some((10_000, 20_000)), ..still };
    c.handle_orbit_pan_zoom(&ev, 0, 1_000_000_000);
    assert_eq!(c.target, v(0, -16_000_000, 82_000_000));
    // With both buttons down the camera moves twice as far.
    let ev = CameraEvents { pan: Some((10_000, 0)), pan_middle: Some((10_000, 0)), ..still };
    c.handle_orbit_pan_zoom(&ev, 0, 1_000_000_000);
    assert_eq!(c.target, v(0, -48_000_000, 82_000_000));
    // Fifty notches of the wheel come a tenth nearer.
    let ev = CameraEvents { scroll: 50_000, ..still };
    c.handle_orbit_pan_zoom(&ev, 0, 1_000_000_000);
    assert_eq!(c.distance, 720_000_000);
    let ev = CameraEvents { scroll: 900_000, ..still };
    c.handle_orbit_pan_zoom(&ev, 0, 1_000_000_000);
    assert_eq!(c.distance, 10_000_000);
    c.reset();
    assert_eq!(c, OrbitCamera::new());
}

#[test]
fn the_eye_is_at_the_distance() {
    let c = OrbitCamera { target: v(1_000, 2_000, 3_000), ..OrbitCamera::new() };
    let one = 1_000_000_000;
    assert_eq!(c.eye((0, one), (0, one)), v(800_001_000, 2_000, 3_000));
    assert_eq!(c.eye((one, 0), (0, one)), v(1_000, 800_002_000, 3_000));
    assert_eq!(c.eye((0, one), (one, 0)), v(1_000, 2_000, 800_003_000));
    // 3-4-5: six tenths up, eight tenths out, backwards.
    let r = c.eye((0, -one), (600_000_000, 800_000_000));
    assert_eq!(r, v(-639_999_000, 2_000, 480_003_000));
}

#[test]
fn the_trailing_camera_is_behind_the_body() {
    let mut c = OrbitCamera::new();
    let settings = TpsSettings { yaw_offset: 100, ..TpsSettings::default() };
    c.update_from_tps(v(1, 2, 3), 1_000_000, &settings);
    assert_eq!(c.target, v(1, 2, 3));
    assert_eq!((c.yaw, c.pitch, c.distance), (4_141_693, 350_000, 1_200_000_000));
    let near = TpsSettings { distance: 1, ..TpsSettings::default() };
    c.update_from_tps(v(0, 0, 0), 0, &near);
    assert_eq!(c.distance, 50_000_000);
    // The lens is left alone.
    let wide = OrbitCamera { fov_y: 1, near: 2, far: 3, ..c };
    let mut trailing = wide;
    trailing.update_from_tps(v(1, 2, 3), 1_000_000, &settings);
    assert_eq!((trailing.fov_y, trailing.near, trailing.far), (1, 2, 3));
}

#[test]
fn a_drag_swings_the_trailing_camera_as_it_turns_a_free_one() {
    let mut settings = TpsSettings { yaw_offset: 100, ..TpsSettings::default() };
    let mut c = OrbitCamera::new();
    c.update_from_tps(v(1, 2, 3), 1_000_000, &settings);
    let mut free = c;
    let drag =
        CameraEvents { orbit: Some((2_000, 0)), pan: None, pan_middle: None, scroll: 0 };
    free.handle_orbit_pan_zoom(&drag, 0, 1_000_000_000);
    settings.swing((2_000, 7));
    assert_eq!((settings.yaw_offset, settings.pitch_offset), (-9_900, 350_000));
    c.update_from_tps(v(1, 2, 3), 1_000_000, &settings);
    assert_eq!(c, free);
}

// ---------------------------------------------------------------- simulation

#[test]
fn the_simulation_takes_presses_while_it_runs() {
    let model = robot();
    assert!(takes_press(true, InteractionMode::JointDrive));
    assert!(!takes_press(true, InteractionMode::OffsetAdjust));
    assert!(!takes_press(false, InteractionMode::JointDrive));
    let was = Selection::none();
    let start = |takes, li, mode, chain| start_sim_drag(takes, &model, li, mode, chain, &None, was, ());
    assert!(matches!(start(false, Some(1), SimDragMode::Force, vec![]), SimDragStart::NotTaken));
    assert!(matches!(start(true, None, SimDragMode::Force, vec![]), SimDragStart::NotTaken));
    match start(true, Some(1), SimDragMode::Posture, vec![]) {
        SimDragStart::NoChain(t) => {
            assert_eq!(t, "(no IK chain to 'upper', cannot run posture drag)")
        }
        _ => panic!("a posture drag needs a chain"),
    }
    match start(true, Some(1), SimDragMode::Force, vec![0]) {
        SimDragStart::Started(d, s) => {
            assert_eq!(s, sel(Some(1), Some(0)));
            assert!(d.chain.is_empty());
            assert_eq!(sim_drag_step(&d, true, true, true), (SimDragStep::Push, true));
            assert_eq!(sim_drag_step(&d, true, true, false), (SimDragStep::Idle, false));
            assert_eq!(end_sim_drag(Some(d)).as_deref(), Some("upper"));
        }
        _ => panic!("the drag starts"),
    }
    match start(true, Some(2), SimDragMode::Posture, vec![0]) {
        SimDragStart::Started(d, _) => {
            assert_eq!(sim_drag_step(&d, true, true, true), (SimDragStep::Steer, true));
            assert_eq!(end_sim_drag(Some(d)), None);
        }
        _ => panic!("the drag starts"),
    }
    assert_eq!(sim_drag_label(SimDragMode::Force), "Force drag");
    assert_eq!(sim_drag_label(SimDragMode::Posture), "Posture drag");
}

// ---------------------------------------------------------------- support polygon

#[test]
fn feet_near_the_ground_stand() {
    let feet = vec![v(0, 0, 5_000_000), v(1, 0, 6_000_000), v(2, 0, 9_000_000)];
    let ground = ground_height(false, 77, &feet);
    assert_eq!(ground, 5_000_000);
    assert_eq!(ground_height(true, 77, &feet), 77);
    assert_eq!(ground_height(false, 77, &vec![]), 0);
    assert_eq!(stance_feet(&feet, ground), vec![feet[0], feet[1]]);
    let edge = vec![v(0, 0, STANCE_TOLERANCE), v(0, 0, STANCE_TOLERANCE - 1)];
    assert_eq!(stance_feet(&edge, 0), vec![edge[1]]);
    assert!(draws_polygon(true, 3));
    assert!(!draws_polygon(true, 2));
    assert!(!draws_polygon(false, 4));
}

#[test]
fn corners_go_round_counterclockwise() {
    // Front left, front right, rear left, rear right.
    let feet = vec![v(20, 10, 0), v(20, -10, 0), v(-20, 10, 0), v(-20, -10, 0)];
    assert_eq!(support_corners(&feet), vec![3, 1, 0, 2]);
    // Straight behind comes last, straight ahead in the middle.
    let cross = vec![v(-6, 0, 0), v(6, 0, 0), v(0, 6, 0), v(0, -6, 0)];
    assert_eq!(support_corners(&cross), vec![3, 1, 2, 0]);
    assert_eq!(support_corners(&vec![]), Vec::<usize>::new());
}

// ---------------------------------------------------------------- overlay

#[test]
fn a_view_starts_out_plain() {
    let view = ViewState::default();
    assert!(!view.show_com && !view.show_ground_plane && !view.wireframe);
    assert!(view.show_gravity_arrow);
    assert_eq!(view.ground_size, 2_000_000_000);
    assert_eq!(view.gravity_dir, v(0, 0, -1_000_000_000));
    assert_eq!(view.com_scale, 10_000);
    assert_eq!(view.visual_mode, DisplayMode::Solid);
    assert_eq!(view.collision_mode, DisplayMode::Off);
    assert_eq!(view.link_display_modes.get("base", MeshKind::Visual), None);
}

#[test]
fn joints_are_not_scaled() {
    let mut bar = Toolbar {
        mode: InteractionMode::JointDrive,
        target: OffsetTarget::Visual,
        op: GizmoOp::Scale,
    };
    assert!(!bar.is_shown(ToolButton::Op(GizmoOp::Scale)));
    bar.click(ToolButton::Mode(InteractionMode::OffsetAdjust));
    assert!(bar.is_shown(ToolButton::Op(GizmoOp::Scale)));
    bar.click(ToolButton::Target(OffsetTarget::Joint));
    assert_eq!(bar.op, GizmoOp::Translate);
    assert!(!bar.is_shown(ToolButton::Op(GizmoOp::Scale)));
    bar.click(ToolButton::Op(GizmoOp::Rotate));
    bar.click(ToolButton::Target(OffsetTarget::Collision));
    assert_eq!(bar.op, GizmoOp::Rotate);
    assert_eq!(visual_icon(DisplayMode::Solid), "👁");
    assert_eq!(collision_icon(DisplayMode::Off), "ⓒ");
}

#[test]
fn indicators_have_bands() {
    assert_eq!(ratio_band(900_000), Band::Good);
    assert_eq!(ratio_band(899_999), Band::Fair);
    assert_eq!(ratio_band(599_999), Band::Poor);
    assert_eq!(ratio_fill(-1), 0);
    assert_eq!(ratio_fill(1_500_000), 1_000_000);
    assert_eq!(fps_band(25_000_000), Band::Fair);
    assert_eq!(yaw_band(-5_000_000), Band::Good);
    assert_eq!(yaw_band(-5_000_001), Band::Fair);
    assert_eq!(yaw_band(30_000_001), Band::Poor);
    assert_eq!(wbc_label(false, true), "WBC: — (CHAMP)");
    assert_eq!(wbc_label(true, true), "WBC: ON");
    assert_eq!(remaining(100, 30), 70);
    assert_eq!(remaining(100, 130), 0);
    assert_eq!(force_unit(999_999_999), ForceUnit::Newton);
    assert_eq!(force_unit(1_000_000_000), ForceUnit::Kilonewton);
    assert_eq!(force_unit(1_000_000_000_000), ForceUnit::Meganewton);
    assert!(shows_ik_root(InteractionMode::JointDrive, DragMode::InverseKinematics));
    assert!(!shows_ik_root(InteractionMode::JointDrive, DragMode::SingleJoint));
}

#[test]
fn whole_body_control_is_switched_in_the_predictive_mode() {
    let mut on = false;
    assert_eq!(click_wbc(false, &mut on), None);
    assert!(!on);
    assert_eq!(click_wbc(true, &mut on), Some("WBC ON — torques solved by 3-priority HoQp"));
    assert!(on);
    assert_eq!(
        click_wbc(true, &mut on),
        Some("WBC OFF — Position-PD + τ_ff path (proven baseline)")
    );
}

#[test]
fn contacts_gather_by_pair() {
    let contact = |a: &str, b: &str, x: i64| Contact {
        body1: a.to_string(),
        body2: b.to_string(),
        is_self: false,
        pos: v(x, 0, 0),
        force: v(0, 0, 10 * x),
    };
    let groups = group_contacts(&vec![
        contact("foot", "", 1),
        contact("arm", "leg", 2),
        contact("", "foot", 3),
    ]);
    assert_eq!(groups.len(), 2);
    assert_eq!((groups[0].body1.as_str(), groups[0].body2.as_str()), ("", "foot"));
    assert_eq!(groups[0].n, 2);
    assert_eq!(groups[0].pos_sum, [4, 0, 0]);
    assert_eq!(groups[0].force_sum, [0, 0, 40]);
    assert_eq!(groups.iter().map(|g| g.n).sum::<usize>(), 3);
    assert_eq!(marker_label(&groups[0], "12 N"), "12 N  world↔foot ×2");
    assert_eq!(marker_label(&groups[1], "3 N"), "3 N  arm↔leg");
}

// ---------------------------------------------------------------- tree

#[test]
fn the_tree_hangs_on_the_links() {
    let model = robot();
    assert_eq!(children_of(&model, "base"), vec![0]);
    assert_eq!(children_of(&model, "tip"), Vec::<usize>::new());
    assert_eq!(joint_label("shoulder", "revolute"), "shoulder [revolute]");
    let pins = vec![PinnedLink { link_name: "tip".to_string(), target: 0, dof: PinDof::Pose }];
    let marks = link_marks("tip", &Some("base".to_string()), &pins);
    assert!(marks.pinned && !marks.ik_root);
    let marks = link_marks("base", &Some("base".to_string()), &pins);
    assert!(!marks.pinned && marks.ik_root);
    assert_eq!(click_link(sel(None, Some(1)), Some(2)), sel(Some(2), None));
    assert_eq!(click_joint(sel(Some(2), None), 1), sel(None, Some(1)));
    let both = sel(Some(2), Some(1));
    assert_eq!(open_link_menu(both, Some(2)), both);
    assert_eq!(open_link_menu(both, Some(1)), sel(Some(1), None));
    assert_eq!(open_link_menu(both, None), both);
    assert_eq!(open_joint_menu(both, 1), both);
    assert_eq!(open_joint_menu(both, 0), sel(None, Some(0)));
}

#[test]
fn a_picked_link_is_revealed_in_the_tree() {
    let model = robot();
    let above = model.ancestor_links("tip");
    assert_eq!(above, vec!["upper".to_string(), "base".to_string()]);
    assert!(opens(&above, "base") && opens(&above, "upper"));
    // The link itself need not be open, and others are left as they are.
    assert!(!opens(&above, "tip") && !opens(&above, "elsewhere"));
    assert_eq!(model.ancestor_links("upper"), vec!["base".to_string()]);
    assert_eq!(model.ancestor_links("base"), Vec::<String>::new());
    assert!(!opens(&vec![], "base"));
    // A ring of joints has no root; the way up ends all the same.
    let mut ring = robot();
    ring.joints[0].parent_link = "tip".to_string();
    assert_eq!(ring.ancestor_links("tip").len(), ring.joints.len());
}

#[test]
fn the_menu_changes_joint_types() {
    let mut model = robot();
    let mut e = Edit::none();
    change_joint_type(&mut model, 0, "revolute", &mut e);
    assert!(e.description.is_none() && !e.rebuild);
    change_joint_type(&mut model, 0, "fixed", &mut e);
    assert_eq!(e.description.as_deref(), Some("Change joint 'shoulder' type to fixed"));
    assert!(e.rebuild && e.needs_upload);
    assert_eq!(model.joints[0].joint_type, "fixed");
}

#[test]
fn removing_links() {
    let model = robot();
    assert!(!can_remove(&model, "base"));
    assert!(can_remove(&model, "tip"));
    assert_eq!(removal_description("tip"), "Remove link 'tip'");
    let mut s = sel(Some(1), Some(0));
    let mut e = Edit::none();
    let refused: Result<Vec<String>, String> = Err("is the root".to_string());
    assert_eq!(removed(&refused, &mut s, &mut e), "Remove error: is the root");
    assert_eq!(s, sel(Some(1), Some(0)));
    let gone: Result<Vec<String>, String> = Ok(vec!["upper".to_string(), "tip".to_string()]);
    assert_eq!(removed(&gone, &mut s, &mut e), "Removed 2 link(s): upper, tip");
    assert_eq!(s, sel(None, None));
    assert!(e.needs_upload && e.description.is_none());
    let mut s = sel(Some(1), Some(0));
    let mut e = Edit::none();
    assert_eq!(
        deleted("upper", &refused, &mut s, &mut e).as_deref(),
        Some("Remove error: is the root")
    );
    assert_eq!(deleted("upper", &gone, &mut s, &mut e), None);
    assert_eq!(e.description.as_deref(), Some("Delete link 'upper'"));
    assert_eq!(s, sel(None, None));
}

fn form() -> AddChild {
    AddChild {
        shown: false,
        parent: String::new(),
        link_name: String::new(),
        joint_name: String::new(),
        joint_type_idx: 0,
        geom_type_idx: 1,
        geom_size: [30_000_000, 200_000_001, 0],
        joint_origin: v(1, 2, 3),
        joint_axis: v(0, 0, 1_000_000_000),
        joint_limits: [-700_000, 800_000],
        link_color: [100, 200, 300],
    }
}

#[test]
fn the_form_adds_a_child() {
    let model = robot();
    let mut f = form();
    assert!(!f.can_add());
    f.toggle(&model, None, "link_3", "joint_2");
    assert!(f.shown && f.can_add());
    assert_eq!(f.parent, "base");
    f.toggle(&model, None, "x", "y");
    assert!(!f.shown);
    assert_eq!(f.link_name, "link_3");
    f.toggle(&model, Some(2), "link_3", "joint_2");
    assert_eq!(f.parent, "tip");
    f.open_for("upper", "link_4", "joint_3");
    let child = f.execute();
    assert_eq!(child.parent, "upper");
    assert_eq!(child.joint_type, "revolute");
    assert_eq!(child.origin.translation, v(1, 2, 3));
    assert_eq!(
        child.geometry,
        GeomData::Cylinder { radius: 30_000_000, half_length: 100_000_000 }
    );
    assert_eq!(child.color, Color { r: 100, g: 200, b: 300, a: 1000 });
    assert_eq!((child.lower, child.upper), (-700_000, 800_000));
    f.joint_type_idx = 3;
    assert!(!f.has_limits());
    let child = f.execute();
    assert_eq!(child.joint_type, "continuous");
    assert_eq!((child.lower, child.upper), (0, 0));
    assert_eq!(f.description(), "Add child 'link_4'");
}

#[test]
fn additions_are_reported() {
    let mut f = form();
    f.open_for("upper", "link_4", "joint_3");
    let mut s = sel(None, Some(0));
    let mut e = Edit::none();
    let status = f.added(&Err("name taken".to_string()), "a", "b", &mut s, &mut e);
    assert_eq!(status, "Add error: name taken");
    assert!(f.shown && !e.needs_upload);
    let status = f.added(&Ok(7), "link_5", "joint_4", &mut s, &mut e);
    assert_eq!(status, "Added link 'link_4' + joint 'joint_3'");
    assert!(!f.shown && e.needs_upload);
    assert_eq!(f.link_name, "link_5");
    assert_eq!(s, sel(Some(7), None));
}

// ---------------------------------------------------------------- text

#[test]
fn words_and_lines() {
    assert!(contains("<mujoco model>", "<mujoco"));
    assert!(!contains("<muj", "<mujoco"));
    assert_eq!(trim(" \t é \n"), "é");
    assert_eq!(decimal(0), "0");
    assert_eq!(decimal(120_045), "120045");
    let parts = vec!["a".to_string(), "bc".to_string()];
    assert_eq!(join(&parts, ", "), "a, bc");
    assert_eq!(lines_of("one\ntwo\n"), vec!["one", "two"]);
    let names = vec!["joint_a".to_string(), "joint_b".to_string()];
    assert_eq!(longest_common_prefix(&names), "joint_");
    assert_eq!(first_word("  fl foot"), "fl");
    assert!(same_ignoring_case("FL_Hip", "fl_hip"));
    assert!(!same_ignoring_case("FL_Hip", "fr_hip"));
}

// Pictures in the corner.

const ONE: i64 = 1_000_000_000;

/// Looking along y: x is to the right and z up, and y points away.
fn from_the_front() -> ViewRows {
    ViewRows { right: v(ONE, 0, 0), up: v(0, 0, ONE), back: v(0, -ONE, 0) }
}

#[test]
fn up_in_the_world_is_up_on_the_screen() {
    let centre = Spot { x: 100_000, y: 200_000 };
    let view = from_the_front();
    assert_eq!(on_screen(&view, centre, &v(0, 0, ONE), 40_000), Spot { x: 100_000, y: 160_000 });
    let half = v(500_000_000, ONE, 0);
    assert_eq!(on_screen(&view, centre, &half, 40_000), Spot { x: 120_000, y: 200_000 });
}

#[test]
fn axes_are_drawn_by_depth() {
    let centre = Spot { x: 0, y: 0 };
    let marks = axis_marks(&from_the_front(), centre, 35_000);
    let order: Vec<usize> = marks.iter().map(|m| m.axis).collect();
    assert_eq!(order, vec![0, 2, 1]);
    assert_eq!(marks[0].tip, Spot { x: 35_000, y: 0 });
    assert_eq!(marks[1].tip, Spot { x: 0, y: -35_000 });
    assert_eq!(marks[2].tip, centre);
}

#[test]
fn every_other_part_is_a_dash() {
    let (a, b) = (Spot { x: 0, y: 0 }, Spot { x: 800, y: -80 });
    let ds = dashes(a, b, 8);
    assert_eq!(ds.len(), 4);
    assert_eq!(ds[0], Dash { from: a, to: Spot { x: 100, y: -10 } });
    assert_eq!(ds[3], Dash { from: Spot { x: 600, y: -60 }, to: Spot { x: 700, y: -70 } });
    assert_eq!(dashes(a, b, 1), vec![Dash { from: a, to: b }]);
    assert!(dashes(a, b, 0).is_empty());
    assert_eq!(dashes(a, b, 5).len(), 3);
}

#[test]
fn gravity_casts_a_shadow_when_it_leans() {
    let centre = gravity_centre(Spot { x: 1_000_000, y: 500_000 });
    assert_eq!(centre, Spot { x: 832_000, y: 440_000 });
    assert_eq!(axes_centre(Spot { x: 1_000_000, y: 500_000 }), Spot { x: 940_000, y: 440_000 });
    let down = gravity_picture(&from_the_front(), centre, &v(0, 0, -ONE));
    assert_eq!(down.axes.len(), 3);
    assert_eq!(down.tip, Spot { x: 832_000, y: 480_000 });
    assert!(down.shadow.is_none());
    let leaning = gravity_picture(&from_the_front(), centre, &v(600_000_000, 0, -800_000_000));
    assert_eq!(leaning.tip, Spot { x: 856_000, y: 472_000 });
    let shadow = leaning.shadow.unwrap();
    assert_eq!(shadow.foot, Spot { x: 856_000, y: 440_000 });
    assert_eq!((shadow.level.len(), shadow.drop.len()), (4, 3));
    assert_eq!(shadow.level[0].from, centre);
    assert_eq!(shadow.drop[0].from, shadow.foot);
    // A ten-thousandth is not enough.
    let upright = gravity_picture(&from_the_front(), centre, &v(100_000, 0, -ONE));
    assert!(upright.shadow.is_none());
    assert!(has_direction(&v(1_000, 0, 0)));
    assert!(!has_direction(&v(999, 0, 0)));
}

#[test]
fn arrowheads_point_along_the_line() {
    let (a, b) = arrow_fins(Spot { x: 50_000, y: 50_000 }, ONE, 0, GRAVITY_HEAD, GRAVITY_WING);
    assert_eq!((a, b), (Spot { x: 40_000, y: 45_000 }, Spot { x: 40_000, y: 55_000 }));
}

#[test]
fn heads_of_short_arrows_are_short() {
    assert_eq!(head_length(0), None);
    assert_eq!(head_length(10_000), Some(4_000));
    assert_eq!(head_length(20_000), Some(8_000));
    assert_eq!(head_length(60_000), Some(8_000));
}

#[test]
fn forces_are_written_with_a_unit() {
    assert_eq!(format_force(0), "0.0 N");
    assert_eq!(format_force(12_340_000), "12.3 N");
    assert_eq!(format_force(999_940_000), "999.9 N");
    assert_eq!(format_force(1_234_567_000), "1.23 kN");
    assert_eq!(format_force(33_490_000_000_000), "33.49 MN");
    assert_eq!(pulse_label(25_000_000, 1_255_000), "25.0 N \u{b7} 1.26s");
    assert_eq!(torque_label(1_500_000), "1.50 N\u{b7}m");
}

#[test]
fn the_rate_indicator_tells_rates_and_pose() {
    assert_eq!(ratio_label(973_000, 500), "MuJoCo 0.97  (486 / 500 Hz)");
    assert_eq!(fps_label(59_940_000), "UI  60 FPS");
    assert_eq!(
        body_label(-12_600_000, &v(1_005_000_000, -20_000_000, 300_000_000)),
        "Body: yaw=-13\u{b0}  pos=(+1.00, -0.02, +0.30)"
    );
    assert_eq!(velocity_label(&v(0, -1, 250_000_000)), "v=(+0.00, -0.00, +0.25) m/s");
}

#[test]
fn contacts_are_marked_in_their_middle() {
    let contact = |x: i64| Contact {
        body1: "b".to_string(),
        body2: "a".to_string(),
        is_self: true,
        pos: v(x, -x, 1),
        force: v(0, 0, 0),
    };
    let groups = group_contacts(&vec![contact(10), contact(21)]);
    assert_eq!(groups.len(), 1);
    assert_eq!(groups[0].centroid(), (15, -16, 1));
}

#[test]
fn tilts_are_written_in_tenths() {
    assert_eq!(tilt_text(0), "tilt 0\u{b0}");
    assert_eq!(tilt_text(499_999), "tilt 0\u{b0}");
    assert_eq!(tilt_text(500_000), "tilt 0.5\u{b0}");
    assert_eq!(tilt_text(12_340_000), "tilt 12.3\u{b0}");
    assert_eq!(tilt_text(12_250_000), "tilt 12.2\u{b0}");
    assert_eq!(tilt_text(12_350_000), "tilt 12.4\u{b0}");
    assert_eq!(tilt_text(179_980_000), "tilt 180.0\u{b0}");
}

// The window's frame.

#[test]
fn windows_are_resized_at_their_border() {
    let win = Area { x: 100, y: 200, w: 800_000, h: 600_000 };
    let corner = Area { x: 100, y: 200, w: 12_000, h: 12_000 };
    assert_eq!(area_of(&win, Pull::NorthWest), corner);
    assert_eq!(area_of(&win, Pull::NorthEast), Area { x: 788_100, ..corner });
    assert_eq!(area_of(&win, Pull::SouthWest), Area { y: 588_200, ..corner });
    assert_eq!(area_of(&win, Pull::SouthEast), Area { x: 788_100, y: 588_200, ..corner });
    let north = Area { x: 12_100, y: 200, w: 776_000, h: 5_000 };
    assert_eq!(area_of(&win, Pull::North), north);
    assert_eq!(area_of(&win, Pull::South), Area { y: 595_200, ..north });
    let west = Area { x: 100, y: 12_200, w: 5_000, h: 576_000 };
    assert_eq!(area_of(&win, Pull::West), west);
    assert_eq!(area_of(&win, Pull::East), Area { x: 795_100, ..west });
}

#[test]
fn the_title_bar_holds_three_buttons() {
    let bar = Area { x: 0, y: 0, w: 500_000, h: 28_000 };
    assert_eq!(drag_area(&bar), Area { w: 380_000, ..bar });
    let first = Area { x: 380_000, y: 0, w: 40_000, h: 28_000 };
    assert_eq!(TitleButton::Minimize.area(&bar), first);
    assert_eq!(TitleButton::Maximize.area(&bar), Area { x: 420_000, ..first });
    assert_eq!(TitleButton::Close.area(&bar), Area { x: 460_000, ..first });
    assert_eq!(press(TitleButton::Maximize, false), WindowCommand::Maximized(true));
    assert_eq!(press(TitleButton::Maximize, true), WindowCommand::Maximized(false));
    assert_eq!(press(TitleButton::Minimize, true), WindowCommand::Minimized(true));
    assert_eq!(press(TitleButton::Close, false), WindowCommand::Close);
}
