//! Editing a robot: shapes, names, display modes, poses, sequences and files.

use articara::editor::display::{
    DisplayMode, DisplayModes, LinkRefs, MeshKind, PinDof, PinnedLink,
};
use articara::editor::edit::Edit;
use articara::editor::export::{
    base_name, export_base_name, export_file_name, export_handler, needs_sidecar, save_handler,
    ExportState, PendingExportAction, SaveTarget,
};
use articara::editor::overlay::Toolbar;
use articara::editor::panels::{
    can_apply_force, can_cancel_force, contact_table, contacts_title, count_validation,
    effort_unit, exclude_pair, limit_status, mode_label, pair_label, peak_rows, rate_unit,
    validation_stays, validation_title, window_title, ContactRow, LinkValidation,
    ValidationSeverity,
};
use articara::editor::poses::{
    all_poses_known, can_create, can_play, can_save, create_sequence, pick_step_pose,
    play_sequence, poses_frame, save_pose, sequence_label, sequences_frame, take_step, NamedPose,
    PoseEvents, Sequence, SequenceEvents, SequenceStep, StepAt, StepOf, STEP_DURATION,
};
use articara::editor::properties::{
    close_frame, density_input, has_actuator, is_marked, joint_frame, kp_editable,
    kp_editable_in_table, kv_editable, kv_editable_in_table, link_frame, movable_joints,
    pick_shape, set_joint_type, sync_joint_name, sync_link_name, wants_rename, JointEvents,
    LinkEvents, Rename,
};
use articara::editor::shapes::{
    add_collision, add_visual, apply_geom_scale, can_reduce, copy_visuals, decompose_collision,
    edit_collisions, edit_visuals, geom_params, mesh_label, triangle_count, Decomposition,
    NewShape, Reduction, ShapeEdits, MIN_DIM,
};
use articara::editor::state::{GizmoOp, InteractionMode, OffsetTarget, Selection};
use articara::format::{FormatRegistry, RobotFormat};
use articara::robot::{
    ActuatorMode, CollisionData, CollisionPair, Color, GeomData, JointData, LinkData, Placement,
    RobotModel, Vec3,
};

fn link(name: &str) -> LinkData {
    LinkData {
        name: name.to_string(),
        mass: 1_000_000,
        com: Vec3 { x: 0, y: 0, z: 0 },
        visuals: vec![],
        collisions: vec![],
    }
}

fn joint(name: &str, kind: &str, parent: &str, child: &str) -> JointData {
    JointData {
        name: name.to_string(),
        joint_type: kind.to_string(),
        parent_link: parent.to_string(),
        child_link: child.to_string(),
        origin: Placement::identity(),
        axis: Vec3 { x: 0, y: 0, z: 1_000_000_000 },
        lower: -1_000_000,
        upper: 1_000_000,
        effort: 0,
        velocity: 0,
        actuator_mode: ActuatorMode::Position,
        actuator_kp: 0,
        actuator_kv: 0,
        armature: 0,
        joint_damping: 0,
    }
}

fn robot() -> RobotModel {
    RobotModel {
        name: "arm".to_string(),
        links: vec![link("base"), link("upper"), link("tip")],
        joints: vec![
            joint("shoulder", "revolute", "base", "upper"),
            joint("mount", "fixed", "upper", "tip"),
        ],
        root_link: "base".to_string(),
        source_path: None,
        joint_positions: vec![0, 0],
        collision_pairs: vec![],
    }
}

fn quiet() -> ShapeEdits {
    ShapeEdits { changed: false, reduced: None, duplicate: None, remove: None }
}

fn calm() -> LinkEvents {
    LinkEvents {
        rename: None,
        inertial_changed: false,
        visuals: quiet(),
        add_visual: None,
        copy_visuals: false,
        collisions: quiet(),
        add_collision: None,
    }
}

fn says(edit: &Edit) -> Option<&str> {
    edit.description.as_deref()
}

// ---------------------------------------------------------------- shapes

#[test]
fn dimensions_of_shapes() {
    assert_eq!(geom_params(&GeomData::Box { hx: 1, hy: 2, hz: 3 }), [1, 2, 3]);
    assert_eq!(geom_params(&GeomData::Cylinder { radius: 4, half_length: 5 }), [4, 5, 0]);
    assert_eq!(geom_params(&GeomData::Sphere { radius: 6 }), [6, 0, 0]);
    assert_eq!(geom_params(&GeomData::Capsule { radius: 7, half_length: 8 }), [7, 8, 0]);
    assert_eq!(geom_params(&GeomData::Mesh { floats: 18, filename: None }), [0, 0, 0]);
}

#[test]
fn scaling_drags_one_dimension() {
    let start = [50_000_000, 60_000_000, 70_000_000];
    let mut g = GeomData::Box { hx: start[0], hy: start[1], hz: start[2] };
    apply_geom_scale(&mut g, 1, &start, 5_000_000);
    assert_eq!(geom_params(&g), [50_000_000, 65_000_000, 70_000_000]);
    // Each frame counts from where the drag began.
    apply_geom_scale(&mut g, 1, &start, -2_000_000);
    assert_eq!(geom_params(&g), [50_000_000, 58_000_000, 70_000_000]);

    let mut c = GeomData::Cylinder { radius: 20, half_length: 30 };
    apply_geom_scale(&mut c, 2, &[20_000_000, 30_000_000, 0], 1);
    assert_eq!(geom_params(&c), [20, 30_000_001, 0]);
    apply_geom_scale(&mut c, 0, &[20_000_000, 30_000_000, 0], 1);
    assert_eq!(geom_params(&c), [20_000_001, 30_000_001, 0]);

    let mut s = GeomData::Sphere { radius: 20_000_000 };
    apply_geom_scale(&mut s, 2, &[20_000_000, 0, 0], 4);
    assert_eq!(geom_params(&s), [20_000_004, 0, 0]);
}

#[test]
fn a_dragged_shape_stays_solid() {
    let mut g = GeomData::Capsule { radius: 20_000_000, half_length: 30_000_000 };
    apply_geom_scale(&mut g, 0, &[20_000_000, 30_000_000, 0], -90_000_000);
    assert_eq!(geom_params(&g), [MIN_DIM, 30_000_000, 0]);
    let mut m = GeomData::Mesh { floats: 36, filename: None };
    apply_geom_scale(&mut m, 0, &[0, 0, 0], -5);
    assert_eq!(m, GeomData::Mesh { floats: 36, filename: None });
}

#[test]
fn shapes_as_they_are_added() {
    let mut l = link("base");
    let mut e = Edit::none();
    add_visual(&mut l, NewShape::Cylinder, &mut e);
    assert_eq!(says(&e), Some("Add visual to 'base'"));
    assert!(e.needs_upload);
    assert_eq!(
        l.visuals[0].geometry,
        GeomData::Cylinder { radius: 20_000_000, half_length: 100_000_000 }
    );
    assert_eq!(l.visuals[0].color, Color { r: 700, g: 700, b: 700, a: 1000 });
    add_collision(&mut l, NewShape::Sphere, &mut e);
    assert_eq!(says(&e), Some("Add collision to 'base'"));
    assert_eq!(l.collisions[0].geometry, GeomData::Sphere { radius: 50_000_000 });
    assert_eq!(
        NewShape::Box.geometry(),
        GeomData::Box { hx: 50_000_000, hy: 50_000_000, hz: 50_000_000 }
    );
    assert_eq!(
        NewShape::Capsule.geometry(),
        GeomData::Capsule { radius: 20_000_000, half_length: 100_000_000 }
    );
}

#[test]
fn collisions_can_copy_the_visuals() {
    let mut l = link("base");
    let mut e = Edit::none();
    add_collision(&mut l, NewShape::Sphere, &mut e);
    let mut e = Edit::none();
    assert!(!copy_visuals(&mut l, &mut e));
    assert_eq!(l.collisions.len(), 1);
    assert!(!e.needs_upload);

    add_visual(&mut l, NewShape::Box, &mut e);
    add_visual(&mut l, NewShape::Capsule, &mut e);
    assert!(copy_visuals(&mut l, &mut e));
    assert_eq!(l.collisions.len(), 2);
    assert_eq!(l.collisions[1].geometry, NewShape::Capsule.geometry());
    assert_eq!(says(&e), Some("Copy visuals → collisions for 'base'"));
}

#[test]
fn duplicating_and_removing_shapes() {
    let mut l = link("base");
    let mut e = Edit::none();
    add_visual(&mut l, NewShape::Box, &mut e);
    add_visual(&mut l, NewShape::Sphere, &mut e);

    let mut e = Edit::none();
    edit_visuals(&mut l, &ShapeEdits { duplicate: Some(0), ..quiet() }, &mut e);
    assert_eq!(says(&e), Some("Duplicate visual of 'base'"));
    assert_eq!(l.visuals.len(), 3);
    assert_eq!(l.visuals[1].geometry, NewShape::Box.geometry());
    assert_eq!(l.visuals[2].geometry, NewShape::Sphere.geometry());

    // Removing the copy undoes it.
    edit_visuals(&mut l, &ShapeEdits { remove: Some(1), ..quiet() }, &mut e);
    assert_eq!(says(&e), Some("Remove visual from 'base'"));
    assert_eq!(l.visuals.len(), 2);
    assert_eq!(l.visuals[1].geometry, NewShape::Sphere.geometry());
}

#[test]
fn edits_in_place_do_not_hide_what_came_before() {
    let mut l = link("base");
    let mut e = Edit::none();
    edit_collisions(&mut l, &ShapeEdits { changed: true, ..quiet() }, &mut e);
    assert_eq!(says(&e), Some("Edit collision of 'base'"));
    let mut e = Edit::none();
    e.describe("Something else".to_string());
    edit_collisions(&mut l, &ShapeEdits { changed: true, ..quiet() }, &mut e);
    assert_eq!(says(&e), Some("Something else"));
    assert!(e.needs_upload);
    let reduced = Reduction { label: "50%".to_string(), method: "QEM".to_string() };
    edit_collisions(&mut l, &ShapeEdits { reduced: Some(reduced), ..quiet() }, &mut e);
    assert_eq!(says(&e), Some("Reduce collision mesh of 'base' to 50% (QEM)"));
}

#[test]
fn a_mesh_is_replaced_by_its_parts() {
    let mut l = link("base");
    let mut e = Edit::none();
    add_collision(&mut l, NewShape::Box, &mut e);
    add_collision(&mut l, NewShape::Sphere, &mut e);
    add_collision(&mut l, NewShape::Capsule, &mut e);
    let parts = (1..=2)
        .map(|k| CollisionData {
            origin: Placement::identity(),
            geometry: GeomData::Mesh { floats: 18 * k, filename: None },
        })
        .collect();
    decompose_collision(&mut l, Decomposition { index: 1, shapes: parts }, &mut e);
    assert_eq!(says(&e), Some("Decompose collision of 'base' into 2 shapes"));
    assert_eq!(l.collisions.len(), 4);
    assert_eq!(l.collisions[0].geometry, NewShape::Box.geometry());
    assert_eq!(l.collisions[1].geometry, GeomData::Mesh { floats: 18, filename: None });
    assert_eq!(l.collisions[2].geometry, GeomData::Mesh { floats: 36, filename: None });
    assert_eq!(l.collisions[3].geometry, NewShape::Capsule.geometry());
}

#[test]
fn meshes_are_labelled() {
    assert_eq!(triangle_count(90), 5);
    assert!(can_reduce(90));
    assert!(!can_reduce(89));
    assert_eq!(mesh_label(216, &Some("hip.stl".to_string())), "Mesh: 12 tris — hip.stl");
    assert_eq!(mesh_label(17, &None), "Mesh: 0 tris — (inline)");
}

// ---------------------------------------------------------------- display modes

#[test]
fn a_link_follows_the_global_mode_until_it_differs() {
    let mut modes = DisplayModes::new();
    assert_eq!(
        modes.effective("base", MeshKind::Visual, DisplayMode::Solid),
        DisplayMode::Solid
    );
    modes.pick("base", MeshKind::Visual, DisplayMode::Wireframe, DisplayMode::Solid);
    assert_eq!(modes.get("base", MeshKind::Visual), Some(DisplayMode::Wireframe));
    assert_eq!(modes.get("base", MeshKind::Collision), None);
    assert_eq!(
        modes.effective("base", MeshKind::Visual, DisplayMode::Solid),
        DisplayMode::Wireframe
    );
    modes.pick("base", MeshKind::Visual, DisplayMode::Solid, DisplayMode::Solid);
    assert_eq!(modes.get("base", MeshKind::Visual), None);
    assert_eq!(modes.remove("base", MeshKind::Visual), None);
    modes.set("base", MeshKind::Collision, DisplayMode::Points);
    assert_eq!(modes.remove("base", MeshKind::Collision), Some(DisplayMode::Points));
}

#[test]
fn a_rename_reaches_every_reference() {
    let mut modes = DisplayModes::new();
    modes.set("a", MeshKind::Visual, DisplayMode::Points);
    modes.set("a", MeshKind::Collision, DisplayMode::Off);
    modes.set("c", MeshKind::Visual, DisplayMode::Solid);
    let pin = |name: &str| PinnedLink {
        link_name: name.to_string(),
        target: 0u8,
        dof: PinDof::Pose,
    };
    let mut refs = LinkRefs {
        pinned_links: vec![pin("a"), pin("c")],
        link_display_modes: modes,
        ik_root_link: Some("a".to_string()),
        dynamics_ee_link: Some("c".to_string()),
    };
    refs.update_link_name_refs("a", "b");
    assert_eq!(refs.pinned_links[0].link_name, "b");
    assert_eq!(refs.pinned_links[1].link_name, "c");
    assert_eq!(refs.ik_root_link.as_deref(), Some("b"));
    assert_eq!(refs.dynamics_ee_link.as_deref(), Some("c"));
    let modes = &refs.link_display_modes;
    assert_eq!(modes.get("a", MeshKind::Visual), None);
    assert_eq!(modes.get("a", MeshKind::Collision), None);
    assert_eq!(modes.get("b", MeshKind::Visual), Some(DisplayMode::Points));
    assert_eq!(modes.get("b", MeshKind::Collision), Some(DisplayMode::Off));
    assert_eq!(modes.get("c", MeshKind::Visual), Some(DisplayMode::Solid));
}

// ---------------------------------------------------------------- properties

#[test]
fn name_fields_follow_the_selection() {
    let model = robot();
    let mut field = String::new();
    sync_link_name(&mut field, &model, 1);
    assert_eq!(field, "upper");
    // The name of some link stays while it is being edited.
    sync_link_name(&mut field, &model, 0);
    assert_eq!(field, "upper");
    field = "gone".to_string();
    sync_link_name(&mut field, &model, 0);
    assert_eq!(field, "base");
    sync_joint_name(&mut field, &model, 1);
    assert_eq!(field, "mount");
}

#[test]
fn a_refused_rename_restores_the_field() {
    assert!(wants_rename(true, "b", "a"));
    assert!(!wants_rename(true, "a", "a"));
    assert!(!wants_rename(false, "b", "a"));
    let mut rename = Rename { from: "a".to_string(), to: "b".to_string(), accepted: false };
    let mut field = "b".to_string();
    let mut e = Edit::none();
    rename.finish("link", "a", &mut field, &mut e);
    assert_eq!(field, "a");
    assert_eq!(says(&e), None);
    rename.accepted = true;
    field = "b".to_string();
    rename.finish("link", "b", &mut field, &mut e);
    assert_eq!(field, "b");
    assert_eq!(says(&e), Some("Rename link 'a' → 'b'"));
}

#[test]
fn an_idle_frame_is_no_edit() {
    let mut model = robot();
    let mut field = "base".to_string();
    let e = link_frame(&mut model, 0, &calm(), &mut field);
    assert_eq!(says(&e), None);
    assert!(!e.needs_upload);
}

#[test]
fn the_last_edit_of_a_frame_names_it() {
    let mut model = robot();
    let mut field = "base".to_string();
    let e = link_frame(
        &mut model,
        0,
        &LinkEvents { inertial_changed: true, ..calm() },
        &mut field,
    );
    assert_eq!(says(&e), Some("Edit inertial of 'base'"));
    assert!(!e.needs_upload);
    let e = link_frame(
        &mut model,
        0,
        &LinkEvents {
            inertial_changed: true,
            add_visual: Some(NewShape::Box),
            copy_visuals: true,
            ..calm()
        },
        &mut field,
    );
    assert_eq!(says(&e), Some("Copy visuals → collisions for 'base'"));
    assert!(e.needs_upload);
    assert_eq!(model.links[0].visuals.len(), 1);
    assert_eq!(model.links[0].collisions.len(), 1);
    let e = link_frame(
        &mut model,
        0,
        &LinkEvents {
            visuals: ShapeEdits { changed: true, ..quiet() },
            add_collision: Some(NewShape::Sphere),
            ..calm()
        },
        &mut field,
    );
    assert_eq!(says(&e), Some("Add collision to 'base'"));
    assert_eq!(model.links[0].collisions.len(), 2);
}

#[test]
fn joint_edits_are_described() {
    let model = robot();
    let mut field = "shoulder".to_string();
    let mut e = Edit::none();
    joint_frame(
        &model.joints[0],
        &JointEvents { rename: None, changed: true },
        &mut field,
        &mut e,
    );
    assert_eq!(says(&e), Some("Edit joint 'shoulder'"));
    close_frame(false, None, None, &mut e);
    assert_eq!(says(&e), Some("Edit joint 'shoulder'"));
    close_frame(true, None, None, &mut e);
    assert_eq!(says(&e), Some("Edit actuator gains"));
    close_frame(true, Some("Save pose 'a'".to_string()), None, &mut e);
    assert_eq!(says(&e), Some("Save pose 'a'"));
}

#[test]
fn joint_types_and_gains() {
    let mut model = robot();
    assert!(!set_joint_type(&mut model.joints[0], "revolute"));
    assert!(set_joint_type(&mut model.joints[0], "prismatic"));
    assert_eq!(model.joints[0].joint_type, "prismatic");
    assert!(has_actuator(&model.joints[0]));
    assert!(!has_actuator(&model.joints[1]));
    assert_eq!(movable_joints(&model), vec![0]);
    assert!(kp_editable(ActuatorMode::ComputedTorque));
    assert!(!kp_editable_in_table(ActuatorMode::ComputedTorque));
    assert!(kv_editable(ActuatorMode::ComputedTorque));
    assert!(!kv_editable_in_table(ActuatorMode::ComputedTorque));
    assert!(!kv_editable(ActuatorMode::Torque));
    assert!(kv_editable_in_table(ActuatorMode::Velocity));
}

#[test]
fn the_density_input_opens_and_closes() {
    assert!(density_input(false, true, false, false));
    assert!(!density_input(true, true, false, false));
    assert!(!density_input(true, false, true, false));
    assert!(!density_input(true, false, false, true));
    assert!(density_input(true, false, false, false));
}

#[test]
fn a_picked_shape_is_marked() {
    let mut tools = Toolbar {
        mode: InteractionMode::OffsetAdjust,
        target: OffsetTarget::Joint,
        op: GizmoOp::Translate,
    };
    let mut sel = Selection { link: Some(0), joint: None, visual: None, collision: None };
    assert!(!is_marked(&tools, &sel, OffsetTarget::Visual, 2));
    pick_shape(&mut tools, &mut sel, OffsetTarget::Visual, 2);
    assert!(is_marked(&tools, &sel, OffsetTarget::Visual, 2));
    assert!(!is_marked(&tools, &sel, OffsetTarget::Visual, 1));
    assert!(!is_marked(&tools, &sel, OffsetTarget::Collision, 2));
}

// ---------------------------------------------------------------- poses

fn pose(name: &str) -> NamedPose<u8, char> {
    NamedPose { name: name.to_string(), angles: 0, duration: 500_000, kind: 'l' }
}

#[test]
fn saving_a_pose_replaces_its_namesake() {
    let mut poses: Vec<NamedPose<u8, char>> = vec![];
    assert!(!can_save("  "));
    assert!(save_pose(&mut poses, "  ", 1, 10, 'l').is_none());
    assert_eq!(save_pose(&mut poses, " stand ", 1, 10, 'l').as_deref(), Some("Save pose 'stand'"));
    assert!(save_pose(&mut poses, "sit", 2, 20, 'm').is_some());
    assert!(save_pose(&mut poses, "stand", 3, 30, 'm').is_some());
    assert_eq!(poses.len(), 2);
    assert_eq!(poses[0].name, "stand");
    assert_eq!(poses[0].angles, 3);
    assert_eq!(poses[1].name, "sit");
}

#[test]
fn poses_are_edited_removed_and_applied() {
    let mut poses = vec![pose("a"), pose("b"), pose("c")];
    let none = PoseEvents { edited: None, remove: None, apply: None };
    assert!(poses_frame(&mut poses, &none, None).is_none());
    let d = poses_frame(&mut poses, &PoseEvents { edited: Some(1), ..none }, None);
    assert_eq!(d.as_deref(), Some("Edit pose defaults 'b'"));
    let none = PoseEvents { edited: None, remove: None, apply: None };
    let d = poses_frame(&mut poses, &PoseEvents { remove: Some(1), ..none }, None);
    assert_eq!(d.as_deref(), Some("Delete pose 'b'"));
    assert_eq!(poses.len(), 2);
    let none = PoseEvents { edited: None, remove: None, apply: None };
    let d = poses_frame(&mut poses, &PoseEvents { apply: Some(1), ..none }, None);
    assert_eq!(d.as_deref(), Some("Apply pose 'c'"));
}

fn idle() -> SequenceEvents {
    SequenceEvents { edited: None, remove_sequence: None, remove_step: None, add_step: None }
}

#[test]
fn sequences_are_created_under_free_names() {
    let mut seqs: Vec<Sequence<char>> = vec![];
    let mut field = " walk ".to_string();
    assert!(can_create(&seqs, &field));
    assert_eq!(
        create_sequence(&mut seqs, &mut field).as_deref(),
        Some("Create sequence 'walk'")
    );
    assert_eq!(field, "");
    assert_eq!(seqs[0].name, "walk");
    field = "walk".to_string();
    assert!(!can_create(&seqs, &field));
    assert!(create_sequence(&mut seqs, &mut field).is_none());
    assert_eq!(seqs.len(), 1);
}

#[test]
fn steps_come_and_go() {
    let mut seqs: Vec<Sequence<char>> = vec![];
    let mut field = "walk".to_string();
    create_sequence(&mut seqs, &mut field);

    let mut pick = "stand".to_string();
    let step = take_step(&mut pick, 0).unwrap();
    assert_eq!(pick, "");
    assert!(take_step(&mut pick, 0).is_none());
    let d = sequences_frame(&mut seqs, &SequenceEvents { add_step: Some(step), ..idle() }, 'm', None);
    assert_eq!(d.as_deref(), Some("Add step 'stand' to sequence 'walk'"));
    assert_eq!(seqs[0].steps.len(), 1);
    assert_eq!(seqs[0].steps[0].duration, STEP_DURATION);
    assert_eq!(seqs[0].steps[0].kind, 'm');

    let at = StepAt { sequence: 0, step: 0 };
    let d = sequences_frame(&mut seqs, &SequenceEvents { edited: Some(at), ..idle() }, 'm', None);
    assert_eq!(d.as_deref(), Some("Edit sequence 'walk' step 0"));
    assert!(pick_step_pose(&mut seqs[0].steps[0], "sit"));
    assert_eq!(seqs[0].steps[0].pose_name, "sit");
    // Picking the same pose again is an edit too.
    assert!(pick_step_pose(&mut seqs[0].steps[0], "sit"));
    let d =
        sequences_frame(&mut seqs, &SequenceEvents { remove_step: Some(at), ..idle() }, 'm', None);
    assert_eq!(d.as_deref(), Some("Remove step 0 from sequence 'walk'"));
    assert!(seqs[0].steps.is_empty());

    // A step that is no longer there is left alone.
    let lost = StepOf { sequence: 7, pose: "stand".to_string() };
    let d = sequences_frame(&mut seqs, &SequenceEvents { add_step: Some(lost), ..idle() }, 'm', None);
    assert!(d.is_none());

    let d =
        sequences_frame(&mut seqs, &SequenceEvents { remove_sequence: Some(0), ..idle() }, 'm', None);
    assert_eq!(d.as_deref(), Some("Delete sequence 'walk'"));
    assert!(seqs.is_empty());
}

#[test]
fn a_sequence_needs_its_poses() {
    let step = |name: &str| SequenceStep {
        pose_name: name.to_string(),
        duration: STEP_DURATION,
        kind: 'l',
    };
    let mut seq = Sequence { name: "walk".to_string(), steps: vec![] };
    assert!(!can_play(&seq, true));
    seq.steps.push(step("a"));
    assert!(can_play(&seq, true));
    assert!(!can_play(&seq, false));
    assert_eq!(sequence_label(&seq), "▶ walk  (1 steps)");
    let poses = vec![pose("a")];
    assert!(all_poses_known(&seq, &poses));
    seq.steps.push(step("b"));
    assert!(!all_poses_known(&seq, &poses));
    assert_eq!(
        play_sequence("walk", false, true),
        (Some("Sequence 'walk' references missing pose(s)".to_string()), false)
    );
    assert_eq!(
        play_sequence("walk", true, true),
        (Some("Playing sequence 'walk'".to_string()), true)
    );
}

// ---------------------------------------------------------------- files

fn export_state() -> ExportState<u8> {
    ExportState {
        export_dir: "/out".to_string(),
        export_format: RobotFormat::Urdf,
        export_message: String::new(),
        export_compat_issues: vec![],
        pending_export_action: None,
        show_export_dialog: true,
    }
}

fn stored(path: &str) -> RobotModel {
    RobotModel { source_path: Some(path.to_string()), ..robot() }
}

#[test]
fn each_format_has_its_exporter() {
    let registry = FormatRegistry::default_registry();
    assert!(save_handler(&registry).is_some());
    let exporter = |format| {
        let i = export_handler(&registry, format).unwrap();
        registry.handlers()[i].name.clone()
    };
    assert_eq!(exporter(RobotFormat::Urdf), "URDF");
    assert_eq!(exporter(RobotFormat::Sdf), "SDF");
    assert_eq!(exporter(RobotFormat::Mjcf), "MJCF");
    assert!(exporter(RobotFormat::IsaacUsd).contains("USD"));
    let empty = FormatRegistry::new();
    assert_eq!(save_handler(&empty), None);
    assert_eq!(export_handler(&empty, RobotFormat::IsaacUsd), None);
}

#[test]
fn exported_files_are_named_after_the_source() {
    assert_eq!(export_base_name(&stored("/robots/go2.urdf")), "go2");
    assert_eq!(export_base_name(&stored("/robots.d/go2")), "go2");
    assert_eq!(export_base_name(&stored("robots/.go2")), ".go2");
    assert_eq!(export_base_name(&robot()), "arm");
    assert_eq!(base_name(None, &robot()), "arm");
    assert_eq!(base_name(Some("hand".to_string()), &robot()), "hand");
    assert_eq!(export_file_name(RobotFormat::Urdf, "go2").as_deref(), Some("go2.urdf"));
    assert!(needs_sidecar(RobotFormat::Urdf));
    assert!(!needs_sidecar(RobotFormat::Misa));
}

#[test]
fn saving_without_a_source_is_refused() {
    let mut state = export_state();
    assert!(!state.do_save(None, vec![]));
    assert_eq!(state.export_message, "⚠ No model loaded.");
    assert_eq!(state.save_now(None, None), None);
    assert_eq!(state.export_message, "⚠ No model loaded.");
    assert_eq!(state.save_now(Some(&robot()), Some(RobotFormat::Urdf)), None);
    assert_eq!(
        state.export_message,
        "⚠ New model has no source file. Use Export instead."
    );
}

#[test]
fn saving_reports_what_happened() {
    let mut state = export_state();
    let model = stored("/robots/go2.misa");
    assert!(state.do_save(Some(&model), vec![]));
    assert_eq!(state.save_now(Some(&model), Some(RobotFormat::Misa)), Some(SaveTarget::Misa));
    state.saved(SaveTarget::Misa, &Ok("/robots/go2.misa".to_string()), &Ok(()));
    assert_eq!(state.export_message, "✔ Saved Misa to /robots/go2.misa");
    assert!(state.succeeded());
    state.saved(SaveTarget::Urdf, &Ok("/o.urdf".to_string()), &Err("full".to_string()));
    assert_eq!(state.export_message, "✔ Saved to /o.urdf (⚠ config: full)");
    state.saved(SaveTarget::Urdf, &Err("denied".to_string()), &Ok(()));
    assert_eq!(state.export_message, "⚠ Save failed: denied");
    assert!(!state.succeeded());
}

#[test]
fn issues_ask_before_going_on() {
    let mut state = export_state();
    let model = stored("/robots/go2.urdf");
    assert!(!state.do_export(Some(&model), vec![1]));
    assert_eq!(state.export_compat_issues, vec![1]);
    assert_eq!(state.pending_export_action, Some(PendingExportAction::Export));
    assert_eq!(state.answer(false, false, true), None);
    assert_eq!(state.answer(true, false, true), Some(PendingExportAction::Export));
    assert_eq!(state.pending_export_action, None);

    assert!(!state.do_save(Some(&model), vec![2]));
    assert_eq!(state.answer(false, true, true), None);
    assert_eq!(state.pending_export_action, None);
}

#[test]
fn exporting_reports_what_happened() {
    let mut state = export_state();
    let model = robot();
    assert!(!state.export_now(None, &Ok(())));
    assert_eq!(state.export_message, "⚠ No model loaded.");
    assert!(!state.export_now(Some(&model), &Err("read-only".to_string())));
    assert_eq!(state.export_message, "⚠ Cannot create dir: read-only");
    assert!(state.export_now(Some(&model), &Ok(())));
    state.exported(&Ok("/out/arm.urdf".to_string()), &Ok(()));
    assert_eq!(state.export_message, "✔ Exported URDF to /out/arm.urdf (with meshes)");
    assert!(state.succeeded());
    state.exported(&Err("full".to_string()), &Ok(()));
    assert_eq!(state.export_message, "⚠ URDF export failed: full");
    state.export_format = RobotFormat::Misa;
    state.exported(&Ok("/out/arm.misa".to_string()), &Ok(()));
    assert_eq!(
        state.export_message,
        "✔ Exported Misa to /out/arm.misa (full state preserved — no sidecar needed)"
    );
    state.export_dir = String::new();
    assert!(!state.do_export(Some(&model), vec![]));
    assert_eq!(state.export_message, "⚠ Please specify an output directory.");
    state.close_frame(false);
    assert!(!state.show_export_dialog);
}

// ---------------------------------------------------------------- panels

#[test]
fn forces_need_a_link_and_a_direction() {
    let zero = Vec3 { x: 0, y: 0, z: 0 };
    let up = Vec3 { x: 0, y: 0, z: 5 };
    let link = Some("base".to_string());
    assert!(can_apply_force(true, &link, &up, &zero));
    assert!(can_apply_force(true, &link, &zero, &up));
    assert!(!can_apply_force(true, &link, &zero, &zero));
    assert!(!can_apply_force(true, &None, &up, &zero));
    assert!(!can_apply_force(false, &link, &up, &zero));
    assert!(can_cancel_force(true, &link));
    assert!(!can_cancel_force(false, &link));
}

#[test]
fn units_follow_the_joint() {
    assert_eq!(effort_unit("prismatic"), "N");
    assert_eq!(effort_unit("revolute"), "N·m");
    assert_eq!(rate_unit("prismatic"), "m/s");
    assert_eq!(rate_unit("continuous"), "rad/s");
    let rows = peak_rows(&robot(), &vec![7, 8], 0);
    assert_eq!(rows, vec![(0, 7)]);
    assert_eq!(peak_rows(&robot(), &vec![], 0), vec![(0, 0)]);
}

#[test]
fn contacts_are_listed_by_force() {
    let row = |mag: i64, a: &str, b: &str, is_self: bool| ContactRow {
        mag,
        body1: a.to_string(),
        body2: b.to_string(),
        is_self,
    };
    let rows = vec![
        row(3, "foot", "", false),
        row(9, "arm", "leg", true),
        row(5, "toe", "", false),
    ];
    let table = contact_table(&rows);
    assert_eq!(table.order, vec![1, 2, 0]);
    assert_eq!(contacts_title(&table), "💥 Contacts  (1 self, 2 ground)");
    assert_eq!(pair_label("arm", "leg"), "arm ↔ leg");
}

#[test]
fn an_excluded_pair_stands_alone() {
    let mut model = robot();
    let pair = |a: &str, b: &str| CollisionPair {
        link_a: a.to_string(),
        link_b: b.to_string(),
        enabled: true,
    };
    model.collision_pairs = vec![pair("tip", "base"), pair("base", "upper"), pair("base", "tip")];
    exclude_pair(&mut model, "base", "tip");
    let left: Vec<(&str, &str, bool)> = model
        .collision_pairs
        .iter()
        .map(|p| (p.link_a.as_str(), p.link_b.as_str(), p.enabled))
        .collect();
    assert_eq!(left, vec![("base", "upper", true), ("base", "tip", false)]);
}

#[test]
fn validation_counts_links() {
    let found = |issues: Vec<ValidationSeverity>| LinkValidation {
        link_name: "base".to_string(),
        issues,
    };
    let bad = found(vec![ValidationSeverity::Warning, ValidationSeverity::Error]);
    assert!(bad.has_errors() && bad.has_warnings() && !bad.is_ok());
    let results = vec![
        bad,
        found(vec![ValidationSeverity::Warning]),
        found(vec![]),
        found(vec![]),
    ];
    let counts = count_validation(&results);
    assert_eq!((counts.ok, counts.warnings, counts.errors), (2, 1, 1));
    assert_eq!(validation_title(4), "🔍 Inertia Validation (4 links)");
    assert!(validation_stays(true, false));
    assert!(!validation_stays(true, true));
    assert!(!validation_stays(false, false));
}

#[test]
fn the_window_says_what_is_open() {
    assert_eq!(limit_status(0, 0), None);
    assert_eq!(limit_status(3, 0).as_deref(), Some("3 joint(s) at limit"));
    assert_eq!(limit_status(3, 1).as_deref(), Some("⚠ 1 joint(s) past limit"));
    assert_eq!(mode_label(InteractionMode::JointDrive), "🔧 Joint Drive");
    assert_eq!(mode_label(InteractionMode::OffsetAdjust), "✥ Offset Adjust");
    assert_eq!(window_title(None), "Articara - Robot Dynamics Editor");
    assert_eq!(window_title(Some(&robot())), "Articara — arm");
}
