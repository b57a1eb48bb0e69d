//! The properties panel: what a frame of it changes in the model, and what the
//! change is called in the undo history.

use vstd::prelude::*;
use vstd::string::*;

use crate::editor::edit::Edit;
use crate::editor::overlay::Toolbar;
use crate::editor::shapes::{
    add_collision, add_visual, copy_visuals, edit_collisions, edit_visuals, NewShape, ShapeEdits,
    ShapeList,
};
use crate::editor::state::{InteractionMode, OffsetTarget, Selection};
use crate::robot::{ActuatorMode, CollisionData, JointData, LinkData, RobotModel, VisualData};
use crate::text::{around, around_two, same};

verus! {

// ---------------------------------------------------------------- renaming

/// The robot has a link of that name.
pub open spec fn has_link(model: RobotModel, name: Seq<char>) -> bool {
    exists|i: int| crate::robot::first_link(model.links@, name, i)
}

/// The robot has a joint of that name.
pub open spec fn has_joint(model: RobotModel, name: Seq<char>) -> bool {
    crate::robot::joint_at(model.joints@, name) is Some
}

/// Keeps the link's name field on the selected link: a field that is empty or
/// names no link of the robot starts over.
pub fn sync_link_name(field: &mut String, model: &RobotModel, li: usize)
    requires
        li < model.links.len(),
    ensures
        final(field)@ == (if old(field)@.len() == 0 || !has_link(*model, old(field)@) {
            model.links@[li as int].name@
        } else {
            old(field)@
        }),
{
    let known: bool = match model.link_index(field.as_str()) {
        Some(i) => {
            proof {
                assert(crate::robot::first_link(model.links@, field@, i as int));
            }
            true
        },
        None => {
            proof {
                if has_link(*model, field@) {
                    let i = choose|i: int| crate::robot::first_link(model.links@, field@, i);
                    assert(model.links@[i].name@ == field@);
                }
            }
            false
        },
    };
    if field.as_str().is_empty() || !known {
        *field = model.links[li].name.clone();
    }
}

/// Keeps the joint's name field on the selected joint.
pub fn sync_joint_name(field: &mut String, model: &RobotModel, ji: usize)
    requires
        ji < model.joints.len(),
    ensures
        final(field)@ == (if old(field)@.len() == 0 || !has_joint(*model, old(field)@) {
            model.joints@[ji as int].name@
        } else {
            old(field)@
        }),
{
    let known: bool = model.joint_index(field.as_str()).is_some();
    if field.as_str().is_empty() || !known {
        *field = model.joints[ji].name.clone();
    }
}

/// Whether the user asked for another name: the field was left, and it differs.
pub fn wants_rename(lost_focus: bool, field: &str, name: &str) -> (r: bool)
    ensures
        r == (lost_focus && field@ != name@),
{
    lost_focus && !same(field, name)
}

/// A rename that the user asked for, and whether the model took it.
pub struct Rename {
    pub from: String,
    pub to: String,
    pub accepted: bool,
}

impl Rename {
    pub open spec fn text(&self, what: Seq<char>) -> Seq<char> {
        "Rename "@ + what + " '"@ + self.from@ + "' \u{2192} '"@ + (self.to@ + "'"@)
    }

    /// The outcome of a rename: taken it is described, refused the field goes
    /// back to the name that stands.
    pub fn finish(&self, what: &str, current: &str, field: &mut String, edit: &mut Edit)
        ensures
            self.accepted ==> *final(field) == *old(field) && final(edit).says(self.text(what@)),
            !self.accepted ==> final(field)@ == current@ && *final(edit) == *old(edit),
            final(edit).needs_upload == old(edit).needs_upload,
            final(edit).rebuild == old(edit).rebuild,
    {
        if self.accepted {
            let mut text: String = around_two(
                "Rename ",
                what,
                " '",
                self.from.as_str(),
                "' \u{2192} '",
            );
            let end: String = around(self.to.as_str(), "'", "");
            proof {
                reveal_strlit("");
                assert(end@ =~= self.to@ + "'"@);
            }
            text.append(end.as_str());
            edit.describe(text);
        } else {
            *field = current.to_owned();
        }
    }
}

// ---------------------------------------------------------------- actuators

/// The types that a joint can be given.
pub const JOINT_TYPES: [&'static str; 4] = ["revolute", "prismatic", "fixed", "continuous"];

/// Gives a joint another type. Returns whether it had a different one.
pub fn set_joint_type(joint: &mut JointData, joint_type: &str) -> (changed: bool)
    ensures
        changed == (old(joint).joint_type@ != joint_type@),
        final(joint).joint_type@ == joint_type@,
        *final(joint) == (JointData { joint_type: final(joint).joint_type, ..*old(joint) }),
        !changed ==> *final(joint) == *old(joint),
{
    if same(joint.joint_type.as_str(), joint_type) {
        return false;
    }
    joint.joint_type = joint_type.to_owned();
    true
}

/// Whether a joint has an actuator to edit.
pub fn has_actuator(joint: &JointData) -> (r: bool)
    ensures
        r == (joint.joint_type@ != "fixed"@),
{
    !same(joint.joint_type.as_str(), "fixed")
}

/// Whether the position gain of a joint can be edited.
pub fn kp_editable(mode: ActuatorMode) -> (r: bool)
    ensures
        r == (mode == ActuatorMode::Position || mode == ActuatorMode::ComputedTorque),
{
    mode == ActuatorMode::Position || mode == ActuatorMode::ComputedTorque
}

/// Whether the velocity gain of a joint can be edited.
pub fn kv_editable(mode: ActuatorMode) -> (r: bool)
    ensures
        r == (mode != ActuatorMode::Torque),
{
    mode == ActuatorMode::Position || mode == ActuatorMode::Velocity || mode
        == ActuatorMode::ComputedTorque
}

/// Whether the position gain can be edited in the table of all joints.
pub fn kp_editable_in_table(mode: ActuatorMode) -> (r: bool)
    ensures
        r == (mode == ActuatorMode::Position),
{
    mode == ActuatorMode::Position
}

/// Whether the velocity gain can be edited in the table of all joints.
pub fn kv_editable_in_table(mode: ActuatorMode) -> (r: bool)
    ensures
        r == (mode == ActuatorMode::Position || mode == ActuatorMode::Velocity),
{
    mode == ActuatorMode::Position || mode == ActuatorMode::Velocity
}

/// The joints of the table of all joints: those that can move, in order.
pub fn movable_joints(model: &RobotModel) -> (r: Vec<usize>)
    ensures
        r@.map_values(|i: usize| i as int) == crate::dynamics::movable(
            model.joints@,
            model.joints@.len(),
        ),
{
    let mut out: Vec<usize> = Vec::new();
    let mut i: usize = 0;
    proof {
        assert(out@.map_values(|i: usize| i as int) =~= Seq::<int>::empty());
    }
    while i < model.joints.len()
        invariant
            i <= model.joints.len(),
            out@.map_values(|i: usize| i as int) == crate::dynamics::movable(
                model.joints@,
                i as nat,
            ),
        decreases model.joints.len() - i,
    {
        if !same(model.joints[i].joint_type.as_str(), "fixed") {
            let ghost before = out@;
            out.push(i);
            proof {
                assert(out@.map_values(|i: usize| i as int) =~= before.map_values(
                    |i: usize| i as int,
                ).push(i as int));
            }
        }
        i += 1;
    }
    out
}

// ---------------------------------------------------------------- one frame

/// What the user did to the selected link.
pub struct LinkEvents {
    pub rename: Option<Rename>,
    pub inertial_changed: bool,
    pub visuals: ShapeEdits,
    pub add_visual: Option<NewShape>,
    pub copy_visuals: bool,
    pub collisions: ShapeEdits,
    pub add_collision: Option<NewShape>,
}

/// What the user did to the selected joint.
pub struct JointEvents {
    pub rename: Option<Rename>,
    pub changed: bool,
}

/// The visuals after the frame.
pub open spec fn visuals_after(visuals: Seq<VisualData>, ev: LinkEvents) -> Seq<VisualData> {
    let e = crate::editor::shapes::edited(visuals, ev.visuals.duplicate, ev.visuals.remove);
    match ev.add_visual {
        Some(shape) => e.push(crate::editor::shapes::new_visual(shape)),
        None => e,
    }
}

/// The collision shapes that the frame's own edits start from.
pub open spec fn collisions_copied(link: LinkData, ev: LinkEvents) -> Seq<CollisionData> {
    let vs = visuals_after(link.visuals@, ev);
    if ev.copy_visuals && vs.len() > 0 {
        crate::editor::shapes::copied(vs)
    } else {
        link.collisions@
    }
}

/// The collision shapes after the frame.
pub open spec fn collisions_after(link: LinkData, ev: LinkEvents) -> Seq<CollisionData> {
    let e = crate::editor::shapes::edited(
        collisions_copied(link, ev),
        ev.collisions.duplicate,
        ev.collisions.remove,
    );
    match ev.add_collision {
        Some(shape) => e.push(crate::editor::shapes::new_collision(shape)),
        None => e,
    }
}

/// What the frame's edits of the link are called. Of several the last counts.
pub open spec fn link_description(link: LinkData, ev: LinkEvents) -> Option<Seq<char>> {
    let renamed = match ev.rename {
        Some(r) => if r.accepted {
            Some(r.text("link"@))
        } else {
            None
        },
        None => None,
    };
    let inertial = if ev.inertial_changed {
        Some("Edit inertial of '"@ + link.name@ + "'"@)
    } else {
        renamed
    };
    let visuals = ev.visuals.description(ShapeList::Visual, link.name@, inertial);
    let added = if ev.add_visual is Some {
        Some("Add visual to '"@ + link.name@ + "'"@)
    } else {
        visuals
    };
    let copied = if ev.copy_visuals && visuals_after(link.visuals@, ev).len() > 0 {
        Some("Copy visuals \u{2192} collisions for '"@ + link.name@ + "'"@)
    } else {
        added
    };
    let collisions = ev.collisions.description(ShapeList::Collision, link.name@, copied);
    if ev.add_collision is Some {
        Some("Add collision to '"@ + link.name@ + "'"@)
    } else {
        collisions
    }
}

/// Whether the link's edits make the renderer's copy stale.
pub open spec fn link_uploads(link: LinkData, ev: LinkEvents) -> bool {
    ||| ev.visuals.any()
    ||| ev.add_visual is Some
    ||| ev.copy_visuals && visuals_after(link.visuals@, ev).len() > 0
    ||| ev.collisions.any()
    ||| ev.add_collision is Some
}

/// The events speak of shapes that the link has.
pub open spec fn events_fit(link: LinkData, ev: LinkEvents) -> bool {
    &&& ev.visuals.fits(link.visuals@.len())
    &&& ev.collisions.fits(collisions_copied(link, ev).len())
}

/// One frame of the link's part of the panel. `field` is the name field; the
/// model has already taken or refused the rename.
pub fn link_frame(model: &mut RobotModel, li: usize, ev: &LinkEvents, field: &mut String) -> (edit:
    Edit)
    requires
        li < old(model).links@.len(),
        events_fit(old(model).links@[li as int], *ev),
    ensures
        final(model).links@.len() == old(model).links@.len(),
        forall|i: int|
            0 <= i < final(model).links@.len() && i != li ==> #[trigger] final(model).links@[i]
                == old(model).links@[i],
        *final(model) == (RobotModel { links: final(model).links, ..*old(model) }),
        ({
            let was = old(model).links@[li as int];
            let now = final(model).links@[li as int];
            &&& now.visuals@ == visuals_after(was.visuals@, *ev)
            &&& now.collisions@ == collisions_after(was, *ev)
            &&& now == (LinkData { visuals: now.visuals, collisions: now.collisions, ..was })
            &&& edit.text() == link_description(was, *ev)
            &&& edit.needs_upload == link_uploads(was, *ev)
        }),
        !edit.rebuild,
        final(field)@ == (if ev.rename is Some && !ev.rename->0.accepted {
            old(model).links@[li as int].name@
        } else {
            old(field)@
        }),
{
    let mut edit: Edit = Edit::none();
    match &ev.rename {
        Some(r) => {
            let current: String = model.links[li].name.clone();
            r.finish("link", current.as_str(), field, &mut edit);
        },
        None => {},
    }
    if ev.inertial_changed {
        edit.describe(around("Edit inertial of '", model.links[li].name.as_str(), "'"));
    }
    edit_visuals(&mut model.links[li], &ev.visuals, &mut edit);
    if let Some(shape) = ev.add_visual {
        add_visual(&mut model.links[li], shape, &mut edit);
    }
    if ev.copy_visuals {
        let _done = copy_visuals(&mut model.links[li], &mut edit);
    }
    edit_collisions(&mut model.links[li], &ev.collisions, &mut edit);
    if let Some(shape) = ev.add_collision {
        add_collision(&mut model.links[li], shape, &mut edit);
    }
    edit
}

/// What the frame's edits of the joint are called, given what the frame was
/// called so far.
pub open spec fn joint_description(
    joint: JointData,
    ev: JointEvents,
    so_far: Option<Seq<char>>,
) -> Option<Seq<char>> {
    if ev.changed {
        Some("Edit joint '"@ + joint.name@ + "'"@)
    } else {
        match ev.rename {
            Some(r) => if r.accepted {
                Some(r.text("joint"@))
            } else {
                so_far
            },
            None => so_far,
        }
    }
}

/// One frame of the joint's part of the panel. The joint's values are already
/// changed; the renderer's copy and the dynamics model follow.
pub fn joint_frame(joint: &JointData, ev: &JointEvents, field: &mut String, edit: &mut Edit)
    ensures
        final(edit).text() == joint_description(*joint, *ev, old(edit).text()),
        final(edit).needs_upload == (old(edit).needs_upload || ev.changed),
        final(edit).rebuild == (old(edit).rebuild || ev.changed),
        final(field)@ == (if ev.rename is Some && !ev.rename->0.accepted {
            joint.name@
        } else {
            old(field)@
        }),
{
    match &ev.rename {
        Some(r) => r.finish("joint", joint.name.as_str(), field, edit),
        None => {},
    }
    if ev.changed {
        edit.needs_upload = true;
        edit.rebuild = true;
        edit.describe(around("Edit joint '", joint.name.as_str(), "'"));
    }
}

/// An optional description as a value of contracts.
pub open spec fn told(d: Option<String>) -> Option<Seq<char>> {
    match d {
        Some(s) => Some(s@),
        None => None,
    }
}

/// The rest of the frame: the table of all actuators, then what the pose and
/// sequence panels report. The last of them names the undo step.
pub fn close_frame(
    actuators_changed: bool,
    poses: Option<String>,
    sequences: Option<String>,
    edit: &mut Edit,
)
    ensures
        final(edit).text() == (if sequences is Some {
            told(sequences)
        } else if poses is Some {
            told(poses)
        } else if actuators_changed {
            Some("Edit actuator gains"@)
        } else {
            old(edit).text()
        }),
        final(edit).needs_upload == old(edit).needs_upload,
        final(edit).rebuild == old(edit).rebuild,
{
    if actuators_changed {
        edit.describe(String::from_str("Edit actuator gains"));
    }
    if let Some(d) = poses {
        edit.describe(d);
    }
    if let Some(d) = sequences {
        edit.describe(d);
    }
}

/// A frame in which nothing happened to the link leaves it as it was, and is not
/// an undo step.
pub proof fn law_idle_frame_is_no_edit(link: LinkData, ev: LinkEvents)
    requires
        ev.rename is None,
        !ev.inertial_changed,
        !ev.visuals.any(),
        ev.add_visual is None,
        !ev.copy_visuals,
        !ev.collisions.any(),
        ev.add_collision is None,
    ensures
        visuals_after(link.visuals@, ev) == link.visuals@,
        collisions_after(link, ev) == link.collisions@,
        link_description(link, ev) is None,
        !link_uploads(link, ev),
{
}

/// Whatever changes a link's shapes is an undo step, and reaches the renderer.
pub proof fn law_changed_shapes_are_described(link: LinkData, ev: LinkEvents)
    requires
        link_uploads(link, ev),
    ensures
        link_description(link, ev) is Some,
{
}

/// The density input under the inertia: it is toggled by its button and closed
/// by applying or cancelling.
pub fn density_input(shown: bool, toggled: bool, applied: bool, cancelled: bool) -> (r: bool)
    ensures
        r == ((shown != toggled) && !applied && !cancelled),
{
    let open: bool = if toggled {
        !shown
    } else {
        shown
    };
    open && !applied && !cancelled
}

// ---------------------------------------------------------------- shape headers

/// The shape that a target selects, by its index in the link.
pub open spec fn chosen_shape(target: OffsetTarget, sel: Selection) -> Option<usize> {
    match target {
        OffsetTarget::Joint => None,
        OffsetTarget::Visual => sel.visual,
        OffsetTarget::Collision => sel.collision,
    }
}

/// A shape's header is marked while the gizmo moves that shape.
pub open spec fn marked(tools: Toolbar, sel: Selection, target: OffsetTarget, i: usize) -> bool {
    tools.mode == InteractionMode::OffsetAdjust && tools.target == target && chosen_shape(
        target,
        sel,
    ) == Some(i)
}

/// The tools and the selection once a shape has been handed to the gizmo.
pub open spec fn picked(tools: Toolbar, sel: Selection, target: OffsetTarget, i: usize) -> (
    Toolbar,
    Selection,
) {
    let tools = Toolbar { mode: InteractionMode::OffsetAdjust, target, ..tools };
    match target {
        OffsetTarget::Joint => (tools, sel),
        OffsetTarget::Visual => (tools, Selection { visual: Some(i), ..sel }),
        OffsetTarget::Collision => (tools, Selection { collision: Some(i), ..sel }),
    }
}

/// Whether a shape's header is marked.
pub fn is_marked(tools: &Toolbar, sel: &Selection, target: OffsetTarget, i: usize) -> (r: bool)
    ensures
        r == marked(*tools, *sel, target, i),
{
    let chosen: Option<usize> = match target {
        OffsetTarget::Joint => None,
        OffsetTarget::Visual => sel.visual,
        OffsetTarget::Collision => sel.collision,
    };
    let is_chosen: bool = match chosen {
        Some(c) => c == i,
        None => false,
    };
    tools.mode == InteractionMode::OffsetAdjust && tools.target == target && is_chosen
}

/// A click on a shape's header hands the shape to the gizmo.
pub fn pick_shape(tools: &mut Toolbar, sel: &mut Selection, target: OffsetTarget, i: usize)
    requires
        target != OffsetTarget::Joint,
    ensures
        (*final(tools), *final(sel)) == picked(*old(tools), *old(sel), target, i),
{
    tools.mode = InteractionMode::OffsetAdjust;
    tools.target = target;
    if target == OffsetTarget::Visual {
        sel.visual = Some(i);
    } else {
        sel.collision = Some(i);
    }
}

/// The shape whose header was clicked is the one whose header is marked, and the
/// operation on the toolbar stays one that can be done to it.
pub proof fn law_picked_shape_is_marked(
    tools: Toolbar,
    sel: Selection,
    target: OffsetTarget,
    i: usize,
    j: usize,
)
    requires
        target != OffsetTarget::Joint,
    ensures
        ({
            let (tools, sel) = picked(tools, sel, target, i);
            &&& tools.valid()
            &&& marked(tools, sel, target, j) <==> j == i
        }),
{
}

/// New shapes come last, of the chosen kind; copied visuals take the place of all collisions,
/// where there are any.
pub proof fn law_shapes_of_an_edited_link(link: LinkData, ev: LinkEvents, shape: NewShape)
    requires
        ev.visuals.duplicate is None,
        ev.visuals.remove is None,
        ev.collisions.duplicate is None,
        ev.collisions.remove is None,
    ensures
        ev.add_visual == Some(shape) ==> visuals_after(link.visuals@, ev) == link.visuals@.push(
            crate::editor::shapes::new_visual(shape),
        ),
        ev.add_visual is None ==> visuals_after(link.visuals@, ev) == link.visuals@,
        ev.add_collision == Some(shape) && !ev.copy_visuals ==> collisions_after(link, ev)
            == link.collisions@.push(crate::editor::shapes::new_collision(shape)),
        ev.add_collision is None && !ev.copy_visuals ==> collisions_after(link, ev)
            == link.collisions@,
        ev.copy_visuals && ev.add_visual is None && link.visuals@.len() > 0 ==> {
            &&& collisions_copied(link, ev).len() == link.visuals@.len()
            &&& forall|i: int|
                0 <= i < link.visuals@.len() ==> {
                    &&& (#[trigger] collisions_copied(link, ev)[i]).origin
                        == link.visuals@[i].origin
                    &&& collisions_copied(link, ev)[i].geometry == link.visuals@[i].geometry
                }
        },
        ev.copy_visuals && ev.add_visual is None && link.visuals@.len() == 0 ==> collisions_copied(
            link,
            ev,
        ) == link.collisions@,
{
}

/// The last edit down the panel is told: an added collision before copied visuals, those before
/// an added visual, that before the inertia, and a name only where nothing else was edited. A
/// refused name is no edit.
pub proof fn law_link_edits_are_told(link: LinkData, ev: LinkEvents)
    requires
        !ev.visuals.any(),
        !ev.collisions.any(),
    ensures
        ev.add_collision is Some ==> link_description(link, ev) == Some(
            "Add collision to '"@ + link.name@ + "'"@,
        ),
        ev.add_collision is None && ev.copy_visuals && link.visuals@.len() > 0
            ==> link_description(link, ev) == Some(
            "Copy visuals \u{2192} collisions for '"@ + link.name@ + "'"@,
        ),
        ev.add_collision is None && !ev.copy_visuals && ev.add_visual is Some ==> link_description(
            link,
            ev,
        ) == Some("Add visual to '"@ + link.name@ + "'"@),
        ev.add_collision is None && !ev.copy_visuals && ev.add_visual is None
            && ev.inertial_changed ==> link_description(link, ev) == Some(
            "Edit inertial of '"@ + link.name@ + "'"@,
        ),
        ev.add_collision is None && !ev.copy_visuals && ev.add_visual is None
            && !ev.inertial_changed ==> link_description(link, ev) == match ev.rename {
            Some(r) => if r.accepted {
                Some(
                    "Rename "@ + "link"@ + " '"@ + r.from@ + "' \u{2192} '"@ + (r.to@ + "'"@),
                )
            } else {
                None
            },
            None => None,
        },
{
}

/// A joint's edit is told before its new name.
pub proof fn law_joint_edits_are_told(
    joint: JointData,
    ev: JointEvents,
    so_far: Option<Seq<char>>,
)
    ensures
        ev.changed ==> joint_description(joint, ev, so_far) == Some(
            "Edit joint '"@ + joint.name@ + "'"@,
        ),
        !ev.changed && (ev.rename matches Some(r) && r.accepted) ==> joint_description(
            joint,
            ev,
            so_far,
        ) == Some(
            "Rename "@ + "joint"@ + " '"@ + ev.rename->0.from@ + "' \u{2192} '"@ + (
            ev.rename->0.to@ + "'"@),
        ),
        !ev.changed && (ev.rename matches Some(r) ==> !r.accepted) ==> joint_description(
            joint,
            ev,
            so_far,
        ) == so_far,
{
}

/// A link's meshes are uploaded again where its shapes changed, and only then.
pub proof fn law_changed_shapes_are_uploaded(link: LinkData, ev: LinkEvents)
    ensures
        ev.add_visual is Some || ev.add_collision is Some ==> link_uploads(link, ev),
        ev.visuals.any() || ev.collisions.any() ==> link_uploads(link, ev),
        ev.copy_visuals && ev.visuals.remove is None && link.visuals@.len() > 0 && (
        ev.visuals.duplicate matches Some(i) ==> i < link.visuals@.len()) ==> link_uploads(link, ev),
        !ev.visuals.any() && !ev.collisions.any() && ev.add_visual is None && ev.add_collision
            is None && !ev.copy_visuals ==> !link_uploads(link, ev),
{
}

/// A picked shape is the selected one of its list and leaves the other list's.
pub proof fn law_picked_shape_is_selected(
    tools: Toolbar,
    sel: Selection,
    target: OffsetTarget,
    i: usize,
)
    ensures
        ({
            let (t, s) = picked(tools, sel, target, i);
            &&& t.mode == InteractionMode::OffsetAdjust && t.target == target && t.op == tools.op
            &&& s.link == sel.link && s.joint == sel.joint
            &&& target == OffsetTarget::Visual ==> s.visual == Some(i) && s.collision
                == sel.collision
            &&& target == OffsetTarget::Collision ==> s.collision == Some(i) && s.visual
                == sel.visual
            &&& target == OffsetTarget::Joint ==> s.visual == sel.visual && s.collision
                == sel.collision
        }),
{
}

} // verus!
