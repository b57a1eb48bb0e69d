//! Dragging in the viewport: what a drag takes hold of, and what it moves.
//!
//! Rays, camera and inverse kinematics are floating point and stay outside; what
//! they give back comes in as picked indices, displacements and deltas.

use vstd::prelude::*;
use vstd::string::*;

use crate::editor::display::{PinDof, PinnedLink};
use crate::editor::shapes::{apply_geom_scale, geom_params};
use crate::editor::state::{DragMode, GizmoOp, InteractionMode, OffsetTarget, Selection};
use crate::joint_map::JointMap;
use crate::robot::{Placement, Quat, RobotModel, Vec3};
use crate::text::same;

verus! {

// ---------------------------------------------------------------- selecting

/// The parent joint of link `li`.
pub open spec fn parent_of(model: RobotModel, li: int) -> Option<usize> {
    match crate::robot::carrier(model.joints@, model.links@[li].name@) {
        Some(ji) => Some(ji as usize),
        None => None,
    }
}

/// The first of a list, if it has one.
pub open spec fn first_of(n: nat) -> Option<usize> {
    if n == 0 {
        None
    } else {
        Some(0)
    }
}

/// The selection after link `li` was clicked. Another link starts over with its
/// first shapes; the joint goes with the link unless a shape is being adjusted.
pub open spec fn selected(
    model: RobotModel,
    was: Selection,
    li: usize,
    mode: InteractionMode,
    target: OffsetTarget,
) -> Selection {
    let fresh = was.link != Some(li);
    Selection {
        link: Some(li),
        joint: if mode == InteractionMode::JointDrive || target == OffsetTarget::Joint {
            parent_of(model, li as int)
        } else {
            None
        },
        visual: if fresh {
            first_of(model.links@[li as int].visuals@.len())
        } else {
            was.visual
        },
        collision: if fresh {
            first_of(model.links@[li as int].collisions@.len())
        } else {
            was.collision
        },
    }
}

/// A link was clicked.
pub fn select_link(
    model: &RobotModel,
    was: Selection,
    li: usize,
    mode: InteractionMode,
    target: OffsetTarget,
) -> (r: Selection)
    requires
        li < model.links@.len(),
    ensures
        r == selected(*model, was, li, mode, target),
{
    let fresh: bool = match was.link {
        Some(l) => l != li,
        None => true,
    };
    let joint: Option<usize> = if mode == InteractionMode::JointDrive || target
        == OffsetTarget::Joint {
        model.parent_joint_of_link(model.links[li].name.as_str())
    } else {
        None
    };
    let visual: Option<usize> = if !fresh {
        was.visual
    } else if model.links[li].visuals.len() == 0 {
        None
    } else {
        Some(0)
    };
    let collision: Option<usize> = if !fresh {
        was.collision
    } else if model.links[li].collisions.len() == 0 {
        None
    } else {
        Some(0)
    };
    Selection { link: Some(li), joint, visual, collision }
}

/// A joint drag selects the link and its parent joint, and leaves the shapes
/// alone.
pub fn select_for_drive(model: &RobotModel, was: Selection, li: usize) -> (r: Selection)
    requires
        li < model.links@.len(),
    ensures
        r == (Selection { link: Some(li), joint: parent_of(*model, li as int), ..was }),
{
    let joint: Option<usize> = model.parent_joint_of_link(model.links[li].name.as_str());
    Selection { link: Some(li), joint, visual: was.visual, collision: was.collision }
}

/// Clicking the selected link again changes no shape selection.
pub proof fn law_second_click_keeps_shapes(
    model: RobotModel,
    was: Selection,
    li: usize,
    mode: InteractionMode,
    target: OffsetTarget,
)
    ensures
        ({
            let once = selected(model, was, li, mode, target);
            selected(model, once, li, mode, target) == once
        }),
{
}

// ---------------------------------------------------------------- gizmo drags

/// What the gizmo stands on.
#[derive(Clone, Copy, PartialEq, Eq, Structural, Debug)]
pub enum GizmoAnchor {
    Joint(usize),
    Visual(usize, usize),
    Collision(usize, usize),
}

/// What the gizmo stands on: the selected joint, or the selected shape of the
/// selected link where it has one.
pub open spec fn anchor(
    model: RobotModel,
    sel: Selection,
    mode: InteractionMode,
    target: OffsetTarget,
) -> Option<GizmoAnchor> {
    if mode != InteractionMode::OffsetAdjust {
        None
    } else {
        match target {
            OffsetTarget::Joint => match sel.joint {
                Some(ji) => Some(GizmoAnchor::Joint(ji)),
                None => None,
            },
            OffsetTarget::Visual => match (sel.link, sel.visual) {
                (Some(li), Some(vi)) => if li < model.links@.len() && vi
                    < model.links@[li as int].visuals@.len() {
                    Some(GizmoAnchor::Visual(li, vi))
                } else {
                    None
                },
                _ => None,
            },
            OffsetTarget::Collision => match (sel.link, sel.collision) {
                (Some(li), Some(ci)) => if li < model.links@.len() && ci
                    < model.links@[li as int].collisions@.len() {
                    Some(GizmoAnchor::Collision(li, ci))
                } else {
                    None
                },
                _ => None,
            },
        }
    }
}

/// What the gizmo stands on.
pub fn gizmo_anchor(
    model: &RobotModel,
    sel: &Selection,
    mode: InteractionMode,
    target: OffsetTarget,
) -> (r: Option<GizmoAnchor>)
    ensures
        r == anchor(*model, *sel, mode, target),
{
    if mode != InteractionMode::OffsetAdjust {
        return None;
    }
    match target {
        OffsetTarget::Joint => match sel.joint {
            Some(ji) => Some(GizmoAnchor::Joint(ji)),
            None => None,
        },
        OffsetTarget::Visual => match (sel.link, sel.visual) {
            (Some(li), Some(vi)) => if li < model.links.len() && vi < model.links[li].visuals.len() {
                Some(GizmoAnchor::Visual(li, vi))
            } else {
                None
            },
            _ => None,
        },
        OffsetTarget::Collision => match (sel.link, sel.collision) {
            (Some(li), Some(ci)) => if li < model.links.len() && ci
                < model.links[li].collisions.len() {
                Some(GizmoAnchor::Collision(li, ci))
            } else {
                None
            },
            _ => None,
        },
    }
}

/// Whether the gizmo's axes are those of the element itself rather than of what
/// it is attached to.
pub fn uses_element_axes(op: GizmoOp) -> (r: bool)
    ensures
        r == (op == GizmoOp::Rotate || op == GizmoOp::Scale),
{
    op == GizmoOp::Rotate || op == GizmoOp::Scale
}

/// A gizmo drag. `G` is the geometry it began with: the axis in the world, where
/// on it the cursor was, and the turn of what the element is attached to.
pub struct OffsetDrag<G> {
    pub axis: u8,
    pub anchor: GizmoAnchor,
    pub op: GizmoOp,
    pub initial: Placement,
    pub initial_params: [i64; 3],
    pub frame: G,
}

impl<G> OffsetDrag<G> {
    /// What is dragged is there.
    pub open spec fn fits(&self, model: RobotModel) -> bool {
        match self.anchor {
            GizmoAnchor::Joint(ji) => ji < model.joints@.len(),
            GizmoAnchor::Visual(li, vi) => li < model.links@.len() && vi
                < model.links@[li as int].visuals@.len(),
            GizmoAnchor::Collision(li, ci) => li < model.links@.len() && ci
                < model.links@[li as int].collisions@.len(),
        }
    }
}

/// Where an element sits.
pub open spec fn placement_at(model: RobotModel, at: GizmoAnchor) -> Placement {
    match at {
        GizmoAnchor::Joint(ji) => model.joints@[ji as int].origin,
        GizmoAnchor::Visual(li, vi) => model.links@[li as int].visuals@[vi as int].origin,
        GizmoAnchor::Collision(li, ci) => model.links@[li as int].collisions@[ci as int].origin,
    }
}

/// The dimensions of an element; a joint has none.
pub open spec fn params_at(model: RobotModel, at: GizmoAnchor) -> Seq<i64> {
    match at {
        GizmoAnchor::Joint(_) => seq![0, 0, 0],
        GizmoAnchor::Visual(li, vi) => crate::editor::shapes::dimensions(
            model.links@[li as int].visuals@[vi as int].geometry,
        ),
        GizmoAnchor::Collision(li, ci) => crate::editor::shapes::dimensions(
            model.links@[li as int].collisions@[ci as int].geometry,
        ),
    }
}

/// Takes hold of the gizmo by one of its axes.
pub fn start_offset_drag<G>(
    model: &RobotModel,
    sel: &Selection,
    mode: InteractionMode,
    target: OffsetTarget,
    op: GizmoOp,
    axis: u8,
    frame: G,
) -> (r: Option<OffsetDrag<G>>)
    requires
        sel.fits(*model),
    ensures
        r is Some <==> anchor(*model, *sel, mode, target) is Some,
        r matches Some(d) ==> {
            &&& d.fits(*model)
            &&& d.axis == axis
            &&& d.op == op
            &&& Some(d.anchor) == anchor(*model, *sel, mode, target)
            &&& d.initial == placement_at(*model, d.anchor)
            &&& d.initial_params@ == params_at(*model, d.anchor)
            &&& d.frame == frame
        },
{
    match gizmo_anchor(model, sel, mode, target) {
        None => None,
        Some(at) => {
            let (initial, initial_params): (Placement, [i64; 3]) = match at {
                GizmoAnchor::Joint(ji) => (model.joints[ji].origin, [0, 0, 0]),
                GizmoAnchor::Visual(li, vi) => (
                    model.links[li].visuals[vi].origin,
                    geom_params(&model.links[li].visuals[vi].geometry),
                ),
                GizmoAnchor::Collision(li, ci) => (
                    model.links[li].collisions[ci].origin,
                    geom_params(&model.links[li].collisions[ci].geometry),
                ),
            };
            proof {
                assert(initial_params@ =~= params_at(*model, at));
            }
            Some(OffsetDrag { axis, anchor: at, op, initial, initial_params, frame })
        },
    }
}

/// How far a gizmo drag has gone: a displacement in the frame of what the
/// element is attached to, its new turn, or the growth of a dimension.
#[derive(Clone, Copy, PartialEq, Eq, Structural, Debug)]
pub enum OffsetMotion {
    Translate(Vec3),
    Rotate(Quat),
    Scale(i64),
}

/// The placement after a drag.
pub open spec fn placed(initial: Placement, now: Placement, motion: OffsetMotion) -> Placement {
    match motion {
        OffsetMotion::Translate(d) => Placement {
            translation: Vec3 {
                x: (initial.translation.x + d.x) as i64,
                y: (initial.translation.y + d.y) as i64,
                z: (initial.translation.z + d.z) as i64,
            },
            rotation: now.rotation,
        },
        OffsetMotion::Rotate(q) => Placement { translation: now.translation, rotation: q },
        OffsetMotion::Scale(_) => now,
    }
}

/// The sums of a drag are within range.
pub open spec fn motion_fits(initial: Placement, params: Seq<i64>, motion: OffsetMotion) -> bool {
    match motion {
        OffsetMotion::Translate(d) => {
            &&& i64::MIN <= initial.translation.x + d.x <= i64::MAX
            &&& i64::MIN <= initial.translation.y + d.y <= i64::MAX
            &&& i64::MIN <= initial.translation.z + d.z <= i64::MAX
        },
        OffsetMotion::Rotate(_) => true,
        OffsetMotion::Scale(delta) => forall|k: int|
            0 <= k < 3 ==> i64::MIN <= #[trigger] params[k] + delta <= i64::MAX,
    }
}

fn move_placement(p: &mut Placement, initial: &Placement, motion: OffsetMotion)
    requires
        motion_fits(*initial, seq![0, 0, 0], motion) || motion is Scale,
    ensures
        *final(p) == placed(*initial, *old(p), motion),
{
    match motion {
        OffsetMotion::Translate(d) => {
            p.translation = Vec3 {
                x: initial.translation.x + d.x,
                y: initial.translation.y + d.y,
                z: initial.translation.z + d.z,
            };
        },
        OffsetMotion::Rotate(q) => {
            p.rotation = q;
        },
        OffsetMotion::Scale(_) => {},
    }
}

/// Everything but one link is as it was.
pub open spec fn only_link_changed(now: RobotModel, was: RobotModel, li: int) -> bool {
    &&& now == (RobotModel { links: now.links, ..was })
    &&& now.links@.len() == was.links@.len()
    &&& forall|i: int| 0 <= i < now.links@.len() && i != li ==> #[trigger] now.links@[i] == was.links@[i]
}

/// The model after a gizmo drag has gone as far as `motion` says.
pub open spec fn is_moved<G>(
    now: RobotModel,
    was: RobotModel,
    drag: OffsetDrag<G>,
    motion: OffsetMotion,
) -> bool {
    match drag.anchor {
        GizmoAnchor::Joint(j) => {
            let ji = j as int;
            &&& now == (RobotModel { joints: now.joints, ..was })
            &&& now.joints@ == was.joints@.update(
                ji,
                crate::robot::JointData {
                    origin: placed(drag.initial, was.joints@[ji].origin, motion),
                    ..was.joints@[ji]
                },
            )
        },
        GizmoAnchor::Visual(l, v) => {
            let li = l as int;
            let vi = v as int;
            let link = now.links@[li];
            &&& only_link_changed(now, was, li)
            &&& link == (crate::robot::LinkData { visuals: link.visuals, ..was.links@[li] })
            &&& link.visuals@.len() == was.links@[li].visuals@.len()
            &&& forall|i: int|
                0 <= i < link.visuals@.len() && i != vi ==> #[trigger] link.visuals@[i]
                    == was.links@[li].visuals@[i]
            &&& link.visuals@[vi].color == was.links@[li].visuals@[vi].color
            &&& link.visuals@[vi].origin == placed(
                drag.initial,
                was.links@[li].visuals@[vi].origin,
                motion,
            )
            &&& match motion {
                OffsetMotion::Scale(delta) => crate::editor::shapes::is_scaled(
                    link.visuals@[vi].geometry,
                    was.links@[li].visuals@[vi].geometry,
                    drag.axis,
                    drag.initial_params@,
                    delta as int,
                ),
                _ => link.visuals@[vi].geometry == was.links@[li].visuals@[vi].geometry,
            }
        },
        GizmoAnchor::Collision(l, c) => {
            let li = l as int;
            let ci = c as int;
            let link = now.links@[li];
            &&& only_link_changed(now, was, li)
            &&& link == (crate::robot::LinkData { collisions: link.collisions, ..was.links@[li] })
            &&& link.collisions@.len() == was.links@[li].collisions@.len()
            &&& forall|i: int|
                0 <= i < link.collisions@.len() && i != ci ==> #[trigger] link.collisions@[i]
                    == was.links@[li].collisions@[i]
            &&& link.collisions@[ci].origin == placed(
                drag.initial,
                was.links@[li].collisions@[ci].origin,
                motion,
            )
            &&& match motion {
                OffsetMotion::Scale(delta) => crate::editor::shapes::is_scaled(
                    link.collisions@[ci].geometry,
                    was.links@[li].collisions@[ci].geometry,
                    drag.axis,
                    drag.initial_params@,
                    delta as int,
                ),
                _ => link.collisions@[ci].geometry == was.links@[li].collisions@[ci].geometry,
            }
        },
    }
}

/// Moves what a gizmo drag holds. Joints have no dimensions to drag.
pub fn update_offset_drag<G>(model: &mut RobotModel, drag: &OffsetDrag<G>, motion: OffsetMotion)
    requires
        drag.fits(*old(model)),
        motion_fits(drag.initial, drag.initial_params@, motion),
    ensures
        is_moved(*final(model), *old(model), *drag, motion),
        drag.fits(*final(model)),
{
    match drag.anchor {
        GizmoAnchor::Joint(ji) => {
            move_placement(&mut model.joints[ji].origin, &drag.initial, motion);
        },
        GizmoAnchor::Visual(li, vi) => {
            move_placement(&mut model.links[li].visuals[vi].origin, &drag.initial, motion);
            if let OffsetMotion::Scale(delta) = motion {
                apply_geom_scale(
                    &mut model.links[li].visuals[vi].geometry,
                    drag.axis,
                    &drag.initial_params,
                    delta,
                );
            }
        },
        GizmoAnchor::Collision(li, ci) => {
            move_placement(&mut model.links[li].collisions[ci].origin, &drag.initial, motion);
            if let OffsetMotion::Scale(delta) = motion {
                apply_geom_scale(
                    &mut model.links[li].collisions[ci].geometry,
                    drag.axis,
                    &drag.initial_params,
                    delta,
                );
            }
        },
    }
}

// ---------------------------------------------------------------- one joint

/// A joint that turns about its axis.
pub open spec fn turns(joint_type: Seq<char>) -> bool {
    joint_type == "revolute"@ || joint_type == "continuous"@
}

/// The nearest joint above a link that turns, looking at no more than `steps`
/// joints.
pub open spec fn nearest_turning(
    joints: Seq<crate::robot::JointData>,
    link: Seq<char>,
    steps: nat,
) -> Option<int>
    decreases steps,
{
    if steps == 0 {
        None
    } else {
        match crate::robot::carrier(joints, link) {
            None => None,
            Some(ji) => if turns(joints[ji].joint_type@) {
                Some(ji)
            } else {
                nearest_turning(joints, joints[ji].parent_link@, (steps - 1) as nat)
            },
        }
    }
}

/// The nearest joint above a link that turns. No chain is longer than the robot
/// has joints.
pub fn drive_joint_of(model: &RobotModel, link: &str) -> (r: Option<usize>)
    ensures
        nearest_turning(model.joints@, link@, model.joints@.len()) == match r {
            Some(ji) => Some(ji as int),
            None => None,
        },
        r matches Some(ji) ==> ji < model.joints@.len(),
{
    let mut at: String = link.to_owned();
    let mut steps: usize = model.joints.len();
    while steps > 0
        invariant
            steps <= model.joints.len(),
            nearest_turning(model.joints@, link@, model.joints@.len()) == nearest_turning(
                model.joints@,
                at@,
                steps as nat,
            ),
        decreases steps,
    {
        match model.parent_joint_of_link(at.as_str()) {
            None => {
                return None;
            },
            Some(ji) => {
                let joint_type: &str = model.joints[ji].joint_type.as_str();
                if same(joint_type, "revolute") || same(joint_type, "continuous") {
                    return Some(ji);
                }
                at = model.joints[ji].parent_link.clone();
            },
        }
        steps -= 1;
    }
    None
}

/// Every joint leads one level up, by a numbering of the links.
pub open spec fn is_level(
    joints: Seq<crate::robot::JointData>,
    level: spec_fn(Seq<char>) -> nat,
) -> bool {
    forall|i: int|
        0 <= i < joints.len() ==> level((#[trigger] joints[i]).parent_link@) < level(
            joints[i].child_link@,
        )
}

/// On a tree the search is exhaustive: looking further than a link's level finds
/// nothing else.
pub proof fn law_search_is_exhaustive(
    joints: Seq<crate::robot::JointData>,
    level: spec_fn(Seq<char>) -> nat,
    link: Seq<char>,
    a: nat,
    b: nat,
)
    requires
        is_level(joints, level),
        level(link) <= a,
        a <= b,
    ensures
        nearest_turning(joints, link, a) == nearest_turning(joints, link, b),
    decreases b,
{
    if b > 0 {
        match crate::robot::carrier(joints, link) {
            None => {},
            Some(ji) => {
                assert(crate::robot::carries_link(joints, link, ji));
                assert(level(joints[ji].parent_link@) < level(joints[ji].child_link@));
                if !turns(joints[ji].joint_type@) {
                    law_search_is_exhaustive(
                        joints,
                        level,
                        joints[ji].parent_link@,
                        (a - 1) as nat,
                        (b - 1) as nat,
                    );
                }
            },
        }
    }
}

/// A position kept within limits.
pub open spec fn within(v: int, lower: int, upper: int) -> int {
    if v < lower {
        lower
    } else if v > upper {
        upper
    } else {
        v
    }
}

/// Turns a joint by `delta`, as far as its limits let it.
pub fn drive_joint(model: &mut RobotModel, ji: usize, delta: i64)
    requires
        old(model).valid(),
        ji < old(model).joints@.len(),
        old(model).joints@[ji as int].lower <= old(model).joints@[ji as int].upper,
    ensures
        final(model).valid(),
        *final(model) == (RobotModel { joint_positions: final(model).joint_positions, ..*old(model) }),
        final(model).joint_positions@ == (if delta == 0 {
            old(model).joint_positions@
        } else {
            old(model).joint_positions@.update(
                ji as int,
                within(
                    old(model).joint_positions@[ji as int] + delta,
                    old(model).joints@[ji as int].lower as int,
                    old(model).joints@[ji as int].upper as int,
                ) as i64,
            )
        }),
{
    if delta == 0 {
        return ;
    }
    let lower: i64 = model.joints[ji].lower;
    let upper: i64 = model.joints[ji].upper;
    let sum: i128 = model.joint_positions[ji] as i128 + delta as i128;
    let kept: i64 = if sum < lower as i128 {
        lower
    } else if sum > upper as i128 {
        upper
    } else {
        sum as i64
    };
    model.joint_positions.set(ji, kept);
}

/// A driven joint ends within its limits.
pub proof fn law_driven_joint_is_within_limits(v: int, lower: int, upper: int)
    requires
        lower <= upper,
    ensures
        lower <= within(v, lower, upper) <= upper,
        lower <= v <= upper ==> within(v, lower, upper) == v,
{
}

// ---------------------------------------------------------------- several joints

/// What a joint drag holds on to. `G` is its geometry.
pub struct JointDrag<G> {
    pub link_idx: usize,
    pub mode: DragMode,
    pub joint_idx: usize,
    pub chain: Vec<usize>,
    pub ee_link: String,
    pub ik_root_link: Option<String>,
    /// Positions of the chain when the drag began.
    pub ref_positions: Vec<i64>,
    pub frame: G,
}

/// Takes hold of a link to turn the nearest joint above it. There is no drag
/// where nothing above it turns.
pub fn start_single_drag<G>(model: &RobotModel, li: usize, frame: G) -> (r: Option<JointDrag<G>>)
    requires
        li < model.links@.len(),
    ensures
        ({
            let found = nearest_turning(
                model.joints@,
                model.links@[li as int].name@,
                model.joints@.len(),
            );
            &&& r is Some <==> found is Some
            &&& r matches Some(d) ==> {
                &&& d.link_idx == li
                &&& d.mode == DragMode::SingleJoint
                &&& Some(d.joint_idx as int) == found
                &&& d.joint_idx < model.joints@.len()
                &&& d.chain@.len() == 0
                &&& d.ee_link@.len() == 0
                &&& d.ik_root_link is None
                &&& d.ref_positions@.len() == 0
                &&& d.frame == frame
            }
        }),
{
    match drive_joint_of(model, model.links[li].name.as_str()) {
        None => None,
        Some(ji) => Some(
            JointDrag {
                link_idx: li,
                mode: DragMode::SingleJoint,
                joint_idx: ji,
                chain: Vec::new(),
                ee_link: String::new(),
                ik_root_link: None,
                ref_positions: Vec::new(),
                frame,
            },
        ),
    }
}

/// Whether the other links are held by anything: pins, links that keep their
/// pose, or loop closures.
pub open spec fn constrained(pins: nat, heads: nat, loops: nat) -> bool {
    pins > 0 || heads > 0 || loops > 0
}

/// Takes hold of a link to move a chain of joints. With nothing to move and
/// nothing to hold there is no drag.
pub fn start_ik_drag<G, P>(
    model: &RobotModel,
    li: usize,
    chain: Vec<usize>,
    ik_root: &Option<String>,
    pins: &Vec<PinnedLink<P>>,
    heads: &Vec<String>,
    loops: usize,
    frame: G,
) -> (r: Option<JointDrag<G>>)
    requires
        model.valid(),
        li < model.links@.len(),
        forall|k: int| 0 <= k < chain@.len() ==> #[trigger] chain@[k] < model.joints@.len(),
    ensures
        r is Some <==> chain@.len() > 0 || constrained(pins@.len(), heads@.len(), loops as nat),
        r matches Some(d) ==> {
            &&& d.link_idx == li
            &&& d.mode == DragMode::InverseKinematics
            &&& d.joint_idx == (if chain@.len() > 0 {
                chain@.last()
            } else {
                0
            })
            &&& d.chain@ == chain@
            &&& d.ee_link@ == model.links@[li as int].name@
            &&& crate::editor::display::name_view(d.ik_root_link)
                == crate::editor::display::name_view(*ik_root)
            &&& d.ref_positions@ == chain@.map_values(
                |ji: usize| model.joint_positions@[ji as int],
            )
            &&& d.frame == frame
        },
{
    if chain.len() == 0 && pins.len() == 0 && heads.len() == 0 && loops == 0 {
        return None;
    }
    let mut ref_positions: Vec<i64> = Vec::new();
    let ghost want = chain@.map_values(|ji: usize| model.joint_positions@[ji as int]);
    let mut k: usize = 0;
    while k < chain.len()
        invariant
            model.valid(),
            k <= chain.len(),
            forall|j: int| 0 <= j < chain@.len() ==> #[trigger] chain@[j] < model.joints@.len(),
            want == chain@.map_values(|ji: usize| model.joint_positions@[ji as int]),
            ref_positions@ == want.take(k as int),
        decreases chain.len() - k,
    {
        ref_positions.push(model.joint_positions[chain[k]]);
        proof {
            assert(ref_positions@ =~= want.take(k + 1));
        }
        k += 1;
    }
    proof {
        assert(ref_positions@ =~= want);
    }
    let joint_idx: usize = if chain.len() > 0 {
        chain[chain.len() - 1]
    } else {
        0
    };
    let root: Option<String> = match ik_root {
        Some(n) => Some(n.clone()),
        None => None,
    };
    Some(
        JointDrag {
            link_idx: li,
            mode: DragMode::InverseKinematics,
            joint_idx,
            chain,
            ee_link: model.links[li].name.clone(),
            ik_root_link: root,
            ref_positions,
            frame,
        },
    )
}

// ---------------------------------------------------------------- pins

/// A pin as a value of contracts.
pub struct PinView<P> {
    pub link: Seq<char>,
    pub target: P,
    pub dof: PinDof,
}

pub open spec fn pin_view<P>(p: PinnedLink<P>) -> PinView<P> {
    PinView { link: p.link_name@, target: p.target, dof: p.dof }
}

pub open spec fn pin_views<P>(pins: Seq<PinnedLink<P>>) -> Seq<PinView<P>> {
    pins.map_values(|p: PinnedLink<P>| pin_view(p))
}

/// Some pin holds the link.
pub open spec fn pinned<P>(pins: Seq<PinView<P>>, link: Seq<char>) -> bool {
    exists|i: int| 0 <= i < pins.len() && (#[trigger] pins[i]).link == link
}

/// The pins once the first `n` links that keep their pose have been pinned for
/// the duration of a drag: each where it is now, unless it is pinned already, is
/// the one being dragged, or is unknown.
pub open spec fn auto_pinned<P>(
    pins: Seq<PinView<P>>,
    heads: Seq<Seq<char>>,
    dragged: Seq<char>,
    model: RobotModel,
    poses: Seq<P>,
    dof: PinDof,
    n: nat,
) -> Seq<PinView<P>>
    decreases n,
{
    if n == 0 || n > heads.len() {
        pins
    } else {
        let before = auto_pinned(pins, heads, dragged, model, poses, dof, (n - 1) as nat);
        let head = heads[n - 1];
        if pinned(before, head) || head == dragged {
            before
        } else {
            match link_at(model, head) {
                Some(li) => before.push(PinView { link: head, target: poses[li], dof }),
                None => before,
            }
        }
    }
}

/// The link called `name`, if there is one.
pub open spec fn link_at(model: RobotModel, name: Seq<char>) -> Option<int> {
    if exists|i: int| crate::robot::first_link(model.links@, name, i) {
        Some(choose|i: int| crate::robot::first_link(model.links@, name, i))
    } else {
        None
    }
}

fn find_link_at(model: &RobotModel, name: &str) -> (r: Option<usize>)
    ensures
        link_at(*model, name@) == match r {
            Some(i) => Some(i as int),
            None => None,
        },
        r matches Some(i) ==> i < model.links@.len(),
{
    match model.link_index(name) {
        Some(i) => {
            proof {
                assert(crate::robot::first_link(model.links@, name@, i as int));
                let k = choose|k: int| crate::robot::first_link(model.links@, name@, k);
                assert(k == i);
            }
            Some(i)
        },
        None => {
            proof {
                if exists|k: int| crate::robot::first_link(model.links@, name@, k) {
                    let k = choose|k: int| crate::robot::first_link(model.links@, name@, k);
                    assert(model.links@[k].name@ == name@);
                }
            }
            None
        },
    }
}

fn is_pinned<P>(pins: &Vec<PinnedLink<P>>, link: &str) -> (r: bool)
    ensures
        r == pinned(pin_views(pins@), link@),
{
    let ghost views = pin_views(pins@);
    let mut i: usize = 0;
    while i < pins.len()
        invariant
            i <= pins.len(),
            views == pin_views(pins@),
            forall|j: int| 0 <= j < i ==> (#[trigger] views[j]).link != link@,
        decreases pins.len() - i,
    {
        proof {
            assert(views[i as int].link == pins@[i as int].link_name@);
        }
        if same(pins[i].link_name.as_str(), link) {
            return true;
        }
        i += 1;
    }
    false
}

/// The links of the pins behind the first `n`.
pub open spec fn links_behind<P>(pins: Seq<PinView<P>>, n: nat) -> Seq<Seq<char>> {
    pins.skip(n as int).map_values(|p: PinView<P>| p.link)
}

/// Pins the links that keep their pose while another is dragged. `poses` holds
/// where each link of the robot is now. Returns the links that it has pinned, which
/// the drag keeps in mind.
pub fn auto_pin<P: Copy>(
    pins: &mut Vec<PinnedLink<P>>,
    heads: &Vec<String>,
    dragged: &str,
    model: &RobotModel,
    poses: &Vec<P>,
    dof: PinDof,
) -> (added: Vec<String>)
    requires
        poses@.len() == model.links@.len(),
    ensures
        crate::text::views(added@) == links_behind(pin_views(final(pins)@), old(pins)@.len()),
        pin_views(final(pins)@) == auto_pinned(
            pin_views(old(pins)@),
            crate::text::views(heads@),
            dragged@,
            *model,
            poses@,
            dof,
            heads@.len(),
        ),
{
    let ghost start = pin_views(pins@);
    let ghost names = crate::text::views(heads@);
    let mut added: Vec<String> = Vec::new();
    let mut n: usize = 0;
    proof {
        assert(crate::text::views(added@) =~= links_behind(start, start.len()));
    }
    while n < heads.len()
        invariant
            n <= heads.len(),
            poses@.len() == model.links@.len(),
            names == crate::text::views(heads@),
            pin_views(pins@) == auto_pinned(start, names, dragged@, *model, poses@, dof, n as nat),
            start.len() <= pins@.len(),
            crate::text::views(added@) == links_behind(pin_views(pins@), start.len()),
        decreases heads.len() - n,
    {
        let head: &str = heads[n].as_str();
        proof {
            assert(names[n as int] == head@);
        }
        if !is_pinned(pins, head) && !same(head, dragged) {
            if let Some(li) = find_link_at(model, head) {
                let ghost before = pins@;
                let ghost had = added@;
                pins.push(PinnedLink { link_name: heads[n].clone(), target: poses[li], dof });
                added.push(heads[n].clone());
                proof {
                    assert(pin_views(pins@) =~= pin_views(before).push(
                        PinView { link: head@, target: poses@[li as int], dof },
                    ));
                    assert(crate::text::views(added@) =~= crate::text::views(had).push(head@));
                    assert(links_behind(pin_views(pins@), start.len()) =~= links_behind(
                        pin_views(before),
                        start.len(),
                    ).push(head@));
                }
            }
        }
        n += 1;
    }
    added
}

/// The pins among the first `n` whose link is not one of `added`.
pub open spec fn unpinned<P>(pins: Seq<PinView<P>>, added: Seq<Seq<char>>, n: nat) -> Seq<PinView<P>>
    decreases n,
{
    if n == 0 || n > pins.len() {
        Seq::empty()
    } else {
        let before = unpinned(pins, added, (n - 1) as nat);
        if added.contains(pins[n - 1].link) {
            before
        } else {
            before.push(pins[n - 1])
        }
    }
}

fn among(names: &Vec<String>, name: &str) -> (r: bool)
    ensures
        r == crate::text::views(names@).contains(name@),
{
    let ghost all = crate::text::views(names@);
    let mut i: usize = 0;
    while i < names.len()
        invariant
            i <= names.len(),
            all == crate::text::views(names@),
            forall|j: int| 0 <= j < i ==> #[trigger] all[j] != name@,
        decreases names.len() - i,
    {
        proof {
            assert(all[i as int] == names@[i as int]@);
        }
        if same(names[i].as_str(), name) {
            return true;
        }
        i += 1;
    }
    false
}

/// The end of a drag: the links that the drag has pinned are let go again. Pins that
/// the user has set stay.
pub fn release_pins<P>(pins: &mut Vec<PinnedLink<P>>, added: &Vec<String>)
    ensures
        pin_views(final(pins)@) == unpinned(
            pin_views(old(pins)@),
            crate::text::views(added@),
            old(pins)@.len(),
        ),
{
    let ghost start = pin_views(pins@);
    let ghost n = pins@.len();
    let mut left: Vec<PinnedLink<P>> = Vec::new();
    std::mem::swap(pins, &mut left);
    let ghost all = left@;
    let mut kept: Vec<PinnedLink<P>> = Vec::new();
    let ghost mut done: int = 0;
    proof {
        assert(pin_views(kept@) =~= Seq::empty());
        assert(all.skip(0) =~= all);
    }
    while left.len() > 0
        invariant
            0 <= done <= all.len(),
            left@ == all.skip(done),
            start == pin_views(all),
            n == all.len(),
            pin_views(kept@) == unpinned(start, crate::text::views(added@), done as nat),
        decreases left.len(),
    {
        let p: PinnedLink<P> = left.remove(0);
        proof {
            assert(p == all[done]);
            assert(left@ =~= all.skip(done + 1));
            assert(start[done] == pin_view(p));
        }
        if !among(added, p.link_name.as_str()) {
            let ghost before = kept@;
            kept.push(p);
            proof {
                assert(pin_views(kept@) =~= pin_views(before).push(pin_view(p)));
            }
        }
        proof {
            done = done + 1;
        }
    }
    *pins = kept;
}

/// No pin holds one of these links.
pub open spec fn none_pinned<P>(pins: Seq<PinView<P>>, links: Seq<Seq<char>>) -> bool {
    forall|i: int| 0 <= i < pins.len() ==> !links.contains((#[trigger] pins[i]).link)
}

/// `more` starts with `pins`, and what follows holds links that `pins` does not.
pub open spec fn extends<P>(more: Seq<PinView<P>>, pins: Seq<PinView<P>>) -> bool {
    &&& pins.len() <= more.len()
    &&& more.take(pins.len() as int) == pins
    &&& forall|i: int| pins.len() <= i < more.len() ==> !pinned(pins, (#[trigger] more[i]).link)
}

proof fn lemma_auto_pinned<P>(
    pins: Seq<PinView<P>>,
    heads: Seq<Seq<char>>,
    dragged: Seq<char>,
    model: RobotModel,
    poses: Seq<P>,
    dof: PinDof,
    n: nat,
)
    ensures
        extends(auto_pinned(pins, heads, dragged, model, poses, dof, n), pins),
    decreases n,
{
    if n == 0 || n > heads.len() {
        assert(pins.take(pins.len() as int) =~= pins);
    } else {
        lemma_auto_pinned(pins, heads, dragged, model, poses, dof, (n - 1) as nat);
        let before = auto_pinned(pins, heads, dragged, model, poses, dof, (n - 1) as nat);
        let now = auto_pinned(pins, heads, dragged, model, poses, dof, n);
        if now.len() > before.len() {
            assert(now.take(pins.len() as int) =~= before.take(pins.len() as int));
            assert forall|i: int| pins.len() <= i < now.len() implies !pinned(
                pins,
                (#[trigger] now[i]).link,
            ) by {
                if i < before.len() {
                    assert(now[i] == before[i]);
                } else {
                    if pinned(pins, now[i].link) {
                        let j = choose|j: int|
                            0 <= j < pins.len() && (#[trigger] pins[j]).link == now[i].link;
                        assert(before.take(pins.len() as int)[j] == before[j]);
                        assert(before[j].link == now[i].link);
                    }
                }
            }
        }
    }
}

proof fn lemma_unpin_extended<P>(
    more: Seq<PinView<P>>,
    pins: Seq<PinView<P>>,
    added: Seq<Seq<char>>,
    n: nat,
)
    requires
        extends(more, pins),
        added == links_behind(more, pins.len()),
        none_pinned(pins, added),
        n <= more.len(),
    ensures
        unpinned(more, added, n) == (if n <= pins.len() {
            pins.take(n as int)
        } else {
            pins
        }),
    decreases n,
{
    if n == 0 {
        assert(pins.take(0) =~= Seq::<PinView<P>>::empty());
    } else {
        lemma_unpin_extended(more, pins, added, (n - 1) as nat);
        let i = n - 1;
        if i < pins.len() {
            assert(more.take(pins.len() as int)[i] == more[i]);
            assert(more[i] == pins[i]);
            assert(pins.take(i).push(pins[i]) =~= pins.take(n as int));
        } else {
            assert(added[i - pins.len()] == more[i].link);
            assert(pins.take(pins.len() as int) =~= pins);
        }
        if n == pins.len() {
            assert(pins.take(n as int) =~= pins);
        }
    }
}

/// The pins of a drag do not outlive it, and no other pin is touched: after the
/// release the pins are those from before the drag, those that the user has set on
/// links that keep their pose among them.
pub proof fn law_release_undoes_auto_pin<P>(
    pins: Seq<PinView<P>>,
    heads: Seq<Seq<char>>,
    dragged: Seq<char>,
    model: RobotModel,
    poses: Seq<P>,
    dof: PinDof,
)
    ensures
        ({
            let held = auto_pinned(pins, heads, dragged, model, poses, dof, heads.len());
            unpinned(held, links_behind(held, pins.len()), held.len()) == pins
        }),
{
    let held = auto_pinned(pins, heads, dragged, model, poses, dof, heads.len());
    let added = links_behind(held, pins.len());
    lemma_auto_pinned(pins, heads, dragged, model, poses, dof, heads.len());
    assert forall|i: int| 0 <= i < pins.len() implies !added.contains((#[trigger] pins[i]).link) by {
        if added.contains(pins[i].link) {
            let j = choose|j: int| 0 <= j < added.len() && added[j] == pins[i].link;
            assert(held[pins.len() + j].link == pins[i].link);
        }
    }
    lemma_unpin_extended(held, pins, added, held.len());
    assert(pins.take(pins.len() as int) =~= pins);
}

// ---------------------------------------------------------------- solving

/// How a frame of an inverse-kinematics drag is solved.
#[derive(Clone, Copy, PartialEq, Eq, Structural, Debug)]
pub enum IkRoute {
    /// The base moves, and the joints keep the pins and loops.
    Base,
    /// All joints, with pins and loops as constraints.
    Constrained,
    /// The chain alone.
    Chain,
}

/// How a frame of a drag is solved: with anything pinned or closed all joints
/// take part, and a link without a chain is moved by the base.
pub open spec fn solved_by(chain_len: nat, pins: nat, has_loops: bool) -> IkRoute {
    if pins == 0 && !has_loops {
        IkRoute::Chain
    } else if chain_len == 0 && pins > 0 {
        IkRoute::Base
    } else {
        IkRoute::Constrained
    }
}

/// Whether the base is brought back so that the root of the chain stays.
pub open spec fn base_corrected(chain_len: nat, pins: nat) -> bool {
    !(pins > 0 && chain_len == 0)
}

/// How a frame of a drag is solved.
pub fn ik_route(chain_len: usize, pins: usize, has_loops: bool) -> (r: IkRoute)
    ensures
        r == solved_by(chain_len as nat, pins as nat, has_loops),
{
    if pins > 0 || has_loops {
        if chain_len == 0 && pins > 0 {
            IkRoute::Base
        } else {
            IkRoute::Constrained
        }
    } else {
        IkRoute::Chain
    }
}

/// Whether the base is brought back so that the root of the chain stays: not
/// where the base was moved on purpose.
pub fn corrects_base(chain_len: usize, pins: usize) -> (r: bool)
    ensures
        r == base_corrected(chain_len as nat, pins as nat),
{
    !(pins > 0 && chain_len == 0)
}

/// The base is moved on purpose exactly where it is not brought back.
pub proof fn law_moved_base_is_not_corrected(chain_len: nat, pins: nat, has_loops: bool)
    ensures
        base_corrected(chain_len, pins) <==> solved_by(chain_len, pins, has_loops)
            != IkRoute::Base,
{
}

/// The step of joint `ji`, from the solution over all coordinates.
pub open spec fn delta_of<T>(map: JointMap, dq: Seq<T>, zero: T, ji: int) -> T {
    match map.a2m@[ji] {
        Some(mi) => if map.q_idx@[mi as int] < dq.len() {
            dq[map.q_idx@[mi as int] as int]
        } else {
            zero
        },
        None => zero,
    }
}

/// The step of each joint, from the solution over all coordinates. A joint
/// without a coordinate stays.
pub fn joint_deltas<T: Copy>(map: &JointMap, dq: &Vec<T>, zero: T) -> (r: Vec<T>)
    requires
        map.in_range(map.a2m@.len()),
    ensures
        r@.len() == map.a2m@.len(),
        forall|ji: int| 0 <= ji < r@.len() ==> #[trigger] r@[ji] == delta_of(*map, dq@, zero, ji),
{
    let mut out: Vec<T> = Vec::new();
    let mut ji: usize = 0;
    while ji < map.a2m.len()
        invariant
            map.in_range(map.a2m@.len()),
            ji <= map.a2m.len(),
            out@.len() == ji,
            forall|k: int| 0 <= k < ji ==> #[trigger] out@[k] == delta_of(*map, dq@, zero, k),
        decreases map.a2m.len() - ji,
    {
        let d: T = match map.a2m[ji] {
            Some(mi) => {
                proof {
                    assert(map.a2m@[ji as int] == Some(mi));
                }
                if map.q_idx[mi] < dq.len() {
                    dq[map.q_idx[mi]]
                } else {
                    zero
                }
            },
            None => zero,
        };
        out.push(d);
        ji += 1;
    }
    out
}

/// How dear it is to move each joint of a chain, as powers of the gradient: the
/// last joint is the cheapest.
pub fn chain_exponents(n: usize) -> (r: Vec<usize>)
    ensures
        r@.len() == n,
        forall|i: int| 0 <= i < n ==> #[trigger] r@[i] == n - 1 - i,
{
    let mut out: Vec<usize> = Vec::new();
    while out.len() < n
        invariant
            out.len() <= n,
            forall|i: int| 0 <= i < out.len() ==> #[trigger] out@[i] == n - 1 - i,
        decreases n - out.len(),
    {
        out.push(n - 1 - out.len());
    }
    out
}

/// The exponents of all coordinates after the first `n` joints of the chain have
/// been written; a coordinate outside the chain is as dear as its first joint.
pub open spec fn exponents_upto(map: JointMap, chain: Seq<usize>, n: nat) -> Seq<usize>
    decreases n,
{
    if n == 0 || n > chain.len() {
        let rest = if chain.len() > 0 {
            (chain.len() - 1) as usize
        } else {
            0
        };
        Seq::new(map.nv as nat, |i: int| rest)
    } else {
        let before = exponents_upto(map, chain, (n - 1) as nat);
        let ji = chain[n - 1] as int;
        let mi = if ji < map.a2m@.len() {
            map.a2m@[ji]
        } else {
            None
        };
        match mi {
            Some(m) => if map.q_idx@[m as int] < map.nv {
                before.update(map.q_idx@[m as int] as int, (chain.len() - n) as usize)
            } else {
                before
            },
            None => before,
        }
    }
}

/// How dear it is to move each coordinate while links are pinned.
pub fn full_exponents(map: &JointMap, chain: &Vec<usize>) -> (r: Vec<usize>)
    requires
        map.in_range(map.a2m@.len()),
    ensures
        r@ == exponents_upto(*map, chain@, chain@.len()),
{
    let rest: usize = if chain.len() > 0 {
        chain.len() - 1
    } else {
        0
    };
    let mut out: Vec<usize> = Vec::new();
    while out.len() < map.nv
        invariant
            out.len() <= map.nv,
            out@ == Seq::new(out.len() as nat, |i: int| rest),
        decreases map.nv - out.len(),
    {
        out.push(rest);
    }
    let mut i: usize = 0;
    while i < chain.len()
        invariant
            map.in_range(map.a2m@.len()),
            i <= chain.len(),
            out@.len() == map.nv,
            out@ == exponents_upto(*map, chain@, i as nat),
        decreases chain.len() - i,
    {
        let ji: usize = chain[i];
        if ji < map.a2m.len() {
            if let Some(mi) = map.a2m[ji] {
                proof {
                    assert(map.a2m@[ji as int] == Some(mi));
                }
                let vi: usize = map.q_idx[mi];
                if vi < map.nv {
                    out.set(vi, chain.len() - 1 - i);
                }
            }
        }
        i += 1;
    }
    out
}

/// A picked link becomes the selected one. A link that was not selected before shows its first
/// shapes, and its joint is selected with it where joints are driven or moved.
pub proof fn law_pick_selects(
    model: RobotModel,
    was: Selection,
    li: usize,
    mode: InteractionMode,
    target: OffsetTarget,
)
    requires
        li < model.links@.len(),
    ensures
        ({
            let now = selected(model, was, li, mode, target);
            let link = model.links@[li as int];
            &&& now.link == Some(li)
            &&& was.link == Some(li) ==> now.visual == was.visual && now.collision == was.collision
            &&& was.link != Some(li) ==> {
                &&& now.visual is Some <==> link.visuals@.len() > 0
                &&& now.collision is Some <==> link.collisions@.len() > 0
                &&& now.visual matches Some(i) ==> i == 0
                &&& now.collision matches Some(i) ==> i == 0
            }
            &&& mode == InteractionMode::JointDrive ==> now.joint == parent_of(model, li as int)
            &&& target == OffsetTarget::Joint ==> now.joint == parent_of(model, li as int)
            &&& mode == InteractionMode::OffsetAdjust && target != OffsetTarget::Joint
                ==> now.joint is None
        }),
{
}

/// The gizmo stands on what its target names of the selection, where that is there, and only
/// while offsets are adjusted.
pub proof fn law_gizmo_stands_on_the_selection(
    model: RobotModel,
    sel: Selection,
    mode: InteractionMode,
    target: OffsetTarget,
)
    ensures
        mode == InteractionMode::JointDrive ==> anchor(model, sel, mode, target) is None,
        mode == InteractionMode::OffsetAdjust ==> match anchor(model, sel, mode, target) {
            Some(GizmoAnchor::Joint(ji)) => target == OffsetTarget::Joint && sel.joint == Some(ji),
            Some(GizmoAnchor::Visual(li, vi)) => target == OffsetTarget::Visual && sel.link == Some(
                li,
            ) && sel.visual == Some(vi) && li < model.links@.len() && vi
                < model.links@[li as int].visuals@.len(),
            Some(GizmoAnchor::Collision(li, ci)) => target == OffsetTarget::Collision && sel.link
                == Some(li) && sel.collision == Some(ci) && li < model.links@.len() && ci
                < model.links@[li as int].collisions@.len(),
            None => {
                &&& target == OffsetTarget::Joint ==> sel.joint is None
                &&& target == OffsetTarget::Visual && sel.link is Some && sel.visual is Some
                    ==> sel.link->0 >= model.links@.len() || sel.visual->0
                    >= model.links@[sel.link->0 as int].visuals@.len()
                &&& target == OffsetTarget::Collision && sel.link is Some && sel.collision is Some
                    ==> sel.link->0 >= model.links@.len() || sel.collision->0
                    >= model.links@[sel.link->0 as int].collisions@.len()
            },
        },
{
}

/// A drag is measured from where it began: what is dragged lies where it was then plus the way
/// so far, and the frames between leave no trace.
pub proof fn law_drag_is_measured_from_its_start(
    initial: Placement,
    now: Placement,
    d1: Vec3,
    d2: Vec3,
    q: crate::robot::Quat,
)
    requires
        i64::MIN <= initial.translation.x + d2.x <= i64::MAX,
        i64::MIN <= initial.translation.y + d2.y <= i64::MAX,
        i64::MIN <= initial.translation.z + d2.z <= i64::MAX,
    ensures
        ({
            let between = placed(initial, now, OffsetMotion::Translate(d1));
            let there = placed(initial, between, OffsetMotion::Translate(d2));
            &&& there == placed(initial, now, OffsetMotion::Translate(d2))
            &&& there.translation.x - initial.translation.x == d2.x
            &&& there.translation.y - initial.translation.y == d2.y
            &&& there.translation.z - initial.translation.z == d2.z
            &&& there.rotation == now.rotation
        }),
        placed(initial, now, OffsetMotion::Rotate(q)).rotation == q,
        placed(initial, now, OffsetMotion::Rotate(q)).translation == now.translation,
{
}

/// Of the joints above a link the nearest that turns is driven: the one that carries it where
/// that turns, and otherwise that of the link before it.
pub proof fn law_nearest_turning_joint_is_driven(
    joints: Seq<crate::robot::JointData>,
    link: Seq<char>,
    steps: nat,
)
    requires
        steps > 0,
    ensures
        crate::robot::carrier(joints, link) is None ==> nearest_turning(joints, link, steps)
            is None,
        crate::robot::carrier(joints, link) matches Some(ji) ==> {
            let kind = joints[ji].joint_type@;
            if kind == "revolute"@ || kind == "continuous"@ {
                nearest_turning(joints, link, steps) == Some(ji)
            } else {
                nearest_turning(joints, link, steps) == nearest_turning(
                    joints,
                    joints[ji].parent_link@,
                    (steps - 1) as nat,
                )
            }
        },
        nearest_turning(joints, link, 0) is None,
{
}

/// A driven joint that would go beyond a limit stops at it.
pub proof fn law_driven_joint_stops_at_its_limits(v: int, lower: int, upper: int)
    requires
        lower <= upper,
    ensures
        v <= lower ==> within(v, lower, upper) == lower,
        v >= upper ==> within(v, lower, upper) == upper,
        lower <= v <= upper ==> within(v, lower, upper) == v,
{
}

/// A drag pins each head that the robot has, but for the dragged link, where it stands; pins
/// that there were stay as they are.
pub proof fn law_heads_are_pinned_where_they_stand<P>(
    pins: Seq<PinView<P>>,
    heads: Seq<Seq<char>>,
    dragged: Seq<char>,
    model: RobotModel,
    poses: Seq<P>,
    dof: PinDof,
    n: nat,
)
    requires
        n <= heads.len(),
    ensures
        ({
            let now = auto_pinned(pins, heads, dragged, model, poses, dof, n);
            &&& pins.len() <= now.len()
            &&& forall|i: int| 0 <= i < pins.len() ==> now[i] == #[trigger] pins[i]
            &&& forall|i: int|
                pins.len() <= i < now.len() ==> {
                    let p = #[trigger] now[i];
                    &&& p.link != dragged
                    &&& p.dof == dof
                    &&& link_at(model, p.link) is Some && p.target == poses[link_at(
                        model,
                        p.link,
                    )->0]
                }
            &&& forall|k: int|
                0 <= k < n && #[trigger] heads[k] != dragged && link_at(model, heads[k]) is Some
                    ==> exists|i: int| 0 <= i < now.len() && (#[trigger] now[i]).link == heads[k]
        }),
    decreases n,
{
    let now = auto_pinned(pins, heads, dragged, model, poses, dof, n);
    if n > 0 {
        law_heads_are_pinned_where_they_stand(
            pins,
            heads,
            dragged,
            model,
            poses,
            dof,
            (n - 1) as nat,
        );
        let before = auto_pinned(pins, heads, dragged, model, poses, dof, (n - 1) as nat);
        assert forall|i: int| 0 <= i < pins.len() implies now[i] == #[trigger] pins[i] by {
            assert(before[i] == pins[i]);
        }
        assert forall|k: int|
            0 <= k < n && #[trigger] heads[k] != dragged && link_at(model, heads[k]) is Some implies exists|
            i: int,
        | 0 <= i < now.len() && (#[trigger] now[i]).link == heads[k] by {
            if k < n - 1 {
                let i = choose|i: int| 0 <= i < before.len() && (#[trigger] before[i]).link
                    == heads[k];
                assert(now[i].link == heads[k]);
            } else if pinned(before, heads[k]) {
                let i = choose|i: int| 0 <= i < before.len() && (#[trigger] before[i]).link
                    == heads[k];
                assert(now[i].link == heads[k]);
            } else {
                assert(now[now.len() - 1].link == heads[k]);
            }
        }
        assert forall|i: int| pins.len() <= i < now.len() implies {
            let p = #[trigger] now[i];
            &&& p.link != dragged
            &&& p.dof == dof
            &&& link_at(model, p.link) is Some && p.target == poses[link_at(model, p.link)->0]
        } by {
            if i < before.len() {
                assert(now[i] == before[i]);
            }
        }
    }
}

/// A release takes off exactly the named pins, in order.
pub proof fn law_release_takes_the_named_pins_off<P>(
    pins: Seq<PinView<P>>,
    added: Seq<Seq<char>>,
    n: nat,
)
    requires
        n < pins.len(),
    ensures
        added.contains(pins[n as int].link) ==> unpinned(pins, added, n + 1) == unpinned(
            pins,
            added,
            n,
        ),
        !added.contains(pins[n as int].link) ==> unpinned(pins, added, n + 1) == unpinned(
            pins,
            added,
            n,
        ).push(pins[n as int]),
        unpinned(pins, added, 0).len() == 0,
{
}

/// A chain without pins and loops is solved alone. Pins without a chain move the base, and
/// everything else is solved with its constraints.
pub proof fn law_routes(chain_len: nat, pins: nat, has_loops: bool)
    ensures
        solved_by(chain_len, 0, false) == IkRoute::Chain,
        pins > 0 && chain_len == 0 ==> solved_by(chain_len, pins, has_loops) == IkRoute::Base,
        pins > 0 && chain_len > 0 ==> solved_by(chain_len, pins, has_loops) == IkRoute::Constrained,
        pins == 0 && has_loops ==> solved_by(chain_len, pins, has_loops) == IkRoute::Constrained,
        base_corrected(chain_len, pins) <==> pins == 0 || chain_len > 0,
        constrained(pins, 0, 0) <==> pins > 0,
{
}

/// A joint moves by what was solved for its coordinate, and not at all without one.
pub proof fn law_joints_move_by_their_coordinates<T>(map: JointMap, dq: Seq<T>, zero: T, ji: int)
    ensures
        map.a2m@[ji] is None ==> delta_of(map, dq, zero, ji) == zero,
        map.a2m@[ji] matches Some(mi) ==> {
            let at = map.q_idx@[mi as int];
            &&& at < dq.len() ==> delta_of(map, dq, zero, ji) == dq[at as int]
            &&& at >= dq.len() ==> delta_of(map, dq, zero, ji) == zero
        },
{
}

/// The joint at the end of the chain is the cheapest and each before it dearer by one power;
/// what is not of the chain is as dear as its first joint.
pub proof fn law_joints_are_dearer_towards_the_root(
    map: JointMap,
    chain: Seq<usize>,
    n: nat,
    at: int,
    k: int,
)
    requires
        n <= chain.len() <= usize::MAX,
        0 <= at < map.nv,
        -1 <= k < n,
        k >= 0 ==> chain[k] < map.a2m@.len() && map.a2m@[chain[k] as int] is Some
            && map.q_idx@[map.a2m@[chain[k] as int]->0 as int] == at,
        forall|j: int|
            k < j < n ==> !((#[trigger] chain[j]) < map.a2m@.len() && map.a2m@[chain[j] as int]
                is Some && map.q_idx@[map.a2m@[chain[j] as int]->0 as int] == at),
    ensures
        exponents_upto(map, chain, n).len() == map.nv,
        k >= 0 ==> exponents_upto(map, chain, n)[at] == chain.len() - 1 - k,
        k < 0 && chain.len() > 0 ==> exponents_upto(map, chain, n)[at] == chain.len() - 1,
        k < 0 && chain.len() == 0 ==> exponents_upto(map, chain, n)[at] == 0,
    decreases n,
{
    if n > 0 {
        lemma_exponents_length(map, chain, (n - 1) as nat);
        lemma_exponents_length(map, chain, n);
        let last = chain[n - 1];
        if k < n - 1 {
            law_joints_are_dearer_towards_the_root(map, chain, (n - 1) as nat, at, k);
        }
    }
}

proof fn lemma_exponents_length(map: JointMap, chain: Seq<usize>, n: nat)
    ensures
        exponents_upto(map, chain, n).len() == map.nv,
    decreases n,
{
    if n > 0 && n <= chain.len() {
        lemma_exponents_length(map, chain, (n - 1) as nat);
    }
}

/// A drag moves what it is anchored to and nothing else, and only a stretched shape changes its
/// size.
pub proof fn law_drag_moves_its_anchor_alone<G>(
    now: RobotModel,
    was: RobotModel,
    drag: OffsetDrag<G>,
    motion: OffsetMotion,
    k: int,
)
    requires
        is_moved(now, was, drag, motion),
        drag.anchor matches GizmoAnchor::Joint(j) ==> j < was.joints@.len(),
        drag.anchor matches GizmoAnchor::Visual(l, v) ==> l < was.links@.len() && v
            < was.links@[l as int].visuals@.len(),
        drag.anchor matches GizmoAnchor::Collision(l, c) ==> l < was.links@.len() && c
            < was.links@[l as int].collisions@.len(),
    ensures
        placement_at(now, drag.anchor) == placed(
            drag.initial,
            placement_at(was, drag.anchor),
            motion,
        ),
        now.joint_positions == was.joint_positions,
        drag.anchor is Joint ==> now.links == was.links,
        !(drag.anchor is Joint) ==> now.joints == was.joints,
        drag.anchor matches GizmoAnchor::Joint(j) ==> (0 <= k < was.joints@.len() && k != j
            ==> now.joints@[k] == was.joints@[k]),
        drag.anchor matches GizmoAnchor::Visual(l, v) ==> {
            let (a, b) = (now.links@[l as int], was.links@[l as int]);
            &&& a.collisions == b.collisions && a.name == b.name && a.visuals@.len()
                == b.visuals@.len()
            &&& 0 <= k < b.visuals@.len() && k != v ==> a.visuals@[k] == b.visuals@[k]
            &&& !(motion is Scale) ==> a.visuals@[v as int].geometry
                == b.visuals@[v as int].geometry
        },
        drag.anchor matches GizmoAnchor::Collision(l, c) ==> {
            let (a, b) = (now.links@[l as int], was.links@[l as int]);
            &&& a.visuals == b.visuals && a.name == b.name && a.collisions@.len()
                == b.collisions@.len()
            &&& 0 <= k < b.collisions@.len() && k != c ==> a.collisions@[k] == b.collisions@[k]
            &&& !(motion is Scale) ==> a.collisions@[c as int].geometry
                == b.collisions@[c as int].geometry
        },
        forall|i: int|
            0 <= i < was.links@.len() && !(drag.anchor matches GizmoAnchor::Visual(l, _) && l == i)
                && !(drag.anchor matches GizmoAnchor::Collision(l, _) && l == i)
                ==> #[trigger] now.links@[i] == was.links@[i],
{
}

/// A stretched shape starts from its own dimensions, and a joint has none.
pub proof fn law_dimensions_of_the_anchor(model: RobotModel, i: usize, j: usize)
    ensures
        params_at(model, GizmoAnchor::Joint(i)) == seq![0i64, 0, 0],
        params_at(model, GizmoAnchor::Visual(i, j)) == crate::editor::shapes::dimensions(
            model.links@[i as int].visuals@[j as int].geometry,
        ),
        params_at(model, GizmoAnchor::Collision(i, j)) == crate::editor::shapes::dimensions(
            model.links@[i as int].collisions@[j as int].geometry,
        ),
{
}

} // verus!
