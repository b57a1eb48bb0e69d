//! One frame of the viewport: what the pointer is over, which handler a press or
//! a drag goes to, and what is highlighted.
//!
//! Distances are whole nanometres.

use vstd::prelude::*;
use vstd::string::*;

use crate::camera::CameraMode;
use crate::editor::drag::GizmoAnchor;
use crate::editor::state::{DragMode, GizmoOp, InteractionMode, Selection};
use crate::robot::RobotModel;
use crate::text::{around, same};

verus! {

// ---------------------------------------------------------------- hovering

/// The link under the pointer after a frame. While something is dragged it stays
/// what it was; without a pointer over a model there is none.
pub fn hovered_link(
    was: Option<usize>,
    pointer: bool,
    has_model: bool,
    dragging: bool,
    picked: Option<usize>,
) -> (r: Option<usize>)
    ensures
        r == (if !pointer || !has_model {
            None
        } else if dragging {
            was
        } else {
            picked
        }),
{
    if pointer && has_model {
        if dragging {
            was
        } else {
            picked
        }
    } else {
        None
    }
}

/// The link that a press takes hold of: the one the ray hits, or else the one
/// that is highlighted under the pointer.
pub fn pressed_link(picked: Option<usize>, hovered: Option<usize>) -> (r: Option<usize>)
    ensures
        r == (if picked is Some {
            picked
        } else {
            hovered
        }),
{
    match picked {
        Some(li) => Some(li),
        None => hovered,
    }
}

/// The length of a gizmo arrow, and how near the pointer must come to it.
pub const GIZMO_ARROW_LENGTH: i64 = 80_000_000;

pub const GIZMO_PICK_RADIUS: i64 = 12_000_000;

/// How near the pointer must come to a gizmo ring.
pub const GIZMO_RING_PICK_TOL: i64 = 15_000_000;

/// Where the pointer's ray passes one axis of the gizmo: how far along the axis,
/// and how far from it (or from its ring).
#[derive(Clone, Copy, PartialEq, Eq, Structural, Debug)]
pub struct AxisPass {
    pub along: i64,
    pub dist: i64,
}

/// The ray passes near enough to take hold of the axis.
pub open spec fn touches(op: GizmoOp, p: AxisPass) -> bool {
    if op == GizmoOp::Rotate {
        p.dist < GIZMO_RING_PICK_TOL
    } else {
        0 <= p.along <= GIZMO_ARROW_LENGTH && p.dist < GIZMO_PICK_RADIUS
    }
}

/// The axis that the pointer is over among the first `n`: the nearest of those
/// it touches, and of equally near ones the first.
pub open spec fn nearest_axis_upto(op: GizmoOp, passes: Seq<AxisPass>, n: nat) -> Option<u8>
    decreases n,
{
    if n == 0 || n > passes.len() {
        None
    } else {
        let best = nearest_axis_upto(op, passes, (n - 1) as nat);
        let p = passes[n - 1];
        if touches(op, p) && (best is None || p.dist < passes[best->0 as int].dist) {
            Some((n - 1) as u8)
        } else {
            best
        }
    }
}

/// The gizmo axis that the pointer is over.
pub fn hovered_axis(op: GizmoOp, passes: &[AxisPass; 3]) -> (r: Option<u8>)
    ensures
        r == nearest_axis_upto(op, passes@, 3),
        r matches Some(a) ==> a < 3,
{
    let mut best: Option<u8> = None;
    let mut i: usize = 0;
    while i < 3
        invariant
            i <= 3,
            best == nearest_axis_upto(op, passes@, i as nat),
            best matches Some(b) ==> b < i,
        decreases 3 - i,
    {
        let p: AxisPass = passes[i];
        let touched: bool = if op == GizmoOp::Rotate {
            p.dist < GIZMO_RING_PICK_TOL
        } else {
            0 <= p.along && p.along <= GIZMO_ARROW_LENGTH && p.dist < GIZMO_PICK_RADIUS
        };
        let nearer: bool = match best {
            None => true,
            Some(b) => p.dist < passes[b as usize].dist,
        };
        if touched && nearer {
            best = Some(i as u8);
        }
        i += 1;
    }
    best
}

/// The axis found is touched, and no touched axis is nearer.
pub proof fn law_hovered_axis_is_nearest(op: GizmoOp, passes: Seq<AxisPass>, n: nat, k: int)
    requires
        n <= passes.len(),
        n <= 256,
        0 <= k < n,
        touches(op, passes[k]),
    ensures
        nearest_axis_upto(op, passes, n) is Some,
        ({
            let a = nearest_axis_upto(op, passes, n)->0 as int;
            a < n && touches(op, passes[a]) && passes[a].dist <= passes[k].dist
        }),
    decreases n,
{
    lemma_nearest_is_touched(op, passes, (n - 1) as nat);
    if k < n - 1 {
        law_hovered_axis_is_nearest(op, passes, (n - 1) as nat, k);
    }
}

proof fn lemma_nearest_is_touched(op: GizmoOp, passes: Seq<AxisPass>, n: nat)
    requires
        n <= passes.len(),
        n <= 256,
    ensures
        nearest_axis_upto(op, passes, n) matches Some(a) ==> a < n && touches(
            op,
            passes[a as int],
        ),
    decreases n,
{
    if n > 0 {
        lemma_nearest_is_touched(op, passes, (n - 1) as nat);
    }
}

// ---------------------------------------------------------------- routing

/// What the pointer did over the viewport this frame.
#[derive(Clone, Copy, PartialEq, Eq, Structural, Debug)]
pub struct PointerEvents {
    /// The primary button began a drag.
    pub drag_started: bool,
    /// The primary button was pressed and released in place.
    pub clicked: bool,
    /// The primary button is being dragged.
    pub dragged: bool,
    /// The primary button ended a drag.
    pub released: bool,
}

/// Which handlers a frame runs, in this order.
#[derive(Clone, Copy, PartialEq, Eq, Structural, Debug)]
pub struct Route {
    /// The press picks the second link of a loop closure.
    pub pick_b: bool,
    /// A drag begins: the simulation may take it, or else the editor does.
    pub start: bool,
    /// The click selects.
    pub select: bool,
    /// A drag goes on.
    pub update: bool,
    /// A drag ends.
    pub release: bool,
}

/// Which handlers a frame runs. While the second link of a loop closure is being
/// picked a press does nothing else, for the whole frame.
pub open spec fn routed(picking_b: bool, ev: PointerEvents) -> Route {
    Route {
        pick_b: picking_b && (ev.drag_started || ev.clicked),
        start: !picking_b && ev.drag_started,
        select: !picking_b && ev.clicked,
        update: ev.dragged,
        release: ev.released,
    }
}

/// Which handlers a frame runs.
pub fn route(picking_b: bool, ev: &PointerEvents) -> (r: Route)
    ensures
        r == routed(picking_b, *ev),
{
    Route {
        pick_b: picking_b && (ev.drag_started || ev.clicked),
        start: !picking_b && ev.drag_started,
        select: !picking_b && ev.clicked,
        update: ev.dragged,
        release: ev.released,
    }
}

/// A press is handled once: never both as a pick and as a drag or selection.
pub proof fn law_pick_b_excludes_the_rest(picking_b: bool, ev: PointerEvents)
    ensures
        ({
            let r = routed(picking_b, ev);
            &&& !(r.pick_b && (r.start || r.select))
            &&& ev.drag_started || ev.clicked ==> r.pick_b || r.start || r.select
        }),
{
}

/// Who a drag that goes on belongs to.
#[derive(Clone, Copy, PartialEq, Eq, Structural, Debug)]
pub enum DragOwner {
    Simulation,
    Gizmo,
    Joints,
    Camera,
}

/// Who a drag that goes on belongs to. The simulation comes first, so that the
/// editor does not compete for the button; with nothing held the camera turns.
pub fn drag_owner(sim_drag: bool, offset_drag: bool, joint_drag: bool) -> (r: DragOwner)
    ensures
        r == (if sim_drag {
            DragOwner::Simulation
        } else if offset_drag {
            DragOwner::Gizmo
        } else if joint_drag {
            DragOwner::Joints
        } else {
            DragOwner::Camera
        }),
{
    if sim_drag {
        DragOwner::Simulation
    } else if offset_drag {
        DragOwner::Gizmo
    } else if joint_drag {
        DragOwner::Joints
    } else {
        DragOwner::Camera
    }
}

// ---------------------------------------------------------------- loop closures

/// The second link of a loop closure.
pub struct PickB {
    pub picking: bool,
    pub link_b: Option<usize>,
}

impl PickB {
    /// A press while the second link is being picked. Without a pointer or a
    /// model nothing happens; otherwise picking ends, with a link or without.
    /// Returns what the status line says.
    pub fn click(
        &mut self,
        pointer: bool,
        model: Option<&RobotModel>,
        picked: Option<usize>,
        hovered: Option<usize>,
    ) -> (status: Option<String>)
        requires
            model matches Some(m) ==> {
                &&& picked matches Some(li) ==> li < m.links@.len()
                &&& hovered matches Some(li) ==> li < m.links@.len()
            },
        ensures
            !pointer || model is None ==> status is None && *final(self) == *old(self),
            pointer && model is Some ==> {
                let m = *model->0;
                let found = if picked is Some {
                    picked
                } else {
                    hovered
                };
                &&& !final(self).picking
                &&& status is Some
                &&& match found {
                    Some(li) => {
                        &&& final(self).link_b == Some(li)
                        &&& status->0@ == "Loop-closure link B = '"@ + m.links@[li as int].name@
                            + "'"@
                    },
                    None => {
                        &&& final(self).link_b == old(self).link_b
                        &&& status->0@ == "Loop-closure pick: no link under cursor"@
                    },
                }
            },
    {
        if !pointer {
            return None;
        }
        match model {
            None => None,
            Some(m) => {
                self.picking = false;
                match pressed_link(picked, hovered) {
                    Some(li) => {
                        self.link_b = Some(li);
                        Some(around("Loop-closure link B = '", m.links[li].name.as_str(), "'"))
                    },
                    None => Some(String::from_str("Loop-closure pick: no link under cursor")),
                }
            },
        }
    }
}

// ---------------------------------------------------------------- undo steps

/// What is being dragged, as far as the undo history tells.
#[derive(Clone, Copy, PartialEq, Eq, Structural, Debug)]
pub enum Held {
    Nothing,
    Gizmo(GizmoAnchor, GizmoOp),
    Joints(DragMode),
}

/// How the undo history calls an operation of the gizmo.
pub open spec fn op_word(op: GizmoOp) -> Seq<char> {
    match op {
        GizmoOp::Translate => "Translate"@,
        GizmoOp::Rotate => "Rotate"@,
        GizmoOp::Scale => "Scale"@,
    }
}

/// How the undo history calls what the gizmo stands on.
pub open spec fn anchor_word(at: GizmoAnchor) -> Seq<char> {
    match at {
        GizmoAnchor::Joint(_) => "joint origin"@,
        GizmoAnchor::Visual(_, _) => "visual origin"@,
        GizmoAnchor::Collision(_, _) => "collision origin"@,
    }
}

/// What a drag that just began is called.
pub open spec fn drag_text(held: Held) -> Option<Seq<char>> {
    match held {
        Held::Nothing => None,
        Held::Gizmo(at, op) => Some(op_word(op) + " "@ + anchor_word(at)),
        Held::Joints(DragMode::SingleJoint) => Some("Drive joint"@),
        Held::Joints(DragMode::InverseKinematics) => Some("IK drag"@),
    }
}

/// The undo step of a drag that began this frame. A drag that was going on
/// before is no new step.
pub fn drag_description(had_drag: bool, held: Held) -> (r: Option<String>)
    ensures
        crate::editor::properties::told(r) == (if had_drag {
            None
        } else {
            drag_text(held)
        }),
{
    if had_drag {
        return None;
    }
    match held {
        Held::Nothing => None,
        Held::Gizmo(at, op) => {
            let what: &str = match at {
                GizmoAnchor::Joint(_) => "joint origin",
                GizmoAnchor::Visual(_, _) => "visual origin",
                GizmoAnchor::Collision(_, _) => "collision origin",
            };
            let how: &str = match op {
                GizmoOp::Translate => "Translate",
                GizmoOp::Rotate => "Rotate",
                GizmoOp::Scale => "Scale",
            };
            Some(around(how, " ", what))
        },
        Held::Joints(DragMode::SingleJoint) => Some(String::from_str("Drive joint")),
        Held::Joints(DragMode::InverseKinematics) => Some(String::from_str("IK drag")),
    }
}

// ---------------------------------------------------------------- drawing

/// The link that is highlighted: the dragged one, else the one under the
/// pointer, else the selected one.
pub open spec fn highlighted(
    dragged: Option<usize>,
    hovered: Option<usize>,
    sel: Selection,
) -> Option<usize> {
    if dragged is Some {
        dragged
    } else if hovered is Some {
        hovered
    } else {
        sel.link
    }
}

/// The name of the highlighted link.
pub fn highlight(
    model: Option<&RobotModel>,
    dragged: Option<usize>,
    hovered: Option<usize>,
    sel: &Selection,
) -> (r: Option<String>)
    requires
        model matches Some(m) ==> (highlighted(dragged, hovered, *sel) matches Some(li) ==> li
            < m.links@.len()),
    ensures
        crate::editor::properties::told(r) == (if model is Some && highlighted(
            dragged,
            hovered,
            *sel,
        ) is Some {
            Some(model->0.links@[highlighted(dragged, hovered, *sel)->0 as int].name@)
        } else {
            None
        }),
{
    let li: Option<usize> = if dragged.is_some() {
        dragged
    } else if hovered.is_some() {
        hovered
    } else {
        sel.link
    };
    match (model, li) {
        (Some(m), Some(i)) => Some(m.links[i].name.clone()),
        _ => None,
    }
}

/// The number by which the renderer knows a gizmo operation.
pub fn gizmo_code(op: GizmoOp) -> (r: u8)
    ensures
        r == (match op {
            GizmoOp::Translate => 0u8,
            GizmoOp::Rotate => 1,
            GizmoOp::Scale => 2,
        }),
{
    match op {
        GizmoOp::Translate => 0,
        GizmoOp::Rotate => 1,
        GizmoOp::Scale => 2,
    }
}

/// The camera of the small picture: the one that is not shown large.
pub fn other_camera(mode: CameraMode) -> (r: CameraMode)
    ensures
        r != mode,
{
    match mode {
        CameraMode::Free => CameraMode::Tps,
        CameraMode::Tps => CameraMode::Free,
    }
}

/// The caption of the small picture.
pub fn wipe_label(mode: CameraMode) -> (r: &'static str)
    ensures
        r@ == (match mode {
            CameraMode::Free => "TPS"@,
            CameraMode::Tps => "Free"@,
        }),
{
    match mode {
        CameraMode::Free => "TPS",
        CameraMode::Tps => "Free",
    }
}

/// The shape of the pointer.
#[derive(Clone, Copy, PartialEq, Eq, Structural, Debug)]
pub enum Cursor {
    Default,
    Grab,
    Grabbing,
}

/// The link under the pointer can be dragged. `chain_len` is the length of the
/// joint chain that ends at it, `pins` the number of pinned links.
pub open spec fn draggable(
    model: RobotModel,
    li: int,
    mode: InteractionMode,
    drag_mode: DragMode,
    chain_len: nat,
    pins: nat,
) -> bool {
    match mode {
        InteractionMode::OffsetAdjust => true,
        InteractionMode::JointDrive => match drag_mode {
            DragMode::SingleJoint => match crate::robot::carrier(
                model.joints@,
                model.links@[li].name@,
            ) {
                Some(ji) => crate::editor::drag::turns(model.joints@[ji].joint_type@),
                None => false,
            },
            DragMode::InverseKinematics => chain_len > 0 || pins > 0,
        },
    }
}

fn is_draggable(
    model: &RobotModel,
    li: usize,
    mode: InteractionMode,
    drag_mode: DragMode,
    chain_len: usize,
    pins: usize,
) -> (r: bool)
    requires
        li < model.links@.len(),
    ensures
        r == draggable(*model, li as int, mode, drag_mode, chain_len as nat, pins as nat),
{
    match mode {
        InteractionMode::OffsetAdjust => true,
        InteractionMode::JointDrive => match drag_mode {
            DragMode::SingleJoint => match model.parent_joint_of_link(
                model.links[li].name.as_str(),
            ) {
                Some(ji) => {
                    let t: &str = model.joints[ji].joint_type.as_str();
                    same(t, "revolute") || same(t, "continuous")
                },
                None => false,
            },
            DragMode::InverseKinematics => chain_len > 0 || pins > 0,
        },
    }
}

/// The shape of the pointer over the viewport.
pub fn cursor(
    model: Option<&RobotModel>,
    dragging: bool,
    axis_hovered: bool,
    hovered: Option<usize>,
    mode: InteractionMode,
    drag_mode: DragMode,
    chain_len: usize,
    pins: usize,
) -> (r: Cursor)
    requires
        model matches Some(m) ==> (hovered matches Some(li) ==> li < m.links@.len()),
    ensures
        r == (if dragging {
            Cursor::Grabbing
        } else if axis_hovered {
            Cursor::Grab
        } else if hovered is Some && model is Some && draggable(
            *model->0,
            hovered->0 as int,
            mode,
            drag_mode,
            chain_len as nat,
            pins as nat,
        ) {
            Cursor::Grab
        } else {
            Cursor::Default
        }),
{
    if dragging {
        return Cursor::Grabbing;
    }
    if axis_hovered {
        return Cursor::Grab;
    }
    match (model, hovered) {
        (Some(m), Some(li)) => if is_draggable(m, li, mode, drag_mode, chain_len, pins) {
            Cursor::Grab
        } else {
            Cursor::Default
        },
        _ => Cursor::Default,
    }
}

/// Rings are touched near their circle, and arrows near their shaft, between its ends.
pub proof fn law_touched_handles(op: GizmoOp, p: AxisPass)
    ensures
        op == GizmoOp::Rotate ==> (touches(op, p) <==> p.dist < GIZMO_RING_PICK_TOL),
        op != GizmoOp::Rotate ==> (touches(op, p) <==> 0 <= p.along && p.along
            <= GIZMO_ARROW_LENGTH && p.dist < GIZMO_PICK_RADIUS),
        GIZMO_RING_PICK_TOL == 15_000_000 && GIZMO_ARROW_LENGTH == 80_000_000
            && GIZMO_PICK_RADIUS == 12_000_000,
{
}

/// An axis that no pointer passes near enough is never hovered.
pub proof fn law_untouched_axes_are_not_hovered(op: GizmoOp, passes: Seq<AxisPass>, n: nat)
    requires
        n <= passes.len() <= 256,
        forall|k: int| 0 <= k < n ==> !touches(op, #[trigger] passes[k]),
    ensures
        nearest_axis_upto(op, passes, n) is None,
    decreases n,
{
    if n > 0 {
        law_untouched_axes_are_not_hovered(op, passes, (n - 1) as nat);
        assert(!touches(op, passes[n - 1]));
    }
}

/// A press or a click picks the other link while it is asked for, and starts a drag or selects
/// otherwise; a drag goes on and ends either way.
pub proof fn law_pointer_is_routed(picking_b: bool, ev: PointerEvents)
    ensures
        ({
            let r = routed(picking_b, ev);
            &&& r.pick_b <==> picking_b && (ev.drag_started || ev.clicked)
            &&& r.start <==> !picking_b && ev.drag_started
            &&& r.select <==> !picking_b && ev.clicked
            &&& r.update <==> ev.dragged
            &&& r.release <==> ev.released
        }),
{
}

/// A drag is told by its operation and what it moves.
pub proof fn law_drags_are_told(op: GizmoOp, i: usize, j: usize)
    ensures
        drag_text(Held::Nothing) is None,
        drag_text(Held::Joints(DragMode::SingleJoint)) == Some("Drive joint"@),
        drag_text(Held::Joints(DragMode::InverseKinematics)) == Some("IK drag"@),
        drag_text(Held::Gizmo(GizmoAnchor::Joint(i), op)) == Some(
            op_word(op) + " "@ + "joint origin"@,
        ),
        drag_text(Held::Gizmo(GizmoAnchor::Visual(i, j), op)) == Some(
            op_word(op) + " "@ + "visual origin"@,
        ),
        drag_text(Held::Gizmo(GizmoAnchor::Collision(i, j), op)) == Some(
            op_word(op) + " "@ + "collision origin"@,
        ),
        op_word(GizmoOp::Translate) == "Translate"@,
        op_word(GizmoOp::Rotate) == "Rotate"@,
        op_word(GizmoOp::Scale) == "Scale"@,
{
}

/// The dragged link is lit before the hovered one, and that before the selected one.
pub proof fn law_highlight(dragged: Option<usize>, hovered: Option<usize>, sel: Selection)
    ensures
        dragged is Some ==> highlighted(dragged, hovered, sel) == dragged,
        dragged is None && hovered is Some ==> highlighted(dragged, hovered, sel) == hovered,
        dragged is None && hovered is None ==> highlighted(dragged, hovered, sel) == sel.link,
{
}

/// Offsets are dragged on any link, joints where the link's own joint turns, and chains where
/// there is one or something is pinned.
pub proof fn law_draggable_links(
    model: RobotModel,
    li: int,
    drag_mode: DragMode,
    chain_len: nat,
    pins: nat,
)
    ensures
        draggable(model, li, InteractionMode::OffsetAdjust, drag_mode, chain_len, pins),
        draggable(
            model,
            li,
            InteractionMode::JointDrive,
            DragMode::InverseKinematics,
            chain_len,
            pins,
        ) <==> chain_len > 0 || pins > 0,
        draggable(model, li, InteractionMode::JointDrive, DragMode::SingleJoint, chain_len, pins)
            <==> (crate::robot::carrier(model.joints@, model.links@[li].name@) matches Some(ji) && (
        model.joints@[ji].joint_type@ == "revolute"@ || model.joints@[ji].joint_type@
            == "continuous"@)),
{
}

} // verus!
