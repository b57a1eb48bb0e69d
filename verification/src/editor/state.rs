//! What the viewport's tools are set to, and what is selected.

use vstd::prelude::*;

use crate::robot::RobotModel;

verus! {

/// What dragging in the viewport does.
#[derive(Clone, Copy, PartialEq, Eq, Structural, Debug)]
pub enum InteractionMode {
    /// Joints move.
    JointDrive,
    /// Origins and shapes are moved by a gizmo.
    OffsetAdjust,
}

/// How joints are driven by dragging.
#[derive(Clone, Copy, PartialEq, Eq, Structural, Debug)]
pub enum DragMode {
    SingleJoint,
    InverseKinematics,
}

/// What the gizmo moves.
#[derive(Clone, Copy, PartialEq, Eq, Structural, Debug)]
pub enum OffsetTarget {
    Joint,
    Visual,
    Collision,
}

/// How the gizmo moves it.
#[derive(Clone, Copy, PartialEq, Eq, Structural, Debug)]
pub enum GizmoOp {
    Translate,
    Rotate,
    Scale,
}

/// What is selected, by index. Indices are those of the model; a visual and a
/// collision shape belong to the selected link.
#[derive(Clone, Copy, PartialEq, Eq, Structural, Debug)]
pub struct Selection {
    pub link: Option<usize>,
    pub joint: Option<usize>,
    pub visual: Option<usize>,
    pub collision: Option<usize>,
}

impl Selection {
    /// Nothing.
    pub fn none() -> (r: Selection)
        ensures
            r == (Selection { link: None, joint: None, visual: None, collision: None }),
    {
        Selection { link: None, joint: None, visual: None, collision: None }
    }

    /// The selection names links and joints that the model has.
    pub open spec fn fits(&self, model: RobotModel) -> bool {
        &&& self.link matches Some(li) ==> li < model.links@.len()
        &&& self.joint matches Some(ji) ==> ji < model.joints@.len()
    }
}

} // verus!
