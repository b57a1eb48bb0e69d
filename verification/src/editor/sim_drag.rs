//! Dragging a link of the running simulation: pushing it with a force, or
//! steering the posture that the controller holds.

use vstd::prelude::*;
use vstd::string::*;

use crate::editor::drag::select_for_drive;
use crate::editor::state::{InteractionMode, Selection};
use crate::robot::RobotModel;
use crate::text::around;

verus! {

/// What a drag does to the simulation.
#[derive(Clone, Copy, PartialEq, Eq, Structural, Debug)]
pub enum SimDragMode {
    /// The drag becomes a force on the link.
    Force,
    /// The drag moves the controller's position targets.
    Posture,
}

/// A drag of the simulation. `G` is its geometry: where the link was taken hold
/// of, and how deep in the picture.
pub struct SimDrag<G> {
    pub mode: SimDragMode,
    pub link_name: String,
    pub chain: Vec<usize>,
    pub ik_root_link: Option<String>,
    pub frame: G,
}

/// Whether the simulation takes the next press: it runs, and joints are being
/// driven. Adjusting offsets keeps its gizmo.
pub fn takes_press(running: bool, mode: InteractionMode) -> (r: bool)
    ensures
        r == (running && mode == InteractionMode::JointDrive),
{
    running && mode == InteractionMode::JointDrive
}

/// What came of a press on the simulation.
pub enum SimDragStart<G> {
    /// It is not the simulation's; the editor may take it.
    NotTaken,
    /// A posture drag has nothing to steer; the status line says so, and the
    /// editor may take the press.
    NoChain(String),
    /// The drag has begun, with the selection that goes with it.
    Started(SimDrag<G>, Selection),
}

/// A press on link `li` of the simulation. `chain` are the joints between the
/// link and the root of the chain.
pub fn start_sim_drag<G>(
    takes: bool,
    model: &RobotModel,
    li: Option<usize>,
    mode: SimDragMode,
    chain: Vec<usize>,
    ik_root: &Option<String>,
    was: Selection,
    frame: G,
) -> (r: SimDragStart<G>)
    requires
        li matches Some(i) ==> i < model.links@.len(),
    ensures
        match li {
            None => r is NotTaken,
            Some(i) => if !takes {
                r is NotTaken
            } else if mode == SimDragMode::Posture && chain@.len() == 0 {
                r matches SimDragStart::NoChain(t) && t@ == "(no IK chain to '"@
                    + model.links@[i as int].name@ + "', cannot run posture drag)"@
            } else {
                &&& r matches SimDragStart::Started(d, sel)
                &&& d.mode == mode
                &&& d.link_name@ == model.links@[i as int].name@
                &&& d.chain@ == (if mode == SimDragMode::Posture {
                    chain@
                } else {
                    Seq::<usize>::empty()
                })
                &&& crate::editor::display::name_view(d.ik_root_link)
                    == crate::editor::display::name_view(*ik_root)
                &&& d.mode == SimDragMode::Posture ==> d.chain@.len() > 0
                &&& d.frame == frame
                &&& sel == (Selection {
                    link: Some(i),
                    joint: crate::editor::drag::parent_of(*model, i as int),
                    ..was
                })
            },
        },
{
    match li {
        None => SimDragStart::NotTaken,
        Some(i) => {
            if !takes {
                return SimDragStart::NotTaken;
            }
            let name: String = model.links[i].name.clone();
            if mode == SimDragMode::Posture && chain.len() == 0 {
                return SimDragStart::NoChain(
                    around("(no IK chain to '", name.as_str(), "', cannot run posture drag)"),
                );
            }
            let kept: Vec<usize> = if mode == SimDragMode::Posture {
                chain
            } else {
                Vec::new()
            };
            proof {
                if mode != SimDragMode::Posture {
                    assert(kept@ =~= Seq::<usize>::empty());
                }
            }
            let root: Option<String> = match ik_root {
                Some(n) => Some(n.clone()),
                None => None,
            };
            let sel: Selection = select_for_drive(model, was, i);
            SimDragStart::Started(
                SimDrag { mode, link_name: name, chain: kept, ik_root_link: root, frame },
                sel,
            )
        },
    }
}

/// What a frame of a drag asks of the simulation.
#[derive(Clone, Copy, PartialEq, Eq, Structural, Debug)]
pub enum SimDragStep {
    /// Nothing.
    Idle,
    /// A short pulse on the link, renewed while the drag goes on.
    Push,
    /// New position targets from a step of inverse kinematics.
    Steer,
}

/// What a frame of a drag asks of the simulation, and whether the simulation is
/// resumed. `reaches` is whether the pointer's ray meets the plane of the drag.
pub fn sim_drag_step<G>(drag: &SimDrag<G>, pointer: bool, has_model: bool, reaches: bool) -> (r: (
    SimDragStep,
    bool,
))
    ensures
        ({
            let step = if !pointer || !has_model || !reaches {
                SimDragStep::Idle
            } else if drag.mode == SimDragMode::Force {
                SimDragStep::Push
            } else if drag.chain@.len() == 0 {
                SimDragStep::Idle
            } else {
                SimDragStep::Steer
            };
            r.0 == step && r.1 == (step != SimDragStep::Idle)
        }),
{
    if !pointer || !has_model || !reaches {
        return (SimDragStep::Idle, false);
    }
    match drag.mode {
        SimDragMode::Force => (SimDragStep::Push, true),
        SimDragMode::Posture => if drag.chain.len() == 0 {
            (SimDragStep::Idle, false)
        } else {
            (SimDragStep::Steer, true)
        },
    }
}

/// The end of a drag: the link whose force is to be cancelled, if any. A posture
/// is held where it was dragged to.
pub fn end_sim_drag<G>(drag: Option<SimDrag<G>>) -> (r: Option<String>)
    ensures
        r is Some <==> drag is Some && drag->0.mode == SimDragMode::Force,
        r matches Some(n) ==> n == drag->0.link_name,
{
    match drag {
        Some(d) => if d.mode == SimDragMode::Force {
            Some(d.link_name)
        } else {
            None
        },
        None => None,
    }
}

/// The caption of a drag.
pub fn sim_drag_label(mode: SimDragMode) -> (r: &'static str)
    ensures
        r@ == (match mode {
            SimDragMode::Force => "Force drag"@,
            SimDragMode::Posture => "Posture drag"@,
        }),
{
    match mode {
        SimDragMode::Force => "Force drag",
        SimDragMode::Posture => "Posture drag",
    }
}

} // verus!
