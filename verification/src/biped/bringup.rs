//! The order of a bring-up: crouch seed, spawn probe, welded burn-in, free base.
//!
//! The plant is simulated elsewhere. What is decided here is what to ask of it
//! next, and when to stop because nothing measured afterwards would mean
//! anything. A free-standing position-controlled biped is laterally unstable, so
//! the joints settle against the floor with the base welded, and the run starts
//! from those angles, centred.

use vstd::prelude::*;

use crate::biped::profile::Profile;
use crate::biped::rig::{
    check_rig, check_self_contact, frames, prepare, set_run_gains, set_run_mode, spawn_height,
    BipedRig, BodyPair, BuildError, LinkEntry, Prepared, RigOptions,
};
use crate::joint_map::JointMap;
use crate::robot::RobotModel;

verus! {

/// What the bring-up waits for.
#[derive(Clone, Copy, PartialEq, Eq, Structural, Debug)]
pub enum Stage {
    /// Where the foot is when the robot hangs at the probe height.
    Probing,
    /// The plant's description at the spawn height.
    Exporting,
    /// The free plant at the spawn height.
    Spawning,
    /// The welded plant before it moves.
    Bracing,
    /// The welded plant once it has settled.
    Settling,
    /// The free plant once its contacts have engaged.
    Holding,
    /// Nothing: the run can start.
    Ready,
}

impl Stage {
    /// How far the bring-up is.
    pub open spec fn rank(self) -> int {
        match self {
            Stage::Probing => 0,
            Stage::Exporting => 1,
            Stage::Spawning => 2,
            Stage::Bracing => 3,
            Stage::Settling => 4,
            Stage::Holding => 5,
            Stage::Ready => 6,
        }
    }
}

/// What the plant is asked for. Heights are those of the base.
#[derive(Clone, Copy, PartialEq, Eq, Structural, Debug)]
pub enum Request {
    /// Hang the robot at this height and tell where the left foot is.
    Probe { z: i128 },
    /// Describe the plant with the robot spawned at this height.
    Export { z: i128 },
    /// Make the free plant, and the dynamics model of the robot.
    Spawn { z: i128 },
    /// Make the plant with the base welded, holding the seed pose.
    Brace { z: i128 },
    /// Step the welded plant.
    Settle { frames: u32 },
    /// Make the free plant anew, holding the settled pose, and step it.
    Run { z: i128, frames: u32 },
    /// Start the run.
    Done,
}

/// What the plant answers.
pub enum Reply {
    Probed { foot_z: i64 },
    Exported { xml: String },
    Spawned { contacts: Vec<BodyPair>, dt: u64, map: JointMap, index: Vec<LinkEntry> },
    Braced { contacts: Vec<BodyPair> },
    Settled { positions: Vec<i64> },
    Held { positions: Vec<i64> },
}

/// The robot stays free for this long before torque control starts, so that the
/// contacts engage.
pub const HOLD_TIME: u64 = 50_000;

/// A bring-up under way.
pub struct BringUp {
    pub prof: Profile,
    pub opts: RigOptions,
    pub model: RobotModel,
    pub stage: Stage,
    /// Joint angles that the burn-in holds.
    pub q_seed: Vec<i64>,
    /// Height at which the soles just touch, once it has been measured.
    pub spawn_z: i128,
    /// Step of the plant, once there is one.
    pub dt: u64,
    /// The rig, once there is a plant.
    pub rig: Option<BipedRig>,
}

/// Steps of a time that is not negative; none otherwise.
pub open spec fn steps_of(duration: int, dt: int) -> int {
    if duration <= 0 {
        0
    } else if duration / dt > u32::MAX {
        u32::MAX as int
    } else {
        duration / dt
    }
}

/// The plant's description has a free base and a floor.
pub open spec fn stands_free(xml: Seq<char>) -> bool {
    crate::text::is_infix(xml, "<freejoint/>"@) && crate::text::is_infix(xml, "type=\"plane\""@)
}

/// The robot does not touch itself.
pub open spec fn unbraced(contacts: Seq<BodyPair>) -> bool {
    forall|i: int|
        0 <= i < contacts.len() ==> !crate::biped::rig::is_self_contact(#[trigger] contacts[i])
}

impl Reply {
    /// The stage that waits for such an answer.
    pub open spec fn stage(self) -> Stage {
        match self {
            Reply::Probed { .. } => Stage::Probing,
            Reply::Exported { .. } => Stage::Exporting,
            Reply::Spawned { .. } => Stage::Spawning,
            Reply::Braced { .. } => Stage::Bracing,
            Reply::Settled { .. } => Stage::Settling,
            Reply::Held { .. } => Stage::Holding,
        }
    }

    /// The answer lets the bring-up go on, as far as the plant is concerned.
    pub open spec fn is_sound(self) -> bool {
        match self {
            Reply::Exported { xml } => stands_free(xml@),
            Reply::Spawned { contacts, .. } => unbraced(contacts@),
            Reply::Braced { contacts } => unbraced(contacts@),
            _ => true,
        }
    }

    /// The answer speaks of a robot with `n` joints.
    pub open spec fn fits(self, n: nat) -> bool {
        match self {
            Reply::Spawned { dt, map, .. } => dt > 0 && map.valid(n),
            Reply::Settled { positions } => positions.len() == n,
            Reply::Held { positions } => positions.len() == n,
            _ => true,
        }
    }
}

impl BringUp {
    /// The tables fit the robot, and a plant that exists has a step.
    pub open spec fn valid(&self) -> bool {
        &&& self.model.valid()
        &&& self.q_seed.len() == self.model.joints.len()
        &&& self.stage.rank() > Stage::Spawning.rank() ==> self.dt > 0
        &&& self.stage.rank() > Stage::Spawning.rank() ==> self.rig is Some
    }

    /// First step: the robot is put into its crouch and made ready for the
    /// burn-in. What is asked for is the probe.
    pub fn start(prof: Profile, opts: RigOptions, model: RobotModel) -> (r: Result<
        (BringUp, Prepared),
        BuildError,
    >)
        requires
            model.valid(),
        ensures
            match r {
                Ok((b, p)) => {
                    &&& forall|e: BuildError| !crate::biped::rig::prepare_error(prof, opts, model, e)
                    &&& b.valid()
                    &&& b.prof == prof
                    &&& b.opts == opts
                    &&& b.stage == Stage::Probing
                    &&& b.rig is None
                    &&& crate::biped::rig::prepared_of(prof, opts, model, b.model, p)
                    &&& b.q_seed@ == p.q_seed@
                },
                Err(e) => crate::biped::rig::prepare_error(prof, opts, model, e),
            },
    {
        let mut model: RobotModel = model;
        match prepare(&prof, &opts, &mut model) {
            Ok(p) => {
                let q_seed: Vec<i64> = p.q_seed.clone();
                Ok(
                    (
                        BringUp {
                            prof,
                            opts,
                            model,
                            stage: Stage::Probing,
                            q_seed,
                            spawn_z: 0,
                            dt: 0,
                            rig: None,
                        },
                        p,
                    ),
                )
            },
            Err(e) => Err(e),
        }
    }

    /// What the plant is asked for now.
    pub open spec fn asks(&self) -> Request {
        match self.stage {
            Stage::Probing => Request::Probe { z: self.opts.probe_z as i128 },
            Stage::Exporting => Request::Export { z: self.spawn_z },
            Stage::Spawning => Request::Spawn { z: self.spawn_z },
            Stage::Bracing => Request::Brace { z: self.spawn_z },
            Stage::Settling => Request::Settle {
                frames: steps_of(self.opts.burnin_s as int, self.dt as int) as u32,
            },
            Stage::Holding => Request::Run {
                z: self.spawn_z,
                frames: steps_of(HOLD_TIME as int, self.dt as int) as u32,
            },
            Stage::Ready => Request::Done,
        }
    }

    /// What the plant is asked for now.
    pub fn request(&self) -> (r: Request)
        requires
            self.valid(),
        ensures
            r == self.asks(),
    {
        match self.stage {
            Stage::Probing => Request::Probe { z: self.opts.probe_z as i128 },
            Stage::Exporting => Request::Export { z: self.spawn_z },
            Stage::Spawning => Request::Spawn { z: self.spawn_z },
            Stage::Bracing => Request::Brace { z: self.spawn_z },
            Stage::Settling => {
                let n: u32 = if self.opts.burnin_s <= 0 {
                    0
                } else {
                    frames(self.opts.burnin_s as u64, self.dt)
                };
                Request::Settle { frames: n }
            },
            Stage::Holding => Request::Run { z: self.spawn_z, frames: frames(HOLD_TIME, self.dt) },
            Stage::Ready => Request::Done,
        }
    }

    /// The answer lets the bring-up go on: the plant is sound and, once it has been
    /// made, there is nothing for which a rig cannot be assembled.
    pub open spec fn accepts(&self, reply: Reply) -> bool {
        &&& reply.is_sound()
        &&& reply matches Reply::Spawned { map, index, .. } ==> forall|e: BuildError|
            !crate::biped::rig::assemble_error(
                self.prof,
                self.opts,
                self.model.joints@,
                map,
                index@,
                e,
            )
    }

    /// Takes the plant's answer and moves on, or says why the bring-up must stop.
    pub fn advance(&mut self, reply: Reply) -> (r: Result<(), BuildError>)
        requires
            old(self).valid(),
            reply.stage() == old(self).stage,
            reply.fits(old(self).model.joints@.len()),
        ensures
            r is Err ==> *final(self) == *old(self),
            r is Ok <==> old(self).accepts(reply),
            r is Ok ==> {
                &&& final(self).valid()
                &&& reply.is_sound()
                &&& final(self).stage.rank() == old(self).stage.rank() + 1
            },
            match reply {
                Reply::Probed { foot_z } => {
                    &&& r is Ok
                    &&& final(self).spawn_z == old(self).opts.probe_z - ((foot_z
                        - old(self).prof.sole_below_origin) - crate::biped::rig::SOLE_CLEARANCE)
                    &&& *final(self) == (BringUp {
                        stage: Stage::Exporting,
                        spawn_z: final(self).spawn_z,
                        ..*old(self)
                    })
                },
                Reply::Exported { xml } => match r {
                    Ok(_) => *final(self) == (BringUp { stage: Stage::Spawning, ..*old(self) }),
                    Err(e) => if crate::text::is_infix(xml@, "<freejoint/>"@) {
                        e is NoGround
                    } else {
                        e is BaseNotFree
                    },
                },
                Reply::Spawned { contacts, dt, map, index } => match r {
                    Ok(_) => {
                        &&& final(self).rig is Some
                        &&& final(self).rig->0.assembled_of(
                            old(self).prof,
                            old(self).opts,
                            old(self).model,
                            map,
                            index@,
                            final(self).rig->0.q_seed,
                        )
                        &&& final(self).rig->0.q_seed@ == old(self).q_seed@
                        &&& *final(self) == (BringUp {
                            stage: Stage::Bracing,
                            dt,
                            rig: final(self).rig,
                            ..*old(self)
                        })
                    },
                    Err(e) => if unbraced(contacts@) {
                        crate::biped::rig::assemble_error(
                            old(self).prof,
                            old(self).opts,
                            old(self).model.joints@,
                            map,
                            index@,
                            e,
                        )
                    } else {
                        &&& e is SelfCollision
                        &&& crate::text::views(e->hits@) == crate::biped::rig::self_contacts(
                            contacts@,
                            false,
                            contacts@.len(),
                        )
                    },
                },
                Reply::Braced { contacts } => match r {
                    Ok(_) => *final(self) == (BringUp { stage: Stage::Settling, ..*old(self) }),
                    Err(e) => {
                        &&& e is SelfCollision
                        &&& crate::text::views(e->hits@) == crate::biped::rig::self_contacts(
                            contacts@,
                            true,
                            contacts@.len(),
                        )
                    },
                },
                Reply::Settled { positions } => {
                    &&& r is Ok
                    &&& *final(self) == (BringUp {
                        stage: Stage::Holding,
                        model: final(self).model,
                        ..*old(self)
                    })
                    &&& final(self).model.joint_positions == positions
                    &&& final(self).model.joints@ == old(self).model.joints@.map_values(
                        |j: crate::robot::JointData|
                            crate::biped::rig::run_gains(j, old(self).opts),
                    )
                    &&& final(self).model == (RobotModel {
                        joints: final(self).model.joints,
                        joint_positions: final(self).model.joint_positions,
                        ..old(self).model
                    })
                },
                Reply::Held { positions } => {
                    &&& r is Ok
                    &&& *final(self) == (BringUp {
                        stage: Stage::Ready,
                        model: final(self).model,
                        ..*old(self)
                    })
                    &&& final(self).model.joint_positions == positions
                    &&& final(self).model.joints@ == old(self).model.joints@.map_values(
                        |j: crate::robot::JointData|
                            crate::robot::JointData {
                                actuator_mode: crate::biped::rig::run_mode(
                                    old(self).opts.ctrl_mode,
                                ),
                                ..j
                            },
                    )
                    &&& final(self).model == (RobotModel {
                        joints: final(self).model.joints,
                        joint_positions: final(self).model.joint_positions,
                        ..old(self).model
                    })
                },
            },
    {
        match reply {
            Reply::Probed { foot_z } => {
                self.spawn_z = spawn_height(
                    self.opts.probe_z,
                    foot_z,
                    self.prof.sole_below_origin,
                );
                self.stage = Stage::Exporting;
                Ok(())
            },
            Reply::Exported { xml } => match check_rig(xml.as_str()) {
                Ok(_) => {
                    self.stage = Stage::Spawning;
                    Ok(())
                },
                Err(e) => Err(e),
            },
            Reply::Spawned { contacts, dt, map, index } => {
                proof {
                    crate::biped::rig::law_no_self_contact_passes(contacts@, false);
                }
                match check_self_contact(&contacts, false) {
                    Ok(_) => {},
                    Err(e) => {
                        return Err(e);
                    },
                }
                let q_seed: Vec<i64> = self.q_seed.clone();
                match BipedRig::assemble(&self.prof, &self.opts, &self.model, map, &index, q_seed) {
                    Ok(rig) => {
                        self.rig = Some(rig);
                        self.dt = dt;
                        self.stage = Stage::Bracing;
                        Ok(())
                    },
                    Err(e) => Err(e),
                }
            },
            Reply::Braced { contacts } => {
                proof {
                    crate::biped::rig::law_no_self_contact_passes(contacts@, true);
                }
                match check_self_contact(&contacts, true) {
                    Ok(_) => {
                        self.stage = Stage::Settling;
                        Ok(())
                    },
                    Err(e) => Err(e),
                }
            },
            Reply::Settled { positions } => {
                self.model.joint_positions = positions;
                set_run_gains(&mut self.model, &self.opts);
                self.stage = Stage::Holding;
                Ok(())
            },
            Reply::Held { positions } => {
                self.model.joint_positions = positions;
                set_run_mode(&mut self.model, self.opts.ctrl_mode);
                self.stage = Stage::Ready;
                Ok(())
            },
        }
    }
}

/// Stages and answers of a bring-up that was never stopped: each answer belongs
/// to its stage and was sound, and each moved the bring-up on by one stage.
pub open spec fn unstopped(stages: Seq<Stage>, replies: Seq<Reply>) -> bool {
    &&& stages.len() == replies.len() + 1
    &&& stages[0] == Stage::Probing
    &&& forall|i: int|
        #![trigger replies[i]]
        0 <= i < replies.len() ==> {
            &&& replies[i].stage() == stages[i]
            &&& replies[i].is_sound()
            &&& stages[i + 1].rank() == stages[i].rank() + 1
        }
}

proof fn lemma_ranks(stages: Seq<Stage>, replies: Seq<Reply>, i: nat)
    requires
        unstopped(stages, replies),
        i < stages.len(),
    ensures
        stages[i as int].rank() == i,
    decreases i,
{
    if i > 0 {
        lemma_ranks(stages, replies, (i - 1) as nat);
        assert(replies[i - 1].stage() == stages[i - 1]);
    }
}

/// A robot that is ready has passed every guard: the plant stood free on a floor,
/// and the robot touched itself neither where it was spawned nor where it was
/// welded.
pub proof fn law_ready_means_guarded(stages: Seq<Stage>, replies: Seq<Reply>)
    requires
        unstopped(stages, replies),
        stages.last() == Stage::Ready,
    ensures
        replies.len() == 6,
        replies[1] is Exported && stands_free(replies[1]->xml@),
        replies[2] is Spawned && unbraced(replies[2]->Spawned_contacts@),
        replies[3] is Braced && unbraced(replies[3]->Braced_contacts@),
        replies[4] is Settled && replies[5] is Held,
{
    lemma_ranks(stages, replies, (stages.len() - 1) as nat);
    lemma_ranks(stages, replies, 1);
    lemma_ranks(stages, replies, 2);
    lemma_ranks(stages, replies, 3);
    lemma_ranks(stages, replies, 4);
    lemma_ranks(stages, replies, 5);
    assert(replies[1].stage() == stages[1]);
    assert(replies[2].stage() == stages[2]);
    assert(replies[3].stage() == stages[3]);
    assert(replies[4].stage() == stages[4]);
    assert(replies[5].stage() == stages[5]);
}

/// A time is gone through in as many steps as fit into it, and in none where it is not
/// positive.
pub proof fn law_steps_fill_the_time(duration: int, dt: int)
    requires
        dt > 0,
    ensures
        duration <= 0 ==> steps_of(duration, dt) == 0,
        duration > 0 && duration < dt * 0x1_0000_0000 ==> 0 <= duration - dt * steps_of(
            duration,
            dt,
        ) < dt,
        duration >= dt * 0x1_0000_0000 ==> steps_of(duration, dt) == u32::MAX,
{
    let q = duration / dt;
    assert(0 <= duration - dt * q < dt) by (nonlinear_arith)
        requires
            dt > 0,
            q == duration / dt,
    ;
    let top: int = 0x1_0000_0000;
    assert(duration < dt * top ==> q < top) by (nonlinear_arith)
        requires
            0 <= duration - dt * q,
            dt > 0,
    ;
    assert(duration >= dt * top ==> q >= top) by (nonlinear_arith)
        requires
            duration - dt * q < dt,
            dt > 0,
    ;
}

/// A reply is sound unless it shows a base that is not free, a missing ground, or a contact
/// between two bodies of the robot.
pub proof fn law_sound_replies(reply: Reply)
    ensures
        reply matches Reply::Exported { xml } ==> (reply.is_sound() <==> crate::text::is_infix(
            xml@,
            "<freejoint/>"@,
        ) && crate::text::is_infix(xml@, "type=\"plane\""@)),
        reply matches Reply::Spawned { contacts, .. } ==> (reply.is_sound() <==> forall|i: int|
            0 <= i < contacts@.len() ==> (#[trigger] contacts@[i]).body1@.len() == 0
                || contacts@[i].body2@.len() == 0),
        reply matches Reply::Braced { contacts } ==> (reply.is_sound() <==> forall|i: int|
            0 <= i < contacts@.len() ==> (#[trigger] contacts@[i]).body1@.len() == 0
                || contacts@[i].body2@.len() == 0),
        reply is Probed || reply is Settled || reply is Held ==> reply.is_sound(),
{
}

/// What each stage asks for: the probe at its own height, everything behind it at the height
/// at which the sole clears the floor.
pub proof fn law_stages_ask(b: BringUp)
    ensures
        b.stage == Stage::Probing ==> b.asks() == (Request::Probe { z: b.opts.probe_z as i128 }),
        b.stage == Stage::Exporting ==> b.asks() == (Request::Export { z: b.spawn_z }),
        b.stage == Stage::Spawning ==> b.asks() == (Request::Spawn { z: b.spawn_z }),
        b.stage == Stage::Bracing ==> b.asks() == (Request::Brace { z: b.spawn_z }),
        b.stage == Stage::Settling ==> b.asks() is Settle && b.asks()->Settle_frames == steps_of(
            b.opts.burnin_s as int,
            b.dt as int,
        ) as u32,
        b.stage == Stage::Holding ==> b.asks() is Run && b.asks()->Run_z == b.spawn_z
            && b.asks()->Run_frames == steps_of(50_000, b.dt as int) as u32,
        b.stage == Stage::Ready <==> b.asks() is Done,
{
}

} // verus!
