//! Model + plant bring-up for the biped, and its index maps.
//!
//! The bring-up contains separate guards against results that mean nothing:
//! self-collision at spawn, self-collision in the burn-in rig, and an unset
//! torque-box row.
//!
//! Angles are whole microradians, heights micrometres, times microseconds;
//! gains, damping, rotor inertia and ratios are in millionths of their SI unit.

use vstd::prelude::*;
use vstd::string::*;

use crate::biped::profile::Profile;
use crate::joint_map::{pick_rows, JointMap, BASE_ROWS};
use crate::order::{descending, distinct_ascending};
use crate::robot::{ActuatorMode, CollisionData, JointData, LinkData, RobotModel, Vec3};
use crate::text::{contains, long_decimal, nearest_of, same};

verus! {

/// How the controller's answer reaches the plant.
#[derive(Clone, Copy, PartialEq, Eq, Structural, Debug)]
pub enum CtrlMode {
    /// Command tau directly.
    Torque,
    /// `(q, dq, kp, kd, tau)` -- the interface real hardware exposes.
    Hybrid,
    /// Integrate the solved acceleration to a joint velocity command, realised
    /// by an explicit PD. The force variables stop being commands and become
    /// predictions.
    Velocity,
    /// Velocity-resolved as well, but the loop lives inside the simulator.
    Servo,
}

impl CtrlMode {
    /// The name of a mode.
    pub open spec fn name_of(self) -> Seq<char> {
        match self {
            CtrlMode::Torque => "torque"@,
            CtrlMode::Hybrid => "hybrid"@,
            CtrlMode::Velocity => "velocity"@,
            CtrlMode::Servo => "servo"@,
        }
    }

    /// The mode of a given name. Only the four names are admitted.
    pub fn from_env_name(s: &str) -> (r: CtrlMode)
        requires
            exists|m: CtrlMode| #[trigger] m.name_of() == s@,
        ensures
            r.name_of() == s@,
    {
        if same(s, "torque") {
            CtrlMode::Torque
        } else if same(s, "hybrid") {
            CtrlMode::Hybrid
        } else if same(s, "velocity") {
            CtrlMode::Velocity
        } else {
            CtrlMode::Servo
        }
    }

    pub fn name(self) -> (r: &'static str)
        ensures
            r@ == self.name_of(),
    {
        match self {
            CtrlMode::Torque => "torque",
            CtrlMode::Hybrid => "hybrid",
            CtrlMode::Velocity => "velocity",
            CtrlMode::Servo => "servo",
        }
    }

    /// Velocity-resolved, either flavour.
    pub fn is_velocity(self) -> (r: bool)
        ensures
            r == (self == CtrlMode::Velocity || self == CtrlMode::Servo),
    {
        matches!(self, CtrlMode::Velocity | CtrlMode::Servo)
    }
}

/// Modes have different names, so that a name gives back its mode.
pub proof fn law_mode_names_differ(a: CtrlMode, b: CtrlMode)
    requires
        a.name_of() == b.name_of(),
    ensures
        a == b,
{
    reveal_strlit("torque");
    reveal_strlit("hybrid");
    reveal_strlit("velocity");
    reveal_strlit("servo");
    assert("torque"@[0] == 't');
    assert("hybrid"@[0] == 'h');
    assert("velocity"@[0] == 'v');
    assert("servo"@[0] == 's');
}

/// A joint and the angle it starts at.
pub struct Seed {
    pub joint: String,
    pub angle: i64,
}

/// A seed as a value of contracts.
pub open spec fn seed_view(s: Seed) -> (Seq<char>, i64) {
    (s.joint@, s.angle)
}

/// Everything the bring-up reads that is not already in the [`Profile`].
pub struct RigOptions {
    /// Crouch seed. hip + knee + ankle must sum to zero for a flat sole.
    pub knee: i64,
    pub hip_pitch: i64,
    pub ankle_pitch: i64,
    pub joint_damping: i64,
    pub armature: i64,
    /// Scale every actuator limit, to separate "the foot is too small" from
    /// "the motors are too weak".
    pub torque_scale: i64,
    pub burnin_kp: i64,
    pub burnin_kv: i64,
    pub burnin_s: i64,
    pub run_kp: i64,
    pub run_kv: i64,
    pub ctrl_mode: CtrlMode,
    pub sim_dt: i64,
    /// Plant-side friction, separate from the planner's.
    pub mu_ground: i64,
    pub probe_z: i64,
    /// Extra seeds applied on top of the crouch, which alone does not determine
    /// whether the robot can move without hitting itself.
    pub extra_seed: Vec<Seed>,
    /// DIAGNOSTIC: drop the collision shapes of the links whose names contain
    /// one of these. A run with this set is not a result; it is an experiment
    /// about which result to chase.
    pub uncollide_links: Vec<String>,
}

/// Minus half an angle, rounded down.
pub open spec fn minus_half(angle: i64) -> int {
    (-angle) / 2
}

impl RigOptions {
    /// Profile defaults.
    pub fn from_profile(p: &Profile) -> (r: RigOptions)
        ensures
            r.knee == p.knee_seed,
            r.hip_pitch == minus_half(p.knee_seed),
            r.ankle_pitch == minus_half(p.knee_seed),
            r.joint_damping == p.joint_damping,
            r.armature == p.armature,
            r.torque_scale == 1_000_000,
            r.burnin_kp == p.burnin_kp,
            r.burnin_kv == p.burnin_kv,
            r.burnin_s == p.burnin_s,
            r.run_kp == p.burnin_kp,
            r.run_kv == p.burnin_kv,
            r.ctrl_mode == CtrlMode::Torque,
            r.sim_dt == 1_000,
            r.mu_ground == 700_000,
            r.probe_z == p.probe_z,
            r.extra_seed.len() == 0,
            r.uncollide_links.len() == 0,
    {
        let minus: i128 = -(p.knee_seed as i128);
        let half: i64 = match minus.checked_div_euclid(2) {
            Some(h) => h as i64,
            None => 0,
        };
        RigOptions {
            knee: p.knee_seed,
            hip_pitch: half,
            ankle_pitch: half,
            joint_damping: p.joint_damping,
            armature: p.armature,
            torque_scale: 1_000_000,
            burnin_kp: p.burnin_kp,
            burnin_kv: p.burnin_kv,
            burnin_s: p.burnin_s,
            run_kp: p.burnin_kp,
            run_kv: p.burnin_kv,
            ctrl_mode: CtrlMode::Torque,
            sim_dt: 1_000,
            mu_ground: 700_000,
            probe_z: p.probe_z,
            extra_seed: Vec::new(),
            uncollide_links: Vec::new(),
        }
    }
}

/// Why a bring-up must not go on.
pub enum BuildError {
    /// A seed names a joint that the robot does not have.
    UnknownSeedJoint { seed: usize },
    /// No primitive colliders are left: the feet would have nothing to stand on.
    NoPrimitives,
    /// The base is not free: a suspended rig, not a standing one.
    BaseNotFree,
    /// No ground plane: the feet would have nothing to push on.
    NoGround,
    /// The robot is braced against itself.
    SelfCollision { hits: Vec<String> },
    /// The robot has no link of that name.
    NoLink { name: &'static str },
    /// The torque box was left unset on these rows.
    UnsetRows { rows: Vec<usize> },
}

/// Joint positions after the first `n` seeds. Later seeds win; seeds for joints
/// that the robot does not have change nothing.
pub open spec fn seeded(
    joints: Seq<JointData>,
    q: Seq<i64>,
    seeds: Seq<(Seq<char>, i64)>,
    n: nat,
) -> Seq<i64>
    decreases n,
{
    if n == 0 || n > seeds.len() {
        q
    } else {
        let before = seeded(joints, q, seeds, (n - 1) as nat);
        match crate::robot::joint_at(joints, seeds[n - 1].0) {
            Some(ji) => before.update(ji, seeds[n - 1].1),
            None => before,
        }
    }
}

/// The crouch: hip, knee and ankle of either side.
pub open spec fn crouch(prof: Profile, o: RigOptions) -> Seq<(Seq<char>, i64)> {
    seq![
        (prof.sagittal_left@[0]@, o.hip_pitch),
        (prof.sagittal_left@[1]@, o.knee),
        (prof.sagittal_left@[2]@, o.ankle_pitch),
        (prof.sagittal_right@[0]@, o.hip_pitch),
        (prof.sagittal_right@[1]@, o.knee),
        (prof.sagittal_right@[2]@, o.ankle_pitch),
    ]
}

/// Puts one joint at an angle. Returns whether the robot has the joint.
fn seed_joint(model: &mut RobotModel, joint: &str, angle: i64) -> (known: bool)
    requires
        old(model).valid(),
    ensures
        final(model).valid(),
        *final(model) == (RobotModel {
            joint_positions: final(model).joint_positions,
            ..*old(model)
        }),
        known == (crate::robot::joint_at(old(model).joints@, joint@) is Some),
        final(model).joint_positions@ == match crate::robot::joint_at(old(model).joints@, joint@) {
            Some(ji) => old(model).joint_positions@.update(ji, angle),
            None => old(model).joint_positions@,
        },
{
    match model.joint_index(joint) {
        Some(ji) => {
            model.joint_positions.set(ji, angle);
            true
        },
        None => false,
    }
}

/// Puts the robot into the crouch of its profile. Joints that the robot does
/// not have are passed over.
pub fn seed_crouch(prof: &Profile, o: &RigOptions, model: &mut RobotModel)
    requires
        old(model).valid(),
    ensures
        final(model).valid(),
        *final(model) == (RobotModel {
            joint_positions: final(model).joint_positions,
            ..*old(model)
        }),
        final(model).joint_positions@ == seeded(
            old(model).joints@,
            old(model).joint_positions@,
            crouch(*prof, *o),
            6,
        ),
{
    let ghost q = model.joint_positions@;
    seed_joint(model, prof.sagittal_left[0], o.hip_pitch);
    seed_joint(model, prof.sagittal_left[1], o.knee);
    seed_joint(model, prof.sagittal_left[2], o.ankle_pitch);
    seed_joint(model, prof.sagittal_right[0], o.hip_pitch);
    seed_joint(model, prof.sagittal_right[1], o.knee);
    seed_joint(model, prof.sagittal_right[2], o.ankle_pitch);
    proof {
        let seeds = crouch(*prof, *o);
        let joints = old(model).joints@;
        reveal_with_fuel(seeded, 7);
        assert(seeds.len() == 6);
    }
}

/// The position of the first seed whose joint the robot does not have.
pub open spec fn first_unknown(
    joints: Seq<JointData>,
    seeds: Seq<(Seq<char>, i64)>,
    k: int,
) -> bool {
    &&& 0 <= k < seeds.len()
    &&& crate::robot::joint_at(joints, seeds[k].0) is None
    &&& forall|j: int|
        0 <= j < k ==> crate::robot::joint_at(joints, (#[trigger] seeds[j]).0) is Some
}

/// Applies the extra seeds, all of whose joints the robot must have.
pub fn seed_extra(model: &mut RobotModel, extra: &Vec<Seed>) -> (r: Result<(), usize>)
    requires
        old(model).valid(),
    ensures
        final(model).valid(),
        *final(model) == (RobotModel {
            joint_positions: final(model).joint_positions,
            ..*old(model)
        }),
        ({
            let seeds = extra@.map_values(|s: Seed| seed_view(s));
            let joints = old(model).joints@;
            let q = old(model).joint_positions@;
            match r {
                Ok(_) => {
                    &&& forall|j: int|
                        0 <= j < seeds.len() ==> crate::robot::joint_at(
                            joints,
                            (#[trigger] seeds[j]).0,
                        ) is Some
                    &&& final(model).joint_positions@ == seeded(joints, q, seeds, seeds.len())
                },
                Err(k) => {
                    &&& first_unknown(joints, seeds, k as int)
                    &&& final(model).joint_positions@ == seeded(joints, q, seeds, k as nat)
                },
            }
        }),
{
    let ghost seeds = extra@.map_values(|s: Seed| seed_view(s));
    let ghost joints = model.joints@;
    let ghost q = model.joint_positions@;
    let mut k: usize = 0;
    while k < extra.len()
        invariant
            k <= extra.len(),
            seeds == extra@.map_values(|s: Seed| seed_view(s)),
            joints == old(model).joints@,
            q == old(model).joint_positions@,
            model.valid(),
            *model == (RobotModel { joint_positions: model.joint_positions, ..*old(model) }),
            model.joint_positions@ == seeded(joints, q, seeds, k as nat),
            forall|j: int|
                0 <= j < k ==> crate::robot::joint_at(joints, (#[trigger] seeds[j]).0) is Some,
        decreases extra.len() - k,
    {
        proof {
            assert(seeds[k as int] == seed_view(extra@[k as int]));
        }
        if !seed_joint(model, extra[k].joint.as_str(), extra[k].angle) {
            return Err(k);
        }
        k += 1;
    }
    Ok(())
}

/// Collision shapes that are no meshes.
pub open spec fn primitives(cs: Seq<CollisionData>) -> Seq<CollisionData> {
    cs.filter(|c: CollisionData| !(c.geometry is Mesh))
}

/// How many collision shapes the first `n` links have together.
pub open spec fn shape_count(links: Seq<LinkData>, n: nat) -> nat
    decreases n,
{
    if n == 0 || n > links.len() {
        0
    } else {
        shape_count(links, (n - 1) as nat) + links[n - 1].collisions@.len()
    }
}

/// How many of the collision shapes of the first `n` links are no meshes.
pub open spec fn primitive_count(links: Seq<LinkData>, n: nat) -> nat
    decreases n,
{
    if n == 0 || n > links.len() {
        0
    } else {
        primitive_count(links, (n - 1) as nat) + primitives(links[n - 1].collisions@).len()
    }
}

/// The collision shapes of one link that are no meshes.
fn primitives_of(cs: &Vec<CollisionData>) -> (r: Vec<CollisionData>)
    ensures
        r@ == primitives(cs@),
        r.len() <= cs.len(),
{
    let mut r: Vec<CollisionData> = Vec::new();
    let mut i: usize = 0;
    while i < cs.len()
        invariant
            i <= cs.len(),
            r.len() <= i,
            r@ == primitives(cs@.take(i as int)),
        decreases cs.len() - i,
    {
        proof {
            reveal(Seq::filter);
            assert(cs@.take(i + 1).drop_last() =~= cs@.take(i as int));
        }
        if !cs[i].geometry.is_mesh() {
            r.push(cs[i].duplicate());
        }
        i += 1;
    }
    proof {
        assert(cs@.take(cs@.len() as int) =~= cs@);
        reveal(Seq::filter);
        assert(primitives(cs@.take(0)) =~= Seq::<CollisionData>::empty());
    }
    r
}

/// A link keeps everything but, possibly, its collision shapes.
pub open spec fn same_but_shapes(a: LinkData, b: LinkData) -> bool {
    a == (LinkData { collisions: a.collisions, ..b })
}

/// Drops all mesh collision shapes; what is drawn stays. Returns how many were
/// dropped and how many primitives are left.
pub fn keep_primitives(model: &mut RobotModel) -> (r: (u128, u128))
    ensures
        *final(model) == (RobotModel { links: final(model).links, ..*old(model) }),
        final(model).links.len() == old(model).links.len(),
        forall|i: int|
            0 <= i < old(model).links.len() ==> {
                &&& same_but_shapes(#[trigger] final(model).links@[i], old(model).links@[i])
                &&& final(model).links@[i].collisions@ == primitives(
                    old(model).links@[i].collisions@,
                )
            },
        r.1 == primitive_count(old(model).links@, old(model).links@.len()),
        r.0 == shape_count(old(model).links@, old(model).links@.len()) - r.1,
{
    let ghost links = model.links@;
    let mut dropped: u128 = 0;
    let mut kept: u128 = 0;
    let mut i: usize = 0;
    while i < model.links.len()
        invariant
            i <= model.links.len(),
            links == old(model).links@,
            model.links.len() == links.len(),
            *model == (RobotModel { links: model.links, ..*old(model) }),
            forall|j: int|
                0 <= j < i ==> {
                    &&& same_but_shapes(#[trigger] model.links@[j], links[j])
                    &&& model.links@[j].collisions@ == primitives(links[j].collisions@)
                },
            forall|j: int| i <= j < links.len() ==> #[trigger] model.links@[j] == links[j],
            kept == primitive_count(links, i as nat),
            dropped + kept == shape_count(links, i as nat),
            dropped + kept <= i * usize::MAX,
        decreases model.links.len() - i,
    {
        let kept_here: Vec<CollisionData> = primitives_of(&model.links[i].collisions);
        proof {
            assert((i + 1) * usize::MAX == i * usize::MAX + usize::MAX) by (nonlinear_arith);
            assert((i + 1) * usize::MAX <= usize::MAX * usize::MAX) by (nonlinear_arith)
                requires
                    i + 1 <= usize::MAX,
            ;
            assert(usize::MAX * usize::MAX <= u128::MAX) by (nonlinear_arith)
                requires
                    0 <= usize::MAX <= u64::MAX,
            ;
        }
        dropped = dropped + (model.links[i].collisions.len() - kept_here.len()) as u128;
        kept = kept + kept_here.len() as u128;
        model.links[i].collisions = kept_here;
        i += 1;
    }
    (dropped, kept)
}

/// A link's name contains one of the first `n` patterns.
pub open spec fn named_among(name: Seq<char>, patterns: Seq<String>, n: int) -> bool {
    exists|k: int| 0 <= k < n && crate::text::is_infix(name, (#[trigger] patterns[k])@)
}

/// Whether a link's name contains one of the patterns.
fn is_named_among(name: &str, patterns: &Vec<String>) -> (r: bool)
    ensures
        r == named_among(name@, patterns@, patterns.len() as int),
{
    let mut k: usize = 0;
    while k < patterns.len()
        invariant
            k <= patterns.len(),
            !named_among(name@, patterns@, k as int),
        decreases patterns.len() - k,
    {
        if contains(name, patterns[k].as_str()) {
            return true;
        }
        k += 1;
    }
    false
}

/// How many collision shapes the first `n` links lose with these patterns.
pub open spec fn uncollided_count(links: Seq<LinkData>, patterns: Seq<String>, n: nat) -> nat
    decreases n,
{
    if n == 0 || n > links.len() {
        0
    } else {
        uncollided_count(links, patterns, (n - 1) as nat) + if named_among(
            links[n - 1].name@,
            patterns,
            patterns.len() as int,
        ) {
            links[n - 1].collisions@.len()
        } else {
            0
        }
    }
}

/// Drops the collision shapes of all links whose names contain one of the
/// patterns. Returns how many were dropped.
pub fn uncollide(model: &mut RobotModel, patterns: &Vec<String>) -> (hit: u128)
    ensures
        *final(model) == (RobotModel { links: final(model).links, ..*old(model) }),
        final(model).links.len() == old(model).links.len(),
        forall|i: int|
            0 <= i < old(model).links.len() ==> {
                &&& same_but_shapes(#[trigger] final(model).links@[i], old(model).links@[i])
                &&& final(model).links@[i].collisions@ == if named_among(
                    old(model).links@[i].name@,
                    patterns@,
                    patterns.len() as int,
                ) {
                    Seq::empty()
                } else {
                    old(model).links@[i].collisions@
                }
            },
        hit == uncollided_count(old(model).links@, patterns@, old(model).links@.len()),
{
    let ghost links = model.links@;
    let mut hit: u128 = 0;
    let mut i: usize = 0;
    while i < model.links.len()
        invariant
            i <= model.links.len(),
            links == old(model).links@,
            model.links.len() == links.len(),
            *model == (RobotModel { links: model.links, ..*old(model) }),
            forall|j: int|
                0 <= j < i ==> {
                    &&& same_but_shapes(#[trigger] model.links@[j], links[j])
                    &&& model.links@[j].collisions@ == if named_among(
                        links[j].name@,
                        patterns@,
                        patterns.len() as int,
                    ) {
                        Seq::empty()
                    } else {
                        links[j].collisions@
                    }
                },
            forall|j: int| i <= j < links.len() ==> #[trigger] model.links@[j] == links[j],
            hit == uncollided_count(links, patterns@, i as nat),
            hit <= i * usize::MAX,
        decreases model.links.len() - i,
    {
        proof {
            assert((i + 1) * usize::MAX == i * usize::MAX + usize::MAX) by (nonlinear_arith);
            assert((i + 1) * usize::MAX <= usize::MAX * usize::MAX) by (nonlinear_arith)
                requires
                    i + 1 <= usize::MAX,
            ;
            assert(usize::MAX * usize::MAX <= u128::MAX) by (nonlinear_arith)
                requires
                    0 <= usize::MAX <= u64::MAX,
            ;
        }
        if is_named_among(model.links[i].name.as_str(), patterns) {
            hit = hit + model.links[i].collisions.len() as u128;
            model.links[i].collisions = Vec::new();
        }
        i += 1;
    }
    hit
}

/// How many collision shapes the first `n` links lose by name, after any meshes
/// are gone.
pub open spec fn run_uncollided(
    prof: Profile,
    o: RigOptions,
    links: Seq<LinkData>,
    n: nat,
) -> nat
    decreases n,
{
    if n == 0 || n > links.len() {
        0
    } else {
        run_uncollided(prof, o, links, (n - 1) as nat) + if !named_among(
            links[n - 1].name@,
            o.uncollide_links@,
            o.uncollide_links.len() as int,
        ) {
            0
        } else if prof.collide_primitives_only {
            primitives(links[n - 1].collisions@).len()
        } else {
            links[n - 1].collisions@.len()
        }
    }
}

proof fn lemma_run_uncollided(
    prof: Profile,
    o: RigOptions,
    links: Seq<LinkData>,
    mid: Seq<LinkData>,
    n: nat,
)
    requires
        n <= links.len(),
        links.len() == mid.len(),
        forall|i: int|
            0 <= i < links.len() ==> {
                &&& same_but_shapes(#[trigger] mid[i], links[i])
                &&& mid[i].collisions@ == if prof.collide_primitives_only {
                    primitives(links[i].collisions@)
                } else {
                    links[i].collisions@
                }
            },
    ensures
        uncollided_count(mid, o.uncollide_links@, n) == run_uncollided(prof, o, links, n),
    decreases n,
{
    if n > 0 {
        lemma_run_uncollided(prof, o, links, mid, (n - 1) as nat);
        assert(same_but_shapes(mid[n - 1], links[n - 1]));
    }
}

/// A joint with the actuator settings of the burn-in.
pub open spec fn burnin_joint(j: JointData, o: RigOptions) -> JointData {
    JointData {
        actuator_mode: ActuatorMode::Position,
        actuator_kp: o.burnin_kp,
        actuator_kv: o.burnin_kv,
        joint_damping: o.joint_damping,
        armature: o.armature,
        ..j
    }
}

/// Sets every actuator up for the burn-in.
pub fn set_burnin_actuators(model: &mut RobotModel, o: &RigOptions)
    ensures
        *final(model) == (RobotModel { joints: final(model).joints, ..*old(model) }),
        final(model).joints@ == old(model).joints@.map_values(|j: JointData| burnin_joint(j, *o)),
{
    let ghost joints = model.joints@;
    let mut i: usize = 0;
    while i < model.joints.len()
        invariant
            i <= model.joints.len(),
            model.joints.len() == joints.len(),
            *model == (RobotModel { joints: model.joints, ..*old(model) }),
            forall|j: int|
                0 <= j < i ==> #[trigger] model.joints@[j] == burnin_joint(joints[j], *o),
            forall|j: int| i <= j < joints.len() ==> #[trigger] model.joints@[j] == joints[j],
        decreases model.joints.len() - i,
    {
        model.joints[i].actuator_mode = ActuatorMode::Position;
        model.joints[i].actuator_kp = o.burnin_kp;
        model.joints[i].actuator_kv = o.burnin_kv;
        model.joints[i].joint_damping = o.joint_damping;
        model.joints[i].armature = o.armature;
        i += 1;
    }
    proof {
        assert(model.joints@ =~= joints.map_values(|j: JointData| burnin_joint(j, *o)));
    }
}

/// The collision shapes that a link keeps for the run.
pub open spec fn run_shapes(prof: Profile, o: RigOptions, link: LinkData) -> Seq<CollisionData> {
    if named_among(link.name@, o.uncollide_links@, o.uncollide_links.len() as int) {
        Seq::empty()
    } else if prof.collide_primitives_only {
        primitives(link.collisions@)
    } else {
        link.collisions@
    }
}

/// The pose the run starts from.
pub open spec fn start_pose(prof: Profile, o: RigOptions, model: RobotModel) -> Seq<i64> {
    let seeds = o.extra_seed@.map_values(|s: Seed| seed_view(s));
    seeded(
        model.joints@,
        seeded(model.joints@, model.joint_positions@, crouch(prof, o), 6),
        seeds,
        seeds.len(),
    )
}

/// Why a model cannot be prepared: the first reason in the order in which they
/// are met.
pub open spec fn prepare_error(
    prof: Profile,
    o: RigOptions,
    model: RobotModel,
    e: BuildError,
) -> bool {
    let seeds = o.extra_seed@.map_values(|s: Seed| seed_view(s));
    match e {
        BuildError::UnknownSeedJoint { seed } => first_unknown(model.joints@, seeds, seed as int),
        BuildError::NoPrimitives => {
            &&& !exists|k: int| first_unknown(model.joints@, seeds, k)
            &&& prof.collide_primitives_only
            &&& primitive_count(model.links@, model.links@.len()) == 0
        },
        _ => false,
    }
}

/// What was done to a model on the way to its run.
pub struct Prepared {
    /// Mesh shapes dropped, and primitives left.
    pub dropped: u128,
    pub kept: u128,
    /// Shapes dropped by name.
    pub uncollided: u128,
    /// Joint angles that the posture task and the fallback hold.
    pub q_seed: Vec<i64>,
}

/// The model as it is made ready for its run, and what was done to it.
pub open spec fn prepared_of(
    prof: Profile,
    o: RigOptions,
    was: RobotModel,
    now: RobotModel,
    p: Prepared,
) -> bool {
    &&& now == (RobotModel {
        links: now.links,
        joints: now.joints,
        joint_positions: now.joint_positions,
        ..was
    })
    &&& now.joint_positions@ == start_pose(prof, o, was)
    &&& p.q_seed@ == now.joint_positions@
    &&& now.joints@ == was.joints@.map_values(|j: JointData| burnin_joint(j, o))
    &&& now.links.len() == was.links.len()
    &&& forall|i: int|
        0 <= i < was.links.len() ==> {
            &&& same_but_shapes(#[trigger] now.links@[i], was.links@[i])
            &&& now.links@[i].collisions@ == run_shapes(prof, o, was.links@[i])
        }
    &&& prof.collide_primitives_only ==> p.kept == primitive_count(was.links@, was.links@.len())
        && p.kept > 0 && p.dropped == shape_count(was.links@, was.links@.len()) - p.kept
    &&& !prof.collide_primitives_only ==> p.kept == 0 && p.dropped == 0
    &&& p.uncollided == run_uncollided(prof, o, was.links@, was.links@.len())
}

/// First part of the bring-up: crouch seed, collision shapes and burn-in
/// actuators.
pub fn prepare(prof: &Profile, o: &RigOptions, model: &mut RobotModel) -> (r: Result<
    Prepared,
    BuildError,
>)
    requires
        old(model).valid(),
    ensures
        final(model).valid(),
        match r {
            Ok(p) => {
                &&& forall|e: BuildError| !prepare_error(*prof, *o, *old(model), e)
                &&& prepared_of(*prof, *o, *old(model), *final(model), p)
            },
            Err(e) => prepare_error(*prof, *o, *old(model), e),
        },
{
    let ghost links = model.links@;
    let ghost seeds = o.extra_seed@.map_values(|s: Seed| seed_view(s));
    seed_crouch(prof, o, model);
    match seed_extra(model, &o.extra_seed) {
        Ok(_) => {},
        Err(seed) => {
            return Err(BuildError::UnknownSeedJoint { seed });
        },
    }
    let mut dropped: u128 = 0;
    let mut kept: u128 = 0;
    if prof.collide_primitives_only {
        let counts = keep_primitives(model);
        dropped = counts.0;
        kept = counts.1;
        if kept == 0 {
            return Err(BuildError::NoPrimitives);
        }
    }
    proof {
        lemma_run_uncollided(*prof, *o, links, model.links@, links.len());
    }
    let uncollided: u128 = uncollide(model, &o.uncollide_links);
    let mut q_seed: Vec<i64> = Vec::new();
    let mut i: usize = 0;
    while i < model.joint_positions.len()
        invariant
            i <= model.joint_positions.len(),
            q_seed@ == model.joint_positions@.take(i as int),
        decreases model.joint_positions.len() - i,
    {
        q_seed.push(model.joint_positions[i]);
        i += 1;
    }
    proof {
        assert(model.joint_positions@.take(model.joint_positions@.len() as int)
            =~= model.joint_positions@);
    }
    set_burnin_actuators(model, o);
    Ok(Prepared { dropped, kept, uncollided, q_seed })
}

/// Clearance between sole and floor at spawn.
pub const SOLE_CLEARANCE: i64 = 1_000;

/// Spawn height at which the soles just touch: measured, not hand-derived. The
/// probe at height `probe_z` found the foot at `foot_z`.
pub fn spawn_height(probe_z: i64, foot_z: i64, sole_below_origin: i64) -> (r: i128)
    ensures
        r == probe_z - ((foot_z - sole_below_origin) - SOLE_CLEARANCE),
        // Carried up with the base, the sole clears the floor by a millimetre.
        foot_z + (r - probe_z) - sole_below_origin == 1_000,
{
    probe_z as i128 - ((foot_z as i128 - sole_below_origin as i128) - SOLE_CLEARANCE as i128)
}

/// At the spawn height the sole, carried along with the probe, clears the floor
/// by exactly the clearance.
pub proof fn law_spawn_height_clears_the_floor(probe_z: int, foot_z: int, below: int)
    ensures
        ({
            let spawn = probe_z - ((foot_z - below) - 1_000);
            let foot_at_spawn = foot_z + (spawn - probe_z);
            foot_at_spawn - below == 1_000
        }),
{
}

/// Proves from the exported description that the base is genuinely FREE and the
/// ground is real: it would be easy to confuse a suspended rig's result for a
/// standing one.
pub fn check_rig(xml: &str) -> (r: Result<(), BuildError>)
    ensures
        r is Ok <==> crate::text::is_infix(xml@, "<freejoint/>"@) && crate::text::is_infix(
            xml@,
            "type=\"plane\""@,
        ),
        r is Err && !crate::text::is_infix(xml@, "<freejoint/>"@) ==> r->Err_0 is BaseNotFree,
        r is Err && crate::text::is_infix(xml@, "<freejoint/>"@) ==> r->Err_0 is NoGround,
{
    if !contains(xml, "<freejoint/>") {
        return Err(BuildError::BaseNotFree);
    }
    if !contains(xml, "type=\"plane\"") {
        return Err(BuildError::NoGround);
    }
    Ok(())
}

/// A contact between two bodies, and how hard they press in micronewtons. The world
/// has the empty name.
pub struct BodyPair {
    pub body1: String,
    pub body2: String,
    pub force: u64,
}

/// Both bodies of a contact belong to the robot.
pub open spec fn is_self_contact(c: BodyPair) -> bool {
    c.body1@.len() > 0 && c.body2@.len() > 0
}

/// How a contact is told: `a <-> b`, and in whole newtons how hard they press where
/// that is told as well.
pub open spec fn contact_text(c: BodyPair, pressing: bool) -> Seq<char> {
    let pair = c.body1@ + " <-> "@ + c.body2@;
    if pressing {
        pair + " ("@ + crate::text::decimal_of(crate::text::nearest(c.force as nat, 1_000_000))
            + " N)"@
    } else {
        pair
    }
}

/// The self-contacts among the first `n` contacts, as they are told.
pub open spec fn self_contacts(contacts: Seq<BodyPair>, pressing: bool, n: nat) -> Seq<Seq<char>>
    decreases n,
{
    if n == 0 || n > contacts.len() {
        Seq::empty()
    } else {
        let before = self_contacts(contacts, pressing, (n - 1) as nat);
        let c = contacts[n - 1];
        if is_self_contact(c) {
            before.push(contact_text(c, pressing))
        } else {
            before
        }
    }
}

/// Refuses a plant in which the robot touches itself: no number measured after
/// that means anything.
pub fn check_self_contact(contacts: &Vec<BodyPair>, pressing: bool) -> (r: Result<
    (),
    BuildError,
>)
    ensures
        r is Ok <==> self_contacts(contacts@, pressing, contacts@.len()).len() == 0,
        r matches Err(e) ==> e is SelfCollision && crate::text::views(e->hits@) == self_contacts(
            contacts@,
            pressing,
            contacts@.len(),
        ),
{
    let mut hits: Vec<String> = Vec::new();
    let mut i: usize = 0;
    while i < contacts.len()
        invariant
            i <= contacts.len(),
            crate::text::views(hits@) == self_contacts(contacts@, pressing, i as nat),
        decreases contacts.len() - i,
    {
        let c: &BodyPair = &contacts[i];
        if !c.body1.as_str().is_empty() && !c.body2.as_str().is_empty() {
            let mut hit: String = c.body1.clone();
            hit.append(" <-> ");
            hit.append(c.body2.as_str());
            if pressing {
                hit.append(" (");
                hit.append(long_decimal(nearest_of(c.force as u128, 1_000_000)).as_str());
                hit.append(" N)");
            }
            let ghost before = hits@;
            hits.push(hit);
            proof {
                assert(crate::text::views(hits@) =~= crate::text::views(before).push(hit@));
            }
        }
        i += 1;
    }
    if hits.len() == 0 {
        Ok(())
    } else {
        Err(BuildError::SelfCollision { hits })
    }
}

/// A plant passes exactly if no contact joins two bodies of the robot.
pub proof fn law_no_self_contact_passes(contacts: Seq<BodyPair>, pressing: bool)
    ensures
        self_contacts(contacts, pressing, contacts.len()).len() == 0 <==> forall|i: int|
            0 <= i < contacts.len() ==> !is_self_contact(#[trigger] contacts[i]),
{
    lemma_self_contacts(contacts, pressing, contacts.len());
}

proof fn lemma_self_contacts(contacts: Seq<BodyPair>, pressing: bool, n: nat)
    requires
        n <= contacts.len(),
    ensures
        self_contacts(contacts, pressing, n).len() == 0 <==> forall|i: int|
            0 <= i < n ==> !is_self_contact(#[trigger] contacts[i]),
    decreases n,
{
    if n > 0 {
        lemma_self_contacts(contacts, pressing, (n - 1) as nat);
        assert(is_self_contact(contacts[n - 1]) || !is_self_contact(contacts[n - 1]));
    }
}

/// The limits of one actuated row. The torque limit is in millionths of a
/// micronewton metre.
#[derive(Clone, Copy, PartialEq, Eq, Structural, Debug)]
pub struct RowLimits {
    pub torque: i128,
    pub q_min: i64,
    pub q_max: i64,
    pub v_max: i64,
}

/// Effort below which a joint's limit is not believed, in micronewton metres.
pub const MIN_EFFORT: i64 = 1_000_000;

/// The limits that a joint gives its row.
pub open spec fn limits_of(j: JointData, torque_scale: i64) -> RowLimits {
    let effort = if j.effort < MIN_EFFORT {
        MIN_EFFORT
    } else {
        j.effort
    };
    RowLimits {
        torque: (effort * torque_scale) as i128,
        q_min: j.lower,
        q_max: j.upper,
        v_max: j.velocity,
    }
}

/// The limits of actuated row `row`, as the first `n` joints set it: the last
/// joint that maps to a row decides.
pub open spec fn row_limits(
    joints: Seq<JointData>,
    map: JointMap,
    torque_scale: i64,
    row: int,
    n: nat,
) -> Option<RowLimits>
    decreases n,
{
    if n == 0 || n > joints.len() {
        None
    } else if map.actuated_row(n - 1) == Some((row + BASE_ROWS) as usize) {
        Some(limits_of(joints[n - 1], torque_scale))
    } else {
        row_limits(joints, map, torque_scale, row, (n - 1) as nat)
    }
}

/// The limits of every actuated row. A row that no joint maps to has none: a
/// plausible-looking default from the wrong robot would not fail loudly.
pub fn collect_limits(joints: &Vec<JointData>, map: &JointMap, torque_scale: i64) -> (r: Vec<
    Option<RowLimits>,
>)
    requires
        map.valid(joints@.len()),
    ensures
        r.len() == map.nv - BASE_ROWS,
        forall|row: int|
            0 <= row < r.len() ==> #[trigger] r@[row] == row_limits(
                joints@,
                *map,
                torque_scale,
                row,
                joints@.len(),
            ),
{
    let na: usize = map.nv - BASE_ROWS;
    let mut rows: Vec<Option<RowLimits>> = Vec::new();
    while rows.len() < na
        invariant
            rows.len() <= na,
            forall|row: int| 0 <= row < rows.len() ==> #[trigger] rows@[row] == None::<RowLimits>,
        decreases na - rows.len(),
    {
        rows.push(None);
    }
    let mut ji: usize = 0;
    while ji < joints.len()
        invariant
            map.valid(joints@.len()),
            ji <= joints.len(),
            rows.len() == na,
            na == map.nv - BASE_ROWS,
            forall|row: int|
                0 <= row < rows.len() ==> #[trigger] rows@[row] == row_limits(
                    joints@,
                    *map,
                    torque_scale,
                    row,
                    ji as nat,
                ),
        decreases joints.len() - ji,
    {
        let ghost before = rows@;
        if let Some(vi) = map.row_of(ji) {
            let j: &JointData = &joints[ji];
            let effort: i64 = if j.effort < MIN_EFFORT {
                MIN_EFFORT
            } else {
                j.effort
            };
            proof {
                assert(i128::MIN <= effort * torque_scale <= i128::MAX) by (nonlinear_arith)
                    requires
                        i64::MIN <= effort <= i64::MAX,
                        i64::MIN <= torque_scale <= i64::MAX,
                ;
            }
            let limits = RowLimits {
                torque: effort as i128 * torque_scale as i128,
                q_min: j.lower,
                q_max: j.upper,
                v_max: j.velocity,
            };
            rows.set(vi - BASE_ROWS, Some(limits));
        }
        proof {
            assert forall|row: int| 0 <= row < rows.len() implies #[trigger] rows@[row]
                == row_limits(joints@, *map, torque_scale, row, (ji + 1) as nat) by {
                assert(before[row] == row_limits(joints@, *map, torque_scale, row, ji as nat));
            }
        }
        ji += 1;
    }
    rows
}

/// The rows without limits among the first `n`.
pub open spec fn unset_rows(rows: Seq<Option<RowLimits>>, n: nat) -> Seq<usize>
    decreases n,
{
    if n == 0 || n > rows.len() {
        Seq::empty()
    } else if rows[n - 1] is None {
        unset_rows(rows, (n - 1) as nat).push((n - 1) as usize)
    } else {
        unset_rows(rows, (n - 1) as nat)
    }
}

/// Takes the limits out where every row has them, else names the rows that have
/// none.
pub fn require_limits(rows: &Vec<Option<RowLimits>>) -> (r: Result<Vec<RowLimits>, Vec<usize>>)
    ensures
        match r {
            Ok(limits) => {
                &&& unset_rows(rows@, rows@.len()).len() == 0
                &&& limits.len() == rows.len()
                &&& forall|i: int|
                    0 <= i < rows.len() ==> #[trigger] rows@[i] == Some(limits@[i])
            },
            Err(bad) => bad@ == unset_rows(rows@, rows@.len()) && bad.len() > 0,
        },
{
    let mut limits: Vec<RowLimits> = Vec::new();
    let mut bad: Vec<usize> = Vec::new();
    let mut i: usize = 0;
    while i < rows.len()
        invariant
            i <= rows.len(),
            bad@ == unset_rows(rows@, i as nat),
            bad.len() == 0 ==> limits.len() == i && forall|j: int|
                0 <= j < i ==> #[trigger] rows@[j] == Some(limits@[j]),
        decreases rows.len() - i,
    {
        match rows[i] {
            Some(l) => {
                limits.push(l);
            },
            None => {
                bad.push(i);
            },
        }
        i += 1;
    }
    if bad.len() == 0 {
        Ok(limits)
    } else {
        Err(bad)
    }
}

/// A link of the robot and its joint of the dynamics model.
pub struct LinkEntry {
    pub name: String,
    pub mi: usize,
}

/// Where a link is found, looking from entry `from` on.
pub open spec fn link_mi(index: Seq<LinkEntry>, name: Seq<char>, from: int) -> Option<usize>
    decreases index.len() - from,
{
    if from < 0 || from >= index.len() {
        None
    } else if index[from].name@ == name {
        Some(index[from].mi)
    } else {
        link_mi(index, name, from + 1)
    }
}

/// Looks a link up.
pub fn find_link(index: &Vec<LinkEntry>, name: &str) -> (r: Option<usize>)
    ensures
        r == link_mi(index@, name@, 0),
{
    let mut i: usize = 0;
    while i < index.len()
        invariant
            i <= index.len(),
            link_mi(index@, name@, 0) == link_mi(index@, name@, i as int),
        decreases index.len() - i,
    {
        if same(index[i].name.as_str(), name) {
            return Some(index[i].mi);
        }
        i += 1;
    }
    None
}

/// A link that carries mass, with its joint of the dynamics model and its centre
/// of mass in its own frame.
#[derive(Clone, Copy, PartialEq, Eq, Structural, Debug)]
pub struct MassLink {
    pub mi: usize,
    pub m: u64,
    pub com_local: Vec3,
}

/// The links with mass among the first `n` that the dynamics model knows.
pub open spec fn mass_links(links: Seq<LinkData>, index: Seq<LinkEntry>, n: nat) -> Seq<MassLink>
    decreases n,
{
    if n == 0 || n > links.len() {
        Seq::empty()
    } else {
        let before = mass_links(links, index, (n - 1) as nat);
        let l = links[n - 1];
        match link_mi(index, l.name@, 0) {
            Some(mi) => if l.mass > 0 {
                before.push(MassLink { mi, m: l.mass, com_local: l.com })
            } else {
                before
            },
            None => before,
        }
    }
}

/// The masses of the first `n` of these links together.
pub open spec fn mass_sum(ls: Seq<MassLink>, n: nat) -> nat
    decreases n,
{
    if n == 0 || n > ls.len() {
        0
    } else {
        mass_sum(ls, (n - 1) as nat) + ls[n - 1].m as nat
    }
}

/// The links with mass that the dynamics model knows, in order.
pub fn collect_mass_links(links: &Vec<LinkData>, index: &Vec<LinkEntry>) -> (r: Vec<MassLink>)
    ensures
        r@ == mass_links(links@, index@, links@.len()),
{
    let mut out: Vec<MassLink> = Vec::new();
    let mut i: usize = 0;
    while i < links.len()
        invariant
            i <= links.len(),
            out@ == mass_links(links@, index@, i as nat),
        decreases links.len() - i,
    {
        let l: &LinkData = &links[i];
        if l.mass > 0 {
            if let Some(mi) = find_link(index, l.name.as_str()) {
                out.push(MassLink { mi, m: l.mass, com_local: l.com });
            }
        }
        i += 1;
    }
    out
}

/// The mass of all these links together.
pub fn sum_mass(ls: &Vec<MassLink>) -> (r: u128)
    ensures
        r == mass_sum(ls@, ls@.len()),
{
    let mut sum: u128 = 0;
    let mut i: usize = 0;
    while i < ls.len()
        invariant
            i <= ls.len(),
            sum == mass_sum(ls@, i as nat),
            sum <= i * u64::MAX,
        decreases ls.len() - i,
    {
        proof {
            assert((i + 1) * u64::MAX == i * u64::MAX + u64::MAX) by (nonlinear_arith);
            assert((i + 1) * u64::MAX <= u128::MAX) by (nonlinear_arith)
                requires
                    i + 1 <= usize::MAX <= u64::MAX,
            ;
        }
        sum = sum + ls[i].m as u128;
        i += 1;
    }
    sum
}

/// The index maps between the editor's model and the dynamics model, and what
/// the controller needs to know of the machine.
pub struct BipedRig {
    pub ctrl_mode: CtrlMode,
    pub map: JointMap,
    /// Joints of the dynamics model of the [left, right] foot links.
    pub foot_mi: [usize; 2],
    /// Body held upright, and whether that body IS the floating base.
    pub trunk_mi: usize,
    pub trunk_from_base: bool,
    pub mass_links: Vec<MassLink>,
    /// In milligrams.
    pub total_mass: u128,
    /// One entry per actuated row.
    pub limits: Vec<RowLimits>,
    /// Joint angles the posture task and the degraded-solve fallback hold.
    pub q_seed: Vec<i64>,
    pub armature: i64,
    pub joint_damping: i64,
}

/// The joint of the dynamics model that is the floating base.
pub const BASE_MI: usize = 1;

/// The body that is held upright.
pub open spec fn trunk_of(prof: Profile, index: Seq<LinkEntry>) -> Option<usize> {
    match prof.trunk_link {
        None => Some(BASE_MI),
        Some(name) => link_mi(index, name@, 0),
    }
}

/// Why a rig cannot be assembled: the first reason in the order in which they
/// are met.
pub open spec fn assemble_error(
    prof: Profile,
    o: RigOptions,
    joints: Seq<JointData>,
    map: JointMap,
    index: Seq<LinkEntry>,
    e: BuildError,
) -> bool {
    let left = link_mi(index, prof.foot_links@[0]@, 0);
    let right = link_mi(index, prof.foot_links@[1]@, 0);
    match e {
        BuildError::NoLink { name } => if left is None {
            name == prof.foot_links@[0]
        } else if right is None {
            name == prof.foot_links@[1]
        } else {
            trunk_of(prof, index) is None && prof.trunk_link == Some(name)
        },
        BuildError::UnsetRows { rows } => {
            &&& left is Some
            &&& right is Some
            &&& trunk_of(prof, index) is Some
            &&& rows.len() > 0
            &&& rows@ == unset_rows(
                Seq::new(
                    (map.nv - BASE_ROWS) as nat,
                    |row: int| row_limits(joints, map, o.torque_scale, row, joints.len()),
                ),
                (map.nv - BASE_ROWS) as nat,
            )
        },
        _ => false,
    }
}

impl BipedRig {
    /// The rig's tables fit together.
    pub open spec fn valid(&self) -> bool {
        &&& self.map.valid(self.q_seed@.len())
        &&& self.limits.len() == self.map.nv - BASE_ROWS
    }

    /// The rig is the one that belongs to this robot, options and dynamics model.
    pub open spec fn assembled_of(
        &self,
        prof: Profile,
        o: RigOptions,
        model: RobotModel,
        map: JointMap,
        index: Seq<LinkEntry>,
        q_seed: Vec<i64>,
    ) -> bool {
        &&& self.valid()
        &&& self.ctrl_mode == o.ctrl_mode
        &&& self.map == map
        &&& link_mi(index, prof.foot_links@[0]@, 0) == Some(self.foot_mi@[0])
        &&& link_mi(index, prof.foot_links@[1]@, 0) == Some(self.foot_mi@[1])
        &&& trunk_of(prof, index) == Some(self.trunk_mi)
        &&& self.trunk_from_base == (prof.trunk_link is None)
        &&& self.mass_links@ == mass_links(model.links@, index, model.links@.len())
        &&& self.total_mass == mass_sum(self.mass_links@, self.mass_links@.len())
        &&& forall|row: int|
            0 <= row < self.limits.len() ==> Some(#[trigger] self.limits@[row]) == row_limits(
                model.joints@,
                map,
                o.torque_scale,
                row,
                model.joints@.len(),
            )
        &&& self.q_seed == q_seed
        &&& self.armature == o.armature
        &&& self.joint_damping == o.joint_damping
    }

    /// Second part of the bring-up: finds feet and trunk in the dynamics model,
    /// gathers the masses, and fills the torque box.
    pub fn assemble(
        prof: &Profile,
        o: &RigOptions,
        model: &RobotModel,
        map: JointMap,
        index: &Vec<LinkEntry>,
        q_seed: Vec<i64>,
    ) -> (r: Result<BipedRig, BuildError>)
        requires
            map.valid(model.joints@.len()),
            q_seed.len() == model.joints.len(),
        ensures
            match r {
                Ok(rig) => {
                    &&& forall|e: BuildError|
                        !assemble_error(*prof, *o, model.joints@, map, index@, e)
                    &&& rig.assembled_of(*prof, *o, *model, map, index@, q_seed)
                },
                Err(e) => assemble_error(*prof, *o, model.joints@, map, index@, e),
            },
    {
        let left: usize = match find_link(index, prof.foot_links[0]) {
            Some(mi) => mi,
            None => {
                return Err(BuildError::NoLink { name: prof.foot_links[0] });
            },
        };
        let right: usize = match find_link(index, prof.foot_links[1]) {
            Some(mi) => mi,
            None => {
                return Err(BuildError::NoLink { name: prof.foot_links[1] });
            },
        };
        let trunk_mi: usize = match prof.trunk_link {
            None => BASE_MI,
            Some(name) => match find_link(index, name) {
                Some(mi) => mi,
                None => {
                    return Err(BuildError::NoLink { name });
                },
            },
        };
        let mass_links: Vec<MassLink> = collect_mass_links(&model.links, index);
        let total_mass: u128 = sum_mass(&mass_links);
        let rows: Vec<Option<RowLimits>> = collect_limits(&model.joints, &map, o.torque_scale);
        let limits: Vec<RowLimits> = match require_limits(&rows) {
            Ok(l) => l,
            Err(bad) => {
                proof {
                    assert(rows@ =~= Seq::new(
                        (map.nv - BASE_ROWS) as nat,
                        |row: int|
                            row_limits(
                                model.joints@,
                                map,
                                o.torque_scale,
                                row,
                                model.joints@.len(),
                            ),
                    ));
                }
                return Err(BuildError::UnsetRows { rows: bad });
            },
        };
        proof {
            assert(rows@ =~= Seq::new(
                (map.nv - BASE_ROWS) as nat,
                |row: int|
                    row_limits(model.joints@, map, o.torque_scale, row, model.joints@.len()),
            ));
            assert forall|row: int| 0 <= row < limits.len() implies Some(#[trigger] limits@[row])
                == row_limits(model.joints@, map, o.torque_scale, row, model.joints@.len()) by {
                assert(rows@[row] == Some(limits@[row]));
            }
        }
        Ok(
            BipedRig {
                ctrl_mode: o.ctrl_mode,
                map,
                foot_mi: [left, right],
                trunk_mi,
                trunk_from_base: prof.trunk_link.is_none(),
                mass_links,
                total_mass,
                limits,
                q_seed,
                armature: o.armature,
                joint_damping: o.joint_damping,
            },
        )
    }

    pub fn left_foot_mi(&self) -> (r: usize)
        ensures
            r == self.foot_mi@[0],
    {
        self.foot_mi[0]
    }

    pub fn right_foot_mi(&self) -> (r: usize)
        ensures
            r == self.foot_mi@[1],
    {
        self.foot_mi[1]
    }

    /// 0 = left, 1 = right.
    pub fn side_of(&self, foot_mi: usize) -> (r: usize)
        ensures
            r == if foot_mi == self.foot_mi@[0] {
                0int
            } else {
                1int
            },
    {
        if foot_mi != self.foot_mi[0] {
            1
        } else {
            0
        }
    }

    /// Joint and row of every actuated joint.
    pub fn actuated(&self) -> (r: Vec<(usize, usize)>)
        requires
            self.valid(),
        ensures
            r@ == self.map.actuated_upto(self.q_seed@.len()),
    {
        self.map.actuated()
    }
}

/// The efforts of the actuated joints among the first `n`.
pub open spec fn actuated_efforts(joints: Seq<JointData>, map: JointMap, n: nat) -> Seq<i64>
    decreases n,
{
    if n == 0 || n > joints.len() {
        Seq::empty()
    } else if map.actuated_row(n - 1) is Some {
        actuated_efforts(joints, map, (n - 1) as nat).push(joints[n - 1].effort)
    } else {
        actuated_efforts(joints, map, (n - 1) as nat)
    }
}

/// The different torque limits of the actuated joints, smallest first, and how
/// many joints they are spread over.
pub fn effort_summary(joints: &Vec<JointData>, map: &JointMap) -> (r: (Vec<i64>, usize))
    requires
        map.valid(joints@.len()),
    ensures
        ({
            let all = actuated_efforts(joints@, *map, joints@.len());
            crate::order::is_distinct_ascending(all, r.0@) && r.1 == all.len()
        }),
{
    let mut efforts: Vec<i64> = Vec::new();
    let mut ji: usize = 0;
    while ji < joints.len()
        invariant
            map.valid(joints@.len()),
            ji <= joints.len(),
            efforts@ == actuated_efforts(joints@, *map, ji as nat),
        decreases joints.len() - ji,
    {
        if let Some(_) = map.row_of(ji) {
            efforts.push(joints[ji].effort);
        }
        ji += 1;
    }
    (distinct_ascending(&efforts), efforts.len())
}

/// How far two numbers are apart.
pub open spec fn distance(a: int, b: int) -> int {
    if a < b {
        b - a
    } else {
        a - b
    }
}

/// How far apart two angles are.
fn apart(a: i64, b: i64) -> (r: i128)
    ensures
        r == distance(a as int, b as int),
{
    if a < b {
        b as i128 - a as i128
    } else {
        a as i128 - b as i128
    }
}

/// The joint that moved furthest from its seed while settling, and how far: the
/// first of them if several moved equally far, and the first joint if none
/// moved. A big number on an arm is cosmetic; the same number on a stance knee
/// means that the plant cannot hold the seed pose.
pub fn worst_move(q_seed: &Vec<i64>, q: &Vec<i64>) -> (r: (usize, i128))
    requires
        q_seed.len() == q.len(),
    ensures
        forall|ji: int| 0 <= ji < q.len() ==> distance(#[trigger] q@[ji] as int, q_seed@[ji] as int) <= r.1,
        r.1 == 0 ==> r.0 == 0,
        r.1 != 0 ==> {
            &&& r.0 < q.len()
            &&& r.1 == distance(q@[r.0 as int] as int, q_seed@[r.0 as int] as int)
            &&& forall|ji: int|
                0 <= ji < r.0 ==> distance(#[trigger] q@[ji] as int, q_seed@[ji] as int) < r.1
        },
        r.1 >= 0,
{
    let mut wi: usize = 0;
    let mut worst: i128 = 0;
    let mut ji: usize = 0;
    while ji < q.len()
        invariant
            ji <= q.len(),
            q_seed.len() == q.len(),
            worst >= 0,
            forall|k: int| 0 <= k < ji ==> distance(#[trigger] q@[k] as int, q_seed@[k] as int) <= worst,
            worst == 0 ==> wi == 0,
            worst != 0 ==> {
                &&& wi < ji
                &&& worst == distance(q@[wi as int] as int, q_seed@[wi as int] as int)
                &&& forall|k: int|
                    0 <= k < wi ==> distance(#[trigger] q@[k] as int, q_seed@[k] as int) < worst
            },
        decreases q.len() - ji,
    {
        let d: i128 = apart(q[ji], q_seed[ji]);
        if d > worst {
            wi = ji;
            worst = d;
        }
        ji += 1;
    }
    (wi, worst)
}

/// A move below this is not worth a line.
pub const NOTABLE_MOVE: i128 = 10_000;

/// The joints among the first `n` that moved notably, each with how far.
pub open spec fn notable_moves(q_seed: Seq<i64>, q: Seq<i64>, n: nat) -> Seq<(usize, i128)>
    decreases n,
{
    if n == 0 || n > q.len() {
        Seq::empty()
    } else {
        let before = notable_moves(q_seed, q, (n - 1) as nat);
        let d = distance(q[n - 1] as int, q_seed[n - 1] as int);
        if d > NOTABLE_MOVE {
            before.push(((n - 1) as usize, d as i128))
        } else {
            before
        }
    }
}

/// Second components.
pub open spec fn moves_of(ms: Seq<(usize, i128)>) -> Seq<i128> {
    ms.map_values(|m: (usize, i128)| m.1)
}

/// `top` holds the first six of `ms`, or all if there are fewer, in the given
/// descending order.
pub open spec fn top_moves(
    ms: Seq<(usize, i128)>,
    order: Seq<usize>,
    top: Seq<(usize, i128)>,
) -> bool {
    &&& crate::order::is_descending_order(moves_of(ms), order)
    &&& top.len() == if ms.len() < 6 {
        ms.len()
    } else {
        6
    }
    &&& forall|p: int| 0 <= p < top.len() ==> #[trigger] top[p] == ms[order[p] as int]
}

/// The joints that moved notably, furthest first; at most six of them.
pub fn moved_joints(q_seed: &Vec<i64>, q: &Vec<i64>) -> (r: Vec<(usize, i128)>)
    requires
        q_seed.len() == q.len(),
    ensures
        exists|order: Seq<usize>|
            #[trigger] top_moves(notable_moves(q_seed@, q@, q@.len()), order, r@),
{
    let mut ms: Vec<(usize, i128)> = Vec::new();
    let mut keys: Vec<i128> = Vec::new();
    let mut ji: usize = 0;
    while ji < q.len()
        invariant
            ji <= q.len(),
            q_seed.len() == q.len(),
            ms@ == notable_moves(q_seed@, q@, ji as nat),
            keys@ == moves_of(ms@),
        decreases q.len() - ji,
    {
        let d: i128 = apart(q[ji], q_seed[ji]);
        if d > NOTABLE_MOVE {
            let ghost before = ms@;
            ms.push((ji, d));
            keys.push(d);
            proof {
                assert(moves_of(ms@) =~= moves_of(before).push(d));
            }
        }
        ji += 1;
    }
    let order: Vec<usize> = descending(&keys);
    let mut out: Vec<(usize, i128)> = Vec::new();
    while out.len() < order.len() && out.len() < 6
        invariant
            out.len() <= order.len(),
            out.len() <= 6,
            order.len() == ms.len(),
            crate::order::is_descending_order(keys@, order@),
            keys.len() == ms.len(),
            forall|p: int| 0 <= p < out.len() ==> #[trigger] out@[p] == ms@[order@[p] as int],
        decreases order.len() - out.len(),
    {
        let m: (usize, i128) = ms[order[out.len()]];
        out.push(m);
    }
    proof {
        assert(top_moves(ms@, order@, out@));
    }
    out
}

/// How many whole simulation steps of `dt` fit in a duration.
pub fn frames(duration: u64, dt: u64) -> (r: u32)
    requires
        dt > 0,
    ensures
        r == if duration / dt > u32::MAX {
            u32::MAX as int
        } else {
            (duration / dt) as int
        },
{
    let n: u64 = duration / dt;
    if n > u32::MAX as u64 {
        u32::MAX
    } else {
        n as u32
    }
}

/// A joint with the gains of the run. Torque control leaves the burn-in gains.
pub open spec fn run_gains(j: JointData, o: RigOptions) -> JointData {
    if o.ctrl_mode == CtrlMode::Torque {
        j
    } else {
        JointData { actuator_kp: o.run_kp, actuator_kv: o.run_kv, ..j }
    }
}

/// What the actuators track during the run. Hybrid keeps position mode: that is
/// the only one that reads targets and feedforward at all.
pub open spec fn run_mode(mode: CtrlMode) -> ActuatorMode {
    match mode {
        CtrlMode::Hybrid => ActuatorMode::Position,
        CtrlMode::Velocity | CtrlMode::Servo => ActuatorMode::Velocity,
        CtrlMode::Torque => ActuatorMode::Torque,
    }
}

/// Sets the run-time gains, not the burn-in ones, in every mode but torque.
pub fn set_run_gains(model: &mut RobotModel, o: &RigOptions)
    ensures
        *final(model) == (RobotModel { joints: final(model).joints, ..*old(model) }),
        final(model).joints@ == old(model).joints@.map_values(|j: JointData| run_gains(j, *o)),
{
    let ghost joints = model.joints@;
    if o.ctrl_mode != CtrlMode::Torque {
        let mut i: usize = 0;
        while i < model.joints.len()
            invariant
                i <= model.joints.len(),
                model.joints.len() == joints.len(),
                o.ctrl_mode != CtrlMode::Torque,
                *model == (RobotModel { joints: model.joints, ..*old(model) }),
                forall|j: int|
                    0 <= j < i ==> #[trigger] model.joints@[j] == run_gains(joints[j], *o),
                forall|j: int| i <= j < joints.len() ==> #[trigger] model.joints@[j] == joints[j],
            decreases model.joints.len() - i,
        {
            model.joints[i].actuator_kp = o.run_kp;
            model.joints[i].actuator_kv = o.run_kv;
            i += 1;
        }
    }
    proof {
        assert(model.joints@ =~= joints.map_values(|j: JointData| run_gains(j, *o)));
    }
}

/// Puts every actuator into the mode of the run.
pub fn set_run_mode(model: &mut RobotModel, mode: CtrlMode)
    ensures
        *final(model) == (RobotModel { joints: final(model).joints, ..*old(model) }),
        final(model).joints@ == old(model).joints@.map_values(
            |j: JointData| JointData { actuator_mode: run_mode(mode), ..j },
        ),
{
    let ghost joints = model.joints@;
    let target: ActuatorMode = match mode {
        CtrlMode::Hybrid => ActuatorMode::Position,
        CtrlMode::Velocity | CtrlMode::Servo => ActuatorMode::Velocity,
        CtrlMode::Torque => ActuatorMode::Torque,
    };
    let mut i: usize = 0;
    while i < model.joints.len()
        invariant
            i <= model.joints.len(),
            model.joints.len() == joints.len(),
            target == run_mode(mode),
            *model == (RobotModel { joints: model.joints, ..*old(model) }),
            forall|j: int|
                0 <= j < i ==> #[trigger] model.joints@[j] == (JointData {
                    actuator_mode: target,
                    ..joints[j]
                }),
            forall|j: int| i <= j < joints.len() ==> #[trigger] model.joints@[j] == joints[j],
        decreases model.joints.len() - i,
    {
        model.joints[i].actuator_mode = target;
        i += 1;
    }
    proof {
        assert(model.joints@ =~= joints.map_values(
            |j: JointData| JointData { actuator_mode: run_mode(mode), ..j },
        ));
    }
}

/// The gains in effect, for the log: position gain, velocity gain.
pub fn effective_gains(o: &RigOptions) -> (r: (i64, i64))
    ensures
        r.0 == if o.ctrl_mode == CtrlMode::Hybrid {
            o.run_kp
        } else {
            0
        },
        r.1 == if o.ctrl_mode == CtrlMode::Torque {
            0
        } else {
            o.run_kv
        },
{
    let hybrid = o.ctrl_mode == CtrlMode::Hybrid;
    (
        if hybrid {
            o.run_kp
        } else {
            0
        },
        if hybrid || o.ctrl_mode.is_velocity() {
            o.run_kv
        } else {
            0
        },
    )
}

impl BipedRig {
    /// Weight in hundred-millionths of a newton: milligrams times 9.81.
    pub fn weight(&self) -> (r: u128)
        requires
            self.total_mass * 981 <= u128::MAX,
        ensures
            r == self.total_mass * 981,
    {
        self.total_mass * 981
    }

    /// Gravity-compensation torque on the actuated rows, from the gravity term
    /// over all velocity coordinates.
    pub fn gravity_torque(&self, g_full: &Vec<i64>) -> (r: Vec<i64>)
        requires
            self.valid(),
            g_full.len() == self.map.nv,
        ensures
            r.len() == self.map.nv - BASE_ROWS,
            forall|row: int|
                0 <= row < r.len() ==> #[trigger] r@[row] == crate::joint_map::rows_picked(
                    g_full@,
                    self.map,
                    row,
                    self.q_seed@.len(),
                ),
    {
        pick_rows(g_full, &self.map)
    }
}

/// Where the centre of mass sits over the soles, along x, in half micrometres.
#[derive(Clone, Copy, PartialEq, Eq, Structural, Debug)]
pub struct Footprint {
    /// Midway between the ankles.
    pub ankle: i128,
    /// The rear and front ends of the soles.
    pub back: i128,
    pub front: i128,
    /// The centre of mass from the ankle: also the sole centre that would put it
    /// mid-footprint.
    pub com: i128,
    /// How far the pressure can travel behind and before the centre of mass.
    pub margin_back: i128,
    pub margin_front: i128,
}

impl Footprint {
    /// The numbers are those of the given feet and centre of mass.
    pub open spec fn describes(
        &self,
        ankles: (i64, i64),
        com_x: i64,
        centre: i64,
        half: i64,
    ) -> bool {
        &&& self.ankle == ankles.0 + ankles.1
        &&& self.back == self.ankle + 2 * (centre - half)
        &&& self.front == self.ankle + 2 * (centre + half)
        &&& self.com == 2 * com_x - self.ankle
        &&& self.margin_back == 2 * com_x - self.back
        &&& self.margin_front == self.front - 2 * com_x
    }
}

/// Where the centre of mass sits inside the footprint, and how much travel that
/// leaves each way. `ankles` are the x of the foot links, `centre` is where the
/// sole's middle lies before the ankle, `half` is half the sole's length.
pub fn report_footprint(ankles: (i64, i64), com_x: i64, centre: i64, half: i64) -> (r: Footprint)
    ensures
        r.describes(ankles, com_x, centre, half),
{
    let ankle: i128 = ankles.0 as i128 + ankles.1 as i128;
    let back: i128 = ankle + 2 * (centre as i128 - half as i128);
    let front: i128 = ankle + 2 * (centre as i128 + half as i128);
    let com: i128 = 2 * com_x as i128;
    Footprint {
        ankle,
        back,
        front,
        com: com - ankle,
        margin_back: com - back,
        margin_front: front - com,
    }
}

/// The travel each way adds up to the sole, and it is the same both ways exactly
/// where the sole's middle lies below the centre of mass.
pub proof fn law_margins_split_the_sole(
    f: Footprint,
    ankles: (i64, i64),
    com_x: i64,
    centre: i64,
    half: i64,
)
    requires
        f.describes(ankles, com_x, centre, half),
    ensures
        f.margin_back + f.margin_front == 4 * half,
        f.margin_back == f.margin_front <==> f.com == 2 * centre,
{
}

/// Hip and ankle each bend back half of what the knee bends, up to the last digit, so that the
/// trunk stays upright.
pub proof fn law_crouch_keeps_the_trunk_upright(knee: i64)
    ensures
        -1 <= knee + minus_half(knee) + minus_half(knee) <= 1,
        knee + 2 * minus_half(knee) <= 0,
{
}

/// The seeds of a crouch: hip, knee and ankle of the left leg, then the same of the right.
pub proof fn law_crouch_seeds_both_legs(prof: Profile, o: RigOptions, k: int)
    requires
        0 <= k < 3,
    ensures
        crouch(prof, o).len() == 6,
        crouch(prof, o)[k].0 == prof.sagittal_left@[k]@,
        crouch(prof, o)[k + 3].0 == prof.sagittal_right@[k]@,
        crouch(prof, o)[k].1 == crouch(prof, o)[k + 3].1,
        crouch(prof, o)[0].1 == o.hip_pitch,
        crouch(prof, o)[1].1 == o.knee,
        crouch(prof, o)[2].1 == o.ankle_pitch,
{
}

/// A seeded joint starts at its last seed and any other where it was.
pub proof fn law_last_seed_counts(
    joints: Seq<JointData>,
    q: Seq<i64>,
    seeds: Seq<(Seq<char>, i64)>,
    n: nat,
    ji: int,
    k: int,
)
    requires
        q.len() == joints.len(),
        n <= seeds.len(),
        0 <= ji < q.len(),
        -1 <= k < n,
        k >= 0 ==> crate::robot::joint_at(joints, seeds[k].0) == Some(ji),
        forall|j: int|
            k < j < n ==> crate::robot::joint_at(joints, (#[trigger] seeds[j]).0) != Some(ji),
    ensures
        seeded(joints, q, seeds, n).len() == q.len(),
        k >= 0 ==> seeded(joints, q, seeds, n)[ji] == seeds[k].1,
        k < 0 ==> seeded(joints, q, seeds, n)[ji] == q[ji],
    decreases n,
{
    if n > 0 {
        lemma_seeded_length(joints, q, seeds, (n - 1) as nat);
        lemma_seeded_length(joints, q, seeds, n);
        let last = seeds[n - 1];
        if k < n - 1 {
            law_last_seed_counts(joints, q, seeds, (n - 1) as nat, ji, k);
        }
    }
}

proof fn lemma_seeded_length(
    joints: Seq<JointData>,
    q: Seq<i64>,
    seeds: Seq<(Seq<char>, i64)>,
    n: nat,
)
    requires
        q.len() == joints.len(),
    ensures
        seeded(joints, q, seeds, n).len() == q.len(),
    decreases n,
{
    if n > 0 && n <= seeds.len() {
        lemma_seeded_length(joints, q, seeds, (n - 1) as nat);
        lemma_joint_at_is_in_range(joints, seeds[n - 1].0);
    }
}

proof fn lemma_joint_at_is_in_range(joints: Seq<JointData>, name: Seq<char>)
    ensures
        crate::robot::joint_at(joints, name) matches Some(ji) ==> 0 <= ji < joints.len()
            && joints[ji].name@ == name,
{
    if let Some(ji) = crate::robot::joint_at(joints, name) {
        assert(crate::robot::first_joint(joints, name, ji));
    }
}

/// For the burn-in every joint holds its position with the burn-in's gains, damping and
/// armature; what it is and how far it goes stays.
pub proof fn law_burn_in_holds_positions(j: JointData, o: RigOptions)
    ensures
        burnin_joint(j, o).actuator_mode == ActuatorMode::Position,
        burnin_joint(j, o).actuator_kp == o.burnin_kp,
        burnin_joint(j, o).actuator_kv == o.burnin_kv,
        burnin_joint(j, o).joint_damping == o.joint_damping,
        burnin_joint(j, o).armature == o.armature,
        burnin_joint(j, o).name == j.name,
        burnin_joint(j, o).effort == j.effort,
        burnin_joint(j, o).lower == j.lower,
        burnin_joint(j, o).upper == j.upper,
{
}

/// In torque mode the gains of the burn-in stay; in every other the run's are set. Positions
/// are tracked in hybrid mode only, velocities in both velocity-resolved ones.
pub proof fn law_run_gains_and_modes(j: JointData, o: RigOptions)
    ensures
        o.ctrl_mode == CtrlMode::Torque ==> run_gains(j, o) == j,
        o.ctrl_mode != CtrlMode::Torque ==> run_gains(j, o).actuator_kp == o.run_kp && run_gains(
            j,
            o,
        ).actuator_kv == o.run_kv,
        run_gains(j, o).actuator_mode == j.actuator_mode,
        run_mode(CtrlMode::Hybrid) == ActuatorMode::Position,
        run_mode(CtrlMode::Velocity) == ActuatorMode::Velocity,
        run_mode(CtrlMode::Servo) == ActuatorMode::Velocity,
        run_mode(CtrlMode::Torque) == ActuatorMode::Torque,
{
}

/// A shape collides in the run unless its link is taken out, and a mesh only where not just
/// primitives do.
pub proof fn law_shapes_of_the_run(prof: Profile, o: RigOptions, link: LinkData, c: CollisionData)
    ensures
        ({
            let out = exists|k: int|
                0 <= k < o.uncollide_links@.len() && crate::text::is_infix(
                    link.name@,
                    (#[trigger] o.uncollide_links@[k])@,
                );
            run_shapes(prof, o, link).contains(c) <==> !out && link.collisions@.contains(c) && !(
            prof.collide_primitives_only && c.geometry is Mesh)
        }),
{
    let f = |c: CollisionData| !(c.geometry is Mesh);
    lemma_filter_holds(link.collisions@, f, c);
}

proof fn lemma_filter_holds(
    cs: Seq<CollisionData>,
    f: spec_fn(CollisionData) -> bool,
    c: CollisionData,
)
    ensures
        cs.filter(f).contains(c) <==> cs.contains(c) && f(c),
    decreases cs.len(),
{
    reveal(Seq::filter);
    if cs.len() > 0 {
        lemma_filter_holds(cs.drop_last(), f, c);
        let (sub, all) = (cs.drop_last().filter(f), cs.filter(f));
        if cs.contains(c) {
            let i = choose|i: int| 0 <= i < cs.len() && cs[i] == c;
            if i < cs.len() - 1 {
                assert(cs.drop_last()[i] == c);
            }
        }
        if cs.drop_last().contains(c) {
            let i = choose|i: int| 0 <= i < cs.len() - 1 && cs.drop_last()[i] == c;
            assert(cs[i] == c);
        }
        if sub.contains(c) {
            let i = choose|i: int| 0 <= i < sub.len() && sub[i] == c;
            assert(all[i] == c);
        }
        if f(cs.last()) {
            assert(all[all.len() - 1] == cs.last());
            if all.contains(c) {
                let i = choose|i: int| 0 <= i < all.len() && all[i] == c;
                if i < sub.len() {
                    assert(sub[i] == c);
                }
            }
        }
        assert(cs[cs.len() - 1] == cs.last());
    }
}

/// Shapes add up link by link, and no more primitives are kept than there are shapes.
pub proof fn law_shapes_add_up(links: Seq<LinkData>, n: nat)
    requires
        n < links.len(),
    ensures
        shape_count(links, n + 1) == shape_count(links, n) + links[n as int].collisions@.len(),
        shape_count(links, 0) == 0,
        primitive_count(links, 0) == 0,
        primitive_count(links, n + 1) - primitive_count(links, n) == primitives(
            links[n as int].collisions@,
        ).len(),
        (forall|c: CollisionData|
            links[n as int].collisions@.contains(c) ==> #[trigger] (c.geometry) is Mesh)
            ==> primitive_count(links, n + 1) == primitive_count(links, n),
{
    let cs = links[n as int].collisions@;
    let f = |c: CollisionData| !(c.geometry is Mesh);
    if (forall|c: CollisionData| cs.contains(c) ==> #[trigger] (c.geometry) is Mesh) {
        if primitives(cs).len() > 0 {
            let c = primitives(cs)[0];
            assert(primitives(cs).contains(c));
            lemma_filter_holds(cs, f, c);
            assert(c.geometry is Mesh);
        }
    }
}

/// A contact braces the robot against itself where neither body is the world, whose name is
/// empty.
pub proof fn law_self_contact_is_between_bodies(c: BodyPair)
    ensures
        is_self_contact(c) <==> c.body1@.len() > 0 && c.body2@.len() > 0,
{
}

/// Each contact of the robot with itself is told, in order, and no other.
pub proof fn law_self_contacts_are_told(contacts: Seq<BodyPair>, pressing: bool, n: nat, i: int)
    requires
        n <= contacts.len(),
        0 <= i < n,
    ensures
        contacts[i].body1@.len() > 0 && contacts[i].body2@.len() > 0 ==> self_contacts(
            contacts,
            pressing,
            n,
        ).contains(contact_text(contacts[i], pressing)),
        self_contacts(contacts, pressing, n).len() <= n,
        (contacts[i].body1@.len() == 0 || contacts[i].body2@.len() == 0) ==> self_contacts(
            contacts,
            pressing,
            n,
        ).len() < n,
        n > 0 && (contacts[n - 1].body1@.len() == 0 || contacts[n - 1].body2@.len() == 0)
            ==> self_contacts(contacts, pressing, n) == self_contacts(
            contacts,
            pressing,
            (n - 1) as nat,
        ),
    decreases n,
{
    let all = self_contacts(contacts, pressing, n);
    let before = self_contacts(contacts, pressing, (n - 1) as nat);
    let text = contact_text(contacts[i], pressing);
    lemma_told_no_more(contacts, pressing, (n - 1) as nat);
    if i < n - 1 {
        law_self_contacts_are_told(contacts, pressing, (n - 1) as nat, i);
        if before.contains(text) {
            let k = choose|k: int| 0 <= k < before.len() && before[k] == text;
            assert(all[k] == text);
        }
    } else if is_self_contact(contacts[i]) {
        assert(all[all.len() - 1] == text);
    }
}

proof fn lemma_told_no_more(contacts: Seq<BodyPair>, pressing: bool, n: nat)
    ensures
        self_contacts(contacts, pressing, n).len() <= n,
    decreases n,
{
    if n > 0 {
        lemma_told_no_more(contacts, pressing, (n - 1) as nat);
    }
}

/// A told contact names both bodies, and how hard they press where they do, in newtons.
pub proof fn law_contact_names_both_bodies(c: BodyPair)
    ensures
        contact_text(c, false) == c.body1@ + " <-> "@ + c.body2@,
        contact_text(c, true) == contact_text(c, false) + " ("@ + crate::text::decimal_of(
            crate::text::nearest(c.force as nat, 1_000_000),
        ) + " N)"@,
{
}

/// A row is limited by its joint: its torque by the effort, which is never taken for less than
/// a newton metre, scaled; its angle and rate by the joint's own limits.
pub proof fn law_row_limits_are_the_joints(j: JointData, scale: i64)
    ensures
        ({
            let l = limits_of(j, scale);
            &&& l.q_min == j.lower && l.q_max == j.upper && l.v_max == j.velocity
            &&& j.effort >= 1_000_000 ==> l.torque == j.effort * scale
            &&& j.effort < 1_000_000 ==> l.torque == 1_000_000 * scale
        }),
{
    let (a, b) = (if j.effort < 1_000_000 {
        1_000_000int
    } else {
        j.effort as int
    }, scale as int);
    let m: int = 0x8000_0000_0000_0000;
    assert(-(m * m) <= a * b <= m * m) by (nonlinear_arith)
        requires
            0 <= a <= m,
            -m <= b <= m,
    ;
    assert(m * m == 0x4000_0000_0000_0000_0000_0000_0000_0000) by (nonlinear_arith)
        requires
            m == 0x8000_0000_0000_0000,
    ;
}

/// A row has the limits of the last joint that drives it, and none where no joint does.
pub proof fn law_rows_have_their_joints_limits(
    joints: Seq<JointData>,
    map: JointMap,
    scale: i64,
    row: int,
    n: nat,
    k: int,
)
    requires
        n <= joints.len(),
        0 <= row,
        row + 6 <= usize::MAX,
        -1 <= k < n,
        k >= 0 ==> map.actuated_row(k) == Some((row + 6) as usize),
        forall|j: int| k < j < n ==> #[trigger] map.actuated_row(j) != Some((row + 6) as usize),
    ensures
        k >= 0 ==> row_limits(joints, map, scale, row, n) == Some(limits_of(joints[k], scale)),
        k < 0 ==> row_limits(joints, map, scale, row, n) is None,
    decreases n,
{
    if n > 0 && k < n - 1 {
        assert(map.actuated_row(n - 1) != Some((row + 6) as usize));
        law_rows_have_their_joints_limits(joints, map, scale, row, (n - 1) as nat, k);
    }
}

/// The rows that are told to be unset are exactly those without limits.
pub proof fn law_unset_rows_are_told(rows: Seq<Option<RowLimits>>, n: nat, row: usize)
    requires
        n <= rows.len(),
        rows.len() <= usize::MAX,
    ensures
        unset_rows(rows, n).contains(row) <==> row < n && rows[row as int] is None,
    decreases n,
{
    let all = unset_rows(rows, n);
    if n > 0 {
        law_unset_rows_are_told(rows, (n - 1) as nat, row);
        let before = unset_rows(rows, (n - 1) as nat);
        if before.contains(row) {
            let k = choose|k: int| 0 <= k < before.len() && before[k] == row;
            assert(all[k] == row);
        }
        if all.len() > before.len() {
            assert(all[all.len() - 1] == n - 1);
        }
        if all.contains(row) {
            let k = choose|k: int| 0 <= k < all.len() && all[k] == row;
            if k < before.len() {
                assert(before[k] == row);
            }
        }
    }
}

/// A link is looked up by its first entry.
pub proof fn law_links_are_looked_up(index: Seq<LinkEntry>, name: Seq<char>, from: int, k: int)
    requires
        0 <= from <= k <= index.len(),
        k < index.len() ==> index[k].name@ == name,
        forall|j: int| from <= j < k ==> (#[trigger] index[j]).name@ != name,
    ensures
        k < index.len() ==> link_mi(index, name, from) == Some(index[k].mi),
        k == index.len() ==> link_mi(index, name, from) is None,
    decreases index.len() - from,
{
    if from < k {
        assert(index[from].name@ != name);
        law_links_are_looked_up(index, name, from + 1, k);
    }
}

/// Every link of the dynamics model that has a mass counts, with its own mass and centre, and
/// no other does.
pub proof fn law_massive_links_count(
    links: Seq<LinkData>,
    index: Seq<LinkEntry>,
    n: nat,
    i: int,
)
    requires
        n <= links.len(),
        0 <= i < n,
    ensures
        links[i].mass > 0 && link_mi(index, links[i].name@, 0) is Some ==> mass_links(
            links,
            index,
            n,
        ).contains(
            (MassLink {
                mi: link_mi(index, links[i].name@, 0)->0,
                m: links[i].mass,
                com_local: links[i].com,
            }),
        ),
        mass_links(links, index, n).len() <= n,
        n > 0 && (links[n - 1].mass == 0 || link_mi(index, links[n - 1].name@, 0) is None)
            ==> mass_links(links, index, n) == mass_links(links, index, (n - 1) as nat),
    decreases n,
{
    let all = mass_links(links, index, n);
    let before = mass_links(links, index, (n - 1) as nat);
    lemma_no_more_masses(links, index, (n - 1) as nat);
    let it = MassLink {
        mi: link_mi(index, links[i].name@, 0)->0,
        m: links[i].mass,
        com_local: links[i].com,
    };
    if i < n - 1 {
        law_massive_links_count(links, index, (n - 1) as nat, i);
        if before.contains(it) {
            let k = choose|k: int| 0 <= k < before.len() && before[k] == it;
            assert(all[k] == it);
        }
    } else if links[i].mass > 0 && link_mi(index, links[i].name@, 0) is Some {
        assert(all[all.len() - 1] == it);
    }
}

proof fn lemma_no_more_masses(links: Seq<LinkData>, index: Seq<LinkEntry>, n: nat)
    ensures
        mass_links(links, index, n).len() <= n,
    decreases n,
{
    if n > 0 {
        lemma_no_more_masses(links, index, (n - 1) as nat);
    }
}

/// Masses add up.
pub proof fn law_masses_add_up(ls: Seq<MassLink>, n: nat)
    requires
        n < ls.len(),
    ensures
        mass_sum(ls, n + 1) - mass_sum(ls, n) == ls[n as int].m,
        mass_sum(ls, 0) == 0,
{
}

/// The trunk is the named link, and the base where none is named.
pub proof fn law_trunk_is_the_named_link(prof: Profile, index: Seq<LinkEntry>)
    ensures
        prof.trunk_link is None ==> trunk_of(prof, index) == Some(1usize),
        prof.trunk_link matches Some(name) ==> trunk_of(prof, index) == link_mi(index, name@, 0),
{
}

/// The efforts are those of the actuated joints, in order.
pub proof fn law_actuated_efforts_are_listed(joints: Seq<JointData>, map: JointMap, n: nat)
    requires
        n < joints.len(),
    ensures
        map.actuated_row(n as int) is Some ==> actuated_efforts(joints, map, n + 1)
            == actuated_efforts(joints, map, n).push(joints[n as int].effort),
        map.actuated_row(n as int) is None ==> actuated_efforts(joints, map, n + 1)
            == actuated_efforts(joints, map, n),
        actuated_efforts(joints, map, 0).len() == 0,
{
}

/// How far two numbers are apart does not depend on their order, is nothing for a number and
/// itself, and reaches from the one to the other.
pub proof fn law_distance(a: int, b: int)
    ensures
        distance(a, b) == distance(b, a),
        distance(a, b) >= 0,
        a + distance(a, b) == b || b + distance(a, b) == a,
{
}

/// A joint is told to have moved where it is more than ten milliradians off its seed, with how
/// far it is off.
pub proof fn law_notable_moves_are_told(q_seed: Seq<i64>, q: Seq<i64>, n: nat, ji: int)
    requires
        n <= q.len(),
        q.len() <= usize::MAX,
        q_seed.len() == q.len(),
        0 <= ji < n,
    ensures
        q[ji] - q_seed[ji] > 10_000 ==> notable_moves(q_seed, q, n).contains(
            (ji as usize, (q[ji] - q_seed[ji]) as i128),
        ),
        q_seed[ji] - q[ji] > 10_000 ==> notable_moves(q_seed, q, n).contains(
            (ji as usize, (q_seed[ji] - q[ji]) as i128),
        ),
        -10_000 <= q[ji] - q_seed[ji] <= 10_000 ==> forall|k: int|
            0 <= k < notable_moves(q_seed, q, n).len() ==> (#[trigger] notable_moves(
                q_seed,
                q,
                n,
            )[k]).0 != ji,
    decreases n,
{
    let all = notable_moves(q_seed, q, n);
    let before = notable_moves(q_seed, q, (n - 1) as nat);
    lemma_moves_are_in_range(q_seed, q, (n - 1) as nat);
    let d = distance(q[ji] as int, q_seed[ji] as int);
    let it = (ji as usize, d as i128);
    if ji < n - 1 {
        law_notable_moves_are_told(q_seed, q, (n - 1) as nat, ji);
        if before.contains(it) {
            let k = choose|k: int| 0 <= k < before.len() && before[k] == it;
            assert(all[k] == it);
        }
    } else if d > 10_000 {
        assert(all[all.len() - 1] == it);
    }
}

proof fn lemma_moves_are_in_range(q_seed: Seq<i64>, q: Seq<i64>, n: nat)
    requires
        n <= q.len(),
        q.len() <= usize::MAX,
    ensures
        forall|k: int|
            0 <= k < notable_moves(q_seed, q, n).len() ==> (#[trigger] notable_moves(
                q_seed,
                q,
                n,
            )[k]).0 < n,
    decreases n,
{
    if n > 0 {
        lemma_moves_are_in_range(q_seed, q, (n - 1) as nat);
        let (before, all) = (
            notable_moves(q_seed, q, (n - 1) as nat),
            notable_moves(q_seed, q, n),
        );
        assert forall|k: int| 0 <= k < all.len() implies (#[trigger] all[k]).0 < n by {
            if k < before.len() {
                assert(all[k] == before[k]);
            }
        }
    }
}

/// The footprint in doubled units: the sole reaches as far back as ahead of its centre, which
/// lies ahead of the middle of the ankles, and the mass keeps its distance from both ends.
pub proof fn law_footprint(
    f: Footprint,
    ankles: (i64, i64),
    com_x: i64,
    centre: i64,
    half: i64,
)
    requires
        f.describes(ankles, com_x, centre, half),
    ensures
        f.ankle == ankles.0 + ankles.1,
        f.front - f.back == 4 * half,
        f.front + f.back == 2 * f.ankle + 4 * centre,
        f.com + f.ankle == 2 * com_x,
        f.back + f.margin_back == 2 * com_x,
        f.front - f.margin_front == 2 * com_x,
{
}

/// The shapes of a link that is not to collide are counted out, all of them or, where meshes
/// never collide, the others alone; any other link's are not.
pub proof fn law_uncollided_shapes_are_counted(
    prof: Profile,
    o: RigOptions,
    links: Seq<LinkData>,
    n: nat,
)
    requires
        n < links.len(),
    ensures
        ({
            let link = links[n as int];
            let out = exists|k: int|
                0 <= k < o.uncollide_links@.len() && crate::text::is_infix(
                    link.name@,
                    (#[trigger] o.uncollide_links@[k])@,
                );
            let before = run_uncollided(prof, o, links, n);
            let now = run_uncollided(prof, o, links, n + 1);
            &&& !out ==> now == before
            &&& out && !prof.collide_primitives_only ==> now == before + link.collisions@.len()
            &&& out && prof.collide_primitives_only ==> now == before + primitives(
                link.collisions@,
            ).len()
        }),
        run_uncollided(prof, o, links, 0) == 0,
{
}

/// A pattern takes the shapes of each link whose name holds it, and counts them.
pub proof fn law_named_links_do_not_collide(links: Seq<LinkData>, patterns: Seq<String>, n: nat)
    requires
        n < links.len(),
    ensures
        ({
            let out = exists|k: int|
                0 <= k < patterns.len() && crate::text::is_infix(
                    links[n as int].name@,
                    (#[trigger] patterns[k])@,
                );
            let before = uncollided_count(links, patterns, n);
            &&& out ==> uncollided_count(links, patterns, n + 1) == before
                + links[n as int].collisions@.len()
            &&& !out ==> uncollided_count(links, patterns, n + 1) == before
        }),
        uncollided_count(links, patterns, 0) == 0,
{
}

/// The robot starts in its crouch, and what is seeded besides overrules it.
pub proof fn law_extra_seeds_overrule_the_crouch(prof: Profile, o: RigOptions, model: RobotModel)
    ensures
        o.extra_seed@.len() == 0 ==> start_pose(prof, o, model) == seeded(
            model.joints@,
            model.joint_positions@,
            crouch(prof, o),
            6,
        ),
        o.extra_seed@.len() == 1 ==> start_pose(prof, o, model) == seeded(
            model.joints@,
            seeded(model.joints@, model.joint_positions@, crouch(prof, o), 6),
            seq![(o.extra_seed@[0].joint@, o.extra_seed@[0].angle)],
            1,
        ),
{
    let seeds = o.extra_seed@.map_values(|s: Seed| seed_view(s));
    if o.extra_seed@.len() == 1 {
        assert(seeds =~= seq![(o.extra_seed@[0].joint@, o.extra_seed@[0].angle)]);
    }
}

/// The six greatest moves are told, the greatest first, and all of them where there are fewer.
pub proof fn law_greatest_moves_come_first(
    ms: Seq<(usize, i128)>,
    order: Seq<usize>,
    top: Seq<(usize, i128)>,
    p: int,
    q: int,
)
    requires
        top_moves(ms, order, top),
        0 <= p < q < top.len(),
    ensures
        top.len() <= 6,
        top.len() <= ms.len(),
        ms.len() <= 6 ==> top.len() == ms.len(),
        ms.len() >= 6 ==> top.len() == 6,
        top[p].1 >= top[q].1,
        ms.contains(top[p]),
{
    let keys = moves_of(ms);
    assert(top[p] == ms[order[p] as int] && top[q] == ms[order[q] as int]);
    assert(crate::order::ranks_before(keys, order[p], order[q]));
    assert(keys[order[p] as int] == top[p].1 && keys[order[q] as int] == top[q].1);
}

/// A run is refused for the first seed of an unknown joint, and for a robot that would collide
/// with nothing; only where there is such a thing.
pub proof fn law_refused_runs(prof: Profile, o: RigOptions, model: RobotModel, seed: usize)
    ensures
        prepare_error(prof, o, model, BuildError::UnknownSeedJoint { seed }) ==> {
            &&& seed < o.extra_seed@.len()
            &&& crate::robot::joint_at(model.joints@, o.extra_seed@[seed as int].joint@) is None
            &&& forall|j: int|
                0 <= j < seed ==> crate::robot::joint_at(
                    model.joints@,
                    (#[trigger] o.extra_seed@[j]).joint@,
                ) is Some
        },
        prepare_error(prof, o, model, BuildError::NoPrimitives) ==> prof.collide_primitives_only
            && primitive_count(model.links@, model.links@.len()) == 0 && forall|j: int|
            0 <= j < o.extra_seed@.len() ==> crate::robot::joint_at(
                model.joints@,
                (#[trigger] o.extra_seed@[j]).joint@,
            ) is Some,
{
    let seeds = o.extra_seed@.map_values(|s: Seed| seed_view(s));
    assert forall|j: int| 0 <= j < seeds.len() implies seeds[j].0 == (
    #[trigger] o.extra_seed@[j]).joint@ by {}
    if prepare_error(prof, o, model, BuildError::UnknownSeedJoint { seed }) {
        assert forall|j: int| 0 <= j < seed implies crate::robot::joint_at(
            model.joints@,
            (#[trigger] o.extra_seed@[j]).joint@,
        ) is Some by {
            assert(seeds[j].0 == o.extra_seed@[j].joint@);
        }
    }
    if prepare_error(prof, o, model, BuildError::NoPrimitives) {
        assert forall|j: int| 0 <= j < o.extra_seed@.len() implies crate::robot::joint_at(
            model.joints@,
            (#[trigger] o.extra_seed@[j]).joint@,
        ) is Some by {
            if crate::robot::joint_at(model.joints@, o.extra_seed@[j].joint@) is None {
                lemma_first_unknown_is_found(model.joints@, seeds, j);
            }
        }
    }
}

proof fn lemma_first_unknown_is_found(joints: Seq<JointData>, seeds: Seq<(Seq<char>, i64)>, j: int)
    requires
        0 <= j < seeds.len(),
        crate::robot::joint_at(joints, seeds[j].0) is None,
    ensures
        exists|k: int| first_unknown(joints, seeds, k),
    decreases j,
{
    if forall|i: int| 0 <= i < j ==> crate::robot::joint_at(joints, (#[trigger] seeds[i]).0) is Some {
        assert(first_unknown(joints, seeds, j));
    } else {
        let i = choose|i: int|
            0 <= i < j && crate::robot::joint_at(joints, (#[trigger] seeds[i]).0) is None;
        lemma_first_unknown_is_found(joints, seeds, i);
    }
}

/// A rig is refused for a link that the plant does not have: the left foot before the right
/// one, and both before the trunk.
pub proof fn law_missing_links_are_told(
    prof: Profile,
    o: RigOptions,
    joints: Seq<JointData>,
    map: JointMap,
    index: Seq<LinkEntry>,
    name: &'static str,
)
    requires
        assemble_error(prof, o, joints, map, index, BuildError::NoLink { name }),
    ensures
        link_mi(index, prof.foot_links@[0]@, 0) is None ==> name == prof.foot_links@[0],
        link_mi(index, prof.foot_links@[0]@, 0) is Some && link_mi(
            index,
            prof.foot_links@[1]@,
            0,
        ) is None ==> name == prof.foot_links@[1],
        link_mi(index, prof.foot_links@[0]@, 0) is Some && link_mi(
            index,
            prof.foot_links@[1]@,
            0,
        ) is Some ==> prof.trunk_link == Some(name) && link_mi(index, name@, 0) is None,
{
}

} // verus!
