//! Static load analysis of the robot, and the payload ramp that animates it.
//!
//! Gravity torques and payload capacities come from the rigid-body dynamics; here
//! they are matched with the editor's joints, their limits and their names.
//! Torques are whole micronewton metres, torques per kilogram of payload
//! trillionths of a newton metre, masses milligrams, times microseconds.

use vstd::prelude::*;
use vstd::string::*;

use crate::joint_map::JointMap;
use crate::robot::{JointData, RobotModel};
use crate::text::same;

verus! {

/// Static torque of one joint.
pub struct JointTorqueInfo {
    pub joint_name: String,
    pub joint_idx: usize,
    pub gravity_torque: i64,
    pub effort_limit: i64,
    /// What is left of the limit. Negative means overloaded.
    pub torque_margin: i128,
    /// Extra torque per kilogram of payload, once that has been analysed.
    pub payload_torque_per_kg: i64,
}

/// The heaviest payload, the joint that gives in first, and where it hangs.
pub struct PayloadResult<P> {
    pub max_mass: i64,
    pub limiting_joint: String,
    pub ee_position: P,
}

pub struct StaticAnalysis<P> {
    pub joint_torques: Vec<JointTorqueInfo>,
    pub payload: Option<PayloadResult<P>>,
}

/// The gravity torque of a joint of the dynamics model.
#[derive(Clone, Copy, PartialEq, Eq, Structural, Debug)]
pub struct GravityLoad {
    pub joint_idx: usize,
    pub gravity_torque: i64,
}

/// What the dynamics model says of a payload: the heaviest it holds, the joint
/// of it that gives in first, and the torque per kilogram on each row.
pub struct Capacity {
    pub max_mass: i64,
    pub limiting_joint: usize,
    pub tau_per_kg: Vec<i64>,
}

// ---------------------------------------------------------------- limits

/// The torque limits of the rows after the first `n` joints. A joint without a
/// positive effort has no limit.
pub open spec fn limits_upto(joints: Seq<JointData>, map: JointMap, n: nat) -> Seq<Option<i64>>
    decreases n,
{
    if n == 0 || n > joints.len() {
        Seq::new(map.nv as nat, |i: int| None)
    } else {
        let before = limits_upto(joints, map, (n - 1) as nat);
        let joint = joints[n - 1];
        if joint.effort <= 0 {
            before
        } else {
            match map.v_row(n - 1) {
                Some(vi) => before.update(vi as int, Some(joint.effort)),
                None => before,
            }
        }
    }
}

/// The torque limit of each row of the dynamics model; `None` is unbounded.
pub fn joint_limits(joints: &Vec<JointData>, map: &JointMap) -> (r: Vec<Option<i64>>)
    requires
        map.in_range(joints@.len()),
    ensures
        r@.len() == map.nv,
        r@ == limits_upto(joints@, *map, joints@.len()),
{
    let mut out: Vec<Option<i64>> = Vec::new();
    while out.len() < map.nv
        invariant
            out.len() <= map.nv,
            out@ == Seq::new(out.len() as nat, |i: int| None::<i64>),
        decreases map.nv - out.len(),
    {
        out.push(None);
    }
    let mut ji: usize = 0;
    while ji < joints.len()
        invariant
            map.in_range(joints@.len()),
            ji <= joints.len(),
            out@.len() == map.nv,
            out@ == limits_upto(joints@, *map, ji as nat),
        decreases joints.len() - ji,
    {
        if joints[ji].effort > 0 {
            if let Some(vi) = map.velocity_row(ji) {
                out.set(vi, Some(joints[ji].effort));
            }
        }
        ji += 1;
    }
    out
}

/// A row is bounded only by a positive effort.
pub proof fn law_limits_are_positive(joints: Seq<JointData>, map: JointMap, n: nat, row: int)
    requires
        map.in_range(joints.len()),
        0 <= row < map.nv,
    ensures
        limits_upto(joints, map, n).len() == map.nv,
        limits_upto(joints, map, n)[row] matches Some(limit) ==> limit > 0,
    decreases n,
{
    if n == 0 || n > joints.len() {
    } else {
        law_limits_are_positive(joints, map, (n - 1) as nat, row);
    }
}

/// The joint of the dynamics model that carries the link `ee`.
pub open spec fn ee_joint(joints: Seq<JointData>, map: JointMap, ee: Seq<char>) -> Option<usize> {
    match crate::robot::carrier(joints, ee) {
        Some(ji) => map.a2m@[ji],
        None => None,
    }
}

/// The joint of the dynamics model whose child is the link `ee_link`.
pub fn ee_joint_of(model: &RobotModel, map: &JointMap, ee_link: &str) -> (r: Option<usize>)
    requires
        map.in_range(model.joints@.len()),
    ensures
        r == ee_joint(model.joints@, *map, ee_link@),
{
    match model.parent_joint_of_link(ee_link) {
        Some(ji) => map.a2m[ji],
        None => None,
    }
}

// ---------------------------------------------------------------- gravity

/// The load of a joint of the dynamics model; of two entries the later counts.
pub open spec fn load_of(loads: Seq<GravityLoad>, mi: usize, n: nat) -> Option<i64>
    decreases n,
{
    if n == 0 || n > loads.len() {
        None
    } else if loads[n - 1].joint_idx == mi {
        Some(loads[n - 1].gravity_torque)
    } else {
        load_of(loads, mi, (n - 1) as nat)
    }
}

fn find_load(loads: &Vec<GravityLoad>, mi: usize) -> (r: Option<i64>)
    ensures
        r == load_of(loads@, mi, loads@.len()),
{
    let mut n: usize = loads.len();
    while n > 0
        invariant
            n <= loads.len(),
            load_of(loads@, mi, loads@.len()) == load_of(loads@, mi, n as nat),
        decreases n,
    {
        if loads[n - 1].joint_idx == mi {
            return Some(loads[n - 1].gravity_torque);
        }
        n -= 1;
    }
    None
}

/// The gravity torque of an editor joint; none known counts as zero.
pub open spec fn torque_of(map: JointMap, loads: Seq<GravityLoad>, ji: int) -> i64 {
    match map.a2m@[ji] {
        Some(mi) => match load_of(loads, mi, loads.len()) {
            Some(t) => t,
            None => 0,
        },
        None => 0,
    }
}

pub open spec fn magnitude(v: int) -> int {
    if v < 0 {
        -v
    } else {
        v
    }
}

/// What the analysis says of one joint before any payload.
pub open spec fn describes(info: JointTorqueInfo, joint: JointData, ji: int, tau: i64) -> bool {
    &&& info.joint_name@ == joint.name@
    &&& info.joint_idx == ji
    &&& info.gravity_torque == tau
    &&& info.effort_limit == joint.effort
    &&& info.torque_margin == joint.effort - magnitude(tau as int)
    &&& info.payload_torque_per_kg == 0
}

/// The joints among the first `n` that can move, in order.
pub open spec fn movable(joints: Seq<JointData>, n: nat) -> Seq<int>
    decreases n,
{
    if n == 0 || n > joints.len() {
        Seq::empty()
    } else if joints[n - 1].joint_type@ == "fixed"@ {
        movable(joints, (n - 1) as nat)
    } else {
        movable(joints, (n - 1) as nat).push(n - 1)
    }
}

/// The list describes the movable joints among the first `n`, in order.
pub open spec fn lists_torques(
    out: Seq<JointTorqueInfo>,
    joints: Seq<JointData>,
    map: JointMap,
    loads: Seq<GravityLoad>,
    n: nat,
) -> bool {
    &&& out.len() == movable(joints, n).len()
    &&& forall|k: int|
        0 <= k < out.len() ==> {
            let ji = movable(joints, n)[k];
            describes(#[trigger] out[k], joints[ji], ji, torque_of(map, loads, ji))
        }
}

/// Static gravity torque at every movable joint, with its limit and margin.
pub fn compute_gravity_torques(
    model: &RobotModel,
    map: &JointMap,
    loads: &Vec<GravityLoad>,
) -> (r: Vec<JointTorqueInfo>)
    requires
        map.in_range(model.joints@.len()),
    ensures
        lists_torques(r@, model.joints@, *map, loads@, model.joints@.len()),
{
    let mut out: Vec<JointTorqueInfo> = Vec::new();
    let mut ji: usize = 0;
    while ji < model.joints.len()
        invariant
            map.in_range(model.joints@.len()),
            ji <= model.joints.len(),
            lists_torques(out@, model.joints@, *map, loads@, ji as nat),
        decreases model.joints.len() - ji,
    {
        let joint: &JointData = &model.joints[ji];
        let ghost before = out@;
        if !same(joint.joint_type.as_str(), "fixed") {
            let tau: i64 = match map.a2m[ji] {
                Some(mi) => match find_load(loads, mi) {
                    Some(t) => t,
                    None => 0,
                },
                None => 0,
            };
            let size: i128 = if tau < 0 {
                -(tau as i128)
            } else {
                tau as i128
            };
            out.push(
                JointTorqueInfo {
                    joint_name: joint.name.clone(),
                    joint_idx: ji,
                    gravity_torque: tau,
                    effort_limit: joint.effort,
                    torque_margin: joint.effort as i128 - size,
                    payload_torque_per_kg: 0,
                },
            );
            proof {
                assert(tau == torque_of(*map, loads@, ji as int));
                assert(describes(out@[before.len() as int], model.joints@[ji as int], ji as int, tau));
            }
        }
        proof {
            assert forall|k: int| 0 <= k < out.len() implies {
                let j = movable(model.joints@, (ji + 1) as nat)[k];
                describes(
                    #[trigger] out@[k],
                    model.joints@[j],
                    j,
                    torque_of(*map, loads@, j),
                )
            } by {
                if k < before.len() {
                    assert(out@[k] == before[k]);
                }
            }
        }
        ji += 1;
    }
    out
}

// ---------------------------------------------------------------- payload

/// One joint's entry once the payload's torque per kilogram has been filled in.
pub open spec fn with_payload(info: JointTorqueInfo, map: JointMap, tau_per_kg: Seq<i64>) -> i64 {
    if info.joint_idx < map.a2m@.len() {
        match map.v_row(info.joint_idx as int) {
            Some(vi) => tau_per_kg[vi as int],
            None => info.payload_torque_per_kg,
        }
    } else {
        info.payload_torque_per_kg
    }
}

/// The list with the payload torques filled in and nothing else changed.
pub open spec fn filled(
    now: Seq<JointTorqueInfo>,
    was: Seq<JointTorqueInfo>,
    map: JointMap,
    tau_per_kg: Seq<i64>,
) -> bool {
    &&& now.len() == was.len()
    &&& forall|k: int|
        0 <= k < now.len() ==> #[trigger] now[k] == (JointTorqueInfo {
            payload_torque_per_kg: with_payload(was[k], map, tau_per_kg),
            ..was[k]
        })
}

/// The inverse of the joint map stays within the robot's joints.
pub open spec fn names_joints(m2a: Seq<Option<usize>>, joints: Seq<JointData>) -> bool {
    forall|mi: int|
        0 <= mi < m2a.len() ==> ((#[trigger] m2a[mi]) matches Some(ji) ==> ji < joints.len())
}

/// The name of the editor's joint for a joint of the dynamics model; empty where
/// there is none.
pub open spec fn name_of(joints: Seq<JointData>, m2a: Seq<Option<usize>>, mi: usize) -> Seq<char> {
    if mi < m2a.len() {
        match m2a[mi as int] {
            Some(ji) => joints[ji as int].name@,
            None => Seq::empty(),
        }
    } else {
        Seq::empty()
    }
}

fn fill_payload(torques: &mut Vec<JointTorqueInfo>, map: &JointMap, tau_per_kg: &Vec<i64>)
    requires
        map.in_range(map.a2m@.len()),
        tau_per_kg.len() == map.nv,
    ensures
        filled(final(torques)@, old(torques)@, *map, tau_per_kg@),
{
    let ghost was = torques@;
    let mut k: usize = 0;
    while k < torques.len()
        invariant
            map.in_range(map.a2m@.len()),
            tau_per_kg.len() == map.nv,
            k <= torques.len(),
            torques@.len() == was.len(),
            forall|j: int|
                0 <= j < k ==> #[trigger] torques@[j] == (JointTorqueInfo {
                    payload_torque_per_kg: with_payload(was[j], *map, tau_per_kg@),
                    ..was[j]
                }),
            forall|j: int| k <= j < torques.len() ==> #[trigger] torques@[j] == was[j],
        decreases torques.len() - k,
    {
        proof {
            assert(torques@[k as int] == was[k as int]);
        }
        let ji: usize = torques[k].joint_idx;
        if ji < map.a2m.len() {
            if let Some(vi) = map.velocity_row(ji) {
                torques[k].payload_torque_per_kg = tau_per_kg[vi];
            }
        }
        k += 1;
    }
}

/// The capacity analysis gives a result: the link hangs on a joint of the
/// dynamics model, that model knows a capacity, and the robot has the link.
pub open spec fn payload_known(
    model: RobotModel,
    map: JointMap,
    ee: Seq<char>,
    capacity: Option<Capacity>,
) -> bool {
    &&& ee_joint(model.joints@, map, ee) is Some
    &&& capacity is Some
    &&& exists|li: int| crate::robot::first_link(model.links@, ee, li)
}

/// The heaviest payload that can hang on `ee_link`. The torque table gets the
/// payload's share as soon as the dynamics model knows a capacity. `positions`
/// holds the world position of each link's end.
pub fn compute_payload_capacity<P: Copy>(
    model: &RobotModel,
    map: &JointMap,
    m2a: &Vec<Option<usize>>,
    ee_link: &str,
    capacity: &Option<Capacity>,
    positions: &Vec<P>,
    joint_torques: &mut Vec<JointTorqueInfo>,
) -> (r: Option<PayloadResult<P>>)
    requires
        map.in_range(model.joints@.len()),
        names_joints(m2a@, model.joints@),
        positions.len() == model.links.len(),
        capacity matches Some(c) ==> c.tau_per_kg.len() == map.nv,
    ensures
        if ee_joint(model.joints@, *map, ee_link@) is Some && capacity is Some {
            filled(final(joint_torques)@, old(joint_torques)@, *map, capacity->0.tau_per_kg@)
        } else {
            *final(joint_torques) == *old(joint_torques)
        },
        r is Some <==> payload_known(*model, *map, ee_link@, *capacity),
        r matches Some(p) ==> {
            &&& p.max_mass == capacity->0.max_mass
            &&& p.limiting_joint@ == name_of(model.joints@, m2a@, capacity->0.limiting_joint)
            &&& exists|li: int|
                crate::robot::first_link(model.links@, ee_link@, li) && p.ee_position
                    == positions@[li]
        },
{
    if ee_joint_of(model, map, ee_link).is_none() {
        return None;
    }
    match capacity {
        None => None,
        Some(cap) => {
            fill_payload(joint_torques, map, &cap.tau_per_kg);
            let limiting: String = if cap.limiting_joint < m2a.len() {
                match m2a[cap.limiting_joint] {
                    Some(ji) => {
                        proof {
                            assert(m2a@[cap.limiting_joint as int] == Some(ji));
                        }
                        model.joints[ji].name.clone()
                    },
                    None => String::new(),
                }
            } else {
                String::new()
            };
            match model.link_index(ee_link) {
                Some(li) => {
                    proof {
                        assert(crate::robot::first_link(model.links@, ee_link@, li as int));
                    }
                    Some(
                        PayloadResult {
                            max_mass: cap.max_mass,
                            limiting_joint: limiting,
                            ee_position: positions[li],
                        },
                    )
                },
                None => {
                    proof {
                        if exists|li: int| crate::robot::first_link(model.links@, ee_link@, li) {
                            let li = choose|li: int|
                                crate::robot::first_link(model.links@, ee_link@, li);
                            assert(model.links@[li].name@ == ee_link@);
                        }
                    }
                    None
                },
            }
        },
    }
}

/// The whole static analysis. Without an end effector there is no payload part.
pub fn analyze<P: Copy>(
    model: &RobotModel,
    map: &JointMap,
    m2a: &Vec<Option<usize>>,
    ee_link: Option<&str>,
    loads: &Vec<GravityLoad>,
    capacity: &Option<Capacity>,
    positions: &Vec<P>,
) -> (r: StaticAnalysis<P>)
    requires
        map.in_range(model.joints@.len()),
        names_joints(m2a@, model.joints@),
        positions.len() == model.links.len(),
        capacity matches Some(c) ==> c.tau_per_kg.len() == map.nv,
    ensures
        exists|base: Seq<JointTorqueInfo>|
            {
                &&& #[trigger] lists_torques(
                    base,
                    model.joints@,
                    *map,
                    loads@,
                    model.joints@.len(),
                )
                &&& if ee_link is Some && ee_joint(model.joints@, *map, ee_link->0@) is Some
                    && capacity is Some {
                    filled(r.joint_torques@, base, *map, capacity->0.tau_per_kg@)
                } else {
                    r.joint_torques@ == base
                }
            },
        r.payload is Some <==> ee_link is Some && payload_known(
            *model,
            *map,
            ee_link->0@,
            *capacity,
        ),
        r.payload matches Some(p) ==> {
            &&& p.max_mass == capacity->0.max_mass
            &&& p.limiting_joint@ == name_of(model.joints@, m2a@, capacity->0.limiting_joint)
            &&& exists|li: int|
                crate::robot::first_link(model.links@, ee_link->0@, li) && p.ee_position
                    == positions@[li]
        },
{
    let mut joint_torques: Vec<JointTorqueInfo> = compute_gravity_torques(model, map, loads);
    let ghost base = joint_torques@;
    proof {
        assert(lists_torques(base, model.joints@, *map, loads@, model.joints@.len()));
    }
    let payload: Option<PayloadResult<P>> = match ee_link {
        Some(ee) => compute_payload_capacity(
            model,
            map,
            m2a,
            ee,
            capacity,
            positions,
            &mut joint_torques,
        ),
        None => None,
    };
    StaticAnalysis { joint_torques, payload }
}

// ---------------------------------------------------------------- payload ramp

/// Where the payload ramp stands.
#[derive(Clone, Copy, PartialEq, Eq, Structural, Debug)]
pub enum PayloadPhase {
    /// The mass grows towards the heaviest.
    Ramping,
    /// The heaviest mass is held.
    Holding,
    Done,
}

impl PayloadPhase {
    /// How far along the phase is.
    pub open spec fn rank(self) -> int {
        match self {
            PayloadPhase::Ramping => 0,
            PayloadPhase::Holding => 1,
            PayloadPhase::Done => 2,
        }
    }
}

/// A running payload ramp. `B` is the base's placement, kept for restoration.
pub struct PayloadSim<B> {
    pub phase: PayloadPhase,
    pub phase_time: u64,
    pub max_mass: i64,
    pub current_mass: i64,
    pub ramp_duration: u64,
    pub hold_duration: u64,
    /// Joint and utilisation of its limit in millionths, as last computed.
    pub joint_utilisation: Vec<(usize, i64)>,
    pub limiting_joint: String,
    pub saved_positions: Vec<i64>,
    pub saved_base_transform: B,
}

/// The dynamics simulation that is running.
pub enum DynSim<B> {
    Payload(PayloadSim<B>),
}

impl<B> DynSim<B> {
    pub fn is_done(&self) -> (r: bool)
        ensures
            r == match *self {
                DynSim::Payload(p) => p.phase == PayloadPhase::Done,
            },
    {
        match self {
            DynSim::Payload(p) => match p.phase {
                PayloadPhase::Done => true,
                _ => false,
            },
        }
    }
}

/// Three seconds of ramp and two of hold at normal speed.
pub const RAMP_TIME: u64 = 3_000_000;

pub const HOLD_TIME: u64 = 2_000_000;

/// A time at normal speed, played at a speed in millionths.
pub open spec fn played_at(time: int, speed: int) -> int {
    time * 1_000_000 / speed
}

/// Starts a payload ramp towards the capacity at `ee_link`. There is none where
/// the capacity is unknown or not positive.
pub fn start_payload_sim<P: Copy, B>(
    model: &RobotModel,
    map: &JointMap,
    m2a: &Vec<Option<usize>>,
    ee_link: &str,
    loads: &Vec<GravityLoad>,
    capacity: &Option<Capacity>,
    positions: &Vec<P>,
    base: B,
    speed: u64,
) -> (r: Option<PayloadSim<B>>)
    requires
        map.in_range(model.joints@.len()),
        names_joints(m2a@, model.joints@),
        positions.len() == model.links.len(),
        capacity matches Some(c) ==> c.tau_per_kg.len() == map.nv,
        speed > 0,
    ensures
        r is Some <==> payload_known(*model, *map, ee_link@, *capacity) && capacity->0.max_mass > 0,
        r matches Some(sim) ==> {
            &&& sim.phase == PayloadPhase::Ramping
            &&& sim.phase_time == 0
            &&& sim.max_mass == capacity->0.max_mass
            &&& sim.current_mass == 0
            &&& sim.ramp_duration == played_at(3_000_000, speed as int)
            &&& sim.hold_duration == played_at(2_000_000, speed as int)
            &&& sim.joint_utilisation@.len() == 0
            &&& sim.limiting_joint@ == name_of(model.joints@, m2a@, capacity->0.limiting_joint)
            &&& sim.saved_positions@ == model.joint_positions@
            &&& sim.saved_base_transform == base
        },
{
    let mut torques: Vec<JointTorqueInfo> = compute_gravity_torques(model, map, loads);
    match compute_payload_capacity(model, map, m2a, ee_link, capacity, positions, &mut torques) {
        None => None,
        Some(payload) => {
            if payload.max_mass <= 0 {
                return None;
            }
            let mut saved: Vec<i64> = Vec::new();
            let mut i: usize = 0;
            while i < model.joint_positions.len()
                invariant
                    i <= model.joint_positions.len(),
                    saved@ == model.joint_positions@.take(i as int),
                decreases model.joint_positions.len() - i,
            {
                saved.push(model.joint_positions[i]);
                i += 1;
            }
            proof {
                assert(model.joint_positions@.take(model.joint_positions@.len() as int)
                    =~= model.joint_positions@);
            }
            Some(
                PayloadSim {
                    phase: PayloadPhase::Ramping,
                    phase_time: 0,
                    max_mass: payload.max_mass,
                    current_mass: 0,
                    ramp_duration: RAMP_TIME * 1_000_000 / speed,
                    hold_duration: HOLD_TIME * 1_000_000 / speed,
                    joint_utilisation: Vec::new(),
                    limiting_joint: payload.limiting_joint,
                    saved_positions: saved,
                    saved_base_transform: base,
                },
            )
        },
    }
}

/// The mass at a moment of a ramp, rounded down: linear up to the heaviest.
pub open spec fn ramp_mass(max_mass: int, time: int, ramp: int) -> int {
    if time >= ramp {
        max_mass
    } else {
        max_mass * time / ramp
    }
}

impl<B> PayloadSim<B> {
    /// The time in the phase once `dt` has passed; the clock stops at its end.
    pub open spec fn time_after(&self, dt: u64) -> int {
        if self.phase_time + dt > u64::MAX {
            u64::MAX as int
        } else {
            self.phase_time + dt
        }
    }

    /// The mass of a step by `dt`.
    pub open spec fn mass(&self, dt: u64) -> int {
        match self.phase {
            PayloadPhase::Ramping => ramp_mass(
                self.max_mass as int,
                self.time_after(dt),
                self.ramp_duration as int,
            ),
            PayloadPhase::Holding => self.max_mass as int,
            PayloadPhase::Done => self.current_mass as int,
        }
    }

    /// The mass that a step by `dt` is at, for which the utilisation is to be
    /// computed.
    pub fn mass_at_step(&self, dt: u64) -> (r: i64)
        requires
            self.max_mass >= 0,
        ensures
            r == self.mass(dt),
    {
        match self.phase {
            PayloadPhase::Ramping => {
                let now: u64 = self.phase_time.saturating_add(dt);
                if now >= self.ramp_duration {
                    self.max_mass
                } else {
                    let max: u128 = self.max_mass as u128;
                    let time: u128 = now as u128;
                    let ramp: u128 = self.ramp_duration as u128;
                    proof {
                        lemma_ramp(self.max_mass as int, now as int, ramp as int);
                    }
                    (max * time / ramp) as i64
                }
            },
            PayloadPhase::Holding => self.max_mass,
            PayloadPhase::Done => self.current_mass,
        }
    }
}

proof fn lemma_ramp(max: int, time: int, ramp: int)
    requires
        0 <= max <= i64::MAX,
        0 <= time < ramp <= u64::MAX,
    ensures
        0 <= max * time <= u128::MAX,
        0 <= max * time / ramp <= max,
{
    assert(0 <= max * time <= i64::MAX * u64::MAX) by (nonlinear_arith)
        requires
            0 <= max <= i64::MAX,
            0 <= time <= u64::MAX,
    ;
    assert(max * time <= max * ramp) by (nonlinear_arith)
        requires
            0 <= max,
            time <= ramp,
    ;
    assert(max * time / ramp <= max) by (nonlinear_arith)
        requires
            0 <= max * time <= max * ramp,
            ramp > 0,
    ;
    assert(0 <= max * time / ramp) by (nonlinear_arith)
        requires
            0 <= max * time,
            ramp > 0,
    ;
}

/// The utilisation shown: of the first `n` entries those whose row the payload
/// loads and whose joint the editor has.
pub open spec fn shown(
    util: Seq<(usize, i64)>,
    tau_per_kg: Seq<i64>,
    map: JointMap,
    m2a: Seq<Option<usize>>,
    n: nat,
) -> Seq<(usize, i64)>
    decreases n,
{
    if n == 0 || n > util.len() {
        Seq::empty()
    } else {
        let before = shown(util, tau_per_kg, map, m2a, (n - 1) as nat);
        let (mi, u) = util[n - 1];
        if tau_per_kg[map.v_idx@[mi as int] as int] == 0 {
            before
        } else if mi < m2a.len() {
            match m2a[mi as int] {
                Some(ji) => before.push((ji, u)),
                None => before,
            }
        } else {
            before
        }
    }
}

/// Every entry speaks of a joint of the dynamics model with a row in the list.
pub open spec fn rows_known(util: Seq<(usize, i64)>, tau_per_kg: Seq<i64>, map: JointMap) -> bool {
    forall|k: int|
        0 <= k < util.len() ==> {
            let (mi, _u) = #[trigger] util[k];
            mi < map.v_idx.len() && map.v_idx@[mi as int] < tau_per_kg.len()
        }
}

fn update_utilisation<B>(
    sim: &mut PayloadSim<B>,
    model: &RobotModel,
    map: &JointMap,
    m2a: &Vec<Option<usize>>,
    ee_link: &str,
    util: &Vec<(usize, i64)>,
    tau_per_kg: &Vec<i64>,
)
    requires
        map.in_range(model.joints@.len()),
        rows_known(util@, tau_per_kg@, *map),
    ensures
        *final(sim) == (PayloadSim { joint_utilisation: final(sim).joint_utilisation, ..*old(sim) }),
        if ee_joint(model.joints@, *map, ee_link@) is Some {
            final(sim).joint_utilisation@ == shown(
                util@,
                tau_per_kg@,
                *map,
                m2a@,
                util@.len(),
            )
        } else {
            final(sim).joint_utilisation == old(sim).joint_utilisation
        },
{
    if ee_joint_of(model, map, ee_link).is_none() {
        return ;
    }
    let mut out: Vec<(usize, i64)> = Vec::new();
    let mut k: usize = 0;
    while k < util.len()
        invariant
            rows_known(util@, tau_per_kg@, *map),
            k <= util.len(),
            out@ == shown(util@, tau_per_kg@, *map, m2a@, k as nat),
        decreases util.len() - k,
    {
        let mi: usize = util[k].0;
        let u: i64 = util[k].1;
        proof {
            assert(util@[k as int] == (mi, u));
        }
        if tau_per_kg[map.v_idx[mi]] != 0 {
            if mi < m2a.len() {
                if let Some(ji) = m2a[mi] {
                    out.push((ji, u));
                }
            }
        }
        k += 1;
    }
    sim.joint_utilisation = out;
}

/// The ramp after a step by `dt`: phase and time in it.
pub open spec fn stepped<B>(sim: PayloadSim<B>, dt: u64) -> (PayloadPhase, int) {
    let now = sim.time_after(dt);
    match sim.phase {
        PayloadPhase::Ramping => if now >= sim.ramp_duration {
            (PayloadPhase::Holding, 0)
        } else {
            (PayloadPhase::Ramping, now)
        },
        PayloadPhase::Holding => if now >= sim.hold_duration {
            (PayloadPhase::Done, 0)
        } else {
            (PayloadPhase::Holding, now)
        },
        PayloadPhase::Done => (PayloadPhase::Done, sim.phase_time as int),
    }
}

/// Steps the ramp by `dt` microseconds. `util` is the utilisation of the joints at
/// `sim.mass_at_step(dt)`. Returns `true` while the ramp was still running.
pub fn step_payload_sim<B>(
    sim: &mut PayloadSim<B>,
    model: &RobotModel,
    map: &JointMap,
    m2a: &Vec<Option<usize>>,
    ee_link: &str,
    util: &Vec<(usize, i64)>,
    tau_per_kg: &Vec<i64>,
    dt: u64,
) -> (r: bool)
    requires
        map.in_range(model.joints@.len()),
        rows_known(util@, tau_per_kg@, *map),
        old(sim).max_mass >= 0,
    ensures
        r == (old(sim).phase != PayloadPhase::Done),
        !r ==> *final(sim) == *old(sim),
        *final(sim) == (PayloadSim {
            phase: stepped(*old(sim), dt).0,
            phase_time: final(sim).phase_time,
            current_mass: final(sim).current_mass,
            joint_utilisation: final(sim).joint_utilisation,
            ..*old(sim)
        }),
        final(sim).phase_time == stepped(*old(sim), dt).1,
        final(sim).current_mass == old(sim).mass(dt),
        r && ee_joint(model.joints@, *map, ee_link@) is Some ==> final(sim).joint_utilisation@
            == shown(util@, tau_per_kg@, *map, m2a@, util@.len()),
        ee_joint(model.joints@, *map, ee_link@) is None ==> final(sim).joint_utilisation == old(sim).joint_utilisation,
{
    match sim.phase {
        PayloadPhase::Ramping => {
            sim.current_mass = sim.mass_at_step(dt);
            update_utilisation(sim, model, map, m2a, ee_link, util, tau_per_kg);
            sim.phase_time = sim.phase_time.saturating_add(dt);
            if sim.phase_time >= sim.ramp_duration {
                sim.phase = PayloadPhase::Holding;
                sim.phase_time = 0;
            }
            true
        },
        PayloadPhase::Holding => {
            sim.current_mass = sim.max_mass;
            update_utilisation(sim, model, map, m2a, ee_link, util, tau_per_kg);
            sim.phase_time = sim.phase_time.saturating_add(dt);
            if sim.phase_time >= sim.hold_duration {
                sim.phase = PayloadPhase::Done;
                sim.phase_time = 0;
            }
            true
        },
        PayloadPhase::Done => false,
    }
}

/// A ramp only moves forward, one phase at a time, and never leaves `Done`; a step that
/// is as long as the phase ends it.
pub proof fn law_phases_move_forward<B>(sim: PayloadSim<B>, dt: u64)
    ensures
        sim.phase.rank() <= stepped(sim, dt).0.rank() <= sim.phase.rank() + 1,
        sim.phase == PayloadPhase::Done ==> stepped(sim, dt) == (
            sim.phase,
            sim.phase_time as int,
        ),
        sim.phase == PayloadPhase::Ramping && dt >= sim.ramp_duration ==> stepped(sim, dt).0
            == PayloadPhase::Holding,
        sim.phase == PayloadPhase::Holding && dt >= sim.hold_duration ==> stepped(sim, dt).0
            == PayloadPhase::Done,
{
}

/// The mass of a ramp starts at nothing, never falls as time passes and never
/// exceeds the heaviest.
pub proof fn law_ramp_mass_grows(max: int, t1: int, t2: int, ramp: int)
    requires
        0 <= max <= i64::MAX,
        0 <= t1 <= t2 <= u64::MAX,
        0 < ramp <= u64::MAX,
    ensures
        ramp_mass(max, 0, ramp) == 0,
        0 <= ramp_mass(max, t1, ramp) <= ramp_mass(max, t2, ramp) <= max,
        ramp_mass(max, ramp, ramp) == max,
{
    assert(max * 0 / ramp == 0) by (nonlinear_arith)
        requires
            ramp > 0,
    ;
    if t1 < ramp {
        lemma_ramp(max, t1, ramp);
    }
    if t2 < ramp {
        lemma_ramp(max, t2, ramp);
        assert(max * t1 <= max * t2) by (nonlinear_arith)
            requires
                0 <= max,
                t1 <= t2,
        ;
        vstd::arithmetic::div_mod::lemma_div_is_ordered(max * t1, max * t2, ramp);
    }
}

/// The margin is what the torque leaves of the limit: it never exceeds the limit, does not
/// care for the torque's sign, and is negative exactly where the torque is beyond the limit
/// one way or the other.
pub proof fn law_margin_is_what_is_left(
    info: JointTorqueInfo,
    joint: JointData,
    ji: int,
    tau: i64,
)
    requires
        describes(info, joint, ji, tau),
    ensures
        info.gravity_torque == tau,
        info.effort_limit == joint.effort,
        info.torque_margin <= joint.effort,
        info.torque_margin + tau == joint.effort || info.torque_margin - tau == joint.effort,
        info.torque_margin < 0 <==> tau > joint.effort || -tau > joint.effort,
{
}

/// A torque and its negative leave the same margin.
pub proof fn law_margin_is_symmetric(
    a: JointTorqueInfo,
    b: JointTorqueInfo,
    joint: JointData,
    ji: int,
    tau: i64,
)
    requires
        tau > i64::MIN,
        describes(a, joint, ji, tau),
        describes(b, joint, ji, (-tau) as i64),
    ensures
        a.torque_margin == b.torque_margin,
{
}

/// On the way up the mass is to the heaviest as the time is to the ramp's, up to the last
/// digit; from its end on it is the heaviest.
pub proof fn law_ramp_is_in_proportion(max: int, time: int, ramp: int)
    requires
        ramp > 0,
    ensures
        time < ramp ==> 0 <= max * time - ramp * ramp_mass(max, time, ramp) < ramp,
        time >= ramp ==> ramp_mass(max, time, ramp) == max,
{
    let (v, q) = (max * time, max * time / ramp);
    assert(0 <= v - ramp * q < ramp) by (nonlinear_arith)
        requires
            ramp > 0,
            q == v / ramp,
    ;
}

/// Played at a speed in millionths a time makes its time at normal speed again, up to the
/// last digit.
pub proof fn law_speed_divides_the_time(time: int, speed: int)
    requires
        speed > 0,
    ensures
        0 <= 1_000_000 * time - speed * played_at(time, speed) < speed,
{
    let (v, q) = (time * 1_000_000, time * 1_000_000 / speed);
    assert(0 <= v - speed * q < speed) by (nonlinear_arith)
        requires
            speed > 0,
            q == v / speed,
    ;
}

/// A phase ends on the step with which its whole time has passed, and the next one starts
/// anew; before that the time adds up.
pub proof fn law_phase_ends_when_its_time_has_passed<B>(sim: PayloadSim<B>, dt: u64)
    requires
        sim.phase_time + dt <= u64::MAX,
    ensures
        sim.phase == PayloadPhase::Ramping ==> {
            let now = sim.phase_time + dt;
            &&& now >= sim.ramp_duration ==> stepped(sim, dt) == (PayloadPhase::Holding, 0int)
            &&& now < sim.ramp_duration ==> stepped(sim, dt) == (PayloadPhase::Ramping, now)
            &&& now >= sim.ramp_duration ==> sim.mass(dt) == sim.max_mass
            &&& now < sim.ramp_duration ==> 0 <= sim.max_mass * now - sim.ramp_duration * sim.mass(
                dt,
            ) < sim.ramp_duration
        },
        sim.phase == PayloadPhase::Holding ==> {
            let now = sim.phase_time + dt;
            &&& now >= sim.hold_duration ==> stepped(sim, dt) == (PayloadPhase::Done, 0int)
            &&& now < sim.hold_duration ==> stepped(sim, dt) == (PayloadPhase::Holding, now)
            &&& sim.mass(dt) == sim.max_mass
        },
{
    if sim.phase == PayloadPhase::Ramping && sim.phase_time + dt < sim.ramp_duration {
        law_ramp_is_in_proportion(
            sim.max_mass as int,
            sim.phase_time + dt,
            sim.ramp_duration as int,
        );
    }
}

/// The analysis lists each joint that is not fixed once, in order, and no other.
pub proof fn law_movable_joints_are_listed(joints: Seq<JointData>, n: nat)
    requires
        n <= joints.len(),
    ensures
        forall|k: int|
            0 <= k < movable(joints, n).len() ==> {
                let ji = #[trigger] movable(joints, n)[k];
                0 <= ji < n && joints[ji].joint_type@ != "fixed"@
            },
        forall|i: int, k: int|
            0 <= i < k < movable(joints, n).len() ==> #[trigger] movable(joints, n)[i]
                < #[trigger] movable(joints, n)[k],
        forall|ji: int|
            0 <= ji < n && (#[trigger] joints[ji]).joint_type@ != "fixed"@ ==> movable(
                joints,
                n,
            ).contains(ji),
    decreases n,
{
    if n > 0 {
        law_movable_joints_are_listed(joints, (n - 1) as nat);
        let (before, all) = (movable(joints, (n - 1) as nat), movable(joints, n));
        assert forall|ji: int|
            0 <= ji < n && (#[trigger] joints[ji]).joint_type@ != "fixed"@ implies all.contains(
            ji,
        ) by {
            if ji < n - 1 {
                let k = choose|k: int| 0 <= k < before.len() && before[k] == ji;
                assert(all[k] == ji);
            } else {
                assert(all[all.len() - 1] == ji);
            }
        }
    }
}

/// The load of a joint is that of its last entry, and there is none without an entry.
pub proof fn law_last_load_counts(loads: Seq<GravityLoad>, mi: usize, n: nat, k: int)
    requires
        n <= loads.len(),
        -1 <= k < n,
        k >= 0 ==> loads[k].joint_idx == mi,
        forall|j: int| k < j < n ==> (#[trigger] loads[j]).joint_idx != mi,
    ensures
        k >= 0 ==> load_of(loads, mi, n) == Some(loads[k].gravity_torque),
        k < 0 ==> load_of(loads, mi, n) is None,
    decreases n,
{
    if n > 0 && k < n - 1 {
        assert(loads[n - 1].joint_idx != mi);
        law_last_load_counts(loads, mi, (n - 1) as nat, k);
    }
}

/// A row is bounded by the positive effort of a joint that it belongs to, the last of them,
/// and unbounded where there is none.
pub proof fn law_rows_are_bounded_by_their_joints(
    joints: Seq<JointData>,
    map: JointMap,
    n: nat,
    row: usize,
    j: int,
)
    requires
        map.in_range(joints.len()),
        n <= joints.len(),
        row < map.nv,
        -1 <= j < n,
        j >= 0 ==> joints[j].effort > 0 && map.v_row(j) == Some(row),
        forall|i: int|
            j < i < n && (#[trigger] joints[i]).effort > 0 ==> map.v_row(i) != Some(row),
    ensures
        limits_upto(joints, map, n).len() == map.nv,
        j >= 0 ==> limits_upto(joints, map, n)[row as int] == Some(joints[j].effort),
        j < 0 ==> limits_upto(joints, map, n)[row as int] is None,
    decreases n,
{
    if n > 0 {
        let joint = joints[n - 1];
        law_limits_are_positive(joints, map, (n - 1) as nat, row as int);
        law_limits_are_positive(joints, map, n, row as int);
        if j < n - 1 {
            law_rows_are_bounded_by_their_joints(joints, map, (n - 1) as nat, row, j);
        }
    }
}

/// The payload's torque is filled in from the row of the joint; the rest of the entry stays.
pub proof fn law_payload_is_read_from_the_row(
    now: Seq<JointTorqueInfo>,
    was: Seq<JointTorqueInfo>,
    map: JointMap,
    tau_per_kg: Seq<i64>,
    k: int,
)
    requires
        filled(now, was, map, tau_per_kg),
        0 <= k < now.len(),
        was[k].joint_idx < map.a2m@.len(),
    ensures
        map.v_row(was[k].joint_idx as int) matches Some(vi) ==> now[k].payload_torque_per_kg
            == tau_per_kg[vi as int],
        now[k].torque_margin == was[k].torque_margin,
        now[k].gravity_torque == was[k].gravity_torque,
        now[k].joint_name == was[k].joint_name,
        now.len() == was.len(),
{
    assert(now[k] == now[k]);
}

/// What is shown of a joint is its utilisation: of a joint that the payload loads and that
/// the editor has, and of each of these.
pub proof fn law_loaded_joints_are_shown(
    util: Seq<(usize, i64)>,
    tau_per_kg: Seq<i64>,
    map: JointMap,
    m2a: Seq<Option<usize>>,
    n: nat,
)
    requires
        n <= util.len(),
        rows_known(util, tau_per_kg, map),
    ensures
        forall|e: (usize, i64)|
            #[trigger] shown(util, tau_per_kg, map, m2a, n).contains(e) <==> exists|k: int|
                0 <= k < n && #[trigger] util[k].1 == e.1 && tau_per_kg[map.v_idx@[util[k].0 as int] as int] != 0
                    && util[k].0 < m2a.len() && m2a[util[k].0 as int] == Some(e.0),
    decreases n,
{
    let all = shown(util, tau_per_kg, map, m2a, n);
    if n > 0 {
        law_loaded_joints_are_shown(util, tau_per_kg, map, m2a, (n - 1) as nat);
        let before = shown(util, tau_per_kg, map, m2a, (n - 1) as nat);
        assert forall|e: (usize, i64)| #[trigger] all.contains(e) <==> exists|k: int|
            0 <= k < n && #[trigger] util[k].1 == e.1 && tau_per_kg[map.v_idx@[util[k].0 as int] as int] != 0
                && util[k].0 < m2a.len() && m2a[util[k].0 as int] == Some(e.0) by {
            if all.contains(e) {
                let i = choose|i: int| 0 <= i < all.len() && all[i] == e;
                if i < before.len() {
                    assert(before[i] == e);
                    assert(before.contains(e));
                } else {
                    assert(util[n - 1].1 == e.1);
                }
            }
            if before.contains(e) {
                let i = choose|i: int| 0 <= i < before.len() && before[i] == e;
                assert(all[i] == e);
            }
            if all.len() > before.len() {
                assert(all.contains(all.last()));
            }
        }
    }
}

/// A joint that the tool does not load has no torque of it, and each entry names its own joint
/// and has no payload yet.
pub proof fn law_entries_name_their_joints(
    out: Seq<JointTorqueInfo>,
    joints: Seq<JointData>,
    map: JointMap,
    loads: Seq<GravityLoad>,
    n: nat,
    k: int,
)
    requires
        lists_torques(out, joints, map, loads, n),
        0 <= k < out.len(),
    ensures
        out.len() == movable(joints, n).len(),
        out[k].joint_idx == movable(joints, n)[k],
        out[k].joint_name@ == joints[movable(joints, n)[k]].name@,
        out[k].effort_limit == joints[movable(joints, n)[k]].effort,
        out[k].payload_torque_per_kg == 0,
        map.a2m@[movable(joints, n)[k]] is None ==> out[k].gravity_torque == 0,
        map.a2m@[movable(joints, n)[k]] matches Some(mi) ==> match load_of(
            loads,
            mi,
            loads.len(),
        ) {
            Some(t) => out[k].gravity_torque == t,
            None => out[k].gravity_torque == 0,
        },
{
    let ji = movable(joints, n)[k];
    assert(describes(out[k], joints[ji], ji, torque_of(map, loads, ji)));
}

/// The tool hangs on the coordinate of the joint that carries it; a root has none.
pub proof fn law_tool_hangs_on_its_joint(joints: Seq<JointData>, map: JointMap, ee: Seq<char>)
    ensures
        crate::robot::carrier(joints, ee) is None ==> ee_joint(joints, map, ee) is None,
        crate::robot::carrier(joints, ee) matches Some(ji) ==> ee_joint(joints, map, ee)
            == map.a2m@[ji],
{
}

} // verus!
