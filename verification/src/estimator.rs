//! What feeds the floating-base estimator of a quadruped: which joints carry the
//! feet, the coordinates with the body put at the origin, and which feet stand.

use vstd::prelude::*;

use crate::biped::rig::{find_link, LinkEntry};
use crate::joint_map::{pack_positions, pack_rates, JointMap};
use crate::robot::Vec3;

verus! {

/// The feet in the order front left, front right, rear left, rear right.
pub struct LkfPipeline {
    pub foot_links: [String; 4],
    /// Joint of the dynamics model that carries each foot.
    pub foot_idx: [Option<usize>; 4],
    /// A foot stands where it presses harder than this, in micronewtons.
    pub contact_force_threshold: i64,
}

/// Five newtons: enough to ignore brushes during fast trotting.
pub const CONTACT_FORCE_THRESHOLD: i64 = 5_000_000;

impl LkfPipeline {
    /// Finds the joint of each foot; a foot that the model does not have has
    /// none.
    pub fn new(foot_links: [String; 4], index: &Vec<LinkEntry>) -> (r: LkfPipeline)
        ensures
            r.foot_links == foot_links,
            forall|slot: int|
                0 <= slot < 4 ==> #[trigger] r.foot_idx@[slot] == crate::biped::rig::link_mi(
                    index@,
                    foot_links@[slot]@,
                    0,
                ),
            r.contact_force_threshold == 5_000_000,
    {
        let foot_idx: [Option<usize>; 4] = [
            find_link(index, foot_links[0].as_str()),
            find_link(index, foot_links[1].as_str()),
            find_link(index, foot_links[2].as_str()),
            find_link(index, foot_links[3].as_str()),
        ];
        LkfPipeline { foot_links, foot_idx, contact_force_threshold: CONTACT_FORCE_THRESHOLD }
    }

    /// Which feet stand, by the vertical force under each.
    pub fn contact_flags(&self, forces: &[i64; 4]) -> (r: [bool; 4])
        ensures
            forall|slot: int|
                0 <= slot < 4 ==> #[trigger] r@[slot] == (forces@[slot]
                    > self.contact_force_threshold),
    {
        let limit: i64 = self.contact_force_threshold;
        [forces[0] > limit, forces[1] > limit, forces[2] > limit, forces[3] > limit]
    }
}

/// What the estimator is fed each tick. Feet are in the order of the pipeline.
#[derive(Clone, Copy, PartialEq, Eq, Debug)]
pub struct LinearKalmanInputs {
    /// In microseconds.
    pub dt: u64,
    pub accel_world: Vec3,
    pub foot_pos_world_offset: [Vec3; 4],
    pub foot_vel_world: [Vec3; 4],
    pub contact_flag: [bool; 4],
}

/// What is known of the joint that carries a foot; nothing where there is none.
pub open spec fn of_foot(of_joint: Seq<Vec3>, mi: Option<usize>) -> Vec3 {
    match mi {
        Some(mi) => of_joint[mi as int],
        None => Vec3 { x: 0, y: 0, z: 0 },
    }
}

fn look_up(of_joint: &Vec<Vec3>, mi: Option<usize>) -> (r: Vec3)
    requires
        mi matches Some(i) ==> i < of_joint@.len(),
    ensures
        r == of_foot(of_joint@, mi),
{
    match mi {
        Some(i) => of_joint[i],
        None => Vec3 { x: 0, y: 0, z: 0 },
    }
}

impl LkfPipeline {
    /// Every foot that has a joint has one of the first `n`.
    pub open spec fn within_model(&self, n: nat) -> bool {
        forall|slot: int|
            0 <= slot < 4 ==> ((#[trigger] self.foot_idx@[slot]) matches Some(mi) ==> mi < n)
    }

    /// One tick's inputs. `offsets` and `velocities` are the placements and linear
    /// velocities of all joints of the dynamics model, in the world frame, with the
    /// body at the origin and at rest; a foot without a joint is taken to be there
    /// too.
    pub fn inputs(
        &self,
        offsets: &Vec<Vec3>,
        velocities: &Vec<Vec3>,
        forces: &[i64; 4],
        accel_world: Vec3,
        dt: u64,
    ) -> (r: LinearKalmanInputs)
        requires
            self.within_model(offsets@.len()),
            self.within_model(velocities@.len()),
        ensures
            r.dt == dt,
            r.accel_world == accel_world,
            forall|slot: int|
                0 <= slot < 4 ==> #[trigger] r.foot_pos_world_offset@[slot] == of_foot(
                    offsets@,
                    self.foot_idx@[slot],
                ),
            forall|slot: int|
                0 <= slot < 4 ==> #[trigger] r.foot_vel_world@[slot] == of_foot(
                    velocities@,
                    self.foot_idx@[slot],
                ),
            forall|slot: int|
                0 <= slot < 4 ==> #[trigger] r.contact_flag@[slot] == (forces@[slot]
                    > self.contact_force_threshold),
    {
        LinearKalmanInputs {
            dt,
            accel_world,
            foot_pos_world_offset: [
                look_up(offsets, self.foot_idx[0]),
                look_up(offsets, self.foot_idx[1]),
                look_up(offsets, self.foot_idx[2]),
                look_up(offsets, self.foot_idx[3]),
            ],
            foot_vel_world: [
                look_up(velocities, self.foot_idx[0]),
                look_up(velocities, self.foot_idx[1]),
                look_up(velocities, self.foot_idx[2]),
                look_up(velocities, self.foot_idx[3]),
            ],
            contact_flag: self.contact_flags(forces),
        }
    }
}

/// Position coordinates with the body at the origin, turned as the attitude
/// estimate says (`i`, `j`, `k`, `w`). Foot placements computed from them are
/// body-to-foot vectors in the world frame.
pub fn coordinates<T: Copy>(
    map: &JointMap,
    neutral: &Vec<T>,
    quat: &[T; 4],
    joint_q: &Vec<T>,
    zero: T,
) -> (q: Vec<T>)
    requires
        map.valid(joint_q@.len()),
        neutral.len() == map.nq,
    ensures
        q@ == crate::joint_map::placed(
            crate::joint_map::with_base(
                neutral@,
                seq![zero, zero, zero, quat@[0], quat@[1], quat@[2], quat@[3]],
            ),
            *map,
            joint_q@,
            joint_q@.len(),
        ),
{
    let base: [T; 7] = [zero, zero, zero, quat[0], quat[1], quat[2], quat[3]];
    proof {
        assert(base@ =~= seq![zero, zero, zero, quat@[0], quat@[1], quat@[2], quat@[3]]);
    }
    pack_positions(map, neutral, &base, joint_q)
}

/// Velocity coordinates with the body at rest, so that foot velocities computed
/// from them come from the joints alone.
pub fn rates(map: &JointMap, joint_qd: &Vec<i64>) -> (v: Vec<i64>)
    requires
        map.valid(joint_qd@.len()),
    ensures
        v@ == crate::joint_map::rates_placed(
            Seq::new(map.nv as nat, |i: int| 0i64),
            *map,
            joint_qd@.map_values(|x: i64| Some(x)),
            None,
            joint_qd@.len(),
        ),
{
    let mut known: Vec<Option<i64>> = Vec::new();
    let mut i: usize = 0;
    while i < joint_qd.len()
        invariant
            i <= joint_qd.len(),
            known@ == joint_qd@.map_values(|x: i64| Some(x)).take(i as int),
        decreases joint_qd.len() - i,
    {
        known.push(Some(joint_qd[i]));
        i += 1;
    }
    let base: [i64; 6] = [0, 0, 0, 0, 0, 0];
    proof {
        assert(known@ =~= joint_qd@.map_values(|x: i64| Some(x)));
        let zeros = Seq::new(map.nv as nat, |i: int| 0i64);
        assert(crate::joint_map::with_base(zeros, base@) =~= zeros);
    }
    pack_rates(map, &base, &known, None)
}

/// Joint positions and rates as the plant reports them; a joint that it does not
/// report counts as zero.
pub fn joint_state<T: Copy>(readings: &Vec<Option<(T, T)>>, zero: T) -> (r: (Vec<T>, Vec<T>))
    ensures
        r.0.len() == readings.len(),
        r.1.len() == readings.len(),
        forall|ji: int|
            0 <= ji < readings.len() ==> (#[trigger] r.0@[ji], #[trigger] r.1@[ji])
                == match readings@[ji] {
                Some(reading) => reading,
                None => (zero, zero),
            },
{
    let mut q: Vec<T> = Vec::new();
    let mut qd: Vec<T> = Vec::new();
    let mut ji: usize = 0;
    while ji < readings.len()
        invariant
            ji <= readings.len(),
            q.len() == ji,
            qd.len() == ji,
            forall|k: int|
                0 <= k < ji ==> (#[trigger] q@[k], #[trigger] qd@[k]) == match readings@[k] {
                    Some(reading) => reading,
                    None => (zero, zero),
                },
        decreases readings.len() - ji,
    {
        match readings[ji] {
            Some(reading) => {
                q.push(reading.0);
                qd.push(reading.1);
            },
            None => {
                q.push(zero);
                qd.push(zero);
            },
        }
        ji += 1;
    }
    (q, qd)
}

/// A foot is where its joint is, and at the origin without one.
pub proof fn law_foot_is_at_its_joint(of_joint: Seq<Vec3>, mi: usize)
    ensures
        of_foot(of_joint, Some(mi)) == of_joint[mi as int],
        of_foot(of_joint, None).x == 0 && of_foot(of_joint, None).y == 0 && of_foot(
            of_joint,
            None,
        ).z == 0,
{
}

} // verus!
