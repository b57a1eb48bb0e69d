//! The robot model that the editor works on.
//!
//! Quantities are whole numbers: lengths in nanometres, angles in microradians,
//! masses in milligrams, efforts in micronewton metres (or micronewtons for
//! sliding joints), unit quaternion components in parts per billion.

use vstd::prelude::*;
use vstd::string::*;

use crate::text::same;

verus! {

/// A vector by its components.
#[derive(Clone, Copy, PartialEq, Eq, Structural, Debug)]
pub struct Vec3 {
    pub x: i64,
    pub y: i64,
    pub z: i64,
}

/// A turn, as a unit quaternion.
#[derive(Clone, Copy, PartialEq, Eq, Structural, Debug)]
pub struct Quat {
    pub i: i64,
    pub j: i64,
    pub k: i64,
    pub w: i64,
}

/// A rigid placement: where something sits in the frame it belongs to.
#[derive(Clone, Copy, PartialEq, Eq, Structural, Debug)]
pub struct Placement {
    pub translation: Vec3,
    pub rotation: Quat,
}

impl Placement {
    /// No displacement and no turn.
    pub fn identity() -> (r: Placement)
        ensures
            r == (Placement {
                translation: Vec3 { x: 0, y: 0, z: 0 },
                rotation: Quat { i: 0, j: 0, k: 0, w: 1_000_000_000 },
            }),
    {
        Placement {
            translation: Vec3 { x: 0, y: 0, z: 0 },
            rotation: Quat { i: 0, j: 0, k: 0, w: 1_000_000_000 },
        }
    }
}

/// A shape, by its dimensions.
#[derive(PartialEq, Eq, Debug)]
pub enum GeomData {
    /// Half extents.
    Box { hx: i64, hy: i64, hz: i64 },
    Cylinder { radius: i64, half_length: i64 },
    Sphere { radius: i64 },
    Capsule { radius: i64, half_length: i64 },
    /// A triangle mesh: how many numbers its flat vertex list holds, and the
    /// file it came from.
    Mesh { floats: usize, filename: Option<String> },
}

impl GeomData {
    /// A copy of the shape.
    pub fn duplicate(&self) -> (r: GeomData)
        ensures
            r == *self,
    {
        match self {
            GeomData::Box { hx, hy, hz } => GeomData::Box { hx: *hx, hy: *hy, hz: *hz },
            GeomData::Cylinder { radius, half_length } => GeomData::Cylinder {
                radius: *radius,
                half_length: *half_length,
            },
            GeomData::Sphere { radius } => GeomData::Sphere { radius: *radius },
            GeomData::Capsule { radius, half_length } => GeomData::Capsule {
                radius: *radius,
                half_length: *half_length,
            },
            GeomData::Mesh { floats, filename } => GeomData::Mesh {
                floats: *floats,
                filename: match filename {
                    Some(f) => Some(f.clone()),
                    None => None,
                },
            },
        }
    }

    /// Whether the shape is a mesh.
    pub fn is_mesh(&self) -> (r: bool)
        ensures
            r == (*self is Mesh),
    {
        match self {
            GeomData::Mesh { .. } => true,
            _ => false,
        }
    }
}

/// A colour with opacity, in thousandths.
#[derive(Clone, Copy, PartialEq, Eq, Structural, Debug)]
pub struct Color {
    pub r: u32,
    pub g: u32,
    pub b: u32,
    pub a: u32,
}

/// A shape that is drawn.
pub struct VisualData {
    pub origin: Placement,
    pub geometry: GeomData,
    pub color: Color,
}

/// A shape that is collided with.
pub struct CollisionData {
    pub origin: Placement,
    pub geometry: GeomData,
}

impl VisualData {
    pub fn duplicate(&self) -> (r: VisualData)
        ensures
            r == *self,
    {
        VisualData { origin: self.origin, geometry: self.geometry.duplicate(), color: self.color }
    }
}

impl CollisionData {
    pub fn duplicate(&self) -> (r: CollisionData)
        ensures
            r == *self,
    {
        CollisionData { origin: self.origin, geometry: self.geometry.duplicate() }
    }
}

pub struct LinkData {
    pub name: String,
    pub mass: u64,
    /// Centre of mass in the link's frame.
    pub com: Vec3,
    pub visuals: Vec<VisualData>,
    pub collisions: Vec<CollisionData>,
}

/// What a joint's actuator tracks.
#[derive(Clone, Copy, PartialEq, Eq, Structural, Debug)]
pub enum ActuatorMode {
    Position,
    Velocity,
    Torque,
    ComputedTorque,
}

pub struct JointData {
    pub name: String,
    /// "revolute", "prismatic", "fixed" or "continuous".
    pub joint_type: String,
    pub parent_link: String,
    pub child_link: String,
    /// Placement in the parent link's frame.
    pub origin: Placement,
    /// Axis of motion, in parts per billion.
    pub axis: Vec3,
    pub lower: i64,
    pub upper: i64,
    pub effort: i64,
    pub velocity: i64,
    pub actuator_mode: ActuatorMode,
    pub actuator_kp: i64,
    pub actuator_kv: i64,
    pub armature: i64,
    pub joint_damping: i64,
}

/// Two links and whether contact between them counts.
pub struct CollisionPair {
    pub link_a: String,
    pub link_b: String,
    pub enabled: bool,
}

impl CollisionPair {
    /// The pair joins the two links, in either order.
    pub open spec fn joins(&self, a: Seq<char>, b: Seq<char>) -> bool {
        ||| self.link_a@ == a && self.link_b@ == b
        ||| self.link_a@ == b && self.link_b@ == a
    }

    pub fn matches(&self, a: &str, b: &str) -> (r: bool)
        ensures
            r == self.joins(a@, b@),
    {
        (same(self.link_a.as_str(), a) && same(self.link_b.as_str(), b)) || (same(
            self.link_a.as_str(),
            b,
        ) && same(self.link_b.as_str(), a))
    }
}

pub struct RobotModel {
    pub name: String,
    pub links: Vec<LinkData>,
    pub joints: Vec<JointData>,
    pub root_link: String,
    /// The file the model was read from.
    pub source_path: Option<String>,
    /// One position per joint.
    pub joint_positions: Vec<i64>,
    pub collision_pairs: Vec<CollisionPair>,
}

/// The masses of the first `n` links together.
pub open spec fn mass_of(links: Seq<LinkData>, n: nat) -> nat
    decreases n,
{
    if n == 0 || n > links.len() {
        0
    } else {
        mass_of(links, (n - 1) as nat) + links[n - 1].mass as nat
    }
}

/// `i` is the first link called `name`.
pub open spec fn first_link(links: Seq<LinkData>, name: Seq<char>, i: int) -> bool {
    &&& 0 <= i < links.len()
    &&& links[i].name@ == name
    &&& forall|j: int| 0 <= j < i ==> (#[trigger] links[j]).name@ != name
}

/// `i` is the first joint called `name`.
pub open spec fn first_joint(joints: Seq<JointData>, name: Seq<char>, i: int) -> bool {
    &&& 0 <= i < joints.len()
    &&& joints[i].name@ == name
    &&& forall|j: int| 0 <= j < i ==> (#[trigger] joints[j]).name@ != name
}

/// The joint called `name`, if there is one.
pub open spec fn joint_at(joints: Seq<JointData>, name: Seq<char>) -> Option<int> {
    if exists|i: int| first_joint(joints, name, i) {
        Some(choose|i: int| first_joint(joints, name, i))
    } else {
        None
    }
}

/// `i` is the first joint that carries the link `name`.
pub open spec fn carries_link(joints: Seq<JointData>, name: Seq<char>, i: int) -> bool {
    &&& 0 <= i < joints.len()
    &&& joints[i].child_link@ == name
    &&& forall|j: int| 0 <= j < i ==> (#[trigger] joints[j]).child_link@ != name
}

/// The joint that carries the link `name`, if there is one.
pub open spec fn carrier(joints: Seq<JointData>, name: Seq<char>) -> Option<int> {
    if exists|i: int| carries_link(joints, name, i) {
        Some(choose|i: int| carries_link(joints, name, i))
    } else {
        None
    }
}

impl RobotModel {
    /// Each joint has a position.
    pub open spec fn valid(&self) -> bool {
        self.joint_positions.len() == self.joints.len()
    }

    /// The position of the link called `name`.
    pub fn link_index(&self, name: &str) -> (r: Option<usize>)
        ensures
            match r {
                Some(i) => first_link(self.links@, name@, i as int),
                None => forall|j: int|
                    0 <= j < self.links.len() ==> (#[trigger] self.links@[j]).name@ != name@,
            },
    {
        let mut i: usize = 0;
        while i < self.links.len()
            invariant
                i <= self.links.len(),
                forall|j: int| 0 <= j < i ==> (#[trigger] self.links@[j]).name@ != name@,
            decreases self.links.len() - i,
        {
            if same(self.links[i].name.as_str(), name) {
                return Some(i);
            }
            i += 1;
        }
        None
    }

    /// The position of the joint called `name`.
    pub fn joint_index(&self, name: &str) -> (r: Option<usize>)
        ensures
            joint_at(self.joints@, name@) == match r {
                Some(i) => Some(i as int),
                None => None,
            },
            r matches Some(i) ==> first_joint(self.joints@, name@, i as int),
    {
        let mut i: usize = 0;
        while i < self.joints.len()
            invariant
                i <= self.joints.len(),
                forall|j: int| 0 <= j < i ==> (#[trigger] self.joints@[j]).name@ != name@,
            decreases self.joints.len() - i,
        {
            if same(self.joints[i].name.as_str(), name) {
                proof {
                    assert(first_joint(self.joints@, name@, i as int));
                }
                return Some(i);
            }
            i += 1;
        }
        None
    }

    /// The joint whose child is the link `name`. The root link has none.
    pub fn parent_joint_of_link(&self, name: &str) -> (r: Option<usize>)
        ensures
            carrier(self.joints@, name@) == match r {
                Some(i) => Some(i as int),
                None => None,
            },
            r matches Some(i) ==> carries_link(self.joints@, name@, i as int),
    {
        let mut i: usize = 0;
        while i < self.joints.len()
            invariant
                i <= self.joints.len(),
                forall|j: int| 0 <= j < i ==> (#[trigger] self.joints@[j]).child_link@ != name@,
            decreases self.joints.len() - i,
        {
            if same(self.joints[i].child_link.as_str(), name) {
                proof {
                    assert(carries_link(self.joints@, name@, i as int));
                }
                return Some(i);
            }
            i += 1;
        }
        None
    }

    /// The mass of all links together.
    pub fn total_mass(&self) -> (r: u128)
        ensures
            r == mass_of(self.links@, self.links@.len()),
    {
        let mut sum: u128 = 0;
        let mut i: usize = 0;
        while i < self.links.len()
            invariant
                i <= self.links.len(),
                sum == mass_of(self.links@, i as nat),
                sum <= i * u64::MAX,
            decreases self.links.len() - i,
        {
            proof {
                assert(i * u64::MAX + u64::MAX <= usize::MAX * u64::MAX) by (nonlinear_arith)
                    requires
                        i + 1 <= usize::MAX,
                ;
                assert(usize::MAX * u64::MAX <= u128::MAX) by (nonlinear_arith)
                    requires
                        0 <= usize::MAX <= u64::MAX,
                ;
                assert((i + 1) * u64::MAX == i * u64::MAX + u64::MAX) by (nonlinear_arith);
            }
            sum = sum + self.links[i].mass as u128;
            i += 1;
        }
        sum
    }
}

/// A pair joins two links in either order.
pub proof fn law_pairs_have_no_order(p: CollisionPair, a: Seq<char>, b: Seq<char>)
    ensures
        p.joins(a, b) == p.joins(b, a),
        p.joins(p.link_a@, p.link_b@),
        p.joins(a, b) ==> (p.link_a@ == a || p.link_b@ == a) && (p.link_a@ == b || p.link_b@ == b),
        p.joins(a, b) && a != b ==> p.link_a@ != p.link_b@,
{
}

/// Masses add up.
pub proof fn law_link_masses_add_up(links: Seq<LinkData>, n: nat)
    requires
        n < links.len(),
    ensures
        mass_of(links, n + 1) - mass_of(links, n) == links[n as int].mass,
        mass_of(links, 0) == 0,
{
}

/// A joint is looked up by its name: the first of that name, and there is none only where no
/// joint has it.
pub proof fn law_joints_are_looked_up(joints: Seq<JointData>, name: Seq<char>, k: int)
    requires
        0 <= k < joints.len(),
        joints[k].name@ == name,
    ensures
        ({
            let at = joint_at(joints, name);
            at is Some && 0 <= at->0 <= k && joints[at->0].name@ == name
        }),
    decreases k,
{
    if exists|j: int| 0 <= j < k && joints[j].name@ == name {
        let j = choose|j: int| 0 <= j < k && joints[j].name@ == name;
        law_joints_are_looked_up(joints, name, j);
    } else {
        assert(first_joint(joints, name, k));
        let at = joint_at(joints, name)->0;
        assert(first_joint(joints, name, at));
    }
}

/// A name that no joint has is not found.
pub proof fn law_unknown_joints_are_not_found(joints: Seq<JointData>, name: Seq<char>)
    requires
        forall|k: int| 0 <= k < joints.len() ==> (#[trigger] joints[k]).name@ != name,
    ensures
        joint_at(joints, name) is None,
{
}

/// A link is carried by the first joint whose child it is, and by none only where no joint has
/// it for a child.
pub proof fn law_links_are_carried(joints: Seq<JointData>, name: Seq<char>, k: int)
    requires
        0 <= k < joints.len(),
        joints[k].child_link@ == name,
    ensures
        ({
            let at = carrier(joints, name);
            at is Some && 0 <= at->0 <= k && joints[at->0].child_link@ == name
        }),
    decreases k,
{
    if exists|j: int| 0 <= j < k && joints[j].child_link@ == name {
        let j = choose|j: int| 0 <= j < k && joints[j].child_link@ == name;
        law_links_are_carried(joints, name, j);
    } else {
        assert(carries_link(joints, name, k));
        let at = carrier(joints, name)->0;
        assert(carries_link(joints, name, at));
    }
}

/// A link that is no joint's child is not carried.
pub proof fn law_roots_are_not_carried(joints: Seq<JointData>, name: Seq<char>)
    requires
        forall|k: int| 0 <= k < joints.len() ==> (#[trigger] joints[k]).child_link@ != name,
    ensures
        carrier(joints, name) is None,
{
}

} // verus!
