//! The tree of links and joints, its menus, and the form that adds a child.

use vstd::prelude::*;
use vstd::string::*;

use crate::editor::display::PinnedLink;
use crate::editor::edit::Edit;
use crate::editor::state::Selection;
use crate::robot::{Color, GeomData, Placement, RobotModel, Vec3};
use crate::text::{around, around_two, decimal, join, same};

verus! {

// ---------------------------------------------------------------- the tree

/// The joints among the first `n` that hang on a link, in order.
pub open spec fn children_upto(
    joints: Seq<crate::robot::JointData>,
    link: Seq<char>,
    n: nat,
) -> Seq<usize>
    decreases n,
{
    if n == 0 || n > joints.len() {
        Seq::empty()
    } else {
        let before = children_upto(joints, link, (n - 1) as nat);
        if joints[n - 1].parent_link@ == link {
            before.push((n - 1) as usize)
        } else {
            before
        }
    }
}

/// The joints that hang on a link.
pub fn children_of(model: &RobotModel, link: &str) -> (r: Vec<usize>)
    ensures
        r@ == children_upto(model.joints@, link@, model.joints@.len()),
{
    let mut out: Vec<usize> = Vec::new();
    let mut i: usize = 0;
    while i < model.joints.len()
        invariant
            i <= model.joints.len(),
            out@ == children_upto(model.joints@, link@, i as nat),
        decreases model.joints.len() - i,
    {
        if same(model.joints[i].parent_link.as_str(), link) {
            out.push(i);
        }
        i += 1;
    }
    out
}

// ---------------------------------------------------------------- revealing

/// The links above a link, the nearest first, looking at no more than `steps` joints.
pub open spec fn ancestors(
    joints: Seq<crate::robot::JointData>,
    link: Seq<char>,
    steps: nat,
) -> Seq<Seq<char>>
    decreases steps,
{
    if steps == 0 {
        Seq::empty()
    } else {
        match crate::robot::carrier(joints, link) {
            None => Seq::empty(),
            Some(ji) => seq![joints[ji].parent_link@] + ancestors(
                joints,
                joints[ji].parent_link@,
                (steps - 1) as nat,
            ),
        }
    }
}

impl RobotModel {
    /// The links above a link, along the joints that carry it, the nearest first. No
    /// chain is longer than the robot has joints.
    pub fn ancestor_links(&self, link: &str) -> (r: Vec<String>)
        ensures
            crate::text::views(r@) == ancestors(self.joints@, link@, self.joints@.len()),
    {
        let ghost all = ancestors(self.joints@, link@, self.joints@.len());
        let mut out: Vec<String> = Vec::new();
        let mut at: String = link.to_owned();
        let mut steps: usize = self.joints.len();
        proof {
            assert(crate::text::views(out@) + all =~= all);
        }
        while steps > 0
            invariant
                steps <= self.joints.len(),
                all == ancestors(self.joints@, link@, self.joints@.len()),
                all == crate::text::views(out@) + ancestors(self.joints@, at@, steps as nat),
            decreases steps,
        {
            match self.parent_joint_of_link(at.as_str()) {
                None => {
                    proof {
                        assert(all =~= crate::text::views(out@));
                    }
                    return out;
                },
                Some(ji) => {
                    let parent: String = self.joints[ji].parent_link.clone();
                    let ghost before = out@;
                    out.push(self.joints[ji].parent_link.clone());
                    proof {
                        let rest = ancestors(self.joints@, parent@, (steps - 1) as nat);
                        assert(crate::text::views(out@) =~= crate::text::views(before).push(
                            parent@,
                        ));
                        assert(crate::text::views(before) + (seq![parent@] + rest)
                            =~= crate::text::views(out@) + rest);
                    }
                    at = parent;
                },
            }
            steps -= 1;
        }
        proof {
            assert(all =~= crate::text::views(out@));
        }
        out
    }
}

/// Whether the node of a link is opened to reveal a picked link, given the links above
/// that.
pub fn opens(ancestors: &Vec<String>, link: &str) -> (r: bool)
    ensures
        r == crate::text::views(ancestors@).contains(link@),
{
    let ghost views = crate::text::views(ancestors@);
    let mut i: usize = 0;
    while i < ancestors.len()
        invariant
            i <= ancestors.len(),
            views == crate::text::views(ancestors@),
            forall|j: int| 0 <= j < i ==> #[trigger] views[j] != link@,
        decreases ancestors.len() - i,
    {
        proof {
            assert(views[i as int] == ancestors@[i as int]@);
        }
        if same(ancestors[i].as_str(), link) {
            return true;
        }
        i += 1;
    }
    false
}

/// On a tree all links above a link are found: looking further than its level finds no
/// other.
pub proof fn law_all_ancestors_are_found(
    joints: Seq<crate::robot::JointData>,
    level: spec_fn(Seq<char>) -> nat,
    link: Seq<char>,
    a: nat,
    b: nat,
)
    requires
        crate::editor::drag::is_level(joints, level),
        level(link) <= a,
        a <= b,
    ensures
        ancestors(joints, link, a) == ancestors(joints, link, b),
    decreases b,
{
    if b > 0 {
        match crate::robot::carrier(joints, link) {
            None => {},
            Some(ji) => {
                assert(crate::robot::carries_link(joints, link, ji));
                assert(level(joints[ji].parent_link@) < level(joints[ji].child_link@));
                law_all_ancestors_are_found(
                    joints,
                    level,
                    joints[ji].parent_link@,
                    (a - 1) as nat,
                    (b - 1) as nat,
                );
            },
        }
    }
}

/// On a tree a picked link is revealed: with each node that is opened all nodes above it
/// are opened too, so that the way from the root down to the link is open.
pub proof fn law_the_way_to_a_link_is_opened(
    joints: Seq<crate::robot::JointData>,
    level: spec_fn(Seq<char>) -> nat,
    link: Seq<char>,
    steps: nat,
    k: int,
)
    requires
        crate::editor::drag::is_level(joints, level),
        level(link) <= steps,
        0 <= k < ancestors(joints, link, steps).len(),
    ensures
        ancestors(joints, ancestors(joints, link, steps)[k], steps) == ancestors(
            joints,
            link,
            steps,
        ).skip(k + 1),
    decreases k,
{
    let all = ancestors(joints, link, steps);
    let ji = crate::robot::carrier(joints, link)->0;
    assert(crate::robot::carries_link(joints, link, ji));
    assert(level(joints[ji].parent_link@) < level(joints[ji].child_link@));
    let parent = joints[ji].parent_link@;
    let rest = ancestors(joints, parent, (steps - 1) as nat);
    law_all_ancestors_are_found(joints, level, parent, (steps - 1) as nat, steps);
    if k == 0 {
        assert(all.skip(1) =~= rest);
    } else {
        assert(all[k] == rest[k - 1]);
        law_the_way_to_a_link_is_opened(joints, level, parent, steps, k - 1);
        assert(all.skip(k + 1) =~= rest.skip(k));
    }
}

// ---------------------------------------------------------------- marks and clicks

/// How a link is marked in the tree.
#[derive(Clone, Copy, PartialEq, Eq, Structural, Debug)]
pub struct LinkMarks {
    /// It is the root of the chain.
    pub ik_root: bool,
    pub pinned: bool,
}

/// How a link is marked in the tree.
pub fn link_marks<P>(name: &str, ik_root: &Option<String>, pins: &Vec<PinnedLink<P>>) -> (r:
    LinkMarks)
    ensures
        r.ik_root == (crate::editor::display::name_view(*ik_root) == Some(name@)),
        r.pinned == crate::editor::drag::pinned(crate::editor::drag::pin_views(pins@), name@),
{
    let root: bool = match ik_root {
        Some(n) => same(n.as_str(), name),
        None => false,
    };
    let ghost views = crate::editor::drag::pin_views(pins@);
    let mut pinned: bool = false;
    let mut i: usize = 0;
    while i < pins.len()
        invariant
            i <= pins.len(),
            views == crate::editor::drag::pin_views(pins@),
            pinned == exists|j: int| 0 <= j < i && (#[trigger] views[j]).link == name@,
        decreases pins.len() - i,
    {
        proof {
            assert(views[i as int].link == pins@[i as int].link_name@);
        }
        if same(pins[i].link_name.as_str(), name) {
            pinned = true;
        }
        i += 1;
    }
    LinkMarks { ik_root: root, pinned }
}

/// How a joint is called in the list.
pub fn joint_label(name: &str, joint_type: &str) -> (r: String)
    ensures
        r@ == name@ + " ["@ + joint_type@ + "]"@,
{
    let mut text: String = around(name, " [", joint_type);
    text.append("]");
    text
}

/// A link was clicked in the tree.
pub fn click_link(was: Selection, li: Option<usize>) -> (r: Selection)
    ensures
        r == (Selection { link: li, joint: None, ..was }),
{
    Selection { link: li, joint: None, visual: was.visual, collision: was.collision }
}

/// A joint was clicked in the list.
pub fn click_joint(was: Selection, ji: usize) -> (r: Selection)
    ensures
        r == (Selection { link: None, joint: Some(ji), ..was }),
{
    Selection { link: None, joint: Some(ji), visual: was.visual, collision: was.collision }
}

/// The menu of link `li` was opened: it becomes the selected one, unless it was.
pub fn open_link_menu(was: Selection, li: Option<usize>) -> (r: Selection)
    ensures
        r == (if li is None || was.link == li {
            was
        } else {
            Selection { link: li, joint: None, ..was }
        }),
{
    match li {
        None => was,
        Some(i) => {
            let same_link: bool = match was.link {
                Some(w) => w == i,
                None => false,
            };
            if same_link {
                was
            } else {
                click_link(was, Some(i))
            }
        },
    }
}

/// The menu of joint `ji` was opened: it becomes the selected one, unless it was.
pub fn open_joint_menu(was: Selection, ji: usize) -> (r: Selection)
    ensures
        r == (if was.joint == Some(ji) {
            was
        } else {
            Selection { link: None, joint: Some(ji), ..was }
        }),
{
    let same_joint: bool = match was.joint {
        Some(w) => w == ji,
        None => false,
    };
    if same_joint {
        was
    } else {
        click_joint(was, ji)
    }
}

/// The menu gives a joint another type. Nothing happens where it has that type
/// already.
pub fn change_joint_type(model: &mut RobotModel, ji: usize, joint_type: &str, edit: &mut Edit)
    requires
        ji < old(model).joints@.len(),
    ensures
        ({
            let was = old(model).joints@[ji as int];
            if was.joint_type@ == joint_type@ {
                *final(model) == *old(model) && *final(edit) == *old(edit)
            } else {
                &&& *final(model) == (RobotModel { joints: final(model).joints, ..*old(model) })
                &&& final(model).joints@ == old(model).joints@.update(
                    ji as int,
                    crate::robot::JointData {
                        joint_type: final(model).joints@[ji as int].joint_type,
                        ..was
                    },
                )
                &&& final(model).joints@[ji as int].joint_type@ == joint_type@
                &&& final(edit).says(
                    "Change joint '"@ + was.name@ + "' type to "@ + joint_type@,
                )
                &&& final(edit).needs_upload
                &&& final(edit).rebuild
            }
        }),
{
    if same(model.joints[ji].joint_type.as_str(), joint_type) {
        return ;
    }
    model.joints[ji].joint_type = joint_type.to_owned();
    let mut text: String = around("Change joint '", model.joints[ji].name.as_str(), "' type to ");
    text.append(joint_type);
    edit.describe(text);
    edit.needs_upload = true;
    edit.rebuild = true;
    proof {
        assert(model.joints@ =~= old(model).joints@.update(
            ji as int,
            crate::robot::JointData {
                joint_type: model.joints@[ji as int].joint_type,
                ..old(model).joints@[ji as int]
            },
        ));
    }
}

// ---------------------------------------------------------------- removing

/// Whether a link can be removed: the root cannot.
pub fn can_remove(model: &RobotModel, link: &str) -> (r: bool)
    ensures
        r == (model.root_link@ != link@),
{
    !same(model.root_link.as_str(), link)
}

/// What the undo step of a removal is called.
pub fn removal_description(link: &str) -> (r: String)
    ensures
        r@ == "Remove link '"@ + link@ + "'"@,
{
    around("Remove link '", link, "'")
}

/// What became of a link that was to be removed: the names of the links that
/// went with it, or why it could not be.
pub open spec fn removal_text(result: Result<Vec<String>, String>) -> Seq<char> {
    match result {
        Ok(removed) => "Removed "@ + crate::text::decimal_of(removed@.len()) + " link(s): "@
            + crate::text::joined(crate::text::views(removed@), ", "@),
        Err(e) => "Remove error: "@ + e@,
    }
}

/// The button that removes the selected link has been used. Returns what the
/// status line says.
pub fn removed(result: &Result<Vec<String>, String>, sel: &mut Selection, edit: &mut Edit) -> (status:
    String)
    ensures
        status@ == removal_text(*result),
        *result is Ok ==> {
            &&& *final(sel) == (Selection { link: None, joint: None, ..*old(sel) })
            &&& *final(edit) == (Edit { needs_upload: true, ..*old(edit) })
        },
        *result is Err ==> *final(sel) == *old(sel) && *final(edit) == *old(edit),
{
    match result {
        Ok(names) => {
            sel.link = None;
            sel.joint = None;
            edit.needs_upload = true;
            let count: String = decimal(names.len());
            let mut text: String = around("Removed ", count.as_str(), " link(s): ");
            text.append(join(names, ", ").as_str());
            text
        },
        Err(e) => {
            let mut text: String = String::from_str("Remove error: ");
            text.append(e.as_str());
            text
        },
    }
}

/// The menu entry that deletes a link has been used. A success is an undo step,
/// a failure goes to the status line.
pub fn deleted(
    link: &str,
    result: &Result<Vec<String>, String>,
    sel: &mut Selection,
    edit: &mut Edit,
) -> (status: Option<String>)
    ensures
        *result is Ok ==> {
            &&& status is None
            &&& *final(sel) == (Selection { link: None, joint: None, ..*old(sel) })
            &&& final(edit).says("Delete link '"@ + link@ + "'"@)
            &&& final(edit).needs_upload
            &&& final(edit).rebuild == old(edit).rebuild
        },
        *result matches Err(e) ==> {
            &&& status is Some
            &&& status->0@ == "Remove error: "@ + e@
            &&& *final(sel) == *old(sel)
            &&& *final(edit) == *old(edit)
        },
{
    match result {
        Ok(_) => {
            sel.link = None;
            sel.joint = None;
            edit.needs_upload = true;
            edit.describe(around("Delete link '", link, "'"));
            None
        },
        Err(e) => {
            let mut text: String = String::from_str("Remove error: ");
            text.append(e.as_str());
            Some(text)
        },
    }
}

// ---------------------------------------------------------------- adding

/// The shapes that the form offers.
pub const GEOM_TYPES: [&'static str; 4] = ["Box", "Cylinder", "Sphere", "Capsule"];

/// The form that adds a link and its joint. Lengths in nanometres, the axis in
/// parts per billion, limits in microradians, colours in thousandths.
pub struct AddChild {
    pub shown: bool,
    pub parent: String,
    pub link_name: String,
    pub joint_name: String,
    pub joint_type_idx: usize,
    pub geom_type_idx: usize,
    pub geom_size: [i64; 3],
    pub joint_origin: Vec3,
    pub joint_axis: Vec3,
    pub joint_limits: [i64; 2],
    pub link_color: [u32; 3],
}

/// What the form asks the model to add.
pub struct NewChild {
    pub parent: String,
    pub link_name: String,
    pub joint_name: String,
    pub joint_type: &'static str,
    pub origin: Placement,
    pub axis: Vec3,
    pub geometry: GeomData,
    pub color: Color,
    pub lower: i64,
    pub upper: i64,
}

/// Half of a length, rounded down.
pub open spec fn half(v: i64) -> i64 {
    (v as int / 2) as i64
}

fn halved(v: i64) -> (r: i64)
    ensures
        r == half(v),
{
    match v.checked_div_euclid(2) {
        Some(h) => h,
        None => 0,
    }
}

impl AddChild {
    /// The shape that the form describes. Cylinders and capsules are given by
    /// their whole length.
    pub open spec fn shape(&self) -> GeomData {
        let s = self.geom_size@;
        if self.geom_type_idx == 0 {
            GeomData::Box { hx: s[0], hy: s[1], hz: s[2] }
        } else if self.geom_type_idx == 1 {
            GeomData::Cylinder { radius: s[0], half_length: half(s[1]) }
        } else if self.geom_type_idx == 2 {
            GeomData::Sphere { radius: s[0] }
        } else if self.geom_type_idx == 3 {
            GeomData::Capsule { radius: s[0], half_length: half(s[1]) }
        } else {
            GeomData::Box { hx: 50_000_000, hy: 50_000_000, hz: 50_000_000 }
        }
    }

    fn geometry(&self) -> (r: GeomData)
        ensures
            r == self.shape(),
    {
        let s: [i64; 3] = self.geom_size;
        if self.geom_type_idx == 0 {
            GeomData::Box { hx: s[0], hy: s[1], hz: s[2] }
        } else if self.geom_type_idx == 1 {
            GeomData::Cylinder { radius: s[0], half_length: halved(s[1]) }
        } else if self.geom_type_idx == 2 {
            GeomData::Sphere { radius: s[0] }
        } else if self.geom_type_idx == 3 {
            GeomData::Capsule { radius: s[0], half_length: halved(s[1]) }
        } else {
            GeomData::Box { hx: 50_000_000, hy: 50_000_000, hz: 50_000_000 }
        }
    }

    /// The form's names and parent, with everything else as it was.
    pub open spec fn fills(
        &self,
        was: AddChild,
        parent: Seq<char>,
        link_name: Seq<char>,
        joint_name: Seq<char>,
    ) -> bool {
        &&& self.parent@ == parent
        &&& self.link_name@ == link_name
        &&& self.joint_name@ == joint_name
        &&& *self == (AddChild {
            shown: self.shown,
            parent: self.parent,
            link_name: self.link_name,
            joint_name: self.joint_name,
            ..was
        })
    }

    /// The button that shows and hides the form. Showing it fills in the
    /// selected link, or the root, as the parent, and names that are free.
    pub fn toggle(
        &mut self,
        model: &RobotModel,
        selected: Option<usize>,
        free_link: &str,
        free_joint: &str,
    )
        requires
            selected matches Some(li) ==> li < model.links@.len(),
        ensures
            final(self).shown == !old(self).shown,
            if final(self).shown {
                final(self).fills(
                    *old(self),
                    match selected {
                        Some(li) => model.links@[li as int].name@,
                        None => model.root_link@,
                    },
                    free_link@,
                    free_joint@,
                )
            } else {
                *final(self) == (AddChild { shown: false, ..*old(self) })
            },
    {
        self.shown = !self.shown;
        if self.shown {
            self.parent = match selected {
                Some(li) => model.links[li].name.clone(),
                None => model.root_link.clone(),
            };
            self.link_name = free_link.to_owned();
            self.joint_name = free_joint.to_owned();
        }
    }

    /// The menu entry that adds a child to a link.
    pub fn open_for(&mut self, link: &str, free_link: &str, free_joint: &str)
        ensures
            final(self).shown,
            final(self).fills(*old(self), link@, free_link@, free_joint@),
    {
        self.shown = true;
        self.parent = link.to_owned();
        self.link_name = free_link.to_owned();
        self.joint_name = free_joint.to_owned();
    }

    /// Whether the form is complete: the names and the parent are filled in.
    pub fn can_add(&self) -> (r: bool)
        ensures
            r == (self.link_name@.len() > 0 && self.joint_name@.len() > 0 && self.parent@.len()
                > 0),
    {
        !self.link_name.as_str().is_empty() && !self.joint_name.as_str().is_empty()
            && !self.parent.as_str().is_empty()
    }

    /// Whether the joint has limits to fill in.
    pub fn has_limits(&self) -> (r: bool)
        ensures
            r == (self.joint_type_idx < 2),
    {
        self.joint_type_idx < 2
    }

    /// What the form asks the model to add. Joints other than revolute and
    /// prismatic ones have no limits.
    pub fn execute(&self) -> (r: NewChild)
        requires
            self.joint_type_idx < 4,
        ensures
            r.parent@ == self.parent@,
            r.link_name@ == self.link_name@,
            r.joint_name@ == self.joint_name@,
            r.joint_type@
                == crate::editor::properties::JOINT_TYPES@[self.joint_type_idx as int]@,
            r.origin == (Placement {
                translation: self.joint_origin,
                rotation: crate::robot::Quat { i: 0, j: 0, k: 0, w: 1_000_000_000 },
            }),
            r.axis == self.joint_axis,
            r.geometry == self.shape(),
            r.color == (Color {
                r: self.link_color@[0],
                g: self.link_color@[1],
                b: self.link_color@[2],
                a: 1000,
            }),
            self.joint_type_idx < 2 ==> r.lower == self.joint_limits@[0] && r.upper
                == self.joint_limits@[1],
            self.joint_type_idx >= 2 ==> r.lower == 0 && r.upper == 0,
    {
        let mut origin: Placement = Placement::identity();
        origin.translation = self.joint_origin;
        let limited: bool = self.joint_type_idx < 2;
        NewChild {
            parent: self.parent.clone(),
            link_name: self.link_name.clone(),
            joint_name: self.joint_name.clone(),
            joint_type: crate::editor::properties::JOINT_TYPES[self.joint_type_idx],
            origin,
            axis: self.joint_axis,
            geometry: self.geometry(),
            color: Color {
                r: self.link_color[0],
                g: self.link_color[1],
                b: self.link_color[2],
                a: 1000,
            },
            lower: if limited {
                self.joint_limits[0]
            } else {
                0
            },
            upper: if limited {
                self.joint_limits[1]
            } else {
                0
            },
        }
    }

    /// What the undo step of an addition is called.
    pub fn description(&self) -> (r: String)
        ensures
            r@ == "Add child '"@ + self.link_name@ + "'"@,
    {
        around("Add child '", self.link_name.as_str(), "'")
    }

    /// What became of an addition: the index of the new link, or why there is
    /// none. Returns what the status line says.
    pub fn added(
        &mut self,
        result: &Result<usize, String>,
        free_link: &str,
        free_joint: &str,
        sel: &mut Selection,
        edit: &mut Edit,
    ) -> (status: String)
        ensures
            *result matches Ok(li) ==> {
                &&& status@ == "Added link '"@ + old(self).link_name@ + "' + joint '"@
                    + old(self).joint_name@ + "'"@
                &&& !final(self).shown
                &&& final(self).fills(*old(self), old(self).parent@, free_link@, free_joint@)
                &&& *final(sel) == (Selection { link: Some(li), joint: None, ..*old(sel) })
                &&& *final(edit) == (Edit { needs_upload: true, ..*old(edit) })
            },
            *result matches Err(e) ==> {
                &&& status@ == "Add error: "@ + e@
                &&& *final(self) == *old(self)
                &&& *final(sel) == *old(sel)
                &&& *final(edit) == *old(edit)
            },
    {
        match result {
            Ok(li) => {
                let text: String = around_two(
                    "Added link '",
                    self.link_name.as_str(),
                    "' + joint '",
                    self.joint_name.as_str(),
                    "'",
                );
                sel.link = Some(*li);
                sel.joint = None;
                edit.needs_upload = true;
                self.shown = false;
                self.link_name = free_link.to_owned();
                self.joint_name = free_joint.to_owned();
                text
            },
            Err(e) => {
                let mut text: String = String::from_str("Add error: ");
                text.append(e.as_str());
                text
            },
        }
    }
}

/// The children of a link are the joints that start from it, each once and in order.
pub proof fn law_children_start_from_their_link(
    joints: Seq<crate::robot::JointData>,
    link: Seq<char>,
    n: nat,
)
    requires
        n <= joints.len() <= usize::MAX,
    ensures
        ({
            let all = children_upto(joints, link, n);
            &&& forall|k: int|
                0 <= k < all.len() ==> (#[trigger] all[k]) < n
                    && joints[all[k] as int].parent_link@ == link
            &&& forall|i: int, j: int| 0 <= i < j < all.len() ==> #[trigger] all[i] < #[trigger] all[j]
            &&& forall|i: int|
                0 <= i < n && (#[trigger] joints[i]).parent_link@ == link ==> exists|k: int|
                    0 <= k < all.len() && #[trigger] all[k] == i
        }),
    decreases n,
{
    if n > 0 {
        law_children_start_from_their_link(joints, link, (n - 1) as nat);
        let before = children_upto(joints, link, (n - 1) as nat);
        let all = children_upto(joints, link, n);
        assert forall|i: int|
            0 <= i < n && (#[trigger] joints[i]).parent_link@ == link implies exists|k: int|
            0 <= k < all.len() && #[trigger] all[k] == i by {
            if i < n - 1 {
                let k = choose|k: int| 0 <= k < before.len() && #[trigger] before[k] == i;
                assert(all[k] == before[k]);
            } else {
                assert(all[all.len() - 1] == i);
            }
        }
    }
}

/// The nearest ancestor of a link is the one that its joint starts from; a root has none.
pub proof fn law_ancestors_start_at_the_joint(
    joints: Seq<crate::robot::JointData>,
    link: Seq<char>,
    steps: nat,
)
    requires
        steps > 0,
    ensures
        crate::robot::carrier(joints, link) is None ==> ancestors(joints, link, steps).len() == 0,
        crate::robot::carrier(joints, link) matches Some(ji) ==> ancestors(
            joints,
            link,
            steps,
        ).len() > 0 && ancestors(joints, link, steps)[0] == joints[ji].parent_link@
            && ancestors(joints, link, steps).drop_first() == ancestors(
            joints,
            joints[ji].parent_link@,
            (steps - 1) as nat,
        ),
{
}

/// A new child has the asked for dimensions: halves along a box, and half of its whole length
/// where it is round.
pub proof fn law_new_child_is_shaped_as_asked(a: AddChild)
    ensures
        ({
            let (s, g) = (a.geom_size@, a.shape());
            &&& a.geom_type_idx == 0 ==> g == (GeomData::Box { hx: s[0], hy: s[1], hz: s[2] })
            &&& a.geom_type_idx == 1 ==> (g matches GeomData::Cylinder { radius, half_length }
                && radius == s[0] && 2 * half_length <= s[1] < 2 * half_length + 2)
            &&& a.geom_type_idx == 2 ==> g == (GeomData::Sphere { radius: s[0] })
            &&& a.geom_type_idx == 3 ==> (g matches GeomData::Capsule { radius, half_length }
                && radius == s[0] && 2 * half_length <= s[1] < 2 * half_length + 2)
            &&& a.geom_type_idx > 3 ==> g == (GeomData::Box {
                hx: 50_000_000,
                hy: 50_000_000,
                hz: 50_000_000,
            })
        }),
{
}

/// What was removed is counted and named, and a refusal is told with its reason.
pub proof fn law_removals_are_told(removed: Vec<String>, e: String)
    ensures
        removal_text(Ok(removed)) == "Removed "@ + crate::text::decimal_of(removed@.len())
            + " link(s): "@ + crate::text::joined(crate::text::views(removed@), ", "@),
        removal_text(Err(e)) == "Remove error: "@ + e@,
{
}

} // verus!
