//! What is drawn over the viewport: the toolbar, the indicators, and the contacts
//! gathered by pair.

use vstd::prelude::*;
use vstd::string::*;

use crate::editor::display::{DisplayMode, DisplayModes};
use crate::editor::state::{DragMode, GizmoOp, InteractionMode, OffsetTarget, Selection};
use crate::robot::Vec3;
use crate::text::{
    around, at_or_before, decimal, fixed, long_decimal, nearest_of, same, signed, Places,
};

verus! {

// ---------------------------------------------------------------- view options

/// What the viewport shows. Lengths in nanometres, angles in microradians, the
/// direction of gravity in parts per billion, the size of mass markers in
/// millionths of a metre per kilogram.
pub struct ViewState {
    pub show_com: bool,
    pub show_total_com: bool,
    pub show_support_polygon: bool,
    pub show_joint_axes: bool,
    pub show_ground_plane: bool,
    pub ground_z: i64,
    pub ground_size: i64,
    pub ground_plane_roll: i64,
    pub ground_plane_pitch: i64,
    pub ground_plane_auto: bool,
    pub show_gravity_arrow: bool,
    pub gravity_dir: Vec3,
    pub com_scale: i64,
    pub wireframe: bool,
    pub visual_mode: DisplayMode,
    pub collision_mode: DisplayMode,
    pub link_display_modes: DisplayModes,
}

impl Default for ViewState {
    fn default() -> (r: ViewState)
        ensures
            !r.show_com,
            !r.show_total_com,
            !r.show_support_polygon,
            !r.show_joint_axes,
            !r.show_ground_plane,
            r.ground_z == 0,
            r.ground_size == 2_000_000_000,
            r.ground_plane_roll == 0,
            r.ground_plane_pitch == 0,
            !r.ground_plane_auto,
            r.show_gravity_arrow,
            r.gravity_dir == (Vec3 { x: 0, y: 0, z: (-1_000_000_000) as i64 }),
            r.com_scale == 10_000,
            !r.wireframe,
            r.visual_mode == DisplayMode::Solid,
            r.collision_mode == DisplayMode::Off,
            r.link_display_modes.valid(),
            r.link_display_modes@ == Map::<
                (Seq<char>, crate::editor::display::MeshKind),
                DisplayMode,
            >::empty(),
    {
        ViewState {
            show_com: false,
            show_total_com: false,
            show_support_polygon: false,
            show_joint_axes: false,
            show_ground_plane: false,
            ground_z: 0,
            ground_size: 2_000_000_000,
            ground_plane_roll: 0,
            ground_plane_pitch: 0,
            ground_plane_auto: false,
            show_gravity_arrow: true,
            gravity_dir: Vec3 { x: 0, y: 0, z: -1_000_000_000 },
            com_scale: 10_000,
            wireframe: false,
            visual_mode: DisplayMode::Solid,
            collision_mode: DisplayMode::Off,
            link_display_modes: DisplayModes::new(),
        }
    }
}

// ---------------------------------------------------------------- toolbar

/// What the toolbar is set to.
#[derive(Clone, Copy, PartialEq, Eq, Structural, Debug)]
pub struct Toolbar {
    pub mode: InteractionMode,
    pub target: OffsetTarget,
    pub op: GizmoOp,
}

/// A button of the toolbar.
#[derive(Clone, Copy, PartialEq, Eq, Structural, Debug)]
pub enum ToolButton {
    Mode(InteractionMode),
    Target(OffsetTarget),
    Op(GizmoOp),
}

/// The operations that can be done to a target: a joint has no size.
pub open spec fn offered(target: OffsetTarget, op: GizmoOp) -> bool {
    !(target == OffsetTarget::Joint && op == GizmoOp::Scale)
}

impl Toolbar {
    /// The operation is one that can be done to the target.
    pub open spec fn valid(&self) -> bool {
        offered(self.target, self.op)
    }

    /// The button is shown: targets and operations only while offsets are
    /// adjusted, and only operations that the target has.
    pub open spec fn shows(&self, b: ToolButton) -> bool {
        match b {
            ToolButton::Mode(_) => true,
            ToolButton::Target(_) => self.mode == InteractionMode::OffsetAdjust,
            ToolButton::Op(op) => self.mode == InteractionMode::OffsetAdjust && offered(
                self.target,
                op,
            ),
        }
    }

    /// The toolbar after a click.
    pub open spec fn clicked(&self, b: ToolButton) -> Toolbar {
        match b {
            ToolButton::Mode(mode) => Toolbar { mode, ..*self },
            ToolButton::Target(target) => Toolbar {
                target,
                op: if offered(target, self.op) {
                    self.op
                } else {
                    GizmoOp::Translate
                },
                ..*self
            },
            ToolButton::Op(op) => Toolbar { op, ..*self },
        }
    }

    /// Whether the button is shown.
    pub fn is_shown(&self, b: ToolButton) -> (r: bool)
        ensures
            r == self.shows(b),
    {
        match b {
            ToolButton::Mode(_) => true,
            ToolButton::Target(_) => self.mode == InteractionMode::OffsetAdjust,
            ToolButton::Op(op) => self.mode == InteractionMode::OffsetAdjust && !(self.target
                == OffsetTarget::Joint && op == GizmoOp::Scale),
        }
    }

    /// A button was clicked. Turning to joints drops an operation that they do
    /// not have.
    pub fn click(&mut self, b: ToolButton)
        ensures
            *final(self) == old(self).clicked(b),
    {
        match b {
            ToolButton::Mode(mode) => {
                self.mode = mode;
            },
            ToolButton::Target(target) => {
                self.target = target;
                if target == OffsetTarget::Joint && self.op == GizmoOp::Scale {
                    self.op = GizmoOp::Translate;
                }
            },
            ToolButton::Op(op) => {
                self.op = op;
            },
        }
    }
}

/// No click on a button that is shown selects an operation that the target does
/// not have.
pub proof fn law_toolbar_stays_valid(t: Toolbar, b: ToolButton)
    requires
        t.valid(),
        t.shows(b),
    ensures
        t.clicked(b).valid(),
{
}

/// The icon of the visuals toggle.
pub fn visual_icon(mode: DisplayMode) -> (r: &'static str)
    ensures
        r@ == (match mode {
            DisplayMode::Off => "\u{24e5}"@,
            DisplayMode::Solid => "\u{1f441}"@,
            DisplayMode::Wireframe => "\u{25eb}"@,
            DisplayMode::Transparent => "\u{25d1}"@,
            DisplayMode::FlatShading => "\u{25a7}"@,
            DisplayMode::Points => "\u{2059}"@,
        }),
{
    match mode {
        DisplayMode::Off => "\u{24e5}",
        DisplayMode::Solid => "\u{1f441}",
        DisplayMode::Wireframe => "\u{25eb}",
        DisplayMode::Transparent => "\u{25d1}",
        DisplayMode::FlatShading => "\u{25a7}",
        DisplayMode::Points => "\u{2059}",
    }
}

/// The icon of the collision toggle.
pub fn collision_icon(mode: DisplayMode) -> (r: &'static str)
    ensures
        r@ == (match mode {
            DisplayMode::Off => "\u{24d2}"@,
            DisplayMode::Solid => "\u{1f6e1}"@,
            DisplayMode::Wireframe => "\u{25eb}"@,
            DisplayMode::Transparent => "\u{25d1}"@,
            DisplayMode::FlatShading => "\u{25a7}"@,
            DisplayMode::Points => "\u{2059}"@,
        }),
{
    match mode {
        DisplayMode::Off => "\u{24d2}",
        DisplayMode::Solid => "\u{1f6e1}",
        DisplayMode::Wireframe => "\u{25eb}",
        DisplayMode::Transparent => "\u{25d1}",
        DisplayMode::FlatShading => "\u{25a7}",
        DisplayMode::Points => "\u{2059}",
    }
}

// ---------------------------------------------------------------- indicators

/// How well something runs.
#[derive(Clone, Copy, PartialEq, Eq, Structural, Debug)]
pub enum Band {
    Good,
    Fair,
    Poor,
}

/// The band of a value of which more is better.
pub open spec fn band_above(v: int, good: int, fair: int) -> Band {
    if v >= good {
        Band::Good
    } else if v >= fair {
        Band::Fair
    } else {
        Band::Poor
    }
}

/// The band of the physics rate, as a share of real time in millionths.
pub fn ratio_band(ratio: i64) -> (r: Band)
    ensures
        r == band_above(ratio as int, 900_000, 600_000),
{
    if ratio >= 900_000 {
        Band::Good
    } else if ratio >= 600_000 {
        Band::Fair
    } else {
        Band::Poor
    }
}

/// The band of the frame rate, in millionths of a frame per second.
pub fn fps_band(fps: i64) -> (r: Band)
    ensures
        r == band_above(fps as int, 40_000_000, 25_000_000),
{
    if fps >= 40_000_000 {
        Band::Good
    } else if fps >= 25_000_000 {
        Band::Fair
    } else {
        Band::Poor
    }
}

/// The band of the trunk's yaw, in millionths of a degree to either side.
pub fn yaw_band(yaw: i64) -> (r: Band)
    ensures
        r == (if -5_000_000 <= yaw <= 5_000_000 {
            Band::Good
        } else if -30_000_000 <= yaw <= 30_000_000 {
            Band::Fair
        } else {
            Band::Poor
        }),
{
    if -5_000_000 <= yaw && yaw <= 5_000_000 {
        Band::Good
    } else if -30_000_000 <= yaw && yaw <= 30_000_000 {
        Band::Fair
    } else {
        Band::Poor
    }
}

/// How much of the physics bar is filled, in millionths.
pub fn ratio_fill(ratio: i64) -> (r: i64)
    ensures
        r == (if ratio < 0 {
            0int
        } else if ratio > 1_000_000 {
            1_000_000int
        } else {
            ratio as int
        }),
{
    if ratio < 0 {
        0
    } else if ratio > 1_000_000 {
        1_000_000
    } else {
        ratio
    }
}

/// The whole-body-control indicator. It means something only while the gait is
/// planned by the predictive controller.
pub fn wbc_label(predictive: bool, enabled: bool) -> (r: &'static str)
    ensures
        r@ == (if !predictive {
            "WBC: \u{2014} (CHAMP)"@
        } else if enabled {
            "WBC: ON"@
        } else {
            "WBC: OFF"@
        }),
{
    if !predictive {
        "WBC: \u{2014} (CHAMP)"
    } else if enabled {
        "WBC: ON"
    } else {
        "WBC: OFF"
    }
}

/// A click on the whole-body-control indicator. Returns what the status line
/// says; outside the predictive mode nothing happens.
pub fn click_wbc(predictive: bool, enabled: &mut bool) -> (status: Option<&'static str>)
    ensures
        !predictive ==> status is None && *final(enabled) == *old(enabled),
        predictive ==> {
            &&& *final(enabled) == !*old(enabled)
            &&& status is Some
            &&& status->0@ == (if *final(enabled) {
                "WBC ON \u{2014} torques solved by 3-priority HoQp"@
            } else {
                "WBC OFF \u{2014} Position-PD + \u{3c4}_ff path (proven baseline)"@
            })
        },
{
    if !predictive {
        return None;
    }
    *enabled = !*enabled;
    if *enabled {
        Some("WBC ON \u{2014} torques solved by 3-priority HoQp")
    } else {
        Some("WBC OFF \u{2014} Position-PD + \u{3c4}_ff path (proven baseline)")
    }
}

/// The selected link that gets a marker: not one that is drawn highlighted
/// because it is dragged or under the pointer.
pub fn marked_link(sel: &Selection, dragged: Option<usize>, hovered: Option<usize>) -> (r: Option<
    usize,
>)
    ensures
        r == (if sel.link is Some && (dragged == sel.link || hovered == sel.link) {
            None
        } else {
            sel.link
        }),
{
    match sel.link {
        None => None,
        Some(li) => {
            let lit: bool = match dragged {
                Some(d) => d == li,
                None => false,
            } || match hovered {
                Some(h) => h == li,
                None => false,
            };
            if lit {
                None
            } else {
                Some(li)
            }
        },
    }
}

/// Whether the root of the chain is marked.
pub fn shows_ik_root(mode: InteractionMode, drag_mode: DragMode) -> (r: bool)
    ensures
        r == (mode == InteractionMode::JointDrive && drag_mode == DragMode::InverseKinematics),
{
    mode == InteractionMode::JointDrive && drag_mode == DragMode::InverseKinematics
}

/// What is left of a pulse.
pub fn remaining(duration: u64, elapsed: u64) -> (r: u64)
    ensures
        r == (if elapsed >= duration {
            0
        } else {
            duration - elapsed
        }),
{
    if elapsed >= duration {
        0
    } else {
        duration - elapsed
    }
}

/// The unit that a force is shown in.
#[derive(Clone, Copy, PartialEq, Eq, Structural, Debug)]
pub enum ForceUnit {
    Newton,
    Kilonewton,
    Meganewton,
}

/// The unit of a force given in micronewtons.
pub fn force_unit(mag: u64) -> (r: ForceUnit)
    ensures
        r == (if mag >= 1_000_000_000_000 {
            ForceUnit::Meganewton
        } else if mag >= 1_000_000_000 {
            ForceUnit::Kilonewton
        } else {
            ForceUnit::Newton
        }),
{
    if mag >= 1_000_000_000_000 {
        ForceUnit::Meganewton
    } else if mag >= 1_000_000_000 {
        ForceUnit::Kilonewton
    } else {
        ForceUnit::Newton
    }
}

/// A force, given in micronewtons, as it is shown: in newtons below a kilonewton, and
/// in kilonewtons below a meganewton.
pub open spec fn force_text(mag: nat) -> Seq<char> {
    if mag >= 1_000_000_000_000 {
        crate::text::fixed_of(
            crate::text::nearest(mag, 10_000_000_000),
            crate::text::Places::Two,
        ) + " MN"@
    } else if mag >= 1_000_000_000 {
        crate::text::fixed_of(
            crate::text::nearest(mag, 10_000_000),
            crate::text::Places::Two,
        ) + " kN"@
    } else {
        crate::text::fixed_of(crate::text::nearest(mag, 100_000), crate::text::Places::One) + " N"@
    }
}

/// A force, given in micronewtons, with a unit that keeps it readable.
pub fn format_force(mag: u64) -> (r: String)
    ensures
        r@ == force_text(mag as nat),
{
    match force_unit(mag) {
        ForceUnit::Meganewton => {
            let mut r: String = fixed(nearest_of(mag as u128, 10_000_000_000), Places::Two);
            r.append(" MN");
            r
        },
        ForceUnit::Kilonewton => {
            let mut r: String = fixed(nearest_of(mag as u128, 10_000_000), Places::Two);
            r.append(" kN");
            r
        },
        ForceUnit::Newton => {
            let mut r: String = fixed(nearest_of(mag as u128, 100_000), Places::One);
            r.append(" N");
            r
        },
    }
}

/// What is written beside a pulse's force, in micronewtons, with what is left of the
/// pulse, in microseconds.
pub fn pulse_label(force: u64, left: u64) -> (r: String)
    ensures
        r@ == crate::text::fixed_of(
            crate::text::nearest(force as nat, 100_000),
            crate::text::Places::One,
        ) + " N \u{b7} "@ + crate::text::fixed_of(
            crate::text::nearest(left as nat, 10_000),
            crate::text::Places::Two,
        ) + "s"@,
{
    let mut r: String = fixed(nearest_of(force as u128, 100_000), Places::One);
    r.append(" N \u{b7} ");
    r.append(fixed(nearest_of(left as u128, 10_000), Places::Two).as_str());
    r.append("s");
    r
}

/// What is written beside a pulse's torque, in micronewton metres.
pub fn torque_label(torque: u64) -> (r: String)
    ensures
        r@ == crate::text::fixed_of(
            crate::text::nearest(torque as nat, 10_000),
            crate::text::Places::Two,
        ) + " N\u{b7}m"@,
{
    let mut r: String = fixed(nearest_of(torque as u128, 10_000), Places::Two);
    r.append(" N\u{b7}m");
    r
}

// ------------------------------------------------------------ rate indicator

/// The physics rate: the share of real time in millionths, and the rate that it is
/// a share of, in hertz.
pub fn ratio_label(ratio: u64, target_hz: u32) -> (r: String)
    ensures
        r@ == "MuJoCo "@ + crate::text::fixed_of(
            crate::text::nearest(ratio as nat, 10_000),
            crate::text::Places::Two,
        ) + "  ("@ + crate::text::decimal_of(
            crate::text::nearest((ratio * target_hz) as nat, 1_000_000),
        ) + " / "@ + crate::text::decimal_of(target_hz as nat) + " Hz)"@,
{
    proof {
        assert(0 <= ratio * target_hz <= 0xffff_ffff_ffff_ffff * 0xffff_ffff) by (nonlinear_arith)
            requires
                0 <= ratio <= 0xffff_ffff_ffff_ffff,
                0 <= target_hz <= 0xffff_ffff,
        ;
    }
    let mut r: String = String::from_str("MuJoCo ");
    r.append(fixed(nearest_of(ratio as u128, 10_000), Places::Two).as_str());
    r.append("  (");
    let realised: u128 = ratio as u128 * target_hz as u128;
    r.append(long_decimal(nearest_of(realised, 1_000_000)).as_str());
    r.append(" / ");
    r.append(long_decimal(target_hz as u128).as_str());
    r.append(" Hz)");
    r
}

/// The frame rate, in millionths of a frame per second.
pub fn fps_label(fps: u64) -> (r: String)
    ensures
        r@ == "UI  "@ + crate::text::decimal_of(crate::text::nearest(fps as nat, 1_000_000))
            + " FPS"@,
{
    let mut r: String = String::from_str("UI  ");
    r.append(long_decimal(nearest_of(fps as u128, 1_000_000)).as_str());
    r.append(" FPS");
    r
}

/// Three numbers with two places each, as they are shown.
pub open spec fn three_of(v: Vec3, step: nat) -> Seq<char> {
    "("@ + crate::text::signed_of(v.x as int, step, crate::text::Places::Two) + ", "@
        + crate::text::signed_of(v.y as int, step, crate::text::Places::Two) + ", "@
        + crate::text::signed_of(v.z as int, step, crate::text::Places::Two) + ")"@
}

fn three(v: &Vec3, step: u64) -> (r: String)
    requires
        1 < step,
    ensures
        r@ == three_of(*v, step as nat),
{
    let mut r: String = String::from_str("(");
    r.append(signed(v.x, step, Places::Two).as_str());
    r.append(", ");
    r.append(signed(v.y, step, Places::Two).as_str());
    r.append(", ");
    r.append(signed(v.z, step, Places::Two).as_str());
    r.append(")");
    r
}

/// Where the body is, in nanometres, and where it faces, in millionths of a degree.
pub fn body_label(yaw: i64, pos: &Vec3) -> (r: String)
    ensures
        r@ == "Body: yaw="@ + crate::text::signed_of(
            yaw as int,
            1_000_000,
            crate::text::Places::Zero,
        ) + "\u{b0}  pos="@ + three_of(*pos, 10_000_000),
{
    let mut r: String = String::from_str("Body: yaw=");
    r.append(signed(yaw, 1_000_000, Places::Zero).as_str());
    r.append("\u{b0}  pos=");
    r.append(three(pos, 10_000_000).as_str());
    r
}

/// How fast the body moves, in nanometres per second.
pub fn velocity_label(vel: &Vec3) -> (r: String)
    ensures
        r@ == "v="@ + three_of(*vel, 10_000_000) + " m/s"@,
{
    let mut r: String = String::from_str("v=");
    r.append(three(vel, 10_000_000).as_str());
    r.append(" m/s");
    r
}

// ---------------------------------------------------------------- contacts

/// A contact as the plant reports it; the world has the empty name. Position in
/// nanometres, force in micronewtons.
pub struct Contact {
    pub body1: String,
    pub body2: String,
    pub is_self: bool,
    pub pos: Vec3,
    pub force: Vec3,
}

/// All contacts between two bodies, in whichever order they were named.
pub struct PairGroup {
    pub body1: String,
    pub body2: String,
    pub is_self: bool,
    pub n: usize,
    pub pos_sum: [i128; 3],
    pub force_sum: [i128; 3],
}

/// A group as a value of contracts.
pub struct GroupView {
    pub key: (Seq<char>, Seq<char>),
    pub is_self: bool,
    pub n: int,
    pub pos: (int, int, int),
    pub force: (int, int, int),
}

impl View for PairGroup {
    type V = GroupView;

    open spec fn view(&self) -> GroupView {
        GroupView {
            key: (self.body1@, self.body2@),
            is_self: self.is_self,
            n: self.n as int,
            pos: (self.pos_sum@[0] as int, self.pos_sum@[1] as int, self.pos_sum@[2] as int),
            force: (
                self.force_sum@[0] as int,
                self.force_sum@[1] as int,
                self.force_sum@[2] as int,
            ),
        }
    }
}

impl PairGroup {
    /// The middle of the contacts, rounded down.
    pub fn centroid(&self) -> (r: (i128, i128, i128))
        requires
            self.n > 0,
        ensures
            r.0 == self@.pos.0 / self@.n,
            r.1 == self@.pos.1 / self@.n,
            r.2 == self@.pos.2 / self@.n,
    {
        (
            share(self.pos_sum[0], self.n),
            share(self.pos_sum[1], self.n),
            share(self.pos_sum[2], self.n),
        )
    }
}

fn share(sum: i128, n: usize) -> (r: i128)
    requires
        n > 0,
    ensures
        r == sum as int / n as int,
{
    proof {
        assert(i128::MIN <= sum as int / n as int <= i128::MAX) by (nonlinear_arith)
            requires
                n > 0,
                i128::MIN <= sum <= i128::MAX,
        ;
    }
    match sum.checked_div_euclid(n as i128) {
        Some(q) => q,
        None => 0,
    }
}

/// The two bodies of a contact in their canonical order.
pub open spec fn pair_key(c: Contact) -> (Seq<char>, Seq<char>) {
    if crate::text::lex_le(c.body1@, c.body2@) {
        (c.body1@, c.body2@)
    } else {
        (c.body2@, c.body1@)
    }
}

/// The group of a pair.
pub open spec fn find_group(groups: Seq<GroupView>, key: (Seq<char>, Seq<char>), n: nat) -> Option<
    int,
>
    decreases n,
{
    if n == 0 || n > groups.len() {
        None
    } else {
        match find_group(groups, key, (n - 1) as nat) {
            Some(i) => Some(i),
            None => if groups[n - 1].key == key {
                Some(n - 1)
            } else {
                None
            },
        }
    }
}

/// The groups with one more contact: it joins the group of its pair, or starts
/// it.
pub open spec fn with_contact(groups: Seq<GroupView>, c: Contact) -> Seq<GroupView> {
    match find_group(groups, pair_key(c), groups.len()) {
        Some(i) => {
            let g = groups[i];
            groups.update(
                i,
                GroupView {
                    n: g.n + 1,
                    pos: (g.pos.0 + c.pos.x, g.pos.1 + c.pos.y, g.pos.2 + c.pos.z),
                    force: (g.force.0 + c.force.x, g.force.1 + c.force.y, g.force.2 + c.force.z),
                    ..g
                },
            )
        },
        None => groups.push(
            GroupView {
                key: pair_key(c),
                is_self: c.is_self,
                n: 1,
                pos: (c.pos.x as int, c.pos.y as int, c.pos.z as int),
                force: (c.force.x as int, c.force.y as int, c.force.z as int),
            },
        ),
    }
}

/// The groups of the first `n` contacts.
pub open spec fn groups_of(contacts: Seq<Contact>, n: nat) -> Seq<GroupView>
    decreases n,
{
    if n == 0 || n > contacts.len() {
        Seq::empty()
    } else {
        with_contact(groups_of(contacts, (n - 1) as nat), contacts[n - 1])
    }
}

pub open spec fn group_views(groups: Seq<PairGroup>) -> Seq<GroupView> {
    groups.map_values(|g: PairGroup| g@)
}

fn group_index(groups: &Vec<PairGroup>, a: &str, b: &str) -> (r: Option<usize>)
    ensures
        find_group(group_views(groups@), (a@, b@), groups@.len()) == match r {
            Some(i) => Some(i as int),
            None => None,
        },
        r matches Some(i) ==> i < groups@.len(),
{
    let ghost views = group_views(groups@);
    let mut i: usize = 0;
    while i < groups.len()
        invariant
            i <= groups.len(),
            views == group_views(groups@),
            find_group(views, (a@, b@), i as nat) is None,
        decreases groups.len() - i,
    {
        proof {
            assert(views[i as int] == groups@[i as int]@);
        }
        if same(groups[i].body1.as_str(), a) && same(groups[i].body2.as_str(), b) {
            proof {
                lemma_found_first(views, (a@, b@), i as nat, views.len());
            }
            return Some(i);
        }
        i += 1;
    }
    None
}

proof fn lemma_found_first(groups: Seq<GroupView>, key: (Seq<char>, Seq<char>), i: nat, n: nat)
    requires
        i < n <= groups.len(),
        find_group(groups, key, i) is None,
        groups[i as int].key == key,
    ensures
        find_group(groups, key, n) == Some(i as int),
    decreases n,
{
    if n > i + 1 {
        lemma_found_first(groups, key, i, (n - 1) as nat);
    }
}

/// The sums of a group of `n` contacts are within what `n` contacts can add up
/// to.
spec fn bounded(g: GroupView) -> bool {
    &&& within(g.pos.0, g.n)
    &&& within(g.pos.1, g.n)
    &&& within(g.pos.2, g.n)
    &&& within(g.force.0, g.n)
    &&& within(g.force.1, g.n)
    &&& within(g.force.2, g.n)
}

spec fn within(v: int, n: int) -> bool {
    -(n * 0x8000_0000_0000_0000) <= v <= n * 0x8000_0000_0000_0000
}

proof fn lemma_room(n: int)
    requires
        0 <= n < 0xffff_ffff_ffff_ffff,
    ensures
        (n + 1) * 0x8000_0000_0000_0000 == n * 0x8000_0000_0000_0000 + 0x8000_0000_0000_0000,
        (n + 1) * 0x8000_0000_0000_0000 <= i128::MAX,
{
}

/// Gathers the contacts by the pair of bodies, in the order in which the pairs
/// first occur.
pub fn group_contacts(contacts: &Vec<Contact>) -> (r: Vec<PairGroup>)
    ensures
        group_views(r@) == groups_of(contacts@, contacts@.len()),
{
    let mut out: Vec<PairGroup> = Vec::new();
    let mut i: usize = 0;
    proof {
        assert(group_views(out@) =~= Seq::empty());
    }
    while i < contacts.len()
        invariant
            i <= contacts.len(),
            group_views(out@) == groups_of(contacts@, i as nat),
            forall|k: int| 0 <= k < out@.len() ==> 0 < (#[trigger] out@[k]).n <= i,
            forall|k: int| 0 <= k < out@.len() ==> bounded((#[trigger] out@[k])@),
        decreases contacts.len() - i,
    {
        let c: &Contact = &contacts[i];
        let ordered: bool = at_or_before(c.body1.as_str(), c.body2.as_str());
        let a: &str = if ordered {
            c.body1.as_str()
        } else {
            c.body2.as_str()
        };
        let b: &str = if ordered {
            c.body2.as_str()
        } else {
            c.body1.as_str()
        };
        let ghost before = out@;
        let p: Vec3 = c.pos;
        let f: Vec3 = c.force;
        match group_index(&out, a, b) {
            Some(k) => {
                proof {
                    assert(group_views(before)[k as int] == before[k as int]@);
                    assert(bounded(before[k as int]@));
                    lemma_room(before[k as int].n as int);
                }
                let old_pos: [i128; 3] = out[k].pos_sum;
                let old_force: [i128; 3] = out[k].force_sum;
                let n: usize = out[k].n + 1;
                out[k].pos_sum = [
                    old_pos[0] + p.x as i128,
                    old_pos[1] + p.y as i128,
                    old_pos[2] + p.z as i128,
                ];
                out[k].force_sum = [
                    old_force[0] + f.x as i128,
                    old_force[1] + f.y as i128,
                    old_force[2] + f.z as i128,
                ];
                out[k].n = n;
                proof {
                    assert(group_views(out@) =~= with_contact(group_views(before), *c));
                }
            },
            None => {
                out.push(
                    PairGroup {
                        body1: a.to_owned(),
                        body2: b.to_owned(),
                        is_self: c.is_self,
                        n: 1,
                        pos_sum: [p.x as i128, p.y as i128, p.z as i128],
                        force_sum: [f.x as i128, f.y as i128, f.z as i128],
                    },
                );
                proof {
                    assert(group_views(out@) =~= with_contact(group_views(before), *c));
                }
            },
        }
        i += 1;
    }
    out
}

/// How many contacts the first `k` groups hold.
pub open spec fn grouped(groups: Seq<GroupView>, k: nat) -> int
    decreases k,
{
    if k == 0 || k > groups.len() {
        0
    } else {
        grouped(groups, (k - 1) as nat) + groups[k - 1].n
    }
}

proof fn lemma_grouped_update(groups: Seq<GroupView>, i: int, g: GroupView, k: nat)
    requires
        0 <= i < groups.len(),
        k <= groups.len(),
    ensures
        grouped(groups.update(i, g), k) == grouped(groups, k) + (if i < k {
            g.n - groups[i].n
        } else {
            0
        }),
    decreases k,
{
    if k > 0 {
        lemma_grouped_update(groups, i, g, (k - 1) as nat);
    }
}

proof fn lemma_grouped_push(groups: Seq<GroupView>, g: GroupView, k: nat)
    requires
        k <= groups.len(),
    ensures
        grouped(groups.push(g), k) == grouped(groups, k),
    decreases k,
{
    if k > 0 {
        lemma_grouped_push(groups, g, (k - 1) as nat);
    }
}

proof fn lemma_find_group(groups: Seq<GroupView>, key: (Seq<char>, Seq<char>), n: nat)
    requires
        n <= groups.len(),
    ensures
        match find_group(groups, key, n) {
            Some(i) => 0 <= i < n && groups[i].key == key,
            None => forall|i: int| 0 <= i < n ==> (#[trigger] groups[i]).key != key,
        },
    decreases n,
{
    if n > 0 {
        lemma_find_group(groups, key, (n - 1) as nat);
    }
}

/// Every contact is counted in one group, and no two groups are of the same
/// pair.
pub proof fn law_contacts_are_grouped_once(contacts: Seq<Contact>, n: nat)
    requires
        n <= contacts.len(),
    ensures
        grouped(groups_of(contacts, n), groups_of(contacts, n).len()) == n,
        forall|i: int, j: int|
            0 <= i < j < groups_of(contacts, n).len() ==> (#[trigger] groups_of(contacts, n)[i]).key
                != (#[trigger] groups_of(contacts, n)[j]).key,
    decreases n,
{
    if n > 0 {
        law_contacts_are_grouped_once(contacts, (n - 1) as nat);
        let before = groups_of(contacts, (n - 1) as nat);
        let now = groups_of(contacts, n);
        let c = contacts[n - 1];
        lemma_find_group(before, pair_key(c), before.len());
        match find_group(before, pair_key(c), before.len()) {
            Some(i) => {
                lemma_grouped_update(before, i, now[i], before.len());
                assert forall|a: int, b: int| 0 <= a < b < now.len() implies (
                #[trigger] now[a]).key != (#[trigger] now[b]).key by {
                    assert(now[a].key == before[a].key);
                    assert(now[b].key == before[b].key);
                }
            },
            None => {
                lemma_grouped_push(before, now.last(), before.len());
                assert forall|a: int, b: int| 0 <= a < b < now.len() implies (
                #[trigger] now[a]).key != (#[trigger] now[b]).key by {
                    assert(now[a] == before[a]);
                    if b < before.len() {
                        assert(now[b] == before[b]);
                    }
                }
            },
        }
    }
}

/// How a pair is called next to its arrow; the world against itself is not.
pub open spec fn marker_pair(a: Seq<char>, b: Seq<char>) -> Seq<char> {
    if a.len() == 0 && b.len() == 0 {
        Seq::empty()
    } else if a.len() == 0 {
        "world\u{2194}"@ + b
    } else if b.len() == 0 {
        a + "\u{2194}world"@
    } else {
        a + "\u{2194}"@ + b
    }
}

/// How many contacts an arrow stands for, where it is more than one.
pub open spec fn marker_count(n: int) -> Seq<char> {
    if n > 1 {
        " \u{d7}"@ + crate::text::decimal_of(n as nat)
    } else {
        Seq::empty()
    }
}

/// The label of an arrow. `force` is the force as displayed.
pub fn marker_label(group: &PairGroup, force: &str) -> (r: String)
    ensures
        ({
            let pair = marker_pair(group.body1@, group.body2@);
            r@ == (if pair.len() == 0 {
                force@ + marker_count(group.n as int)
            } else {
                force@ + "  "@ + pair + marker_count(group.n as int)
            })
        }),
{
    let a: &str = group.body1.as_str();
    let b: &str = group.body2.as_str();
    let pair: String = if a.is_empty() && b.is_empty() {
        let empty: String = String::new();
        proof {
            assert(empty@ =~= Seq::empty());
        }
        empty
    } else if a.is_empty() {
        let mut t: String = String::from_str("world\u{2194}");
        t.append(b);
        t
    } else if b.is_empty() {
        let mut t: String = String::from_str(a);
        t.append("\u{2194}world");
        t
    } else {
        around(a, "\u{2194}", b)
    };
    let mut text: String = if pair.as_str().is_empty() {
        proof {
            assert(pair@.len() == 0);
        }
        String::from_str(force)
    } else {
        around(force, "  ", pair.as_str())
    };
    if group.n > 1 {
        let mut count: String = String::from_str(" \u{d7}");
        count.append(decimal(group.n).as_str());
        text.append(count.as_str());
    } else {
        proof {
            assert(text@ + Seq::<char>::empty() =~= text@);
        }
    }
    text
}

/// The modes are always offered; targets and operations while offsets are adjusted, where a
/// joint cannot be scaled.
pub proof fn law_offered_tools(t: Toolbar, m: InteractionMode, target: OffsetTarget, op: GizmoOp)
    ensures
        t.shows(ToolButton::Mode(m)),
        t.shows(ToolButton::Target(target)) <==> t.mode == InteractionMode::OffsetAdjust,
        t.shows(ToolButton::Op(op)) <==> t.mode == InteractionMode::OffsetAdjust && (t.target
            != OffsetTarget::Joint || op != GizmoOp::Scale),
{
}

/// A clicked tool is the chosen one and leaves the others, but that a target which cannot be
/// scaled goes back to moving.
pub proof fn law_clicked_tool_is_chosen(
    t: Toolbar,
    m: InteractionMode,
    target: OffsetTarget,
    op: GizmoOp,
)
    ensures
        t.clicked(ToolButton::Mode(m)) == (Toolbar { mode: m, ..t }),
        t.clicked(ToolButton::Op(op)) == (Toolbar { op, ..t }),
        t.clicked(ToolButton::Target(target)).target == target,
        t.clicked(ToolButton::Target(target)).mode == t.mode,
        target != OffsetTarget::Joint || t.op != GizmoOp::Scale ==> t.clicked(
            ToolButton::Target(target),
        ).op == t.op,
        target == OffsetTarget::Joint && t.op == GizmoOp::Scale ==> t.clicked(
            ToolButton::Target(target),
        ).op == GizmoOp::Translate,
{
}

/// A value is good from the one bound on, fair from the other on, and poor below both.
pub proof fn law_bands(v: int, good: int, fair: int)
    requires
        fair <= good,
    ensures
        band_above(v, good, fair) == Band::Good <==> v >= good,
        band_above(v, good, fair) == Band::Fair <==> fair <= v < good,
        band_above(v, good, fair) == Band::Poor <==> v < fair,
{
}

/// A force is told in newtons below a thousand of them, in thousands below a million, and in
/// millions from there on, with one place or two.
pub proof fn law_force_units(mag: nat)
    ensures
        mag < 1_000_000_000 ==> force_text(mag) == crate::text::fixed_of(
            crate::text::nearest(mag, 100_000),
            crate::text::Places::One,
        ) + " N"@,
        1_000_000_000 <= mag < 1_000_000_000_000 ==> force_text(mag) == crate::text::fixed_of(
            crate::text::nearest(mag, 10_000_000),
            crate::text::Places::Two,
        ) + " kN"@,
        mag >= 1_000_000_000_000 ==> force_text(mag) == crate::text::fixed_of(
            crate::text::nearest(mag, 10_000_000_000),
            crate::text::Places::Two,
        ) + " MN"@,
{
}

/// A pair of bodies has one key, whichever of them is named first.
pub proof fn law_pairs_have_one_key(a: Contact, b: Contact)
    requires
        a.body1@ == b.body2@,
        a.body2@ == b.body1@,
    ensures
        pair_key(a) == pair_key(b),
        pair_key(a) == (a.body1@, a.body2@) || pair_key(a) == (a.body2@, a.body1@),
{
    let (x, y) = (a.body1@, a.body2@);
    lemma_order_is_decided(x, y);
}

proof fn lemma_characters_differ(p: char, q: char)
    requires
        p != q,
    ensures
        p as u32 != q as u32,
{
}

proof fn lemma_order_is_decided(x: Seq<char>, y: Seq<char>)
    ensures
        x != y ==> (crate::text::lex_le(x, y) <==> !crate::text::lex_le(y, x)),
    decreases x.len(),
{
    if x.len() > 0 && y.len() > 0 {
        if x[0] == y[0] {
            lemma_order_is_decided(x.drop_first(), y.drop_first());
            if x.drop_first() == y.drop_first() {
                assert(x =~= seq![x[0]] + x.drop_first());
                assert(y =~= seq![y[0]] + y.drop_first());
                assert(x =~= y);
            }
        } else {
            lemma_characters_differ(x[0], y[0]);
        }
    } else if x.len() == 0 && y.len() == 0 {
        assert(x =~= y);
    }
}

/// A contact joins the group of its pair, adding itself, its place and its force, and leaves
/// every other group; where its pair has none it starts one.
pub proof fn law_contact_joins_its_pair(groups: Seq<GroupView>, c: Contact)
    ensures
        ({
            let now = with_contact(groups, c);
            let known = exists|i: int| 0 <= i < groups.len() && (#[trigger] groups[i]).key
                == pair_key(c);
            &&& known ==> now.len() == groups.len()
            &&& !known ==> now.len() == groups.len() + 1 && now.last().key == pair_key(c)
                && now.last().n == 1 && now.last().is_self == c.is_self && now.last().force == (
                c.force.x as int,
                c.force.y as int,
                c.force.z as int,
            ) && now.last().pos == (c.pos.x as int, c.pos.y as int, c.pos.z as int)
            &&& forall|i: int|
                0 <= i < groups.len() && (#[trigger] groups[i]).key != pair_key(c) ==> now[i]
                    == groups[i]
            &&& forall|i: int|
                0 <= i < groups.len() && (#[trigger] groups[i]).key == pair_key(c) && (forall|j:
                    int|
                    0 <= j < i ==> (#[trigger] groups[j]).key != pair_key(c)) ==> {
                    &&& now[i].key == groups[i].key && now[i].is_self == groups[i].is_self
                    &&& now[i].n == groups[i].n + 1
                    &&& now[i].force.0 - groups[i].force.0 == c.force.x
                    &&& now[i].force.1 - groups[i].force.1 == c.force.y
                    &&& now[i].force.2 - groups[i].force.2 == c.force.z
                    &&& now[i].pos.0 - groups[i].pos.0 == c.pos.x
                    &&& now[i].pos.1 - groups[i].pos.1 == c.pos.y
                    &&& now[i].pos.2 - groups[i].pos.2 == c.pos.z
                }
        }),
{
    lemma_group_is_found(groups, pair_key(c), groups.len());
}

proof fn lemma_group_is_found(groups: Seq<GroupView>, key: (Seq<char>, Seq<char>), n: nat)
    requires
        n <= groups.len(),
    ensures
        find_group(groups, key, n) matches Some(i) ==> 0 <= i < n && groups[i].key == key && (
        forall|j: int| 0 <= j < i ==> (#[trigger] groups[j]).key != key),
        find_group(groups, key, n) is None ==> forall|j: int|
            0 <= j < n ==> (#[trigger] groups[j]).key != key,
    decreases n,
{
    if n > 0 {
        lemma_group_is_found(groups, key, (n - 1) as nat);
    }
}

/// A marker names both bodies, the world where one has no name, and how many contacts there
/// are where there are several.
pub proof fn law_markers_name_both_bodies(a: Seq<char>, b: Seq<char>, n: int)
    ensures
        a.len() > 0 && b.len() > 0 ==> marker_pair(a, b) == a + "\u{2194}"@ + b,
        a.len() == 0 && b.len() > 0 ==> marker_pair(a, b) == "world\u{2194}"@ + b,
        a.len() > 0 && b.len() == 0 ==> marker_pair(a, b) == a + "\u{2194}world"@,
        n > 1 ==> marker_count(n) == " \u{d7}"@ + crate::text::decimal_of(n as nat),
        n <= 1 ==> marker_count(n).len() == 0,
{
}

/// A place or a force is told by its three parts in order, each with its sign.
pub proof fn law_three_parts_are_told(v: Vec3, step: nat)
    ensures
        three_of(v, step) == "("@ + crate::text::signed_of(
            v.x as int,
            step,
            crate::text::Places::Two,
        ) + ", "@ + crate::text::signed_of(v.y as int, step, crate::text::Places::Two) + ", "@
            + crate::text::signed_of(v.z as int, step, crate::text::Places::Two) + ")"@,
{
}

} // verus!
