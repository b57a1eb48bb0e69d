//! The small pictures in the corner of the viewport: the world's axes, and gravity
//! against them.
//!
//! Spots on the screen are in thousandths of a pixel, from the top left. Directions
//! and the rows of the view matrix are in parts per billion.

use vstd::prelude::*;
use vstd::string::*;

use crate::order::descending;
use crate::robot::Vec3;
use crate::text::{fixed, nearest_of, Places};

verus! {

/// A spot on the screen.
#[derive(Clone, Copy, PartialEq, Eq, Structural, Debug)]
pub struct Spot {
    pub x: i64,
    pub y: i64,
}

/// No spot is further out than this, and no line longer.
pub const MAX_SPOT: i64 = 0x100_0000_0000;

pub const MAX_LINE: i64 = 0x1_0000_0000;

impl Spot {
    pub open spec fn within(self, most: int) -> bool {
        -most <= self.x <= most && -most <= self.y <= most
    }
}

/// The rotation of the view matrix: which directions of the world are to the right
/// and up on the screen, and towards the eye.
#[derive(Clone, Copy, PartialEq, Eq, Structural, Debug)]
pub struct ViewRows {
    pub right: Vec3,
    pub up: Vec3,
    pub back: Vec3,
}

/// No component of a direction is larger than this; a true one is at most a
/// billion.
pub const MAX_COMPONENT: i64 = 0x8000_0000;

/// The components of a direction.
pub open spec fn is_direction(v: Vec3) -> bool {
    &&& -MAX_COMPONENT <= v.x <= MAX_COMPONENT
    &&& -MAX_COMPONENT <= v.y <= MAX_COMPONENT
    &&& -MAX_COMPONENT <= v.z <= MAX_COMPONENT
}

impl ViewRows {
    pub open spec fn valid(self) -> bool {
        is_direction(self.right) && is_direction(self.up) && is_direction(self.back)
    }
}

/// How much of a direction lies along another.
pub open spec fn along(a: Vec3, b: Vec3) -> int {
    a.x * b.x + a.y * b.y + a.z * b.z
}

/// A length of `len` along a direction, as far as a row of the view shows it.
pub open spec fn shown(row: Vec3, dir: Vec3, len: int) -> int {
    (len * along(row, dir)) / 1_000_000_000_000_000_000
}

/// Where a line from `centre` in a direction of the world ends on the screen. Up in
/// the world's picture is up on the screen, which is towards smaller `y`.
pub open spec fn is_tip(view: ViewRows, centre: Spot, dir: Vec3, len: int, tip: Spot) -> bool {
    &&& tip.x == centre.x + shown(view.right, dir, len)
    &&& tip.y == centre.y - shown(view.up, dir, len)
}

proof fn lemma_component(a: int, b: int)
    requires
        -MAX_COMPONENT <= a <= MAX_COMPONENT,
        -MAX_COMPONENT <= b <= MAX_COMPONENT,
    ensures
        -0x4000_0000_0000_0000 <= a * b <= 0x4000_0000_0000_0000,
{
    assert(-0x4000_0000_0000_0000 <= a * b <= 0x4000_0000_0000_0000) by (nonlinear_arith)
        requires
            -0x8000_0000 <= a <= 0x8000_0000,
            -0x8000_0000 <= b <= 0x8000_0000,
    ;
}

fn shown_of(row: &Vec3, dir: &Vec3, len: i64) -> (r: i64)
    requires
        is_direction(*row),
        is_direction(*dir),
        0 <= len <= MAX_LINE,
    ensures
        r == shown(*row, *dir, len as int),
        -0x10_0000_0000 <= r <= 0x10_0000_0000,
{
    proof {
        lemma_component(row.x as int, dir.x as int);
        lemma_component(row.y as int, dir.y as int);
        lemma_component(row.z as int, dir.z as int);
    }
    let a: i128 = row.x as i128 * dir.x as i128 + row.y as i128 * dir.y as i128 + row.z as i128
        * dir.z as i128;
    proof {
        assert(-(0x1_0000_0000 * 0xc000_0000_0000_0000) <= len * a <= 0x1_0000_0000
            * 0xc000_0000_0000_0000) by (nonlinear_arith)
            requires
                0 <= len <= 0x1_0000_0000,
                -0xc000_0000_0000_0000 <= a <= 0xc000_0000_0000_0000,
        ;
    }
    let v: i128 = len as i128 * a;
    match v.checked_div_euclid(1_000_000_000_000_000_000) {
        Some(q) => q as i64,
        None => 0,
    }
}

/// The end of a line of `len` from `centre` in a direction of the world.
pub fn on_screen(view: &ViewRows, centre: Spot, dir: &Vec3, len: i64) -> (r: Spot)
    requires
        view.valid(),
        centre.within(MAX_SPOT as int),
        is_direction(*dir),
        0 <= len <= MAX_LINE,
    ensures
        is_tip(*view, centre, *dir, len as int, r),
        r.within(2 * MAX_SPOT),
{
    Spot {
        x: centre.x + shown_of(&view.right, dir, len),
        y: centre.y - shown_of(&view.up, dir, len),
    }
}

/// The `i`-th axis of the world.
pub open spec fn world_axis(i: int) -> Vec3 {
    if i == 0 {
        Vec3 { x: 1_000_000_000, y: 0, z: 0 }
    } else if i == 1 {
        Vec3 { x: 0, y: 1_000_000_000, z: 0 }
    } else {
        Vec3 { x: 0, y: 0, z: 1_000_000_000 }
    }
}

/// An axis of the world and where its line ends.
#[derive(Clone, Copy, PartialEq, Eq, Structural, Debug)]
pub struct AxisMark {
    pub axis: usize,
    pub tip: Spot,
}

/// How near to the eye the tip of each axis is.
pub open spec fn depths(view: ViewRows) -> Seq<i128> {
    seq![view.back.x as i128, view.back.y as i128, view.back.z as i128]
}

/// The axes in the order in which they are drawn, by how near their tips are.
pub fn axis_marks(view: &ViewRows, centre: Spot, len: i64) -> (r: Vec<AxisMark>)
    requires
        view.valid(),
        centre.within(MAX_SPOT as int),
        0 <= len <= MAX_LINE,
    ensures
        r@.len() == 3,
        crate::order::is_descending_order(
            depths(*view),
            r@.map_values(|m: AxisMark| m.axis),
        ),
        forall|p: int|
            0 <= p < 3 ==> is_tip(
                *view,
                centre,
                world_axis((#[trigger] r@[p]).axis as int),
                len as int,
                r@[p].tip,
            ),
{
    let mut keys: Vec<i128> = Vec::new();
    keys.push(view.back.x as i128);
    keys.push(view.back.y as i128);
    keys.push(view.back.z as i128);
    proof {
        assert(keys@ =~= depths(*view));
    }
    let order: Vec<usize> = descending(&keys);
    let mut out: Vec<AxisMark> = Vec::new();
    while out.len() < order.len()
        invariant
            view.valid(),
            centre.within(MAX_SPOT as int),
            0 <= len <= MAX_LINE,
            order@.len() == 3,
            out@.len() <= order@.len(),
            forall|p: int| 0 <= p < order@.len() ==> (#[trigger] order@[p]) < 3,
            forall|p: int| 0 <= p < out@.len() ==> (#[trigger] out@[p]).axis == order@[p],
            forall|p: int|
                0 <= p < out@.len() ==> is_tip(
                    *view,
                    centre,
                    world_axis((#[trigger] out@[p]).axis as int),
                    len as int,
                    out@[p].tip,
                ),
        decreases order.len() - out.len(),
    {
        let axis: usize = order[out.len()];
        let dir: Vec3 = if axis == 0 {
            Vec3 { x: 1_000_000_000, y: 0, z: 0 }
        } else if axis == 1 {
            Vec3 { x: 0, y: 1_000_000_000, z: 0 }
        } else {
            Vec3 { x: 0, y: 0, z: 1_000_000_000 }
        };
        let tip: Spot = on_screen(view, centre, &dir, len);
        out.push(AxisMark { axis, tip });
    }
    proof {
        assert(out@.map_values(|m: AxisMark| m.axis) =~= order@);
    }
    out
}

// ---------------------------------------------------------------- dashes

/// `d` parts of `n` on the way from `a` to `b`.
pub open spec fn part_way(a: int, b: int, d: int, n: int) -> int {
    a + ((b - a) * d) / n
}

/// A piece of a dashed line.
#[derive(Clone, Copy, PartialEq, Eq, Structural, Debug)]
pub struct Dash {
    pub from: Spot,
    pub to: Spot,
}

/// `s` is `d` parts of `n` on the way.
pub open spec fn is_on_the_way(a: Spot, b: Spot, d: int, n: int, s: Spot) -> bool {
    &&& s.x == part_way(a.x as int, b.x as int, d, n)
    &&& s.y == part_way(a.y as int, b.y as int, d, n)
}

fn part_way_of(a: i64, b: i64, d: usize, n: usize) -> (r: i64)
    requires
        -2 * MAX_SPOT <= a <= 2 * MAX_SPOT,
        -2 * MAX_SPOT <= b <= 2 * MAX_SPOT,
        d <= n,
        0 < n,
    ensures
        r == part_way(a as int, b as int, d as int, n as int),
{
    proof {
        lemma_part_way(a as int, b as int, d as int, n as int);
        let w = b - a;
        assert(-(0x400_0000_0000 * 0x1_0000_0000_0000_0000) <= w * d <= 0x400_0000_0000
            * 0x1_0000_0000_0000_0000) by (nonlinear_arith)
            requires
                -0x400_0000_0000 <= w <= 0x400_0000_0000,
                0 <= d <= 0x1_0000_0000_0000_0000,
        ;
    }
    let v: i128 = (b - a) as i128 * d as i128;
    let way: i128 = match v.checked_div_euclid(n as i128) {
        Some(q) => q,
        None => 0,
    };
    (a as i128 + way) as i64
}

/// A part of the way lies between its ends.
proof fn lemma_part_way(a: int, b: int, d: int, n: int)
    requires
        0 <= d <= n,
        0 < n,
    ensures
        a <= b ==> a <= part_way(a, b, d, n) <= b,
        b <= a ==> b <= part_way(a, b, d, n) <= a,
{
    let w = b - a;
    if w >= 0 {
        assert(0 <= (w * d) / n <= w) by (nonlinear_arith)
            requires
                0 <= w,
                0 <= d <= n,
                0 < n,
        ;
    } else {
        assert(w <= (w * d) / n <= 0) by (nonlinear_arith)
            requires
                w < 0,
                0 <= d <= n,
                0 < n,
        ;
    }
}

/// A dashed line in `n` parts, of which every other one is drawn, the first among
/// them.
pub fn dashes(from: Spot, to: Spot, n: usize) -> (r: Vec<Dash>)
    requires
        from.within(2 * MAX_SPOT),
        to.within(2 * MAX_SPOT),
        n < usize::MAX,
    ensures
        r@.len() == (n + 1) / 2,
        forall|k: int|
            0 <= k < r@.len() ==> {
                &&& is_on_the_way(from, to, 2 * k, n as int, (#[trigger] r@[k]).from)
                &&& is_on_the_way(from, to, 2 * k + 1, n as int, r@[k].to)
            },
{
    let mut out: Vec<Dash> = Vec::new();
    let mut d: usize = 0;
    while d < n
        invariant
            d == 2 * out@.len(),
            d <= n + 1,
            n < usize::MAX,
            from.within(2 * MAX_SPOT),
            to.within(2 * MAX_SPOT),
            forall|k: int|
                0 <= k < out@.len() ==> {
                    &&& is_on_the_way(from, to, 2 * k, n as int, (#[trigger] out@[k]).from)
                    &&& is_on_the_way(from, to, 2 * k + 1, n as int, out@[k].to)
                },
        decreases n + 1 - d,
    {
        let p0: Spot = Spot {
            x: part_way_of(from.x, to.x, d, n),
            y: part_way_of(from.y, to.y, d, n),
        };
        let p1: Spot = Spot {
            x: part_way_of(from.x, to.x, d + 1, n),
            y: part_way_of(from.y, to.y, d + 1, n),
        };
        out.push(Dash { from: p0, to: p1 });
        if d + 1 >= n {
            return out;
        }
        d += 2;
    }
    out
}

/// Dashes never leave the way from one end to the other, and the first one begins at
/// the first end.
pub proof fn law_dashes_stay_on_the_way(a: Spot, b: Spot, d: int, n: int, s: Spot)
    requires
        is_on_the_way(a, b, d, n, s),
        0 <= d <= n,
        0 < n,
    ensures
        a.x <= s.x <= b.x || b.x <= s.x <= a.x,
        a.y <= s.y <= b.y || b.y <= s.y <= a.y,
        d == 0 ==> s == a,
        d == n ==> s == b,
{
    lemma_part_way(a.x as int, b.x as int, d, n);
    lemma_part_way(a.y as int, b.y as int, d, n);
    if d == n {
        let (wx, wy) = (b.x - a.x, b.y - a.y);
        assert((wx * n) / n == wx && (wy * n) / n == wy) by (nonlinear_arith)
            requires
                0 < n,
        ;
    }
    if d == 0 {
        let (wx, wy) = (b.x - a.x, b.y - a.y);
        assert((wx * 0) / n == 0 && (wy * 0) / n == 0) by (nonlinear_arith)
            requires
                0 < n,
        ;
    }
}

// --------------------------------------------------------------- gravity

/// Half the size of a picture, how far it is from the edge, and how far the two are
/// apart.
pub const AXES_SIZE: i64 = 50_000;

pub const MARGIN: i64 = 10_000;

pub const GAP: i64 = 8_000;

/// The middle of the picture of the axes, in the corner at the bottom right.
pub fn axes_centre(corner: Spot) -> (r: Spot)
    requires
        corner.within(MAX_SPOT - 200_000),
    ensures
        r == (Spot {
            x: (corner.x - MARGIN - AXES_SIZE) as i64,
            y: (corner.y - MARGIN - AXES_SIZE) as i64,
        }),
        r.within(MAX_SPOT as int),
{
    Spot { x: corner.x - MARGIN - AXES_SIZE, y: corner.y - MARGIN - AXES_SIZE }
}

/// The middle of the picture of gravity, left of the one of the axes.
pub fn gravity_centre(corner: Spot) -> (r: Spot)
    requires
        corner.within(MAX_SPOT - 200_000),
    ensures
        r == (Spot {
            x: (corner.x - MARGIN - AXES_SIZE - (2 * AXES_SIZE + GAP)) as i64,
            y: (corner.y - MARGIN - AXES_SIZE) as i64,
        }),
        r.within(MAX_SPOT as int),
{
    Spot {
        x: corner.x - MARGIN - AXES_SIZE - (2 * AXES_SIZE + GAP),
        y: corner.y - MARGIN - AXES_SIZE,
    }
}

/// The two pictures do not overlap.
pub proof fn law_pictures_stand_apart(corner: Spot)
    ensures
        (corner.x - 10_000 - 50_000 - (2 * 50_000 + 8_000)) + 50_000 < (corner.x - 10_000
            - 50_000) - 50_000,
{
}

/// Lengths of the lines in the pictures.
pub const AXIS_LINE: i64 = 35_000;

pub const GRAVITY_LINE: i64 = 40_000;

/// Gravity pulls somewhere: its direction is longer than a millionth.
pub fn has_direction(g: &Vec3) -> (r: bool)
    requires
        is_direction(*g),
    ensures
        r == (along(*g, *g) >= 1_000_000),
{
    proof {
        lemma_component(g.x as int, g.x as int);
        lemma_component(g.y as int, g.y as int);
        lemma_component(g.z as int, g.z as int);
    }
    g.x as i128 * g.x as i128 + g.y as i128 * g.y as i128 + g.z as i128 * g.z as i128 >= 1_000_000
}

/// A direction without its vertical part.
pub open spec fn level(dir: Vec3) -> Vec3 {
    Vec3 { x: dir.x, y: dir.y, z: 0 }
}

/// A direction leans: its level part is longer than a ten-thousandth.
pub open spec fn leans(dir: Vec3) -> bool {
    along(level(dir), level(dir)) > 10_000_000_000
}

/// What gravity casts on the ground: the end of its level part, dashed towards it
/// and from there to the tip of the arrow.
pub struct Shadow {
    pub foot: Spot,
    pub level: Vec<Dash>,
    pub drop: Vec<Dash>,
}

/// The parts of the dashed lines.
pub const LEVEL_PARTS: usize = 8;

pub const DROP_PARTS: usize = 6;

/// The picture of gravity.
pub struct GravityPicture {
    pub axes: Vec<AxisMark>,
    pub tip: Spot,
    /// None where gravity points straight up or down.
    pub shadow: Option<Shadow>,
}

/// `ds` are the dashes of a line in `n` parts.
pub open spec fn is_dashed(from: Spot, to: Spot, n: int, ds: Seq<Dash>) -> bool {
    &&& ds.len() == (n + 1) / 2
    &&& forall|k: int|
        0 <= k < ds.len() ==> {
            &&& is_on_the_way(from, to, 2 * k, n, (#[trigger] ds[k]).from)
            &&& is_on_the_way(from, to, 2 * k + 1, n, ds[k].to)
        }
}

/// The picture of gravity around `centre`; `dir` is the unit vector along which it
/// pulls.
pub fn gravity_picture(view: &ViewRows, centre: Spot, dir: &Vec3) -> (r: GravityPicture)
    requires
        view.valid(),
        centre.within(MAX_SPOT as int),
        is_direction(*dir),
    ensures
        r.axes@.len() == 3,
        crate::order::is_descending_order(
            depths(*view),
            r.axes@.map_values(|m: AxisMark| m.axis),
        ),
        forall|p: int|
            0 <= p < 3 ==> is_tip(
                *view,
                centre,
                world_axis((#[trigger] r.axes@[p]).axis as int),
                35_000,
                r.axes@[p].tip,
            ),
        is_tip(*view, centre, *dir, 40_000, r.tip),
        r.shadow is Some <==> leans(*dir),
        r.shadow matches Some(s) ==> {
            &&& is_tip(*view, centre, level(*dir), 40_000, s.foot)
            &&& is_dashed(centre, s.foot, 8, s.level@)
            &&& is_dashed(s.foot, r.tip, 6, s.drop@)
        },
{
    let axes: Vec<AxisMark> = axis_marks(view, centre, AXIS_LINE);
    let tip: Spot = on_screen(view, centre, dir, GRAVITY_LINE);
    proof {
        lemma_component(dir.x as int, dir.x as int);
        lemma_component(dir.y as int, dir.y as int);
    }
    let flat: Vec3 = Vec3 { x: dir.x, y: dir.y, z: 0 };
    let shadow: Option<Shadow> = if dir.x as i128 * dir.x as i128 + dir.y as i128 * dir.y as i128
        > 10_000_000_000 {
        let foot: Spot = on_screen(view, centre, &flat, GRAVITY_LINE);
        Some(
            Shadow {
                foot,
                level: dashes(centre, foot, LEVEL_PARTS),
                drop: dashes(foot, tip, DROP_PARTS),
            },
        )
    } else {
        None
    };
    GravityPicture { axes, tip, shadow }
}

/// The two points at which an arrowhead at `tip` ends: `head` back along the line and
/// `wing` to either side. `ux` and `uy` are the unit vector of the line on the screen.
pub open spec fn fin(tip: Spot, ux: int, uy: int, head: int, wing: int) -> (int, int) {
    (
        tip.x + (uy * wing - ux * head) / 1_000_000_000,
        tip.y + (-ux * wing - uy * head) / 1_000_000_000,
    )
}

fn fin_of(tip: Spot, ux: i64, uy: i64, head: i64, wing: i64) -> (r: Spot)
    requires
        tip.within(2 * MAX_SPOT),
        -MAX_COMPONENT <= ux <= MAX_COMPONENT,
        -MAX_COMPONENT <= uy <= MAX_COMPONENT,
        0 <= head <= MAX_HEAD,
        -MAX_HEAD <= wing <= MAX_HEAD,
    ensures
        (r.x as int, r.y as int) == fin(tip, ux as int, uy as int, head as int, wing as int),
{
    proof {
        lemma_fin(ux as int, head as int);
        lemma_fin(uy as int, head as int);
        lemma_fin(ux as int, wing as int);
        lemma_fin(uy as int, wing as int);
        assert(-ux * wing == -(ux * wing)) by (nonlinear_arith);
    }
    Spot {
        x: tip.x + billionth(uy * wing - ux * head),
        y: tip.y + billionth(-(ux * wing) - uy * head),
    }
}

/// No arrowhead is larger than this.
pub const MAX_HEAD: i64 = 0x1_0000;

proof fn lemma_fin(u: int, len: int)
    requires
        -MAX_COMPONENT <= u <= MAX_COMPONENT,
        -MAX_HEAD <= len <= MAX_HEAD,
    ensures
        -0x8000_0000_0000 <= u * len <= 0x8000_0000_0000,
{
    assert(-0x8000_0000_0000 <= u * len <= 0x8000_0000_0000) by (nonlinear_arith)
        requires
            -0x8000_0000 <= u <= 0x8000_0000,
            -0x1_0000 <= len <= 0x1_0000,
    ;
}

fn billionth(v: i64) -> (r: i64)
    ensures
        r == v as int / 1_000_000_000,
        -10_000_000_000 <= r <= 10_000_000_000,
{
    match v.checked_div_euclid(1_000_000_000) {
        Some(q) => q,
        None => 0,
    }
}

/// Both ends of an arrowhead.
pub fn arrow_fins(tip: Spot, ux: i64, uy: i64, head: i64, wing: i64) -> (r: (Spot, Spot))
    requires
        tip.within(2 * MAX_SPOT),
        -MAX_COMPONENT <= ux <= MAX_COMPONENT,
        -MAX_COMPONENT <= uy <= MAX_COMPONENT,
        0 <= head <= MAX_HEAD,
        0 <= wing <= MAX_HEAD,
    ensures
        (r.0.x as int, r.0.y as int) == fin(tip, ux as int, uy as int, head as int, wing as int),
        (r.1.x as int, r.1.y as int) == fin(tip, ux as int, uy as int, head as int, -wing),
{
    (fin_of(tip, ux, uy, head, wing), fin_of(tip, ux, uy, head, -wing))
}

/// Gravity's arrowhead.
pub const GRAVITY_HEAD: i64 = 10_000;

pub const GRAVITY_WING: i64 = 5_000;

/// How long the head of a force's arrow is: two fifths of the arrow, and at most
/// eight pixels. An arrow shorter than a thousandth of a pixel is not drawn.
pub fn head_length(len: u64) -> (r: Option<i64>)
    ensures
        len == 0 ==> r is None,
        len > 0 ==> r == Some(
            if 2 * len / 5 > 8_000 {
                8_000i64
            } else {
                (2 * len / 5) as i64
            },
        ),
{
    if len == 0 {
        None
    } else if len > 20_000 {
        Some(8_000)
    } else {
        Some((2 * len / 5) as i64)
    }
}

// ------------------------------------------------------------------ tilt

/// What is written of a tilt, in millionths of a degree. Below half a degree it is
/// none.
pub open spec fn tilt_label(tilt: nat) -> Seq<char> {
    if tilt < 500_000 {
        "tilt 0\u{b0}"@
    } else {
        "tilt "@ + crate::text::fixed_of(
            crate::text::nearest(tilt, 100_000),
            crate::text::Places::One,
        ) + "\u{b0}"@
    }
}

/// What is written under the picture of gravity.
pub fn tilt_text(tilt: u32) -> (r: String)
    ensures
        r@ == tilt_label(tilt as nat),
{
    if tilt < 500_000 {
        return String::from_str("tilt 0\u{b0}");
    }
    let mut r: String = String::from_str("tilt ");
    r.append(fixed(nearest_of(tilt as u128, 100_000), Places::One).as_str());
    r.append("\u{b0}");
    r
}

proof fn lemma_floor(v: int, d: int)
    requires
        d > 0,
    ensures
        0 <= v - d * (v / d) < d,
{
    let q = v / d;
    assert(0 <= v - d * q < d) by (nonlinear_arith)
        requires
            d > 0,
            q == v / d,
    ;
}

/// An arrow is drawn as long as its direction is seen along the rows of the view: to the right
/// along the right one and, as pixels count downwards, against the up one.
pub proof fn law_tip_is_seen_along_the_view(
    view: ViewRows,
    centre: Spot,
    dir: Vec3,
    len: int,
    tip: Spot,
)
    requires
        is_tip(view, centre, dir, len, tip),
    ensures
        ({
            let unit: int = 1_000_000_000_000_000_000;
            let (r, u) = (view.right, view.up);
            &&& 0 <= len * (r.x * dir.x + r.y * dir.y + r.z * dir.z) - unit * (tip.x - centre.x)
                < unit
            &&& 0 <= len * (u.x * dir.x + u.y * dir.y + u.z * dir.z) - unit * (centre.y - tip.y)
                < unit
        }),
{
    lemma_floor(len * along(view.right, dir), 1_000_000_000_000_000_000);
    lemma_floor(len * along(view.up, dir), 1_000_000_000_000_000_000);
}

/// A spot part of the way is that part of it away from its start, up to the last digit.
pub proof fn law_part_of_the_way(a: int, b: int, d: int, n: int)
    requires
        n > 0,
    ensures
        0 <= (b - a) * d - n * (part_way(a, b, d, n) - a) < n,
{
    lemma_floor((b - a) * d, n);
}

/// Every second stretch of a dashed way is drawn, from its start on.
pub proof fn law_every_second_stretch_is_drawn(from: Spot, to: Spot, n: int, ds: Seq<Dash>, k: int)
    requires
        n > 0,
        is_dashed(from, to, n, ds),
        0 <= k < ds.len(),
    ensures
        0 <= (to.x - from.x) * (2 * k) - n * (ds[k].from.x - from.x) < n,
        0 <= (to.y - from.y) * (2 * k) - n * (ds[k].from.y - from.y) < n,
        0 <= (to.x - from.x) * (2 * k + 1) - n * (ds[k].to.x - from.x) < n,
        0 <= (to.y - from.y) * (2 * k + 1) - n * (ds[k].to.y - from.y) < n,
        2 * ds.len() == n || 2 * ds.len() == n + 1,
{
    let d = ds[k];
    assert(is_on_the_way(from, to, 2 * k, n, d.from));
    assert(is_on_the_way(from, to, 2 * k + 1, n, d.to));
    law_part_of_the_way(from.x as int, to.x as int, 2 * k, n);
    law_part_of_the_way(from.y as int, to.y as int, 2 * k, n);
    law_part_of_the_way(from.x as int, to.x as int, 2 * k + 1, n);
    law_part_of_the_way(from.y as int, to.y as int, 2 * k + 1, n);
}

/// A fin of an arrow's head reaches back from the tip by the head's length and to the side by
/// its wing: seen for an arrow to the right, one down the screen, and any between.
pub proof fn law_fins_reach_back_and_aside(tip: Spot, ux: int, uy: int, head: int, wing: int)
    ensures
        fin(tip, 1_000_000_000, 0, head, wing) == (tip.x - head, tip.y - wing),
        fin(tip, 0, 1_000_000_000, head, wing) == (tip.x + wing, tip.y - head),
        ({
            let (f, unit) = (fin(tip, ux, uy, head, wing), 1_000_000_000int);
            &&& 0 <= uy * wing - ux * head - unit * (f.0 - tip.x) < unit
            &&& 0 <= -(ux * wing) - uy * head - unit * (f.1 - tip.y) < unit
        }),
{
    let u: int = 1_000_000_000;
    assert(0 * wing == 0 && 0 * head == 0 && (-0) * wing == 0) by (nonlinear_arith);
    assert((-ux) * wing == -(ux * wing)) by (nonlinear_arith);
    assert((-u) * wing == -(u * wing)) by (nonlinear_arith);
    assert((0 * wing - u * head) / u == -head && (-u * wing - 0 * head) / u == -wing) by {
        assert(0 * wing - u * head == u * (-head)) by (nonlinear_arith);
        assert(-u * wing - 0 * head == u * (-wing)) by (nonlinear_arith);
        lemma_exact(-head, u);
        lemma_exact(-wing, u);
    }
    assert((u * wing - 0 * head) / u == wing && (-0 * wing - u * head) / u == -head) by {
        assert(u * wing - 0 * head == u * wing) by (nonlinear_arith);
        assert(-0 * wing - u * head == u * (-head)) by (nonlinear_arith);
        lemma_exact(wing, u);
        lemma_exact(-head, u);
    }
    lemma_floor(uy * wing - ux * head, u);
    lemma_floor(-ux * wing - uy * head, u);
}

proof fn lemma_exact(q: int, d: int)
    requires
        d > 0,
    ensures
        (d * q) / d == q,
{
    assert((d * q) / d == q) by (nonlinear_arith)
        requires
            d > 0,
    ;
}

/// Gravity leans where it is visibly off the vertical, whichever way.
pub proof fn law_leaning_gravity(dir: Vec3)
    ensures
        leans(dir) <==> dir.x * dir.x + dir.y * dir.y > 10_000_000_000,
        dir.x == 0 && dir.y == 0 ==> !leans(dir),
{
    assert(0 * 0 == 0) by (nonlinear_arith);
}

/// Less than half a degree is told as upright, and more to the nearest tenth.
pub proof fn law_tilt_is_told(tilt: nat)
    ensures
        tilt < 500_000 ==> tilt_label(tilt) == "tilt 0\u{b0}"@,
        tilt >= 500_000 ==> tilt_label(tilt) == "tilt "@ + crate::text::fixed_of(
            crate::text::nearest(tilt, 100_000),
            crate::text::Places::One,
        ) + "\u{b0}"@,
{
}

/// The three axes of the world, and how deep each is seen.
pub proof fn law_world_axes(view: ViewRows)
    ensures
        world_axis(0).x == 1_000_000_000 && world_axis(0).y == 0 && world_axis(0).z == 0,
        world_axis(1).x == 0 && world_axis(1).y == 1_000_000_000 && world_axis(1).z == 0,
        world_axis(2).x == 0 && world_axis(2).y == 0 && world_axis(2).z == 1_000_000_000,
        1_000_000_000 * depths(view)[0] == along(view.back, world_axis(0)),
        1_000_000_000 * depths(view)[1] == along(view.back, world_axis(1)),
        1_000_000_000 * depths(view)[2] == along(view.back, world_axis(2)),
{
    let b = view.back;
    let (x, y, z) = (b.x as int, b.y as int, b.z as int);
    assert(x * 0 == 0 && y * 0 == 0 && z * 0 == 0) by (nonlinear_arith);
    assert(depths(view)[0] == x && depths(view)[1] == y && depths(view)[2] == z);
}

} // verus!
