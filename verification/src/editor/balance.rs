//! The support polygon: which feet stand, and the corners in order.
//!
//! Lengths are whole nanometres.

use vstd::prelude::*;

use crate::robot::Vec3;

verus! {

/// A foot stands while it is less than two millimetres off the ground.
pub const STANCE_TOLERANCE: i64 = 2_000_000;

/// `z` is the height of the lowest foot; without feet it is zero.
pub open spec fn is_lowest(feet: Seq<Vec3>, z: i64) -> bool {
    if feet.len() == 0 {
        z == 0
    } else {
        &&& exists|i: int| 0 <= i < feet.len() && (#[trigger] feet[i]).z == z
        &&& forall|i: int| 0 <= i < feet.len() ==> (#[trigger] feet[i]).z >= z
    }
}

/// The height of the ground: that of the ground plane where it is shown,
/// otherwise that of the lowest foot.
pub fn ground_height(plane_shown: bool, plane_z: i64, feet: &Vec<Vec3>) -> (r: i64)
    ensures
        plane_shown ==> r == plane_z,
        !plane_shown ==> is_lowest(feet@, r),
{
    if plane_shown {
        return plane_z;
    }
    if feet.len() == 0 {
        return 0;
    }
    let mut z: i64 = feet[0].z;
    let mut i: usize = 1;
    proof {
        assert(feet@[0].z == z);
    }
    while i < feet.len()
        invariant
            1 <= i <= feet.len(),
            exists|k: int| 0 <= k < feet@.len() && (#[trigger] feet@[k]).z == z,
            forall|k: int| 0 <= k < i ==> (#[trigger] feet@[k]).z >= z,
        decreases feet.len() - i,
    {
        if feet[i].z < z {
            z = feet[i].z;
        }
        i += 1;
    }
    z
}

/// A foot at height `z` stands on ground at height `ground`.
pub open spec fn stands(z: int, ground: int) -> bool {
    -STANCE_TOLERANCE < z - ground < STANCE_TOLERANCE
}

/// The feet among the first `n` that stand.
pub open spec fn standing(feet: Seq<Vec3>, ground: int, n: nat) -> Seq<Vec3>
    decreases n,
{
    if n == 0 || n > feet.len() {
        Seq::empty()
    } else {
        let before = standing(feet, ground, (n - 1) as nat);
        if stands(feet[n - 1].z as int, ground) {
            before.push(feet[n - 1])
        } else {
            before
        }
    }
}

/// The feet that stand.
pub fn stance_feet(feet: &Vec<Vec3>, ground: i64) -> (r: Vec<Vec3>)
    ensures
        r@ == standing(feet@, ground as int, feet@.len()),
{
    let mut out: Vec<Vec3> = Vec::new();
    let mut i: usize = 0;
    while i < feet.len()
        invariant
            i <= feet.len(),
            out@ == standing(feet@, ground as int, i as nat),
        decreases feet.len() - i,
    {
        let off: i128 = feet[i].z as i128 - ground as i128;
        if -(STANCE_TOLERANCE as i128) < off && off < STANCE_TOLERANCE as i128 {
            out.push(feet[i]);
        }
        i += 1;
    }
    out
}

/// Whether a support polygon is drawn: it is wanted, and there are corners
/// enough.
pub fn draws_polygon(shown: bool, feet: usize) -> (r: bool)
    ensures
        r == (shown && feet >= 3),
{
    shown && feet >= 3
}

/// Where the ground plane is not shown the lowest foot stands.
pub proof fn law_lowest_foot_stands(feet: Seq<Vec3>, ground: i64)
    requires
        feet.len() > 0,
        is_lowest(feet, ground),
    ensures
        exists|i: int| 0 <= i < feet.len() && stands((#[trigger] feet[i]).z as int, ground as int),
{
    let i = choose|i: int| 0 <= i < feet.len() && (#[trigger] feet[i]).z == ground;
    assert(stands(feet[i].z as int, ground as int));
}

// ---------------------------------------------------------------- corners

/// Coordinates up to a thousand kilometres, and up to a thousand feet, keep the
/// comparison of angles exact.
pub const MAX_COORD: i64 = 1_000_000_000_000_000;

pub const MAX_FEET: usize = 1000;

/// A foot as seen from the centre of all feet, scaled by their number.
#[derive(Clone, Copy, PartialEq, Eq, Structural, Debug)]
pub struct Arm {
    pub x: i128,
    pub y: i128,
}

/// Which part of the circle a direction is in, counted from behind leftwards:
/// to the right, straight ahead, to the left, straight behind.
pub open spec fn part(a: Arm) -> int {
    if a.y < 0 {
        0
    } else if a.y > 0 {
        2
    } else if a.x >= 0 {
        1
    } else {
        3
    }
}

/// Positive if `b` lies counterclockwise of `a`, for directions of the same half.
pub open spec fn cross(a: Arm, b: Arm) -> int {
    a.x * b.y - a.y * b.x
}

/// The angle of `a`, from minus half a turn to half a turn, is not larger than
/// that of `b`.
pub open spec fn angle_le(a: Arm, b: Arm) -> bool {
    part(a) < part(b) || part(a) == part(b) && (part(a) == 1 || part(a) == 3 || cross(a, b) >= 0)
}

/// The angle of `a` is smaller than that of `b`.
pub open spec fn angle_lt(a: Arm, b: Arm) -> bool {
    part(a) < part(b) || part(a) == part(b) && part(a) != 1 && part(a) != 3 && cross(a, b) > 0
}

/// The arms are small enough for the comparison to be exact.
pub open spec fn small(a: Arm) -> bool {
    &&& -2_000_000_000_000_000_000 <= a.x <= 2_000_000_000_000_000_000
    &&& -2_000_000_000_000_000_000 <= a.y <= 2_000_000_000_000_000_000
}

proof fn lemma_product(a: int, b: int)
    requires
        -2_000_000_000_000_000_000 <= a <= 2_000_000_000_000_000_000,
        -2_000_000_000_000_000_000 <= b <= 2_000_000_000_000_000_000,
    ensures
        -4_000_000_000_000_000_000_000_000_000_000_000_000 <= a * b
            <= 4_000_000_000_000_000_000_000_000_000_000_000_000,
{
    assert(-4_000_000_000_000_000_000_000_000_000_000_000_000 <= a * b
        <= 4_000_000_000_000_000_000_000_000_000_000_000_000) by (nonlinear_arith)
        requires
            -2_000_000_000_000_000_000 <= a <= 2_000_000_000_000_000_000,
            -2_000_000_000_000_000_000 <= b <= 2_000_000_000_000_000_000,
    ;
}

fn part_of(a: &Arm) -> (r: u8)
    ensures
        r == part(*a),
{
    if a.y < 0 {
        0
    } else if a.y > 0 {
        2
    } else if a.x >= 0 {
        1
    } else {
        3
    }
}

fn is_before(a: &Arm, b: &Arm) -> (r: bool)
    requires
        small(*a),
        small(*b),
    ensures
        r == angle_lt(*a, *b),
{
    let pa: u8 = part_of(a);
    let pb: u8 = part_of(b);
    if pa != pb {
        return pa < pb;
    }
    if pa == 1 || pa == 3 {
        return false;
    }
    proof {
        lemma_product(a.x as int, b.y as int);
        lemma_product(a.y as int, b.x as int);
    }
    a.x * b.y - a.y * b.x > 0
}

proof fn lemma_cross_flips(a: Arm, b: Arm)
    ensures
        cross(a, b) == -cross(b, a),
{
    assert(a.x * b.y - a.y * b.x == -(b.x * a.y - b.y * a.x)) by (nonlinear_arith);
}

/// Directions compare like their angles: of two one is not larger, and the
/// relation carries over.
pub proof fn law_angles_are_ordered(a: Arm, b: Arm, c: Arm)
    ensures
        angle_le(a, b) || angle_le(b, a),
        angle_lt(a, b) <==> !angle_le(b, a),
        angle_le(a, b) && angle_le(b, c) ==> angle_le(a, c),
{
    lemma_cross_flips(a, b);
    if angle_le(a, b) && angle_le(b, c) && part(a) == part(b) && part(b) == part(c) && part(a) != 1
        && part(a) != 3 {
        let (ax, ay) = (a.x as int, a.y as int);
        let (bx, by) = (b.x as int, b.y as int);
        let (cx, cy) = (c.x as int, c.y as int);
        let ab = ax * by - ay * bx;
        let bc = bx * cy - by * cx;
        let ac = ax * cy - ay * cx;
        assert(ac * by == ab * cy + bc * ay) by (nonlinear_arith)
            requires
                ab == ax * by - ay * bx,
                bc == bx * cy - by * cx,
                ac == ax * cy - ay * cx,
        ;
        if part(a) == 0 {
            assert(ac >= 0) by (nonlinear_arith)
                requires
                    ac * by == ab * cy + bc * ay,
                    ab >= 0,
                    bc >= 0,
                    ay < 0,
                    by < 0,
                    cy < 0,
            ;
        } else {
            assert(ac >= 0) by (nonlinear_arith)
                requires
                    ac * by == ab * cy + bc * ay,
                    ab >= 0,
                    bc >= 0,
                    ay > 0,
                    by > 0,
                    cy > 0,
            ;
        }
    }
}

/// Corner `a` comes before corner `b`: it has the smaller angle or, of equal
/// angles, stood first.
pub open spec fn corner_before(arms: Seq<Arm>, a: usize, b: usize) -> bool {
    angle_lt(arms[a as int], arms[b as int]) || angle_le(arms[a as int], arms[b as int]) && a < b
}

/// `order` lists every corner once, by its angle.
pub open spec fn is_angular_order(arms: Seq<Arm>, order: Seq<usize>) -> bool {
    &&& order.len() == arms.len()
    &&& forall|p: int| 0 <= p < order.len() ==> (#[trigger] order[p]) < arms.len()
    &&& forall|p: int, q: int|
        0 <= p < q < order.len() ==> corner_before(arms, #[trigger] order[p], #[trigger] order[q])
}

/// The corners by their angle.
fn by_angle(arms: &Vec<Arm>) -> (order: Vec<usize>)
    requires
        forall|i: int| 0 <= i < arms@.len() ==> small(#[trigger] arms@[i]),
    ensures
        is_angular_order(arms@, order@),
{
    let mut order: Vec<usize> = Vec::new();
    let mut i: usize = 0;
    while i < arms.len()
        invariant
            i <= arms.len(),
            order.len() == i,
            forall|k: int| 0 <= k < arms@.len() ==> small(#[trigger] arms@[k]),
            forall|p: int| 0 <= p < order.len() ==> (#[trigger] order@[p]) < i,
            forall|p: int, q: int|
                0 <= p < q < order.len() ==> corner_before(
                    arms@,
                    #[trigger] order@[p],
                    #[trigger] order@[q],
                ),
        decreases arms.len() - i,
    {
        let mut at: usize = order.len();
        while at > 0 && is_before(&arms[i], &arms[order[at - 1]])
            invariant
                at <= order.len(),
                i < arms.len(),
                order.len() == i,
                forall|k: int| 0 <= k < arms@.len() ==> small(#[trigger] arms@[k]),
                forall|p: int| 0 <= p < order.len() ==> (#[trigger] order@[p]) < i,
                forall|p: int|
                    at <= p < order.len() ==> angle_lt(
                        arms@[i as int],
                        arms@[(#[trigger] order@[p]) as int],
                    ),
            decreases at,
        {
            at -= 1;
        }
        let ghost before = order@;
        order.insert(at, i);
        proof {
            assert forall|p: int, q: int| 0 <= p < q < order.len() implies corner_before(
                arms@,
                #[trigger] order@[p],
                #[trigger] order@[q],
            ) by {
                let old_p = if p < at { p } else { p - 1 };
                let old_q = if q < at { q } else { q - 1 };
                let new = arms@[i as int];
                if p == at {
                    assert(order@[q] == before[old_q]);
                } else if q == at {
                    assert(order@[p] == before[old_p]);
                    let last = arms@[before[at - 1] as int];
                    let this = arms@[before[p] as int];
                    law_angles_are_ordered(new, last, this);
                    law_angles_are_ordered(this, last, new);
                    law_angles_are_ordered(this, new, new);
                    if p < at - 1 {
                        assert(corner_before(arms@, before[p], before[at - 1]));
                        law_angles_are_ordered(last, this, new);
                    }
                } else {
                    assert(order@[p] == before[old_p]);
                    assert(order@[q] == before[old_q]);
                }
            }
        }
        i += 1;
    }
    order
}

/// The coordinates of the first `n` feet together.
pub open spec fn sum_x(feet: Seq<Vec3>, n: nat) -> int
    decreases n,
{
    if n == 0 || n > feet.len() {
        0
    } else {
        sum_x(feet, (n - 1) as nat) + feet[n - 1].x
    }
}

pub open spec fn sum_y(feet: Seq<Vec3>, n: nat) -> int
    decreases n,
{
    if n == 0 || n > feet.len() {
        0
    } else {
        sum_y(feet, (n - 1) as nat) + feet[n - 1].y
    }
}

/// The feet as seen from their centre.
pub open spec fn arms_of(feet: Seq<Vec3>) -> Seq<Arm> {
    Seq::new(
        feet.len(),
        |i: int|
            Arm {
                x: (feet.len() * feet[i].x - sum_x(feet, feet.len())) as i128,
                y: (feet.len() * feet[i].y - sum_y(feet, feet.len())) as i128,
            },
    )
}

/// No foot is too far out, and there are not too many.
pub open spec fn feet_fit(feet: Seq<Vec3>) -> bool {
    &&& feet.len() <= MAX_FEET
    &&& forall|i: int|
        0 <= i < feet.len() ==> -MAX_COORD <= (#[trigger] feet[i]).x <= MAX_COORD && -MAX_COORD
            <= feet[i].y <= MAX_COORD
}

/// The corners of the support polygon, counterclockwise around the centre of the
/// feet.
pub fn support_corners(feet: &Vec<Vec3>) -> (order: Vec<usize>)
    requires
        feet_fit(feet@),
    ensures
        is_angular_order(arms_of(feet@), order@),
{
    let n: usize = feet.len();
    let mut sx: i128 = 0;
    let mut sy: i128 = 0;
    let mut i: usize = 0;
    while i < n
        invariant
            i <= n,
            n == feet@.len(),
            feet_fit(feet@),
            sx == sum_x(feet@, i as nat),
            sy == sum_y(feet@, i as nat),
            -(i * MAX_COORD) <= sx <= i * MAX_COORD,
            -(i * MAX_COORD) <= sy <= i * MAX_COORD,
        decreases n - i,
    {
        proof {
            assert(-MAX_COORD <= feet@[i as int].x <= MAX_COORD);
        }
        sx = sx + feet[i].x as i128;
        sy = sy + feet[i].y as i128;
        i += 1;
    }
    let mut arms: Vec<Arm> = Vec::new();
    let ghost want = arms_of(feet@);
    let mut k: usize = 0;
    while k < n
        invariant
            k <= n,
            n == feet@.len(),
            feet_fit(feet@),
            want == arms_of(feet@),
            sx == sum_x(feet@, n as nat),
            sy == sum_y(feet@, n as nat),
            -(n * MAX_COORD) <= sx <= n * MAX_COORD,
            -(n * MAX_COORD) <= sy <= n * MAX_COORD,
            arms@ == want.take(k as int),
            forall|j: int| 0 <= j < arms@.len() ==> small(#[trigger] arms@[j]),
        decreases n - k,
    {
        let f: Vec3 = feet[k];
        proof {
            assert(-MAX_COORD <= feet@[k as int].x <= MAX_COORD);
            lemma_scaled(n as int, f.x as int);
            lemma_scaled(n as int, f.y as int);
        }
        let arm: Arm = Arm { x: n as i128 * f.x as i128 - sx, y: n as i128 * f.y as i128 - sy };
        arms.push(arm);
        proof {
            assert(arm == want[k as int]);
            assert(arms@ =~= want.take(k + 1));
        }
        k += 1;
    }
    proof {
        assert(arms@ =~= want);
    }
    by_angle(&arms)
}

proof fn lemma_scaled(n: int, x: int)
    requires
        0 <= n <= MAX_FEET,
        -MAX_COORD <= x <= MAX_COORD,
    ensures
        -1_000_000_000_000_000_000 <= n * x <= 1_000_000_000_000_000_000,
        -1_000_000_000_000_000_000 <= n * MAX_COORD <= 1_000_000_000_000_000_000,
{
    assert(-1_000_000_000_000_000_000 <= n * x <= 1_000_000_000_000_000_000) by (nonlinear_arith)
        requires
            0 <= n <= 1000,
            -1_000_000_000_000_000 <= x <= 1_000_000_000_000_000,
    ;
}

/// A foot stands where it is less than two centimetres off the ground, and exactly the feet
/// that stand are kept, in order.
pub proof fn law_standing_feet_are_kept(feet: Seq<Vec3>, ground: int, n: nat)
    requires
        n < feet.len(),
    ensures
        ({
            let off = feet[n as int].z - ground;
            let near = -2_000_000 < off && off < 2_000_000;
            &&& near ==> standing(feet, ground, n + 1) == standing(feet, ground, n).push(
                feet[n as int],
            )
            &&& !near ==> standing(feet, ground, n + 1) == standing(feet, ground, n)
        }),
        standing(feet, ground, 0).len() == 0,
{
}

/// Corners go around the middle from behind it on the right: first what lies below, then to
/// the right, then above, then to the left, and within a half by the turn from one to the
/// other.
pub proof fn law_corners_go_around(a: Arm, b: Arm, s: i128, t: i128)
    requires
        s > 0,
        t > 0,
    ensures
        a.y < 0 && b.y == 0 ==> angle_lt(a, b),
        a.y < 0 && b.y > 0 ==> angle_lt(a, b),
        a.y == 0 && a.x >= 0 && b.y > 0 ==> angle_lt(a, b),
        a.y > 0 && b.y == 0 && b.x < 0 ==> angle_lt(a, b),
        a.y == 0 && a.x >= 0 && b.y == 0 && b.x < 0 ==> angle_lt(a, b),
        a.y < 0 && b.y < 0 || a.y > 0 && b.y > 0 ==> (angle_lt(a, b) <==> a.x * b.y - a.y * b.x > 0),
        a.y < 0 && b.y < 0 || a.y > 0 && b.y > 0 ==> (angle_le(a, b) <==> a.x * b.y - a.y * b.x
            >= 0),
{
}

/// The arms go from the middle of the feet to each of them, in parts of their number: two arms
/// are as far apart as their feet, and all of them balance.
pub proof fn law_arms_start_in_the_middle(feet: Seq<Vec3>, i: int, j: int)
    requires
        feet_fit(feet),
        0 <= i < feet.len(),
        0 <= j < feet.len(),
    ensures
        arms_of(feet).len() == feet.len(),
        arms_of(feet)[i].x - arms_of(feet)[j].x == feet.len() * (feet[i].x - feet[j].x),
        arms_of(feet)[i].y - arms_of(feet)[j].y == feet.len() * (feet[i].y - feet[j].y),
        feet.len() * feet[i].x - arms_of(feet)[i].x == sum_x(feet, feet.len()),
        feet.len() * feet[i].y - arms_of(feet)[i].y == sum_y(feet, feet.len()),
{
    let n = feet.len() as int;
    lemma_sums_fit(feet, feet.len());
    assert(-MAX_COORD <= feet[i].x <= MAX_COORD && -MAX_COORD <= feet[j].x <= MAX_COORD);
    let m = MAX_COORD as int;
    let (xi, yi, xj, yj) = (
        feet[i].x as int,
        feet[i].y as int,
        feet[j].x as int,
        feet[j].y as int,
    );
    assert(-(n * m) <= n * xi <= n * m && -(n * m) <= n * yi <= n * m && -(n * m) <= n * xj <= n * m
        && -(n * m) <= n * yj <= n * m) by (nonlinear_arith)
        requires
            n >= 0,
            -m <= xi <= m,
            -m <= yi <= m,
            -m <= xj <= m,
            -m <= yj <= m,
    ;
    assert(n * m <= MAX_FEET * m) by (nonlinear_arith)
        requires
            n <= MAX_FEET,
            m >= 0,
    ;
    assert(n * (xi - xj) == n * xi - n * xj && n * (yi - yj) == n * yi - n * yj)
        by (nonlinear_arith);
}

proof fn lemma_sums_fit(feet: Seq<Vec3>, n: nat)
    requires
        feet_fit(feet),
        n <= feet.len(),
    ensures
        -(n * MAX_COORD) <= sum_x(feet, n) <= n * MAX_COORD,
        -(n * MAX_COORD) <= sum_y(feet, n) <= n * MAX_COORD,
    decreases n,
{
    let m = MAX_COORD as int;
    assert(0 * m == 0) by (nonlinear_arith);
    if n > 0 {
        lemma_sums_fit(feet, (n - 1) as nat);
        assert(-MAX_COORD <= feet[n - 1].x <= MAX_COORD);
        assert(n * m == (n - 1) * m + m) by (nonlinear_arith);
    }
}

/// Coordinates of feet add up.
pub proof fn law_feet_add_up(feet: Seq<Vec3>, n: nat)
    requires
        n < feet.len(),
    ensures
        sum_x(feet, n + 1) - sum_x(feet, n) == feet[n as int].x,
        sum_y(feet, n + 1) - sum_y(feet, n) == feet[n as int].y,
        sum_x(feet, 0) == 0 && sum_y(feet, 0) == 0,
{
}

/// Corners are ordered by their angle, and equal ones by their number; an order that keeps to
/// this names every corner once.
pub proof fn law_corners_are_ordered_by_angle(
    arms: Seq<Arm>,
    order: Seq<usize>,
    p: int,
    q: int,
)
    requires
        is_angular_order(arms, order),
        0 <= p < q < order.len(),
    ensures
        order.len() == arms.len(),
        angle_le(arms[order[p] as int], arms[order[q] as int]) || angle_lt(
            arms[order[p] as int],
            arms[order[q] as int],
        ),
        !angle_lt(arms[order[p] as int], arms[order[q] as int]) ==> order[p] < order[q],
{
    assert(corner_before(arms, order[p], order[q]));
}

} // verus!
