//! The swing foot's way: a smoothstep over the ground, and an arch above it.
//!
//! All axes start and end without velocity, so that the handover to stance is no
//! impact. The arch is a sine, which is computed elsewhere.

use vstd::prelude::*;

use crate::biped::gait::Frac;
use crate::robot::Vec3;

verus! {

/// The whole of a swing, in millionths.
pub const WHOLE: u32 = 1_000_000;

/// How much of the way the swing foot has covered in the ground plane after `t`
/// millionths of its swing, in quintillionths: a smoothstep, which starts and
/// ends without velocity.
pub open spec fn smoothstep(t: int) -> int {
    (3 * WHOLE - 2 * t) * (t * t)
}

/// The slope of the way covered, in trillionths of the way per swing.
pub open spec fn smoothstep_slope(t: int) -> int {
    6 * (t * (WHOLE - t))
}

/// A coordinate of the way, in quintillionths of the unit.
pub open spec fn place(lift_off: int, touch_down: int, t: int) -> int {
    lift_off * 1_000_000_000_000_000_000 + (touch_down - lift_off) * smoothstep(t)
}

/// A coordinate of its velocity, in trillionths of the unit per swing.
pub open spec fn rate(lift_off: int, touch_down: int, t: int) -> int {
    (touch_down - lift_off) * smoothstep_slope(t)
}

/// How far along a swing is, in millionths, rounded down.
pub fn swing_share(frac: &Frac) -> (t: u32)
    requires
        frac.num <= frac.den,
        frac.den > 0,
    ensures
        t == frac.num * WHOLE / frac.den as int,
        t <= WHOLE,
{
    proof {
        assert(frac.num * WHOLE <= frac.den * WHOLE) by (nonlinear_arith)
            requires
                frac.num <= frac.den,
        ;
        assert(0 <= frac.num * WHOLE / frac.den as int && frac.num * WHOLE / frac.den as int
            <= WHOLE) by (nonlinear_arith)
            requires
                0 <= frac.num * WHOLE <= frac.den * WHOLE,
                frac.den > 0,
        ;
        assert(frac.num * WHOLE <= u64::MAX * 1_000_000) by (nonlinear_arith)
            requires
                frac.num <= u64::MAX,
        ;
    }
    (frac.num as u128 * WHOLE as u128 / frac.den as u128) as u32
}

proof fn lemma_whole_way()
    ensures
        smoothstep(WHOLE as int) == 1_000_000_000_000_000_000,
{
    assert(1_000_000 * (1_000_000 * 1_000_000) == 1_000_000_000_000_000_000int) by (nonlinear_arith);
}

proof fn lemma_smoothstep_bounds(t: int)
    requires
        0 <= t <= WHOLE,
    ensures
        0 <= t * t <= 1_000_000_000_000,
        0 <= smoothstep(t) <= 1_000_000_000_000_000_000,
        0 <= t * (WHOLE - t) <= 250_000_000_000,
{
    assert(0 <= t * t <= 1_000_000_000_000) by (nonlinear_arith)
        requires
            0 <= t <= 1_000_000,
    ;
    let left = 1_000_000 - t;
    assert(0 <= t * left <= 250_000_000_000) by (nonlinear_arith)
        requires
            0 <= t,
            0 <= left,
            t + left == 1_000_000,
    {
        assert((left - t) * (left - t) >= 0);
        assert((left - t) * (left - t) + 4 * (t * left) == (left + t) * (left + t));
    }
    assert(left * left * (1_000_000 + 2 * t) >= 0) by (nonlinear_arith)
        requires
            0 <= left,
            0 <= t,
    ;
    assert((3 * 1_000_000 - 2 * t) * (t * t) + left * left * (1_000_000 + 2 * t)
        == 1_000_000_000_000_000_000) by (nonlinear_arith)
        requires
            left == 1_000_000 - t,
    ;
    assert((3 * 1_000_000 - 2 * t) * (t * t) >= 0) by (nonlinear_arith)
        requires
            0 <= t <= 1_000_000,
            t * t >= 0,
    ;
}

/// A coordinate of the way, in quintillionths of the unit, after `t` millionths of
/// the swing from `lift_off` to `touch_down`.
fn axis_position(lift_off: i64, touch_down: i64, t: u32) -> (r: i128)
    requires
        t <= WHOLE,
    ensures
        r == place(lift_off as int, touch_down as int, t as int),
        -0x2000_0000_0000_0000_0000_0000_0000_0000 < r < 0x2000_0000_0000_0000_0000_0000_0000_0000,
{
    proof {
        lemma_smoothstep_bounds(t as int);
    }
    let way: i128 = (3 * WHOLE as i128 - 2 * t as i128) * (t as i128 * t as i128);
    let stride: i128 = touch_down as i128 - lift_off as i128;
    proof {
        let m: int = 0x1_0000_0000_0000_0000;
        assert(-(m * 1_000_000_000_000_000_000) <= stride * way <= m * 1_000_000_000_000_000_000)
            by (nonlinear_arith)
            requires
                -m <= stride <= m,
                0 <= way <= 1_000_000_000_000_000_000,
                m > 0,
        ;
        assert(m * 1_000_000_000_000_000_000 < 0x1000_0000_0000_0000_0000_0000_0000_0000)
            by (nonlinear_arith)
            requires
                m == 0x1_0000_0000_0000_0000,
        ;
    }
    lift_off as i128 * 1_000_000_000_000_000_000 + stride * way
}

/// No swing goes faster along an axis, in trillionths of the unit per swing.
const FASTEST: i128 = 40_000_000_000_000_000_000_000_000_000_000;

/// A velocity per swing as one per second, for a swing of `duration` microseconds,
/// rounded down. A swing is no shorter than a microsecond.
pub open spec fn per_second(v: int, duration: int) -> int {
    v * 1_000_000 / (if duration < 1 {
        1
    } else {
        duration
    })
}

fn second(v: i128, duration: u64) -> (r: i128)
    requires
        -2 * FASTEST <= v <= 2 * FASTEST,
    ensures
        r == per_second(v as int, duration as int),
{
    let d: i128 = if duration < 1 {
        1
    } else {
        duration as i128
    };
    proof {
        let top = v * 1_000_000;
        assert(top >= 0 ==> 0 <= top / (d as int) <= top) by (nonlinear_arith)
            requires
                d > 0,
        ;
        assert(top < 0 ==> top <= top / (d as int) <= 0) by (nonlinear_arith)
            requires
                d > 0,
        ;
    }
    match (v * 1_000_000).checked_div_euclid(d) {
        Some(q) => q,
        None => 0,
    }
}

/// A coordinate of the way's velocity, in trillionths of the unit per swing.
fn axis_velocity(lift_off: i64, touch_down: i64, t: u32) -> (r: i128)
    requires
        t <= WHOLE,
    ensures
        r == rate(lift_off as int, touch_down as int, t as int),
        -FASTEST <= r <= FASTEST,
{
    proof {
        lemma_smoothstep_bounds(t as int);
    }
    let slope: i128 = 6 * (t as i128 * (WHOLE as i128 - t as i128));
    let stride: i128 = touch_down as i128 - lift_off as i128;
    proof {
        let m: int = 0x1_0000_0000_0000_0000;
        assert(-(m * 1_500_000_000_000) <= stride * slope <= m * 1_500_000_000_000)
            by (nonlinear_arith)
            requires
                -m <= stride <= m,
                0 <= slope <= 1_500_000_000_000,
                m > 0,
        ;
    }
    stride * slope
}

/// How high the foot is over its way, as a share of the swing height: `sin^2(pi t)`
/// in quintillionths, and its slope `pi sin(2 pi t)` in trillionths per swing.
#[derive(Clone, Copy, PartialEq, Eq, Structural, Debug)]
pub struct Arch {
    pub rise: u64,
    pub slope: i64,
}

impl Arch {
    /// A squared sine is at most one, and its slope at most pi.
    pub open spec fn valid(self) -> bool {
        &&& self.rise <= 1_000_000_000_000_000_000
        &&& -4_000_000_000_000 <= self.slope <= 4_000_000_000_000
    }
}

/// The height of the foot, in quintillionths of the unit.
pub open spec fn raised(lift_off: int, touch_down: int, height: int, t: int, arch: Arch) -> int {
    place(lift_off, touch_down, t) + height * arch.rise
}

/// The share of a swing that is over: all of it once it has ended.
pub open spec fn held(t: int) -> int {
    if t > WHOLE {
        WHOLE as int
    } else {
        t
    }
}

/// Where the swing foot is after `t` millionths of its swing, in quintillionths of
/// the unit: over the ground a smoothstep from `lift_off` to `touch_down`, with the
/// arch on top. After its swing it stays.
pub fn swing_position(
    lift_off: &Vec3,
    touch_down: &Vec3,
    swing_height: i64,
    t: u32,
    arch: &Arch,
) -> (r: (i128, i128, i128))
    requires
        arch.valid(),
    ensures
        r.0 == place(lift_off.x as int, touch_down.x as int, held(t as int)),
        r.1 == place(lift_off.y as int, touch_down.y as int, held(t as int)),
        r.2 == raised(
            lift_off.z as int,
            touch_down.z as int,
            swing_height as int,
            held(t as int),
            *arch,
        ),
{
    proof {
        let m: int = 0x8000_0000_0000_0000;
        assert(-(m * 1_000_000_000_000_000_000) <= swing_height * arch.rise <= m
            * 1_000_000_000_000_000_000) by (nonlinear_arith)
            requires
                -m <= swing_height <= m,
                0 <= arch.rise <= 1_000_000_000_000_000_000,
                m > 0,
        ;
    }
    let t: u32 = if t > WHOLE {
        WHOLE
    } else {
        t
    };
    let z: i128 = axis_position(lift_off.z, touch_down.z, t);
    (
        axis_position(lift_off.x, touch_down.x, t),
        axis_position(lift_off.y, touch_down.y, t),
        z + swing_height as i128 * arch.rise as i128,
    )
}

/// How fast the swing foot is in a swing of `duration` microseconds, in trillionths
/// of the unit per second, rounded down. Feeding it forward rather than damping to
/// zero is what stops the tracking error from growing with swing speed.
pub fn swing_velocity(
    lift_off: &Vec3,
    touch_down: &Vec3,
    swing_height: i64,
    t: u32,
    arch: &Arch,
    duration: u64,
) -> (r: (i128, i128, i128))
    requires
        arch.valid(),
    ensures
        r.0 == per_second(
            rate(lift_off.x as int, touch_down.x as int, held(t as int)),
            duration as int,
        ),
        r.1 == per_second(
            rate(lift_off.y as int, touch_down.y as int, held(t as int)),
            duration as int,
        ),
        r.2 == per_second(
            rate(lift_off.z as int, touch_down.z as int, held(t as int)) + swing_height * arch.slope,
            duration as int,
        ),
{
    proof {
        let m: int = 0x8000_0000_0000_0000;
        assert(-(m * 4_000_000_000_000) <= swing_height * arch.slope <= m * 4_000_000_000_000)
            by (nonlinear_arith)
            requires
                -m <= swing_height <= m,
                -4_000_000_000_000 <= arch.slope <= 4_000_000_000_000,
                m > 0,
        ;
    }
    let t: u32 = if t > WHOLE {
        WHOLE
    } else {
        t
    };
    let z: i128 = axis_velocity(lift_off.z, touch_down.z, t);
    (
        second(axis_velocity(lift_off.x, touch_down.x, t), duration),
        second(axis_velocity(lift_off.y, touch_down.y, t), duration),
        second(z + swing_height as i128 * arch.slope as i128, duration),
    )
}

/// The foot is never below its way, and where the arch is down it is on it.
pub proof fn law_arch_is_above_the_way(
    lift_off: int,
    touch_down: int,
    height: int,
    t: int,
    arch: Arch,
)
    requires
        height >= 0,
        arch.valid(),
    ensures
        place(lift_off, touch_down, t) <= raised(lift_off, touch_down, height, t, arch)
            <= place(lift_off, touch_down, t) + height * 1_000_000_000_000_000_000,
        arch.rise == 0 ==> raised(lift_off, touch_down, height, t, arch) == place(
            lift_off,
            touch_down,
            t,
        ),
{
    let rise = arch.rise as int;
    assert(0 <= height * rise <= height * 1_000_000_000_000_000_000) by (nonlinear_arith)
        requires
            height >= 0,
            0 <= rise <= 1_000_000_000_000_000_000,
    ;
    assert(height * 0 == 0) by (nonlinear_arith);
}

/// The way starts and ends exactly where it should, without velocity at either
/// end, so that the handover to stance is no impact.
pub proof fn law_swing_ends_are_exact(lift_off: int, touch_down: int)
    ensures
        place(lift_off, touch_down, 0) == lift_off * 1_000_000_000_000_000_000,
        place(lift_off, touch_down, WHOLE as int) == touch_down * 1_000_000_000_000_000_000,
        rate(lift_off, touch_down, 0) == 0,
        rate(lift_off, touch_down, WHOLE as int) == 0,
        forall|duration: int| #[trigger] per_second(0, duration) == 0,
{
    assert(smoothstep(0) == 0) by (nonlinear_arith);
    assert(smoothstep_slope(0) == 0) by (nonlinear_arith);
    lemma_whole_way();
    assert(smoothstep_slope(WHOLE as int) == 0) by (nonlinear_arith);
    assert((touch_down - lift_off) * 0 == 0) by (nonlinear_arith);
}

/// The swing foot only moves towards where it will land, and never beyond.
pub proof fn law_swing_moves_forward(t1: int, t2: int)
    requires
        0 <= t1 <= t2 <= WHOLE,
    ensures
        0 <= smoothstep(t1) <= smoothstep(t2) <= smoothstep(WHOLE as int),
        smoothstep_slope(t1) >= 0,
{
    lemma_smoothstep_bounds(t1);
    lemma_smoothstep_bounds(t2);
    lemma_whole_way();
    let gap = t2 - t1;
    let a = t1 * t1;
    let b = t1 * t2;
    let c = t2 * t2;
    let sum = a + b + c;
    lemma_product_within(t1, t1);
    lemma_product_within(t1, t2);
    lemma_product_within(t2, t1);
    lemma_product_within(t2, t2);
    assert(t2 * t1 == b) by (nonlinear_arith)
        requires
            b == t1 * t2,
    ;
    // smoothstep(t2) - smoothstep(t1) == gap * (3 * WHOLE * (t1 + t2) - 2 * sum)
    assert(gap * (t1 + t2) == c - a) by (nonlinear_arith)
        requires
            gap == t2 - t1,
            a == t1 * t1,
            c == t2 * t2,
    ;
    assert(t2 * a == t1 * b) by (nonlinear_arith)
        requires
            a == t1 * t1,
            b == t1 * t2,
    ;
    assert(t2 * b == t1 * c) by (nonlinear_arith)
        requires
            b == t1 * t2,
            c == t2 * t2,
    ;
    assert(gap * sum == (t2 * a + t2 * b + t2 * c) - (t1 * a + t1 * b + t1 * c))
        by (nonlinear_arith)
        requires
            gap == t2 - t1,
            sum == a + b + c,
    ;
    let rest = 3_000_000 * (t1 + t2) - 2 * sum;
    assert(gap * rest >= 0) by (nonlinear_arith)
        requires
            gap >= 0,
            rest >= 0,
    ;
    assert(gap * rest == 3_000_000 * (gap * (t1 + t2)) - 2 * (gap * sum)) by (nonlinear_arith)
        requires
            rest == 3_000_000 * (t1 + t2) - 2 * sum,
    ;
    assert((3_000_000 - 2 * t2) * c == 3_000_000 * c - 2 * (t2 * c)) by (nonlinear_arith);
    assert((3_000_000 - 2 * t1) * a == 3_000_000 * a - 2 * (t1 * a)) by (nonlinear_arith);
}

proof fn lemma_product_within(x: int, y: int)
    requires
        0 <= x <= WHOLE,
        0 <= y,
    ensures
        x * y <= 1_000_000 * y,
{
    assert(x * y <= 1_000_000 * y) by (nonlinear_arith)
        requires
            0 <= x <= 1_000_000,
            0 <= y,
    ;
}

/// The velocity is the derivative of the position: between two times of the swing the foot
/// moves by its velocity times the time, up to a term of second order.
pub proof fn law_velocity_is_the_derivative(lift_off: int, touch_down: int, t1: int, t2: int)
    requires
        0 <= t1 <= t2 <= 1_000_000,
    ensures
        ({
            let stride = touch_down - lift_off;
            let moved = place(lift_off, touch_down, t2) - place(lift_off, touch_down, t1);
            let off = moved - rate(lift_off, touch_down, t1) * (t2 - t1);
            let bend = 3_000_000 * ((t2 - t1) * (t2 - t1));
            &&& stride >= 0 ==> -(stride * bend) <= off <= stride * bend
            &&& stride <= 0 ==> stride * bend <= off <= -(stride * bend)
        }),
{
    let (w, d, stride) = (1_000_000int, t2 - t1, touch_down - lift_off);
    let (s1, s2, v) = (smoothstep(t1), smoothstep(t2), smoothstep_slope(t1));
    let k = 3 * w - 6 * t1 - 2 * d;
    let a = t1 * t1;
    assert(t2 * t2 == a + 2 * (t1 * d) + d * d) by (nonlinear_arith)
        requires
            t2 == t1 + d,
            a == t1 * t1,
    ;
    let (b, c) = (t1 * d, d * d);
    assert((3 * w - 2 * t1) * a == 3 * w * a - 2 * (t1 * a)) by (nonlinear_arith);
    assert((3 * w - 2 * t2) * (a + 2 * b + c) == 3 * w * (a + 2 * b + c) - 2 * (t1 * a) - 4 * (t1
        * b) - 2 * (t1 * c) - 2 * (d * a) - 4 * (d * b) - 2 * (d * c)) by (nonlinear_arith)
        requires
            t2 == t1 + d,
    ;
    assert(t1 * b == d * a && d * b == t1 * c) by (nonlinear_arith)
        requires
            a == t1 * t1,
            b == t1 * d,
            c == d * d,
    ;
    assert(v * d == 6 * (w * b) - 6 * (d * a)) by (nonlinear_arith)
        requires
            v == 6 * (t1 * (w - t1)),
            a == t1 * t1,
            b == t1 * d,
    ;
    assert(k * c == 3 * w * c - 6 * (t1 * c) - 2 * (d * c)) by (nonlinear_arith)
        requires
            k == 3 * w - 6 * t1 - 2 * d,
    ;
    assert(3 * w * (a + 2 * b + c) == 3 * w * a + 6 * (w * b) + 3 * w * c) by (nonlinear_arith);
    let bent = s2 - s1 - v * d;
    assert(bent == k * c);
    assert(c >= 0) by (nonlinear_arith)
        requires
            c == d * d,
    ;
    assert(-(3 * w * c) <= bent <= 3 * w * c) by (nonlinear_arith)
        requires
            bent == k * c,
            -(3 * w) <= k <= 3 * w,
            c >= 0,
    ;
    let off = stride * s2 - stride * s1 - (stride * v) * d;
    assert(off == stride * bent) by (nonlinear_arith)
        requires
            off == stride * s2 - stride * s1 - (stride * v) * d,
            bent == s2 - s1 - v * d,
    ;
    let bend = 3 * w * c;
    assert(stride >= 0 ==> -(stride * bend) <= stride * bent <= stride * bend) by (nonlinear_arith)
        requires
            -bend <= bent <= bend,
    ;
    assert(stride <= 0 ==> stride * bend <= stride * bent <= -(stride * bend)) by (nonlinear_arith)
        requires
            -bend <= bent <= bend,
    ;
}

/// The foot leaves and lands softly: a short time `t` after lift-off, and as long before
/// touch-down, it is off that end of its way by a term of second order only.
pub proof fn law_swing_leaves_and_lands_softly(lift_off: int, touch_down: int, t: int)
    requires
        0 <= t <= 1_000_000,
    ensures
        ({
            let unit: int = 1_000_000_000_000_000_000;
            let stride = touch_down - lift_off;
            let near = 3_000_000 * (t * t);
            let left = place(lift_off, touch_down, t) - lift_off * unit;
            let missing = touch_down * unit - place(lift_off, touch_down, 1_000_000 - t);
            &&& left == missing
            &&& stride >= 0 ==> 0 <= left <= stride * near
            &&& stride <= 0 ==> stride * near <= left <= 0
        }),
{
    let w = 1_000_000int;
    let stride = touch_down - lift_off;
    let (s, e) = (smoothstep(t), smoothstep(w - t));
    let c = t * t;
    lemma_smoothstep_bounds(t);
    assert((w - t) * (w - t) == w * w - 2 * (w * t) + c) by (nonlinear_arith)
        requires
            c == t * t,
    ;
    assert((w + 2 * t) * (w * w - 2 * (w * t) + c) == w * w * w + w * c - 4 * (w * c) + 2 * (t * c))
        by (nonlinear_arith)
        requires
            c == t * t,
    ;
    assert((3 * w - 2 * t) * c == 3 * (w * c) - 2 * (t * c)) by (nonlinear_arith);
    assert(w * w * w == 1_000_000_000_000_000_000) by (nonlinear_arith)
        requires
            w == 1_000_000,
    ;
    assert(s + e == 1_000_000_000_000_000_000);
    assert(stride * e == stride * 1_000_000_000_000_000_000 - stride * s) by (nonlinear_arith)
        requires
            s + e == 1_000_000_000_000_000_000,
    ;
    let near = 3 * w * c;
    assert(0 <= s <= near) by (nonlinear_arith)
        requires
            s == (3 * w - 2 * t) * c,
            0 <= t <= w,
            c >= 0,
            near == 3 * w * c,
    ;
    assert(stride >= 0 ==> 0 <= stride * s <= stride * near) by (nonlinear_arith)
        requires
            0 <= s <= near,
    ;
    assert(stride <= 0 ==> stride * near <= stride * s <= 0) by (nonlinear_arith)
        requires
            0 <= s <= near,
    ;
}

/// Before its end a swing is as far as it is, and after it the foot stays where it landed,
/// without velocity.
pub proof fn law_landed_foot_stays(lift_off: int, touch_down: int, t: int)
    ensures
        t <= 1_000_000 ==> held(t) == t,
        t >= 1_000_000 ==> place(lift_off, touch_down, held(t)) == touch_down
            * 1_000_000_000_000_000_000,
        t >= 1_000_000 ==> rate(lift_off, touch_down, held(t)) == 0,
{
    law_swing_ends_are_exact(lift_off, touch_down);
}

/// A velocity per second, kept up for the duration in microseconds, makes the way per swing
/// again, up to the last digit. A swing without duration counts as one microsecond.
pub proof fn law_velocity_makes_the_swing(v: int, duration: int)
    ensures
        duration >= 1 ==> 0 <= v * 1_000_000 - duration * per_second(v, duration) < duration,
        duration <= 0 ==> per_second(v, duration) == v * 1_000_000,
{
    if duration >= 1 {
        let top = v * 1_000_000;
        let q = top / duration;
        assert(0 <= top - duration * q < duration) by (nonlinear_arith)
            requires
                duration >= 1,
                q == top / duration,
        ;
    }
}

/// The arch lifts the foot straight up: by the swing height times its rise, whatever the
/// way over the ground.
pub proof fn law_arch_lifts_by_its_rise(
    lift_off: int,
    touch_down: int,
    height: int,
    t: int,
    arch: Arch,
)
    ensures
        raised(lift_off, touch_down, height, t, arch) - place(lift_off, touch_down, t) == height
            * arch.rise,
        arch.rise == 1_000_000_000_000_000_000 && lift_off == touch_down ==> raised(
            lift_off,
            touch_down,
            height,
            t,
            arch,
        ) == (lift_off + height) * 1_000_000_000_000_000_000,
{
    assert((touch_down - lift_off) * smoothstep(t) == 0 || lift_off != touch_down)
        by (nonlinear_arith);
    let unit: int = 1_000_000_000_000_000_000;
    assert((lift_off + height) * unit == lift_off * unit + height * unit) by (nonlinear_arith);
}

} // verus!
