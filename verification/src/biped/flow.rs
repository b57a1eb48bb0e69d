//! How the reference of the divergent component of motion moves in time.
//!
//! The exponential comes in as weights, so what is said of its values is what makes
//! it an exponential: what decays over a stretch is the rate times the mean over that
//! stretch, and two stretches one after the other decay like the whole. From these two
//! it follows that the reference solves `xi_dot = omega (xi - p)` and does not jump.

use vstd::prelude::*;

use crate::biped::dcm::{DcmPlan, Decay, Span, WHOLE_WEIGHT};
use crate::biped::pressure::{Point2, MAX_COORDINATE};

verus! {

/// A radian, in billionths of a radian per second times microseconds.
pub const RADIAN: i128 = 1_000_000_000_000_000;

impl Decay {
    /// The weights are those of `dt` microseconds at the rate `omega`: what has decayed
    /// is the rate times the mean, `1 - end = omega dt mean`, where each weight is
    /// rounded to a whole part one way or the other.
    pub open spec fn lasts(self, omega: int, dt: int) -> bool {
        let turn = omega * dt;
        -(RADIAN + turn) <= RADIAN * (WHOLE_WEIGHT - self.end) - turn * self.mean <= RADIAN + turn
    }

    /// The weights are those of the stretch `first`, `dt` long, and of the stretch
    /// `rest` behind it, `after` long: what is left of the one is what the other starts
    /// with, and the means are averaged. Each weight is rounded one way or the other.
    pub open spec fn joins(self, first: Decay, dt: int, rest: Decay, after: int) -> bool {
        let slack = 4 * WHOLE_WEIGHT;
        let ends = WHOLE_WEIGHT * self.end - first.end * rest.end;
        let means = WHOLE_WEIGHT * (dt + after) * self.mean - WHOLE_WEIGHT * dt * first.mean - after
            * (first.end * rest.mean);
        &&& -slack <= ends <= slack
        &&& -(slack * (dt + after)) <= means <= slack * (dt + after)
    }
}

/// A coordinate of the pressure moves evenly from `p` to `p1` and is at `pm` after `dt`
/// of `dt + after` microseconds, up to a unit.
pub open spec fn moves_evenly(p: int, pm: int, p1: int, dt: int, after: int) -> bool {
    -(dt + after) <= (dt + after) * (pm - p) - dt * (p1 - p) <= dt + after
}

/// Two values of a coordinate of the reference are the same, up to the rounding of the
/// coordinate and of its weights.
pub open spec fn is_same(x: int, y: int, p: int, p1: int, xi_end: int) -> bool {
    WHOLE_WEIGHT * crate::biped::dcm::size(x - y) <= 4 * (crate::biped::dcm::size(p1 - p)
        + crate::biped::dcm::size(xi_end - p1)) + 3 * WHOLE_WEIGHT
}

proof fn lemma_split(p0: int, p1: int, xi_end: int, w: Decay)
    ensures
        ({
            let all = WHOLE_WEIGHT as int;
            let sum = crate::biped::dcm::weighed(p0, p1, xi_end, w);
            let lost = sum - all * crate::biped::dcm::backed(p0, p1, xi_end, w);
            &&& sum == all * p0 + w.mean * (p1 - p0) + w.end * (xi_end - p1)
            &&& 0 <= lost < all
        }),
{
    let (all, m, e) = (WHOLE_WEIGHT as int, w.mean as int, w.end as int);
    assert((all - m) * p0 + (m - e) * p1 + e * xi_end == all * p0 + m * (p1 - p0) + e * (xi_end
        - p1)) by (nonlinear_arith);
}

proof fn lemma_product(d: int, u: int, g: int)
    requires
        -g <= d <= g,
    ensures
        -(g * crate::biped::dcm::size(u)) <= d * u <= g * crate::biped::dcm::size(u),
{
    let s = crate::biped::dcm::size(u);
    assert(-(g * s) <= d * u <= g * s) by (nonlinear_arith)
        requires
            -g <= d <= g,
            s == (if u < 0 {
                -u
            } else {
                u
            }),
    ;
}

/// The reference at an earlier time is what the stretch between the two times makes of
/// the reference at the later one.
pub proof fn law_reference_flows(
    p: int,
    pm: int,
    p1: int,
    xi_end: int,
    whole: Decay,
    first: Decay,
    dt: int,
    rest: Decay,
    after: int,
)
    requires
        whole.valid(),
        first.valid(),
        rest.valid(),
        0 <= dt,
        0 <= after,
        0 < dt + after,
        whole.joins(first, dt, rest, after),
        moves_evenly(p, pm, p1, dt, after),
    ensures
        is_same(
            crate::biped::dcm::backed(p, p1, xi_end, whole),
            crate::biped::dcm::backed(
                p,
                pm,
                crate::biped::dcm::backed(pm, p1, xi_end, rest),
                first,
            ),
            p,
            p1,
            xi_end,
        ),
{
    let w = WHOLE_WEIGHT as int;
    let t = dt + after;
    let (s, n) = (first.end as int, first.mean as int);
    let (e1, m1) = (whole.end as int, whole.mean as int);
    let (e2, m2) = (rest.end as int, rest.mean as int);
    let (u1, u2, v) = (p1 - p, xi_end - p1, pm - p);
    let x1 = crate::biped::dcm::backed(p, p1, xi_end, whole);
    let x2 = crate::biped::dcm::backed(pm, p1, xi_end, rest);
    let y = crate::biped::dcm::backed(p, pm, x2, first);
    lemma_split(p, p1, xi_end, whole);
    lemma_split(pm, p1, xi_end, rest);
    lemma_split(p, pm, x2, first);
    let r1 = crate::biped::dcm::weighed(p, p1, xi_end, whole) - w * x1;
    let r2 = crate::biped::dcm::weighed(pm, p1, xi_end, rest) - w * x2;
    let r3 = crate::biped::dcm::weighed(p, pm, x2, first) - w * y;
    // What the roundings of weights, pressure and coordinates cost.
    let ends = w * e1 - s * e2;
    let means = w * t * m1 - w * dt * n - after * (s * m2);
    let step = t * v - dt * u1;
    let k = w * n - s * m2;
    let lost = s * r2 - w * r1 + w * r3;
    let gap = w * (w * (x1 - y));
    assert(gap == w * m1 * u1 + w * e1 * u2 - w * n * v - s * (m2 * (u1 - v) + e2 * u2) + lost) by {
        assert(w * x1 == w * p + m1 * u1 + e1 * u2 - r1);
        assert(w * x2 == w * pm + m2 * (u1 - v) + e2 * u2 - r2);
        assert(w * y == w * p + n * v + s * (x2 - pm) - r3);
        assert(w * (x1 - y) == w * x1 - w * y) by (nonlinear_arith);
        let d = m1 * u1 + e1 * u2 - r1 - n * v - s * (x2 - pm) + r3;
        assert(w * (x1 - y) == d);
        let (f, g, h, i) = (m1 * u1, e1 * u2, n * v, s * (x2 - pm));
        assert(w * (f + g - r1 - h - i + r3) == w * f + w * g - w * r1 - w * h - w * i + w * r3)
            by (nonlinear_arith);
        lemma_assoc(w, m1, u1);
        lemma_assoc(w, e1, u2);
        lemma_assoc(w, n, v);
        assert(w * (s * (x2 - pm)) == s * (w * x2 - w * pm)) by (nonlinear_arith);
        let q = m2 * (u1 - v) + e2 * u2;
        assert(s * (q - r2) == s * q - s * r2) by (nonlinear_arith);
    }
    assert(t * gap == u1 * means - k * step + t * (ends * u2) + t * lost) by {
        lemma_regroup(w, t, dt, after, s, n, e1, m1, e2, m2, u1, u2, v, lost);
    }
    let (a1, a2) = (crate::biped::dcm::size(u1), crate::biped::dcm::size(u2));
    lemma_product(means, u1, 4 * w * t);
    assert(means * u1 == u1 * means) by (nonlinear_arith);
    lemma_product(ends, u2, 4 * w);
    assert(0 <= w * n <= w * w && 0 <= s * m2 <= w * w) by (nonlinear_arith)
        requires
            0 <= n <= w,
            0 <= s <= w,
            0 <= m2 <= w,
    ;
    assert(-(w * w * t) <= k * step <= w * w * t) by (nonlinear_arith)
        requires
            -(w * w) <= k <= w * w,
            -t <= step <= t,
            t > 0,
    ;
    assert(-(w * w) <= lost <= 2 * (w * w)) by (nonlinear_arith)
        requires
            lost == s * r2 - w * r1 + w * r3,
            0 <= s <= w,
            0 <= r1 <= w,
            0 <= r2 <= w,
            0 <= r3 <= w,
            w > 0,
    ;
    let most = 4 * w * a1 + 4 * w * a2 + 3 * (w * w);
    let bits = t * (ends * u2) + t * lost;
    assert(-(t * (4 * w * a2 + w * w)) <= bits <= t * (4 * w * a2 + 2 * (w * w)))
        by (nonlinear_arith)
        requires
            bits == t * (ends * u2) + t * lost,
            -(4 * w * a2) <= ends * u2 <= 4 * w * a2,
            -(w * w) <= lost <= 2 * (w * w),
            t > 0,
    ;
    assert(4 * w * t * a1 == t * (4 * w * a1)) by (nonlinear_arith);
    assert(t * most == t * (4 * w * a1) + t * (4 * w * a2 + 2 * (w * w)) + t * (w * w))
        by (nonlinear_arith)
        requires
            most == 4 * w * a1 + 4 * w * a2 + 3 * (w * w),
    ;
    assert(t * (4 * w * a2 + 2 * (w * w)) == t * (4 * w * a2 + w * w) + t * (w * w))
        by (nonlinear_arith);
    assert(w * w * t == t * (w * w)) by (nonlinear_arith);
    assert(0 <= t * (w * w)) by (nonlinear_arith)
        requires
            t > 0,
            w > 0,
    ;
    assert(-(t * most) <= t * gap <= t * most);
    assert(-most <= gap <= most) by (nonlinear_arith)
        requires
            -(t * most) <= t * gap <= t * most,
            t > 0,
    ;
    let apart = w * (x1 - y);
    assert(most == w * (4 * (a1 + a2) + 3 * w)) by (nonlinear_arith)
        requires
            most == 4 * w * a1 + 4 * w * a2 + 3 * (w * w),
    ;
    let bound = 4 * (a1 + a2) + 3 * w;
    assert(-bound <= apart <= bound) by (nonlinear_arith)
        requires
            -(w * bound) <= w * apart <= w * bound,
            w > 0,
    ;
    assert(w * (y - x1) == -apart) by (nonlinear_arith)
        requires
            apart == w * (x1 - y),
    ;
}

proof fn lemma_assoc(a: int, b: int, c: int)
    ensures
        a * (b * c) == a * b * c,
{
    assert(a * (b * c) == a * b * c) by (nonlinear_arith);
}

proof fn lemma_regroup(
    w: int,
    t: int,
    dt: int,
    after: int,
    s: int,
    n: int,
    e1: int,
    m1: int,
    e2: int,
    m2: int,
    u1: int,
    u2: int,
    v: int,
    lost: int,
)
    requires
        t == dt + after,
    ensures
        t * (w * m1 * u1 + w * e1 * u2 - w * n * v - s * (m2 * (u1 - v) + e2 * u2) + lost) == u1 * (
        w * t * m1 - w * dt * n - after * (s * m2)) - (w * n - s * m2) * (t * v - dt * u1) + t * ((
        w * e1 - s * e2) * u2) + t * lost,
{
    let k = w * n - s * m2;
    let inner = w * m1 * u1 - s * m2 * u1 - k * v;
    assert(s * (m2 * (u1 - v) + e2 * u2) == s * m2 * u1 - s * m2 * v + s * e2 * u2)
        by (nonlinear_arith);
    assert((w * n - s * m2) * v == w * n * v - s * m2 * v) by (nonlinear_arith);
    assert((w * e1 - s * e2) * u2 == w * e1 * u2 - s * e2 * u2) by (nonlinear_arith);
    let (a, b, c) = (w * m1 * u1, s * m2 * u1, k * v);
    assert(t * (a - b - c) == t * a - t * b - t * c) by (nonlinear_arith);
    assert(t * (w * m1 * u1) == u1 * (w * t * m1)) by (nonlinear_arith);
    assert(t * (s * m2 * u1) == u1 * (t * (s * m2))) by (nonlinear_arith);
    assert(t * (k * v) == k * (t * v)) by (nonlinear_arith);
    let (y, z) = (w * t * m1, t * (s * m2));
    assert(u1 * y - u1 * z == u1 * (y - z)) by (nonlinear_arith);
    assert(k * (t * v) == k * (t * v - dt * u1) + u1 * (dt * k)) by (nonlinear_arith);
    assert(dt * k == w * dt * n - dt * (s * m2)) by (nonlinear_arith)
        requires
            k == w * n - s * m2,
    ;
    assert(t * (s * m2) == dt * (s * m2) + after * (s * m2)) by (nonlinear_arith)
        requires
            t == dt + after,
    ;
    let (f, g) = (w * t * m1 - t * (s * m2), dt * k);
    assert(u1 * f - u1 * g == u1 * (f - g)) by (nonlinear_arith);
    let ends = (w * e1 - s * e2) * u2;
    assert(t * (inner + ends + lost) == t * inner + t * ends + t * lost) by (nonlinear_arith);
}

// ---------------------------------------------------------------- the speed

/// How far a coordinate of the reference may be from moving evenly at the speed of its
/// later time: what the speed changes over the stretch `turn` (that is of second order,
/// as long as the pressure moves little) and what is rounded. In parts of a weight and
/// of two radians.
pub open spec fn slack(p: int, pm: int, p1: int, x2: int, xi_end: int, turn: int) -> int {
    let (far, moved) = (crate::biped::dcm::size(x2 - p), crate::biped::dcm::size(pm - p));
    let bend = turn * turn * far + 2 * RADIAN * turn * moved;
    let weights = (RADIAN + turn) * (RADIAN * (far + moved) + turn * far);
    let rest = 4 * (crate::biped::dcm::size(p1 - p) + crate::biped::dcm::size(xi_end - p1)) + 4
        * WHOLE_WEIGHT;
    WHOLE_WEIGHT * bend + weights + RADIAN * RADIAN * rest
}

/// From `x1` to `x2` a coordinate of the reference moves by `omega (xi - p) dt`, and by
/// the published speed times `dt`.
pub open spec fn is_driven(
    x1: int,
    x2: int,
    p: int,
    pm: int,
    p1: int,
    xi_end: int,
    omega: int,
    dt: int,
) -> bool {
    let turn = omega * dt;
    let most = slack(p, pm, p1, x2, xi_end, turn);
    let unit = WHOLE_WEIGHT * RADIAN;
    let speed = crate::biped::dcm::leaving(x2, pm, omega);
    &&& unit * crate::biped::dcm::size(RADIAN * (x2 - x1) - turn * (x2 - pm)) <= most
    &&& unit * crate::biped::dcm::size(RADIAN * (x2 - x1) - 1_000_000_000 * dt * speed) <= most
        + unit * (1_000_000_000 * dt)
}

proof fn lemma_size_scaled(a: int, v: int, bound: int)
    requires
        a >= 0,
        -bound <= a * v <= bound,
    ensures
        a * crate::biped::dcm::size(v) <= bound,
{
    assert(a * (-v) == -(a * v)) by (nonlinear_arith);
}

/// What a stretch makes of a coordinate `x2` behind it, as a difference.
proof fn lemma_back_by(p: int, pm: int, x2: int, first: Decay) -> (lost: int)
    ensures
        0 <= lost < WHOLE_WEIGHT,
        WHOLE_WEIGHT * (x2 - crate::biped::dcm::backed(p, pm, x2, first)) == (WHOLE_WEIGHT
            - first.end) * (x2 - p) - (first.mean - first.end) * (pm - p) + lost,
{
    let (w, s, n) = (WHOLE_WEIGHT as int, first.end as int, first.mean as int);
    let y = crate::biped::dcm::backed(p, pm, x2, first);
    lemma_split(p, pm, x2, first);
    let lost = crate::biped::dcm::weighed(p, pm, x2, first) - w * y;
    assert(w * (x2 - y) == w * x2 - w * y) by (nonlinear_arith);
    assert((w - s) * (x2 - p) - (n - s) * (pm - p) == w * x2 - (w * p + n * (pm - p) + s * (x2
        - pm))) by (nonlinear_arith);
    lost
}

proof fn lemma_stretch_is_driven(
    p: int,
    pm: int,
    x2: int,
    first: Decay,
    omega: int,
    dt: int,
)
    requires
        first.valid(),
        omega >= 0,
        dt >= 0,
        first.lasts(omega, dt),
    ensures
        ({
            let turn = omega * dt;
            let y = crate::biped::dcm::backed(p, pm, x2, first);
            let (far, moved) = (crate::biped::dcm::size(x2 - p), crate::biped::dcm::size(pm - p));
            let most = WHOLE_WEIGHT * (turn * turn * far + 2 * RADIAN * turn * moved) + (RADIAN
                + turn) * (RADIAN * (far + moved) + turn * far) + RADIAN * RADIAN * WHOLE_WEIGHT;
            let off = RADIAN * (x2 - y) - turn * (x2 - pm);
            -most <= WHOLE_WEIGHT * RADIAN * off <= most
        }),
{
    let (w, s, n) = (WHOLE_WEIGHT as int, first.end as int, first.mean as int);
    let r = RADIAN as int;
    let a = omega * dt;
    assert(a >= 0) by (nonlinear_arith)
        requires
            a == omega * dt,
            omega >= 0,
            dt >= 0,
    ;
    let y = crate::biped::dcm::backed(p, pm, x2, first);
    let (u, v) = (x2 - p, pm - p);
    let (far, moved) = (crate::biped::dcm::size(u), crate::biped::dcm::size(v));
    let lost = lemma_back_by(p, pm, x2, first);
    let tol = r + a;
    let eps = r * (w - s) - a * n;
    let off = r * (x2 - y) - a * (x2 - pm);
    assert(w * off == -(a * (w - n) * u) + eps * u + w * a * v - r * (n - s) * v + r * lost) by {
        let d = w * (x2 - y);
        assert(w * off == r * d - w * a * (u - v)) by (nonlinear_arith)
            requires
                off == r * (x2 - y) - a * (u - v),
                d == w * (x2 - y),
        ;
        let (f, g) = ((w - s) * u, (n - s) * v);
        assert(r * (f - g + lost) == r * f - r * g + r * lost) by (nonlinear_arith);
        lemma_assoc(r, w - s, u);
        lemma_assoc(r, n - s, v);
        assert((a * n + eps) * u == a * n * u + eps * u) by (nonlinear_arith);
        assert(w * a * (u - v) == w * a * u - w * a * v) by (nonlinear_arith);
        assert(a * (w - n) * u == w * a * u - a * n * u) by (nonlinear_arith);
    }
    // Multiplied by a radian once more, each part is bounded.
    let gone = a * w + tol;
    assert(a * n <= a * w) by (nonlinear_arith)
        requires
            a >= 0,
            n <= w,
    ;
    assert(0 <= r * (w - n) <= gone && 0 <= r * (n - s) <= gone) by {
        assert(r * (w - n) <= r * (w - s) && r * (n - s) <= r * (w - s) && 0 <= r * (w - n) && 0
            <= r * (n - s)) by (nonlinear_arith)
            requires
                s <= n <= w,
                r > 0,
        ;
    }
    let one = a * (r * (w - n));
    assert(0 <= one <= a * gone) by (nonlinear_arith)
        requires
            one == a * (r * (w - n)),
            0 <= r * (w - n) <= gone,
            a >= 0,
    ;
    lemma_product(one, u, a * gone);
    assert(-(r * tol) <= r * eps <= r * tol) by (nonlinear_arith)
        requires
            -tol <= eps <= tol,
            r > 0,
    ;
    lemma_product(r * eps, u, r * tol);
    let two = r * (w * a);
    assert(two >= 0) by (nonlinear_arith)
        requires
            two == r * (w * a),
            r > 0,
            w > 0,
            a >= 0,
    ;
    lemma_product(two, v, two);
    let three = r * (r * (n - s));
    assert(0 <= three <= r * gone) by (nonlinear_arith)
        requires
            three == r * (r * (n - s)),
            0 <= r * (n - s) <= gone,
            r > 0,
    ;
    lemma_product(three, v, r * gone);
    assert(0 <= r * (r * lost) <= r * r * w) by (nonlinear_arith)
        requires
            0 <= lost <= w,
            r > 0,
    ;
    assert(r * (w * off) == -(one * u) + (r * eps) * u + two * v - three * v + r * (r * lost)) by {
        let (f, g, h, i, j) = (a * (w - n) * u, eps * u, w * a * v, r * (n - s) * v, r * lost);
        assert(r * (-f + g + h - i + j) == -(r * f) + r * g + r * h - r * i + r * j)
            by (nonlinear_arith);
        assert(r * (a * (w - n) * u) == a * (r * (w - n)) * u) by (nonlinear_arith);
        assert(r * (eps * u) == (r * eps) * u) by (nonlinear_arith);
        assert(r * (w * a * v) == r * (w * a) * v) by (nonlinear_arith);
        assert(r * (r * (n - s) * v) == r * (r * (n - s)) * v) by (nonlinear_arith);
    }
    assert(w * r * off == r * (w * off)) by (nonlinear_arith);
    // The parts add up.
    assert(a * gone * far == w * (a * a * far) + tol * (a * far)) by (nonlinear_arith)
        requires
            gone == a * w + tol,
    ;
    assert(r * gone * moved == w * (r * a * moved) + tol * (r * moved)) by (nonlinear_arith)
        requires
            gone == a * w + tol,
    ;
    assert(two * moved == w * (r * a * moved)) by (nonlinear_arith)
        requires
            two == r * (w * a),
    ;
    assert(r * tol * far == tol * (r * far)) by (nonlinear_arith);
    let (f, g) = (a * a * far, r * a * moved);
    assert(2 * r * a * moved == 2 * g) by (nonlinear_arith)
        requires
            g == r * a * moved,
    ;
    assert(w * (f + 2 * g) == w * f + w * g + w * g) by (nonlinear_arith);
    let (h, i, j) = (r * far, r * moved, a * far);
    assert(r * (far + moved) == h + i) by (nonlinear_arith)
        requires
            h == r * far,
            i == r * moved,
    ;
    assert(tol * (h + i + j) == tol * h + tol * i + tol * j) by (nonlinear_arith);
}

/// A coordinate of the reference moves as its speed says: over a short stretch it moves
/// by `omega (xi - p)` times the time, up to what the speed changes meanwhile.
pub proof fn law_coordinate_is_driven(
    p: int,
    pm: int,
    p1: int,
    xi_end: int,
    whole: Decay,
    first: Decay,
    dt: int,
    rest: Decay,
    after: int,
    omega: int,
)
    requires
        whole.valid(),
        first.valid(),
        rest.valid(),
        0 <= omega,
        0 <= dt,
        0 <= after,
        0 < dt + after,
        whole.joins(first, dt, rest, after),
        first.lasts(omega, dt),
        moves_evenly(p, pm, p1, dt, after),
    ensures
        is_driven(
            crate::biped::dcm::backed(p, p1, xi_end, whole),
            crate::biped::dcm::backed(pm, p1, xi_end, rest),
            p,
            pm,
            p1,
            xi_end,
            omega,
            dt,
        ),
{
    let (w, r, a) = (WHOLE_WEIGHT as int, RADIAN as int, omega * dt);
    let x1 = crate::biped::dcm::backed(p, p1, xi_end, whole);
    let x2 = crate::biped::dcm::backed(pm, p1, xi_end, rest);
    let y = crate::biped::dcm::backed(p, pm, x2, first);
    law_reference_flows(p, pm, p1, xi_end, whole, first, dt, rest, after);
    lemma_stretch_is_driven(p, pm, x2, first, omega, dt);
    let ends = 4 * (crate::biped::dcm::size(p1 - p) + crate::biped::dcm::size(xi_end - p1));
    let apart = w * (x1 - y);
    assert(-(ends + 3 * w) <= apart <= ends + 3 * w) by {
        assert(w * (y - x1) == -(w * (x1 - y))) by (nonlinear_arith);
    }
    let b = r * r * (ends + 3 * w);
    assert(-b <= r * r * apart <= b) by (nonlinear_arith)
        requires
            -(ends + 3 * w) <= apart <= ends + 3 * w,
            b == r * r * (ends + 3 * w),
            r > 0,
    ;
    let most = slack(p, pm, p1, x2, xi_end, a);
    let stretch = r * (x2 - y) - a * (x2 - pm);
    let off = r * (x2 - x1) - a * (x2 - pm);
    assert(w * r * off == w * r * stretch - r * r * apart) by {
        assert(off == stretch - r * (x1 - y)) by (nonlinear_arith)
            requires
                stretch == r * (x2 - y) - a * (x2 - pm),
                off == r * (x2 - x1) - a * (x2 - pm),
        ;
        assert(w * r * (stretch - r * (x1 - y)) == w * r * stretch - r * r * (w * (x1 - y)))
            by (nonlinear_arith);
    }
    assert(r * r * (ends + 3 * w) + r * r * w == r * r * (ends + 4 * w)) by (nonlinear_arith);
    assert(-most <= w * r * off <= most);
    lemma_size_scaled(w * r, off, most);
    // The published speed is rounded down.
    let speed = crate::biped::dcm::leaving(x2, pm, omega);
    let exact = omega * (x2 - pm);
    let less = a * (x2 - pm) - 1_000_000_000 * dt * speed;
    assert(0 <= less <= 1_000_000_000 * dt) by {
        assert(a * (x2 - pm) == dt * exact) by (nonlinear_arith)
            requires
                a == omega * dt,
                exact == omega * (x2 - pm),
        ;
        let part = exact - 1_000_000_000 * speed;
        assert(0 <= part < 1_000_000_000);
        assert(dt * exact - 1_000_000_000 * dt * speed == dt * part) by (nonlinear_arith)
            requires
                part == exact - 1_000_000_000 * speed,
        ;
        assert(0 <= dt * part <= dt * 1_000_000_000) by (nonlinear_arith)
            requires
                0 <= part <= 1_000_000_000,
                dt >= 0,
        ;
    }
    let told = r * (x2 - x1) - 1_000_000_000 * dt * speed;
    assert(w * r * told == w * r * off + w * r * less) by (nonlinear_arith)
        requires
            told == off + less,
    ;
    assert(0 <= w * r * less <= w * r * (1_000_000_000 * dt)) by (nonlinear_arith)
        requires
            0 <= less <= 1_000_000_000 * dt,
            w > 0,
            r > 0,
    ;
    lemma_size_scaled(w * r, told, most + w * r * (1_000_000_000 * dt));
}

// ---------------------------------------------------------------- closeness

/// A coordinate `y` of the reference is as near to a later one `x2` as the stretch `turn`
/// between them is short, where both and the pressure lie within `wide` of each other.
pub open spec fn is_near(y: int, x2: int, wide: int, turn: int) -> bool {
    let unit = WHOLE_WEIGHT * RADIAN;
    unit * crate::biped::dcm::size(x2 - y) <= (turn * (WHOLE_WEIGHT + 1) + RADIAN) * wide + unit
}

/// A short stretch moves a coordinate little.
pub proof fn law_short_stretch_moves_little(
    p: int,
    pm: int,
    x2: int,
    first: Decay,
    omega: int,
    dt: int,
    lo: int,
    hi: int,
)
    requires
        first.valid(),
        first.lasts(omega, dt),
        omega >= 0,
        dt >= 0,
        lo <= p <= hi,
        lo <= pm <= hi,
        lo <= x2 <= hi,
    ensures
        is_near(crate::biped::dcm::backed(p, pm, x2, first), x2, hi - lo, omega * dt),
{
    let (w, s, n) = (WHOLE_WEIGHT as int, first.end as int, first.mean as int);
    let (r, a, d) = (RADIAN as int, omega * dt, hi - lo);
    assert(a >= 0) by (nonlinear_arith)
        requires
            a == omega * dt,
            omega >= 0,
            dt >= 0,
    ;
    let y = crate::biped::dcm::backed(p, pm, x2, first);
    let lost = lemma_back_by(p, pm, x2, first);
    let moved = w * (x2 - y);
    assert((w - s) * (x2 - p) - (n - s) * (pm - p) == (w - n) * (x2 - p) + (n - s) * (x2 - pm))
        by (nonlinear_arith);
    assert(-((w - n) * d) <= (w - n) * (x2 - p) <= (w - n) * d) by (nonlinear_arith)
        requires
            n <= w,
            -d <= x2 - p <= d,
    ;
    assert(-((n - s) * d) <= (n - s) * (x2 - pm) <= (n - s) * d) by (nonlinear_arith)
        requires
            s <= n,
            -d <= x2 - pm <= d,
    ;
    assert((w - n) * d + (n - s) * d == (w - s) * d) by (nonlinear_arith);
    assert(-((w - s) * d + w) <= moved <= (w - s) * d + w);
    let gone = a * (w + 1) + r;
    assert(r * (w - s) <= gone) by {
        assert(a * n <= a * w && a * (w + 1) == a * w + a) by (nonlinear_arith)
            requires
                a >= 0,
                n <= w,
        ;
    }
    assert(r * ((w - s) * d) <= gone * d) by (nonlinear_arith)
        requires
            r * (w - s) <= gone,
            d >= 0,
    ;
    let b = (w - s) * d + w;
    assert(-(r * b) <= r * moved <= r * b) by (nonlinear_arith)
        requires
            -b <= moved <= b,
            r > 0,
    ;
    assert(r * b == r * ((w - s) * d) + w * r) by (nonlinear_arith)
        requires
            b == (w - s) * d + w,
    ;
    assert(w * r * (x2 - y) == r * moved) by (nonlinear_arith)
        requires
            moved == w * (x2 - y),
    ;
    lemma_size_scaled(w * r, x2 - y, gone * d + w * r);
}

// ---------------------------------------------------------------- the plan in time

proof fn lemma_on_the_line(span: Span, t: u64, p0: int, p1: int)
    requires
        span.seg.t0 < span.seg.t1,
        span.seg.t0 <= t <= span.seg.t1,
    ensures
        ({
            let f = span.seg.passed(t);
            let q = crate::biped::pressure::on_the_way(p0, p1, f) / (f.den as int);
            let (long, gone) = (span.seg.t1 - span.seg.t0, t - span.seg.t0);
            let line = p0 * long + (p1 - p0) * gone;
            line - long < long * q <= line
        }),
{
    let f = span.seg.passed(t);
    let (long, gone) = (span.seg.t1 - span.seg.t0, t - span.seg.t0);
    crate::biped::gait::law_frac_in_unit_interval(
        crate::biped::gait::Slice {
            support: crate::biped::gait::Support::Double,
            t0: span.seg.t0,
            t1: span.seg.t1,
        },
        t,
    );
    let (num, den, way) = (f.num as int, f.den as int, p1 - p0);
    let at = p0 * den + way * num;
    let q = at / den;
    assert(at - den < den * q <= at) by (nonlinear_arith)
        requires
            q == at / den,
            den > 0,
    ;
    let line = p0 * long + way * gone;
    assert(long * at == den * line) by (nonlinear_arith)
        requires
            at == p0 * den + way * num,
            line == p0 * long + way * gone,
            num * long == den * gone,
    {
        assert(long * (way * num) == way * (num * long));
        assert(den * (way * gone) == way * (den * gone));
    }
    assert(den * (line - long) < den * (long * q) && den * (long * q) <= den * line)
        by (nonlinear_arith)
        requires
            at - den < den * q <= at,
            long * at == den * line,
            long > 0,
    {
        assert(long * (den * q) <= long * at);
        assert(long * (at - den) < long * (den * q));
    }
    let z = long * q;
    assert(line - long < z && z <= line) by (nonlinear_arith)
        requires
            den * (line - long) < den * z,
            den * z <= den * line,
            den > 0,
    ;
}

proof fn lemma_coordinate_moves_evenly(span: Span, t1: u64, t2: u64, p0: int, p1: int)
    requires
        span.seg.t0 <= t1 <= t2 <= span.seg.t1,
        t1 < span.seg.t1,
    ensures
        ({
            let (f, g) = (span.seg.passed(t1), span.seg.passed(t2));
            moves_evenly(
                crate::biped::pressure::on_the_way(p0, p1, f) / (f.den as int),
                crate::biped::pressure::on_the_way(p0, p1, g) / (g.den as int),
                p1,
                t2 - t1,
                span.seg.t1 - t2,
            )
        }),
{
    let (f, g) = (span.seg.passed(t1), span.seg.passed(t2));
    let p = crate::biped::pressure::on_the_way(p0, p1, f) / (f.den as int);
    let pm = crate::biped::pressure::on_the_way(p0, p1, g) / (g.den as int);
    lemma_on_the_line(span, t1, p0, p1);
    lemma_on_the_line(span, t2, p0, p1);
    let (long, way) = (span.seg.t1 - span.seg.t0, p1 - p0);
    let (g1, g2) = (t1 - span.seg.t0, t2 - span.seg.t0);
    let (dt, t) = (t2 - t1, span.seg.t1 - t1);
    let (r1, r2) = (p0 * long + way * g1 - long * p, p0 * long + way * g2 - long * pm);
    let step = t * (pm - p) - dt * (p1 - p);
    assert(long * step == t * (r1 - r2) - dt * r1) by {
        assert(way * g2 - way * g1 == way * dt) by (nonlinear_arith)
            requires
                dt == g2 - g1,
        ;
        assert(long * (pm - p) == way * dt + r1 - r2) by (nonlinear_arith)
            requires
                way * g2 - way * g1 == way * dt,
                r1 == p0 * long + way * g1 - long * p,
                r2 == p0 * long + way * g2 - long * pm,
        ;
        assert(long * (p1 - p) == way * t + r1) by (nonlinear_arith)
            requires
                r1 == p0 * long + way * g1 - long * p,
                way == p1 - p0,
                t == long - g1,
        ;
        let (y, z) = (long * (pm - p), long * (p1 - p));
        assert(long * step == t * y - dt * z) by (nonlinear_arith)
            requires
                step == t * (pm - p) - dt * (p1 - p),
                y == long * (pm - p),
                z == long * (p1 - p),
        ;
        assert(t * (way * dt + r1 - r2) - dt * (way * t + r1) == t * (r1 - r2) - dt * r1)
            by (nonlinear_arith);
    }
    assert(-(long * t) <= t * (r1 - r2) - dt * r1 <= long * t) by (nonlinear_arith)
        requires
            0 <= r1 <= long,
            0 <= r2 <= long,
            0 <= dt <= t,
    {
        assert(t * (r1 - r2) - dt * r1 == (t - dt) * r1 - t * r2);
        assert(0 <= (t - dt) * r1 <= t * long);
        assert(0 <= t * r2 <= t * long);
    }
    assert(-t <= step <= t) by (nonlinear_arith)
        requires
            -(long * t) <= long * step <= long * t,
            long > 0,
    ;
}

/// The reference solves its equation: between two times of a segment it moves by
/// `omega (xi - p)` times the time, and so by the speed that it publishes, up to what the
/// speed changes meanwhile. `first` is what the stretch between the two times does,
/// `whole` and `rest` what is left of the segment at the earlier and at the later one.
pub proof fn law_reference_moves_at_its_speed(
    plan: DcmPlan,
    i: int,
    t1: u64,
    t2: u64,
    whole: Decay,
    first: Decay,
    rest: Decay,
)
    requires
        plan.valid(),
        0 <= i < plan.spans@.len(),
        plan.spans@[i].seg.t0 <= t1 <= t2 <= plan.spans@[i].seg.t1,
        t1 < plan.spans@[i].seg.t1,
        whole.valid(),
        first.valid(),
        rest.valid(),
        whole.joins(first, t2 - t1, rest, plan.spans@[i].seg.t1 - t2),
        first.lasts(plan.omega as int, t2 - t1),
    ensures
        ({
            let (r1, r2) = (plan.within(i, t1, whole), plan.within(i, t2, rest));
            let (p1, end) = (plan.spans@[i].p1, plan.xi_eos@[i]);
            let (omega, dt) = (plan.omega as int, t2 - t1);
            &&& is_driven(
                r1.xi.x as int,
                r2.xi.x as int,
                r1.p.x as int,
                r2.p.x as int,
                p1.x as int,
                end.x as int,
                omega,
                dt,
            )
            &&& is_driven(
                r1.xi.y as int,
                r2.xi.y as int,
                r1.p.y as int,
                r2.p.y as int,
                p1.y as int,
                end.y as int,
                omega,
                dt,
            )
        }),
{
    let span = plan.spans@[i];
    let (p, pm, p1, end) = (span.pressure(t1), span.pressure(t2), span.p1, plan.xi_eos@[i]);
    let (dt, after, omega) = (t2 - t1, span.seg.t1 - t2, plan.omega as int);
    lemma_reference_fits(plan, i, t1, whole);
    lemma_reference_fits(plan, i, t2, rest);
    lemma_coordinate_moves_evenly(span, t1, t2, span.p0.x as int, span.p1.x as int);
    lemma_coordinate_moves_evenly(span, t1, t2, span.p0.y as int, span.p1.y as int);
    law_coordinate_is_driven(
        p.x as int,
        pm.x as int,
        p1.x as int,
        end.x as int,
        whole,
        first,
        dt,
        rest,
        after,
        omega,
    );
    law_coordinate_is_driven(
        p.y as int,
        pm.y as int,
        p1.y as int,
        end.y as int,
        whole,
        first,
        dt,
        rest,
        after,
        omega,
    );
}

/// The numbers hold the reference.
proof fn lemma_reference_fits(plan: DcmPlan, i: int, t: u64, left: Decay)
    requires
        plan.valid(),
        0 <= i < plan.spans@.len(),
        left.valid(),
    ensures
        ({
            let span = plan.spans@[i];
            let (p, p1, end) = (span.pressure(t), span.p1, plan.xi_eos@[i]);
            let xi = plan.within(i, t, left).xi;
            let f = span.seg.passed(t);
            &&& p.x == crate::biped::pressure::on_the_way(
                span.p0.x as int,
                span.p1.x as int,
                f,
            ) / (f.den as int)
            &&& p.y == crate::biped::pressure::on_the_way(
                span.p0.y as int,
                span.p1.y as int,
                f,
            ) / (f.den as int)
            &&& xi.x == crate::biped::dcm::backed(p.x as int, p1.x as int, end.x as int, left)
            &&& xi.y == crate::biped::dcm::backed(p.y as int, p1.y as int, end.y as int, left)
        }),
{
    let span = plan.spans@[i];
    let (p, p1, end) = (span.pressure(t), span.p1, plan.xi_eos@[i]);
    assert(span.valid());
    crate::biped::dcm::lemma_pressure_between(span, t);
    let m = MAX_COORDINATE as int;
    crate::biped::dcm::law_reference_stays_in_the_hull(
        p.x as int,
        p1.x as int,
        end.x as int,
        left,
        -m,
        m,
    );
    crate::biped::dcm::law_reference_stays_in_the_hull(
        p.y as int,
        p1.y as int,
        end.y as int,
        left,
        -m,
        m,
    );
}

/// How far the reference may be from itself across the end of a segment, within `wide`
/// of each other and a stretch `turn` apart.
pub open spec fn is_close(x1: int, x2: int, wide: int, turn: int) -> bool {
    let unit = WHOLE_WEIGHT * RADIAN;
    unit * crate::biped::dcm::size(x2 - x1) <= (turn * (WHOLE_WEIGHT + 1) + 10 * RADIAN) * wide + 5
        * unit
}

proof fn lemma_closes(
    x1: int,
    e: int,
    y: int,
    x2: int,
    p: int,
    p1: int,
    xi_end: int,
    lo: int,
    hi: int,
    a1: int,
    a2: int,
)
    requires
        is_near(x1, e, hi - lo, a1),
        is_same(e, y, p, p1, xi_end),
        is_near(y, x2, hi - lo, a2),
        lo <= p <= hi,
        lo <= p1 <= hi,
        lo <= xi_end <= hi,
    ensures
        is_close(x1, x2, hi - lo, a1 + a2),
{
    let (w, r, d) = (WHOLE_WEIGHT as int, RADIAN as int, hi - lo);
    let unit = w * r;
    let (s1, s2, s3) = (
        crate::biped::dcm::size(e - x1),
        crate::biped::dcm::size(e - y),
        crate::biped::dcm::size(x2 - y),
    );
    let s = crate::biped::dcm::size(x2 - x1);
    assert(s <= s1 + s2 + s3);
    assert(unit > 0) by (nonlinear_arith)
        requires
            unit == w * r,
            w > 0,
            r > 0,
    ;
    assert(unit * s <= unit * s1 + unit * s2 + unit * s3) by (nonlinear_arith)
        requires
            s <= s1 + s2 + s3,
            unit > 0,
    ;
    assert(unit * s2 == r * (w * s2)) by (nonlinear_arith)
        requires
            unit == w * r,
    ;
    assert(w * s2 <= 8 * d + 3 * w);
    assert(r * (w * s2) <= 8 * r * d + 3 * unit) by (nonlinear_arith)
        requires
            w * s2 <= 8 * d + 3 * w,
            unit == w * r,
            r > 0,
    ;
    assert((a1 * (w + 1) + r) * d + (a2 * (w + 1) + r) * d + 8 * r * d == ((a1 + a2) * (w + 1) + 10
        * r) * d) by (nonlinear_arith);
}

/// The reference does not jump where one segment hands over to the next: a short time
/// before the end of a segment it is near to where it is a short time after. `left` is
/// what is left of the one segment, `first` what has passed of the next, `rest` what is
/// left of that.
pub proof fn law_reference_does_not_jump(
    plan: DcmPlan,
    i: int,
    t1: u64,
    t2: u64,
    left: Decay,
    first: Decay,
    rest: Decay,
    lo: Point2,
    hi: Point2,
)
    requires
        plan.valid(),
        0 <= i < plan.spans@.len() - 1,
        plan.spans@[i].seg.t0 <= t1 <= plan.spans@[i].seg.t1,
        plan.spans@[i + 1].seg.t0 <= t2 <= plan.spans@[i + 1].seg.t1,
        plan.spans@[i + 1].seg.t0 < plan.spans@[i + 1].seg.t1,
        left.valid(),
        first.valid(),
        rest.valid(),
        left.lasts(plan.omega as int, plan.spans@[i].seg.t1 - t1),
        first.lasts(plan.omega as int, t2 - plan.spans@[i + 1].seg.t0),
        plan.decays@[i + 1].joins(
            first,
            t2 - plan.spans@[i + 1].seg.t0,
            rest,
            plan.spans@[i + 1].seg.t1 - t2,
        ),
        forall|k: int|
            0 <= k < plan.spans@.len() ==> crate::biped::dcm::between(
                (#[trigger] plan.spans@[k]).p0,
                lo,
                hi,
            ) && crate::biped::dcm::between(plan.spans@[k].p1, lo, hi),
    ensures
        ({
            let (x1, x2) = (plan.within(i, t1, left).xi, plan.within(i + 1, t2, rest).xi);
            let turn = plan.omega * (plan.spans@[i].seg.t1 - t1 + t2 - plan.spans@[i + 1].seg.t0);
            &&& is_close(x1.x as int, x2.x as int, hi.x - lo.x, turn)
            &&& is_close(x1.y as int, x2.y as int, hi.y - lo.y, turn)
        }),
{
    let (one, two) = (plan.spans@[i], plan.spans@[i + 1]);
    let (e1, e2) = (plan.xi_eos@[i], plan.xi_eos@[i + 1]);
    let omega = plan.omega as int;
    let (dt, after) = (t2 - two.seg.t0, two.seg.t1 - t2);
    assert(e1 == crate::biped::dcm::end_of(plan.spans@, plan.decays@, i));
    assert(e2 == crate::biped::dcm::end_of(plan.spans@, plan.decays@, i + 1));
    assert(one.valid() && two.valid());
    assert(plan.decays@[i + 1].valid());
    crate::biped::dcm::law_plan_stays_in_the_hull(plan.spans@, plan.decays@, i, lo, hi);
    crate::biped::dcm::law_plan_stays_in_the_hull(plan.spans@, plan.decays@, i + 1, lo, hi);
    lemma_pressure_in_the_hull(one, t1, lo, hi);
    lemma_pressure_in_the_hull(two, t2, lo, hi);
    lemma_reference_fits(plan, i, t1, left);
    lemma_reference_fits(plan, i + 1, t2, rest);
    lemma_reference_fits(plan, i + 1, two.seg.t0, plan.decays@[i + 1]);
    let (p, pm) = (one.pressure(t1), two.pressure(t2));
    let (a1, a2) = (omega * (one.seg.t1 - t1), omega * dt);
    assert(a1 + a2 == omega * (one.seg.t1 - t1 + dt)) by (nonlinear_arith)
        requires
            a1 == omega * (one.seg.t1 - t1),
            a2 == omega * dt,
    ;
    let x2 = plan.within(i + 1, t2, rest).xi;
    lemma_starts_at(two);
    lemma_coordinate_moves_evenly(two, two.seg.t0, t2, two.p0.x as int, two.p1.x as int);
    lemma_coordinate_moves_evenly(two, two.seg.t0, t2, two.p0.y as int, two.p1.y as int);
    lemma_coordinate_is_close(
        p.x as int,
        one.p1.x as int,
        e1.x as int,
        left,
        two.p0.x as int,
        pm.x as int,
        two.p1.x as int,
        e2.x as int,
        plan.decays@[i + 1],
        first,
        dt,
        rest,
        after,
        omega,
        one.seg.t1 - t1,
        lo.x as int,
        hi.x as int,
    );
    lemma_coordinate_is_close(
        p.y as int,
        one.p1.y as int,
        e1.y as int,
        left,
        two.p0.y as int,
        pm.y as int,
        two.p1.y as int,
        e2.y as int,
        plan.decays@[i + 1],
        first,
        dt,
        rest,
        after,
        omega,
        one.seg.t1 - t1,
        lo.y as int,
        hi.y as int,
    );
}

proof fn lemma_starts_at(span: Span)
    requires
        span.valid(),
    ensures
        span.pressure(span.seg.t0) == span.p0,
{
    crate::biped::pressure::law_pressure_stays_between(
        span.seg,
        span.seg.t0,
        span.p0.x as int,
        span.p1.x as int,
    );
    crate::biped::pressure::law_pressure_stays_between(
        span.seg,
        span.seg.t0,
        span.p0.y as int,
        span.p1.y as int,
    );
    let (x, y, den) = (span.p0.x as int, span.p0.y as int, span.seg.passed(span.seg.t0).den as int);
    assert(x * den / den == x && y * den / den == y) by (nonlinear_arith)
        requires
            den > 0,
    ;
}

proof fn lemma_pressure_in_the_hull(span: Span, t: u64, lo: Point2, hi: Point2)
    requires
        span.valid(),
        crate::biped::dcm::between(span.p0, lo, hi),
        crate::biped::dcm::between(span.p1, lo, hi),
    ensures
        crate::biped::dcm::between(span.pressure(t), lo, hi),
{
    crate::biped::dcm::lemma_pressure_between(span, t);
    lemma_axis_in_the_hull(span, t, span.p0.x as int, span.p1.x as int, lo.x as int, hi.x as int);
    lemma_axis_in_the_hull(span, t, span.p0.y as int, span.p1.y as int, lo.y as int, hi.y as int);
}

proof fn lemma_axis_in_the_hull(span: Span, t: u64, p0: int, p1: int, lo: int, hi: int)
    requires
        lo <= p0 <= hi,
        lo <= p1 <= hi,
    ensures
        ({
            let f = span.seg.passed(t);
            lo <= crate::biped::pressure::on_the_way(p0, p1, f) / (f.den as int) <= hi
        }),
{
    let f = span.seg.passed(t);
    crate::biped::pressure::law_pressure_stays_between(span.seg, t, p0, p1);
    let (v, den) = (crate::biped::pressure::on_the_way(p0, p1, f), f.den as int);
    assert(lo * den <= p0 * den <= hi * den && lo * den <= p1 * den <= hi * den)
        by (nonlinear_arith)
        requires
            lo <= p0 <= hi,
            lo <= p1 <= hi,
            den > 0,
    ;
    assert(lo <= v / den <= hi) by (nonlinear_arith)
        requires
            lo * den <= v <= hi * den,
            den > 0,
    ;
}

proof fn lemma_coordinate_is_close(
    p: int,
    p_end: int,
    e1: int,
    left: Decay,
    p0: int,
    pm: int,
    p1: int,
    e2: int,
    whole: Decay,
    first: Decay,
    dt: int,
    rest: Decay,
    after: int,
    omega: int,
    before: int,
    lo: int,
    hi: int,
)
    requires
        left.valid(),
        whole.valid(),
        first.valid(),
        rest.valid(),
        omega >= 0,
        before >= 0,
        dt >= 0,
        after >= 0,
        dt + after > 0,
        left.lasts(omega, before),
        first.lasts(omega, dt),
        whole.joins(first, dt, rest, after),
        moves_evenly(p0, pm, p1, dt, after),
        e1 == crate::biped::dcm::backed(p0, p1, e2, whole),
        lo <= p <= hi,
        lo <= p_end <= hi,
        lo <= e1 <= hi,
        lo <= p0 <= hi,
        lo <= pm <= hi,
        lo <= p1 <= hi,
        lo <= e2 <= hi,
    ensures
        is_close(
            crate::biped::dcm::backed(p, p_end, e1, left),
            crate::biped::dcm::backed(pm, p1, e2, rest),
            hi - lo,
            omega * before + omega * dt,
        ),
{
    let x1 = crate::biped::dcm::backed(p, p_end, e1, left);
    let x2 = crate::biped::dcm::backed(pm, p1, e2, rest);
    crate::biped::dcm::law_reference_stays_in_the_hull(pm, p1, e2, rest, lo, hi);
    law_short_stretch_moves_little(p, p_end, e1, left, omega, before, lo, hi);
    law_short_stretch_moves_little(p0, pm, x2, first, omega, dt, lo, hi);
    law_reference_flows(p0, pm, p1, e2, whole, first, dt, rest, after);
    lemma_closes(
        x1,
        e1,
        crate::biped::dcm::backed(p0, pm, x2, first),
        x2,
        p0,
        p1,
        e2,
        lo,
        hi,
        omega * before,
        omega * dt,
    );
}

} // verus!
