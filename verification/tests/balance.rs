//! The balance reference. Times are microseconds, points half-millionths of a
//! micrometre.

use articara::biped::dcm::{
    com_accel_xy, commanded_zmp, dcm_of, natural_rate, DcmPlan, DcmRef, Decay, Growth,
    WHOLE_WEIGHT,
};
use articara::biped::flow::RADIAN;
use articara::biped::gait::{GaitParams, GaitPlan, Support, LEFT, RIGHT};
use articara::biped::pressure::{Footsteps, Point2, ZmpPlan};
use articara::root::root;

const METRE: f64 = 2e12;
const Z_COM: f64 = 0.315;
const HEIGHT: u64 = 315_000;

fn omega() -> f64 {
    (9.81 / Z_COM).sqrt()
}

fn decay(microseconds: u64) -> Decay {
    decay_at(omega(), microseconds)
}

fn decay_at(rate: f64, microseconds: u64) -> Decay {
    let x = rate * microseconds as f64 * 1e-6;
    let whole = WHOLE_WEIGHT as f64;
    let mean = if x == 0.0 { 1.0 } else { -(-x).exp_m1() / x };
    Decay { end: ((-x).exp() * whole).round() as u64, mean: (mean * whole).round() as u64 }
}

/// The same stretch forwards, with as many parts as leave room for the growth.
fn growth(microseconds: u64) -> Growth {
    let x = omega() * microseconds as f64 * 1e-6;
    let whole = (60 - (x / std::f64::consts::LN_2) as i32).max(0);
    let whole = 2f64.powi(whole);
    let mean = if x == 0.0 { 1.0 } else { x.exp_m1() / x };
    Growth {
        end: (x.exp() * whole).round() as i128,
        mean: (mean * whole).round() as i128,
        whole: whole as i128,
    }
}

fn steps() -> Footsteps {
    Footsteps { left_x: 0, left_y: 70_600, right_x: 0, right_y: -70_600 }
}

fn gait(t_start: u64, t_ss: u64, n_steps: usize, t_end: u64) -> GaitPlan {
    GaitPlan::new(&GaitParams {
        t_start,
        t_ds: 200_000,
        t_ss,
        n_steps,
        first_swing: RIGHT,
        t_end,
    })
}

fn plan(gait: &GaitPlan) -> DcmPlan {
    let decays = gait.slices.iter().map(|s| decay(s.t1 - s.t0)).collect();
    DcmPlan::from_schedule(gait, &steps(), decays, HEIGHT, 1_000_000)
}

fn remaining(plan: &DcmPlan, t: u64) -> u64 {
    let seg = plan.zmp.segs[plan.index_at(t)];
    seg.t1.saturating_sub(t.max(seg.t0))
}

fn left_at(plan: &DcmPlan, t: u64) -> Decay {
    decay(remaining(plan, t))
}

fn reference(plan: &DcmPlan, t: u64) -> DcmRef {
    plan.reference(t, &left_at(plan, t))
}

fn metres(p: Point2) -> (f64, f64) {
    (p.x as f64 / METRE, p.y as f64 / METRE)
}

fn distance(a: Point2, b: Point2) -> f64 {
    let (x, y) = metres(Point2 { x: a.x - b.x, y: a.y - b.y });
    x.hypot(y)
}

#[test]
fn dcm_reference_is_continuous_across_segment_boundaries() {
    let plan = plan(&gait(1_000_000, 400_000, 4, 6_000_000));
    for s in plan.zmp.segs.iter().skip(1) {
        let before = reference(&plan, s.t0 - 1).xi;
        let after = reference(&plan, s.t0 + 1).xi;
        assert!(distance(before, after) < 1e-5, "jump at t={}", s.t0);
    }
}

#[test]
fn closed_form_satisfies_the_dcm_ode_pointwise() {
    let plan = plan(&gait(1_000_000, 400_000, 3, 4_000_000));
    let mut worst: f64 = 0.0;
    let mut t: u64 = 50_000;
    while t < 3_500_000 {
        // Skip segment boundaries, where the difference straddles a change of
        // slope.
        let near_edge =
            plan.zmp.segs.iter().any(|s| t.abs_diff(s.t0) < 1_000 || t.abs_diff(s.t1) < 1_000);
        if !near_edge {
            let (x1, y1) = metres(reference(&plan, t + 1).xi);
            let (x0, y0) = metres(reference(&plan, t - 1).xi);
            let r = reference(&plan, t);
            let ((xi_x, xi_y), (p_x, p_y)) = (metres(r.xi), metres(r.p));
            let fd = ((x1 - x0) / 2e-6, (y1 - y0) / 2e-6);
            let residual = (fd.0 - (xi_x - p_x) * omega()).hypot(fd.1 - (xi_y - p_y) * omega());
            worst = worst.max(residual);
            // The published rate must agree with the same derivative.
            let (v_x, v_y) = metres(r.xi_dot);
            worst = worst.max((fd.0 - v_x).hypot(fd.1 - v_y));
        }
        t += 1_000;
    }
    assert!(worst < 1e-5, "worst DCM ODE residual {worst:.3e}");
}

#[test]
fn plan_ends_at_rest_over_the_final_support() {
    let plan = plan(&gait(1_000_000, 400_000, 2, 5_000_000));
    let end = reference(&plan, 5_000_000);
    // At rest means that the unstable part is over the pressure.
    assert!(distance(end.xi, end.p) < 1e-6);
    assert_eq!(end.xi, end.p);
    assert_eq!(end.xi_dot, Point2 { x: 0, y: 0 });
    // ...and the final pressure is mid-stance, not over one foot.
    assert_eq!(steps().mid_xy(), (0, 0));
    assert!(distance(end.p, Point2 { x: 0, y: 0 }) < 1e-9);
}

#[test]
fn single_support_zmp_sits_on_the_stance_sole() {
    let gait = gait(1_000_000, 400_000, 2, 5_000_000);
    let plan = plan(&gait);
    // First single support: right swings, so the left foot carries the pressure.
    let mid_ss = 1_200_000;
    assert!(matches!(gait.support_at(mid_ss), Support::Single { stance: LEFT, .. }));
    let sole = Point2 { x: 0, y: 2_000_000 * steps().left_y as i128 };
    assert_eq!(reference(&plan, mid_ss).p, sole);
}

#[test]
fn a_long_trailing_segment_does_not_blow_the_reference_up() {
    let plan = plan(&gait(2_000_000, 450_000, 20, 25_000_000));
    let bound = 2_000_000 * steps().left_y as i128;
    let mut t: u64 = 0;
    while t <= 25_000_000 {
        let r = reference(&plan, t);
        let (x, y) = metres(r.xi);
        assert!(x.hypot(y) < 0.15, "reference at t={t} is outside anything the plan can produce");
        // It never leaves what the pressure spans.
        assert!(r.xi.x == 0 && -bound <= r.xi.y && r.xi.y <= bound);
        t += 5_000;
    }
    // ...and it must still END at rest over the final pressure.
    let end = reference(&plan, 25_000_000);
    assert!(distance(end.xi, end.p) < 1e-9);
}

#[test]
fn segments_hand_over_where_they_were_planned_to_end() {
    let plan = plan(&gait(1_000_000, 400_000, 3, 4_000_000));
    for (i, s) in plan.zmp.segs.iter().enumerate().skip(1) {
        assert_eq!(plan.reference(s.t0, &plan.decays[i]).xi, plan.xi_eos[i - 1]);
        assert_eq!(plan.eos_at(s.t0), plan.xi_eos[i]);
    }
}

#[test]
fn each_slice_has_its_own_footsteps() {
    let gait = gait(1_000_000, 400_000, 2, 5_000_000);
    let decays: Vec<Decay> = gait.slices.iter().map(|s| decay(s.t1 - s.t0)).collect();
    let walk: Vec<Footsteps> = (0..gait.slices.len() as i64)
        .map(|k| Footsteps { left_x: 1_000 * k, right_x: 1_000 * k, ..steps() })
        .collect();
    let plan = DcmPlan::from_footsteps(&gait, &walk, decays, HEIGHT, 1_000_000);
    let sole = |i: usize, y: i64| Point2 {
        x: 2_000_000 * walk[i].left_x as i128,
        y: 2_000_000 * y as i128,
    };
    assert_eq!(plan.spans[1].p0, sole(1, 70_600));
    assert_eq!(plan.spans[2].p0, sole(1, 70_600));
    assert_eq!(plan.spans[2].p1, sole(3, -70_600));
    // Double support carries the body forward.
    let (way, time) = plan.zmp.segs[2].slope(&plan.spans[2].p0, &plan.spans[2].p1);
    assert_eq!((way.x, time), (2_000_000 * 2_000, 200_000));
    assert_eq!(ZmpPlan::from_schedule(&gait).segs, plan.zmp.segs);
}

/// A plan whose weights were made for its own rate.
fn own_plan() -> (DcmPlan, f64) {
    let gait = gait(1_000_000, 400_000, 3, 4_000_000);
    let rate = natural_rate(HEIGHT) as f64 * 1e-9;
    let decays = gait.slices.iter().map(|s| decay_at(rate, s.t1 - s.t0)).collect();
    (DcmPlan::from_schedule(&gait, &steps(), decays, HEIGHT, 1_000_000), rate)
}

/// The weights are those of `dt` at the plan's rate.
fn lasts(w: &Decay, omega: u64, dt: u64) -> bool {
    let turn = omega as i128 * dt as i128;
    let off = RADIAN * (WHOLE_WEIGHT - w.end) as i128 - turn * w.mean as i128;
    off.abs() <= RADIAN + turn
}

/// The weights are those of `dt` and of what comes after.
fn joins(w: &Decay, first: &Decay, dt: u64, rest: &Decay, after: u64) -> bool {
    let whole = WHOLE_WEIGHT as i128;
    let [e, m, s, n] = [w.end, w.mean, first.end, first.mean].map(|v| v as i128);
    let (dt, after) = (dt as i128, after as i128);
    let ends = whole * e - s * rest.end as i128;
    let means = whole * (dt + after) * m - whole * dt * n - after * (s * rest.mean as i128);
    ends.abs() <= 4 * whole && means.abs() <= 4 * whole * (dt + after)
}

#[test]
fn a_stretch_makes_the_earlier_reference_of_the_later_one() {
    let (plan, rate) = own_plan();
    for (t1, t2) in [(100_000, 900_000), (1_050_000, 1_051_000), (1_420_000, 1_599_999)] {
        let i = plan.index_at(t1);
        let end = plan.zmp.segs[i].t1;
        assert_eq!(plan.index_at(t2), i);
        let whole = decay_at(rate, end - t1);
        let first = decay_at(rate, t2 - t1);
        let rest = decay_at(rate, end - t2);
        assert!(joins(&whole, &first, t2 - t1, &rest, end - t2));
        assert!(lasts(&first, plan.omega, t2 - t1) && lasts(&whole, plan.omega, end - t1));
        let (r1, r2) = (plan.reference(t1, &whole), plan.reference(t2, &rest));
        let all = WHOLE_WEIGHT as i128;
        let (s, n) = (first.end as i128, first.mean as i128);
        let back = ((all - n) * r1.p.y + (n - s) * r2.p.y + s * r2.xi.y).div_euclid(all);
        let (p1, eos) = (plan.spans[i].p1.y, plan.xi_eos[i].y);
        let room = 4 * ((p1 - r1.p.y).abs() + (eos - p1).abs()) + 3 * all;
        assert!(all * (r1.xi.y - back).abs() <= room);
    }
    // Another stretch is another matter.
    let (whole, rest) = (decay_at(rate, 500_000), decay_at(rate, 200_000));
    assert!(!joins(&whole, &decay_at(rate, 300_100), 300_000, &rest, 200_000));
    assert!(!lasts(&whole, plan.omega, 500_001));
}

#[test]
fn the_reference_moves_at_the_speed_it_publishes() {
    let (plan, rate) = own_plan();
    let t1 = 1_450_000;
    for dt in [1, 10, 1_000] {
        let left = |t: u64| decay_at(rate, 1_600_000 - t);
        let (r1, r2) = (plan.reference(t1, &left(t1)), plan.reference(t1 + dt, &left(t1 + dt)));
        let moved = (r2.xi.y - r1.xi.y) as f64;
        let told = r2.xi_dot.y as f64 * dt as f64 * 1e-6;
        let turn = rate * dt as f64 * 1e-6;
        let (far, walked) = ((r2.xi.y - r1.p.y).abs() as f64, (r2.p.y - r1.p.y).abs() as f64);
        // Of second order, but for the rounding.
        assert!((moved - told).abs() <= turn * turn * far + 2.0 * turn * walked + 6.0);
        assert!(moved.abs() > 1e5 * dt as f64);
    }
}

#[test]
fn the_reference_is_near_itself_across_a_boundary() {
    let (plan, rate) = own_plan();
    let wide = 4_000_000.0 * 70_600.0;
    for s in plan.zmp.segs.iter().skip(1) {
        for dt in [1, 100, 10_000] {
            let x1 = plan.reference(s.t0 - dt, &decay_at(rate, dt)).xi.y;
            let x2 = plan.reference(s.t0 + dt, &decay_at(rate, s.t1 - s.t0 - dt)).xi.y;
            let turn = rate * 2.0 * dt as f64 * 1e-6;
            assert!(((x2 - x1).abs() as f64) <= turn * wide + 6.0);
        }
    }
}

#[test]
fn the_weights_themselves_predict_the_planned_end() {
    let (plan, rate) = own_plan();
    for t in [100_000, 1_050_000, 1_450_000, 1_700_000] {
        let left = decay_at(rate, remaining(&plan, t));
        let grown =
            Growth { end: WHOLE_WEIGHT as i128, mean: left.mean as i128, whole: left.end as i128 };
        let r = plan.reference(t, &left);
        let seen = plan.predict_eos(t, &r.xi, &grown).unwrap();
        let (end, p1) = (plan.eos_at(t), plan.spans[plan.index_at(t)].p1);
        assert!((seen.y - end.y).abs() as f64 <= slack(r.p.y, p1.y, end.y, &grown));
        assert_eq!(seen.x, end.x);
    }
}

/// The room that rounding has along one axis once it has grown.
fn slack(p: i128, p1: i128, end: i128, grown: &Growth) -> f64 {
    let whole = WHOLE_WEIGHT as f64;
    let parts = whole + (p - p1).abs() as f64 + (end - p1).abs() as f64;
    grown.end as f64 * parts / (whole * grown.whole as f64) + 1.0
}

#[test]
fn prediction_gives_the_planned_end_back() {
    let plan = plan(&gait(1_000_000, 400_000, 3, 4_000_000));
    for t in [100_000, 1_050_000, 1_450_000, 1_700_000] {
        let (left, grown) = (left_at(&plan, t), growth(remaining(&plan, t)));
        let r = plan.reference(t, &left);
        let seen = plan.predict_eos(t, &r.xi, &grown).unwrap();
        let (end, p1) = (plan.eos_at(t), plan.spans[plan.index_at(t)].p1);
        assert!((seen.x - end.x).abs() as f64 <= slack(r.p.x, p1.x, end.x, &grown));
        assert!((seen.y - end.y).abs() as f64 <= slack(r.p.y, p1.y, end.y, &grown));
        assert!(distance(seen, end) < 1e-8);
    }
}

#[test]
fn prediction_reaches_over_a_long_rest() {
    // Ten seconds are left: a deviation of a picometre grows to thousands of
    // kilometres, and is still told.
    let plan = plan(&gait(2_000_000, 450_000, 20, 25_000_000));
    let last = plan.zmp.segs.len() - 1;
    let t = 15_000_000;
    assert_eq!(plan.index_at(t), last);
    let grown = growth(remaining(&plan, t));
    assert!(grown.end / grown.whole > 1 << 80);
    assert_eq!(plan.decays[last].end, 0);
    let r = plan.reference(t, &left_at(&plan, t));
    let p1 = plan.spans[last].p1;
    let seen = plan.predict_eos(t, &r.xi, &grown).unwrap();
    assert!((seen.y - p1.y).abs() as f64 <= slack(r.p.y, p1.y, p1.y, &grown));
    // Half a picometre further out it is that much further out in the end.
    let out = Point2 { x: r.xi.x + 1, y: r.xi.y };
    let further = plan.predict_eos(t, &out, &grown).unwrap();
    assert_eq!((further.x - seen.x) * grown.whole, grown.end);
    // Further out than the numbers hold, there is nothing to tell.
    let lost = Point2 { x: r.xi.x + (1 << 60), y: r.xi.y };
    assert_eq!(plan.predict_eos(t, &lost, &grown), None);
}

#[test]
fn prediction_is_exact_at_touchdown() {
    let plan = plan(&gait(1_000_000, 400_000, 3, 4_000_000));
    let xi = Point2 { x: 12_345, y: -678_901_234_567 };
    assert_eq!(plan.predict_eos(4_000_000, &xi, &growth(0)), Some(xi));
    assert_eq!(plan.predict_eos(9_000_000, &xi, &growth(0)), Some(xi));
}

#[test]
fn the_rate_squares_to_gravity_over_height() {
    assert_eq!(natural_rate(9_810_000), 1_000_000_000);
    assert_eq!(natural_rate(2_452_500), 2_000_000_000);
    let plan = plan(&gait(1_000_000, 400_000, 3, 4_000_000));
    assert_eq!(plan.omega, natural_rate(HEIGHT));
    assert!((plan.omega as f64 * 1e-9 - omega()).abs() < 2e-9);
    assert_eq!(natural_rate(1), 3_132_091_952_673);
    assert!(natural_rate(HEIGHT) > natural_rate(HEIGHT + 1));
}

#[test]
fn the_tracking_law_pushes_against_the_deviation() {
    // Five radians per second, 3000 off the pressure.
    let omega = 5_000_000_000;
    let r = DcmRef {
        xi: Point2 { x: 4_000, y: 0 },
        xi_dot: Point2 { x: 15_000, y: 0 },
        p: Point2 { x: 1_000, y: 0 },
    };
    // On the reference the planned pressure is commanded.
    assert_eq!(commanded_zmp(&r.xi, &r, omega, 2_000_000), Point2 { x: 500, y: 0 });
    // Ahead of it the pressure goes further ahead: 3000 / 2 and its double.
    let ahead = Point2 { x: 6_000, y: -10 };
    assert_eq!(commanded_zmp(&ahead, &r, omega, 2_000_000), Point2 { x: 3_500, y: -15 });
    // A reference that rests asks for the pressure right under it.
    let rest = DcmRef { xi_dot: Point2 { x: 0, y: 0 }, ..r };
    assert_eq!(commanded_zmp(&rest.xi, &rest, omega, 2_000_000), Point2 { x: 2_000, y: 0 });
    // 0.1 m from the pressure, at 1 m height: a tenth of gravity.
    let p = Point2 { x: 0, y: 0 };
    assert_eq!(com_accel_xy((100_000, -100_000), &p, 1_000_000), (981_000_000_000, -981_000_000_000));
    // A tenth of a second ahead at one metre per second.
    let xi = dcm_of((10, -20), (1_000_000, -1_000_000), 10_000_000_000);
    assert_eq!(xi, Point2 { x: 200_020_000_000, y: -200_040_000_000 });
}

#[test]
fn the_mass_falls_at_the_square_of_the_rate() {
    let p = Point2 { x: -3_000_000, y: 0 };
    let (a, _) = com_accel_xy((100_000, 0), &p, HEIGHT);
    let rate = natural_rate(HEIGHT) as f64 * 1e-9;
    let off = (100_000.0 * 1e6 + 3e6) * rate * rate;
    assert!((a as f64 - off).abs() / off < 1e-8);
}

#[test]
fn roots_are_rounded_down() {
    for (n, r) in [(0, 0), (1, 1), (3, 1), (4, 2), (15, 3), (16, 4), (99_980_001, 9_999)] {
        assert_eq!(root(n), r);
    }
    assert_eq!(root(u128::MAX), u64::MAX);
    assert_eq!(root(1 << 126), 1 << 63);
}
