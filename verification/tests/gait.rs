//! Support schedule, pressure plan, swing foot and contact correction. Times are
//! microseconds, lengths micrometres.

use articara::biped::contact::{
    contact_jacobians, contact_row, cop_from_sole_wrench, sole_selection, AnchorPose, Anchors,
    FootRows,
};
use articara::biped::dcm::{Shift, SupportBox};
use articara::biped::gait::{
    ContactCorrection, Frac, GaitParams, GaitPlan, Slice, Support, LEFT, RIGHT,
};
use articara::biped::pressure::{Footsteps, Point2, PressurePoint, ZmpPlan};
use articara::biped::swing::{swing_position, swing_share, swing_velocity, Arch, WHOLE};
use articara::robot::Vec3;

#[test]
fn plan_alternates_and_covers_the_timeline() {
    let p = GaitParams {
        t_start: 1_000_000,
        t_ds: 200_000,
        t_ss: 400_000,
        n_steps: 3,
        first_swing: RIGHT,
        t_end: 10_000_000,
    };
    let plan = GaitPlan::new(&p);
    assert_eq!(plan.slices.len(), 7);
    assert_eq!(plan.slices[0].support, Support::Double);
    assert_eq!(plan.slices[1].support, Support::Single { stance: LEFT, swing: RIGHT });
    assert_eq!(plan.slices[3].support, Support::Single { stance: RIGHT, swing: LEFT });
    assert_eq!(plan.slices[5].support, Support::Single { stance: LEFT, swing: RIGHT });
    for w in plan.slices.windows(2) {
        assert_eq!(w[0].t1, w[1].t0);
    }
    assert_eq!(plan.slices.last().unwrap().t1, 10_000_000);
    assert_eq!(plan.steps_taken(10_000_000), 3);
}

#[test]
fn no_steps_is_one_long_double_support() {
    let p = GaitParams { n_steps: 0, t_start: 1_000_000, t_end: 5_000_000, ..Default::default() };
    let plan = GaitPlan::new(&p);
    assert_eq!(plan.slices.len(), 1);
    assert_eq!(plan.support_at(4_000_000), Support::Double);
}

#[test]
fn default_gait_takes_twenty_steps() {
    let p = GaitParams::default();
    assert_eq!((p.t_start, p.t_ds, p.t_ss), (2_000_000, 200_000, 450_000));
    assert_eq!((p.n_steps, p.first_swing, p.t_end), (20, RIGHT, 25_000_000));
    let plan = GaitPlan::new(&p);
    assert_eq!(plan.slices.len(), 41);
    assert_eq!(plan.slices[40].t0, 14_800_000);
    assert_eq!(plan.slices[40].t1, 25_000_000);
}

#[test]
fn the_last_slice_is_not_shortened() {
    let p = GaitParams { t_end: 0, n_steps: 1, ..Default::default() };
    let plan = GaitPlan::new(&p);
    assert_eq!(plan.slices[2].t1, 2_650_000);
    assert_eq!(plan.index_at(9_000_000), 2);
}

#[test]
fn positions_within_a_slice() {
    let s = Slice { support: Support::Double, t0: 100, t1: 300 };
    assert_eq!(s.duration(), 200);
    assert_eq!(s.frac(100), Frac { num: 0, den: 1 });
    assert_eq!(s.frac(150), Frac { num: 50, den: 200 });
    assert_eq!(s.frac(300), Frac { num: 1, den: 1 });
    assert_eq!(s.frac(900), Frac { num: 1, den: 1 });
    assert_eq!(s.frac(0), Frac { num: 0, den: 1 });
    let empty = Slice { support: Support::Double, t0: 100, t1: 100 };
    assert_eq!(empty.frac(100), Frac { num: 0, den: 1 });
    let plan = GaitPlan::new(&GaitParams::default());
    let (slice, f) = plan.at(2_225_000);
    assert_eq!(slice.support, Support::Single { stance: LEFT, swing: RIGHT });
    assert_eq!(f, Frac { num: 225_000, den: 450_000 });
}

#[test]
fn supports_name_their_feet() {
    let s = Support::Single { stance: LEFT, swing: RIGHT };
    assert_eq!(s.swing(), Some(RIGHT));
    assert!(s.is_stance(LEFT) && !s.is_stance(RIGHT));
    assert_eq!(Support::Double.swing(), None);
    assert!(Support::Double.is_stance(LEFT) && Support::Double.is_stance(RIGHT));
}

// Pressure plan.

fn steps() -> Footsteps {
    Footsteps { left_x: 0, left_y: 70_600, right_x: 0, right_y: -70_600 }
}

fn gait(n_steps: usize, t_end: u64) -> GaitPlan {
    GaitPlan::new(&GaitParams {
        t_start: 1_000_000,
        t_ds: 200_000,
        t_ss: 400_000,
        n_steps,
        first_swing: RIGHT,
        t_end,
    })
}

#[test]
fn pressure_walks_between_the_feet_without_a_jump() {
    let plan = ZmpPlan::from_schedule(&gait(4, 6_000_000));
    assert_eq!(plan.segs[0].p0, PressurePoint::Middle { slice: 0 });
    assert_eq!(plan.segs[0].p1, PressurePoint::Foot { slice: 1, side: LEFT });
    assert_eq!(plan.segs[2].p0, PressurePoint::Foot { slice: 1, side: LEFT });
    assert_eq!(plan.segs[2].p1, PressurePoint::Foot { slice: 3, side: RIGHT });
    assert_eq!(plan.segs[8].p1, PressurePoint::Middle { slice: 8 });
    for w in plan.segs.windows(2) {
        assert_eq!(w[0].p1, w[1].p0);
        assert_eq!(w[0].t1, w[1].t0);
    }
}

#[test]
fn pressure_goes_as_far_as_it_is_asked_to() {
    let soles = vec![Footsteps { left_x: 10, left_y: 100, right_x: 30, right_y: -100 }];
    let foot = PressurePoint::Foot { slice: 0, side: LEFT };
    let middle = PressurePoint::Middle { slice: 0 };
    assert_eq!(foot.on_ground(&soles, 1_000_000), Point2 { x: 20_000_000, y: 200_000_000 });
    assert_eq!(foot.on_ground(&soles, 0), middle.on_ground(&soles, 7));
    assert_eq!(middle.on_ground(&soles, 0), Point2 { x: 40_000_000, y: 0 });
    assert_eq!(foot.on_ground(&soles, 500_000), Point2 { x: 30_000_000, y: 100_000_000 });
}

#[test]
fn halfway_through_double_support_the_pressure_is_between() {
    let plan = ZmpPlan::from_schedule(&gait(2, 5_000_000));
    let seg = &plan.segs[2];
    let (a, b) = (Point2 { x: 0, y: 10 }, Point2 { x: 4, y: -10 });
    let (p, den) = seg.at(1_500_000, &a, &b);
    assert_eq!((p.x, p.y, den), (2 * 200_000, 0, 200_000));
    assert_eq!(seg.at(0, &a, &b), (a, 1));
    assert_eq!(seg.at(9_000_000, &a, &b), (b, 1));
}

#[test]
fn support_box_shrinks_to_one_foot_in_single_support() {
    let s = steps();
    let half = (49_000, 19_000);
    let ds = SupportBox::from_stance(&s, Support::Double, half, 1_000_000);
    let single = Support::Single { stance: LEFT, swing: RIGHT };
    let ss = SupportBox::from_stance(&s, single, half, 1_000_000);
    assert!((ds.hi.y - ds.lo.y) > (ss.hi.y - ss.lo.y));
    // A command over the right foot is outside the left-foot-only box.
    let right = Point2 { x: 0, y: -70_600_000_000 };
    let (c, moved) = ss.clamp(&right);
    assert!((moved.x as f64).hypot(moved.y as f64) > 0.0);
    assert!(c.y >= ss.lo.y);
    assert_eq!(c, Point2 { x: 0, y: 51_600_000_000 });
    // From 70.6 mm on the one side to 51.6 mm on the other.
    assert_eq!(moved, Shift { x: 0, y: 122_200_000_000 });
    assert_eq!(ss.clamp(&c), (c, Shift { x: 0, y: 0 }));
    assert_eq!(ds.clamp(&right), (right, Shift { x: 0, y: 0 }));
    // Past a corner the point moves along both axes.
    let out = Point2 { x: ss.hi.x + 3, y: ss.lo.y - 4 };
    let corner = Point2 { x: ss.hi.x, y: ss.lo.y };
    assert_eq!(ss.clamp(&out), (corner, Shift { x: 3, y: 4 }));
}

// Swing foot.

fn arch(t: f64) -> Arch {
    let pi = std::f64::consts::PI;
    Arch {
        rise: ((pi * t).sin().powi(2) * 1e18) as u64,
        slope: (pi * (2.0 * pi * t).sin() * 1e12) as i64,
    }
}

#[test]
fn swing_endpoints_are_exact_and_boundary_velocity_is_zero() {
    let e18 = 1_000_000_000_000_000_000;
    let a = Vec3 { x: 0, y: 100_000, z: 0 };
    let b = Vec3 { x: 200_000, y: 100_000, z: 0 };
    assert_eq!(swing_position(&a, &b, 40_000, 0, &arch(0.0)), (0, 100_000 * e18, 0));
    assert_eq!(
        swing_position(&a, &b, 40_000, WHOLE, &arch(1.0)),
        (200_000 * e18, 100_000 * e18, 0)
    );
    // After the swing the foot stays where it landed.
    assert_eq!(
        swing_position(&a, &b, 40_000, WHOLE + 5, &arch(1.0)),
        swing_position(&a, &b, 40_000, WHOLE, &arch(1.0))
    );
    // Peak clearance at mid-swing.
    let top = swing_position(&a, &b, 40_000, 500_000, &arch(0.5));
    assert_eq!(top, (100_000 * e18, 100_000 * e18, 40_000 * e18));
    // Touchdown velocity is EXACTLY zero -- this is the property that matters.
    assert_eq!(swing_velocity(&a, &b, 40_000, WHOLE, &arch(1.0), 400_000), (0, 0, 0));
    assert_eq!(swing_velocity(&a, &b, 40_000, 0, &arch(0.0), 400_000), (0, 0, 0));
    // Halfway the foot is fastest over the ground: one and a half ways per swing,
    // of which there are two and a half in a second.
    let v = swing_velocity(&a, &b, 40_000, 500_000, &arch(0.5), 400_000);
    assert_eq!((v.0, v.1), (750_000_000_000_000_000, 0));
    // No swing is taken to be shorter than a microsecond.
    let v = swing_velocity(&a, &b, 40_000, 500_000, &arch(0.5), 0);
    assert_eq!(v.0, 300_000_000_000_000_000_000_000);
    let v = swing_velocity(&a, &b, 40_000, 250_000, &arch(0.25), 400_000);
    assert_eq!(v.2, 40_000 * arch(0.25).slope as i128 * 5 / 2);
    assert_eq!(swing_share(&Frac { num: 225_000, den: 450_000 }), 500_000);
    assert_eq!(swing_share(&Frac { num: 1, den: 3 }), 333_333);
}

// Contact correction: loads in millinewtons.

#[test]
fn a_commanded_lift_is_honoured_at_once() {
    let mut c = ContactCorrection::new(65_000, 3);
    assert_eq!((c.on_n, c.off_n), (6_500_000, 1_300_000));
    assert_eq!(c.state(), [true, true]);
    let single = Support::Single { stance: LEFT, swing: RIGHT };
    let (stance, fresh) = c.update(single, [30_000, 30_000]);
    assert_eq!((stance, fresh), (vec![LEFT], vec![]));
    assert_eq!(c.state(), [true, false]);
}

#[test]
fn a_foot_comes_back_when_loaded_and_counted_on() {
    let mut c = ContactCorrection::new(65_000, 3);
    c.update(Support::Single { stance: LEFT, swing: RIGHT }, [60_000, 0]);
    // Not loaded yet: out of the set, and no jump.
    assert_eq!(c.update(Support::Double, [60_000, 1_000]), (vec![LEFT], vec![]));
    let (stance, fresh) = c.update(Support::Double, [30_000, 30_000]);
    assert_eq!((stance, fresh), (vec![LEFT, RIGHT], vec![RIGHT]));
    let (_, fresh) = c.update(Support::Double, [30_000, 30_000]);
    assert!(fresh.is_empty());
}

#[test]
fn an_unscheduled_foot_needs_a_streak() {
    let mut c = ContactCorrection::new(65_000, 2);
    let lifted = Support::Single { stance: LEFT, swing: RIGHT };
    c.update(lifted, [60_000, 0]);
    // A support that neither lifts the right foot nor counts on it.
    let left_only = Support::Single { stance: LEFT, swing: LEFT };
    assert!(!c.update(left_only, [0, 30_000]).0.contains(&RIGHT));
    let (stance, fresh) = c.update(left_only, [0, 30_000]);
    assert_eq!((stance, fresh), (vec![RIGHT], vec![RIGHT]));
}

#[test]
fn a_bouncing_foot_is_dropped_only_after_a_streak() {
    let mut c = ContactCorrection::new(65_000, 3);
    for _ in 0..2 {
        assert_eq!(c.update(Support::Double, [65_000, 0]).0, vec![LEFT, RIGHT]);
    }
    assert_eq!(c.update(Support::Double, [65_000, 0]).0, vec![LEFT]);
}

#[test]
fn the_contact_set_is_never_empty() {
    let mut c = ContactCorrection::new(65_000, 1);
    assert_eq!(c.update(Support::Double, [0, 0]).0, vec![LEFT]);
    assert_eq!(c.update(Support::Double, [0, 1]).0, vec![RIGHT]);
    let single = Support::Single { stance: RIGHT, swing: LEFT };
    let (stance, fresh) = c.update(single, [0, 0]);
    assert_eq!((stance, fresh), (vec![RIGHT], vec![]));
}

#[test]
fn the_foot_that_is_kept_gets_a_fresh_anchor() {
    let mut c = ContactCorrection::new(100_000, 1);
    let single = Support::Single { stance: LEFT, swing: RIGHT };
    assert_eq!(c.update(single, [0, 0]), (vec![LEFT], vec![]));
    // Neither foot carries; the heavier one is kept, and it was in the air.
    assert_eq!(c.update(Support::Double, [0, 1_000]), (vec![RIGHT], vec![RIGHT]));
    assert_eq!(c.state(), [false, true]);
}

// Anchors.

#[test]
fn anchors_are_set_kept_and_released() {
    let mut a: Anchors<u8> = Anchors::new();
    a.ensure(LEFT, 1);
    a.ensure(LEFT, 2);
    assert_eq!(a.pose(LEFT), 1);
    a.touchdown(LEFT, 3);
    assert_eq!(a.pose(LEFT), 3);
    assert!(a.right.is_none());
    a.touchdown(RIGHT, 4);
    a.release(LEFT);
    assert!(a.left.is_none());
    assert_eq!(a.pose(RIGHT), 4);
}

fn v(x: i64, y: i64, z: i64) -> Vec3 {
    Vec3 { x, y, z }
}

const ONE: i64 = 1_000_000_000;

fn upright(pos: Vec3) -> AnchorPose {
    AnchorPose { pos, row0: v(ONE, 0, 0), row1: v(0, ONE, 0), row2: v(0, 0, ONE) }
}

#[test]
fn pose_error_is_measured_from_the_anchor() {
    let mut a: Anchors<AnchorPose> = Anchors::new();
    let at = v(10, -5, 7);
    assert_eq!(a.lin_error(RIGHT, &at), (0, 0, 0));
    a.touchdown(RIGHT, upright(v(12, 0, 0)));
    assert_eq!(a.lin_error(RIGHT, &at), (2, 5, -7));
}

#[test]
fn anchors_leak_towards_the_foot() {
    let mut a: Anchors<AnchorPose> = Anchors::new();
    a.touchdown(LEFT, upright(v(0, 0, 0)));
    let moved = upright(v(12_000_000, -8_000_000, 0));
    a.leak(LEFT, &moved, 0, 0, 2_000);
    assert_eq!(a.pose(LEFT).pos, v(0, 0, 0));
    // Half a time constant per second, for two milliseconds.
    a.leak(LEFT, &moved, 500_000, 0, 2_000);
    assert_eq!(a.pose(LEFT).pos, v(12_000, -8_000, 0));
    // However fast, it goes no further than the foot.
    a.leak(LEFT, &moved, 900_000_000, 0, 2_000_000);
    assert_eq!(a.pose(LEFT), moved);
    assert!(a.right.is_none());
}

#[test]
fn a_rolled_foot_is_turned_back() {
    let mut a: Anchors<AnchorPose> = Anchors::new();
    a.touchdown(LEFT, upright(v(0, 0, 0)));
    // Rolled about x by a sine of 0.6.
    let rolled = AnchorPose {
        pos: v(0, 0, -10),
        row0: v(ONE, 0, 0),
        row1: v(0, 800_000_000, -600_000_000),
        row2: v(0, 600_000_000, 800_000_000),
    };
    let acc = a.accel_ref(LEFT, &rolled, &[0, 0, 1, 0, 0, 2], 100, 20);
    assert_eq!(acc, vec![-100 * 600_000_000, 0, -20, 0, 0, 100 * 10 - 20 * 2]);
    // Where the anchor holds it, a foot at rest is left alone.
    let at_rest = a.accel_ref(LEFT, &upright(v(0, 0, 0)), &[0; 6], 100, 20);
    assert_eq!(at_rest, vec![0; 6]);
}

#[test]
fn stacked_rows_follow_the_stance_list() {
    let foot = |base: i32| FootRows {
        jacobian: (0..6).map(|r| vec![base + r, -r]).collect(),
        drift: [base, 1, 2, 3, 4, 5],
    };
    let (rows, drift) = contact_jacobians(&vec![foot(100), foot(200)]);
    assert_eq!(rows.len(), 12);
    assert_eq!(rows[5], vec![105, -5]);
    assert_eq!(rows[6], vec![200, 0]);
    assert_eq!((drift[5], drift[6], drift[11]), (5, 200, 5));
}

#[test]
fn wrenches_are_moved_to_the_sole() {
    // The sole lies 35 mm below the foot's origin.
    let sole = v(0, 0, -35_000_000);
    let m = sole_selection(&upright(v(0, 0, 0)), &sole, 12, 1);
    assert_eq!(m.len(), 6);
    assert!(m.iter().all(|row| row.len() == 12 && row[..6].iter().all(|e| *e == 0)));
    let one = ONE as i128;
    let scale = 1_000_000_000_000_000_000;
    let lever = -35_000_000 * one * one;
    // Along x the moment loses what the force along y makes on the lever.
    assert_eq!(m[0][6..], [scale * one, 0, 0, 0, lever, 0]);
    assert_eq!(m[1][6..], [0, scale * one, 0, -lever, 0, 0]);
    assert_eq!(m[2][6..], [0, 0, scale * one, 0, 0, 0]);
    assert_eq!(m[5][6..], [0, 0, 0, 0, 0, one]);
}

#[test]
fn pressure_of_a_sole_wrench() {
    assert_eq!(cop_from_sole_wrench(&[1, 2, 3, 4, 5, 0]), None);
    assert_eq!(cop_from_sole_wrench(&[1, 2, 3, 4, 5, -7]), None);
    assert_eq!(cop_from_sole_wrench(&[10, 20, 0, 0, 0, 5]), Some((-20, 10, 5)));
    assert_eq!(contact_row(1, 5), 11);
}
