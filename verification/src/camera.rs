//! Which camera the viewport renders, and how the pointer moves it.
//!
//! Angles are microradians, lengths nanometres, the pointer's way thousandths of a
//! pixel. Sines and cosines come in as arguments, in parts per billion.

use vstd::prelude::*;

use crate::robot::Vec3;

verus! {

/// `Free` orbits a point that the user moves; `Tps` trails a link.
#[derive(Clone, Copy, PartialEq, Eq, Structural, Debug)]
pub enum CameraMode {
    Free,
    Tps,
}

impl CameraMode {
    pub const ALL: [CameraMode; 2] = [CameraMode::Free, CameraMode::Tps];

    /// The name of the mode.
    pub open spec fn label_of(self) -> Seq<char> {
        match self {
            CameraMode::Free => "Free orbit"@,
            CameraMode::Tps => "TPS (follow)"@,
        }
    }

    pub fn label(self) -> (r: &'static str)
        ensures
            r@ == self.label_of(),
    {
        match self {
            CameraMode::Free => "Free orbit",
            CameraMode::Tps => "TPS (follow)",
        }
    }
}

/// The camera looks up or down no further than this.
pub const MAX_PITCH: i64 = 1_500_000;

/// The camera comes no nearer to what it looks at than a centimetre, and goes no
/// further away than fifty metres.
pub const MIN_DISTANCE: i64 = 10_000_000;

pub const MAX_DISTANCE: i64 = 50_000_000_000;

/// A trailing camera stays at least this far behind.
pub const MIN_TRAIL: i64 = 50_000_000;

/// Half a turn.
pub const HALF_TURN: i64 = 3_141_593;

/// No angle of the camera gets larger than this, and no coordinate or way of the
/// pointer.
pub const MAX_ANGLE: i64 = 0x1000_0000_0000_0000;

pub const MAX_TARGET: i64 = 0x1000_0000_0000_0000;

pub const MAX_WAY: i64 = 0x1_0000_0000;

/// No camera trails further behind than this.
pub const MAX_REACH: i64 = 0x800_0000_0000;

/// `v` kept between `lo` and `hi`.
pub open spec fn kept(v: int, lo: int, hi: int) -> int {
    if v < lo {
        lo
    } else if v > hi {
        hi
    } else {
        v
    }
}

/// How the camera trails a link.
pub struct TpsSettings {
    /// The link to follow; the root without one.
    pub follow_link: Option<String>,
    /// From the link's origin to what the camera looks at, in the link's frame.
    pub target_local_offset: Vec3,
    pub distance: i64,
    /// How far the camera is swung around the body. At zero it is right behind.
    pub yaw_offset: i64,
    pub pitch_offset: i64,
}

impl Default for TpsSettings {
    fn default() -> (r: TpsSettings)
        ensures
            r.follow_link is None,
            r.target_local_offset == (Vec3 { x: 0, y: 0, z: 0 }),
            r.distance == 1_200_000_000,
            r.yaw_offset == 0,
            r.pitch_offset == 350_000,
    {
        TpsSettings {
            follow_link: None,
            target_local_offset: Vec3 { x: 0, y: 0, z: 0 },
            distance: 1_200_000_000,
            yaw_offset: 0,
            pitch_offset: 350_000,
        }
    }
}

impl TpsSettings {
    /// The pointer was dragged while the camera trails: it swings around the body as a
    /// free one would turn.
    pub fn swing(&mut self, d: (i64, i64))
        requires
            -MAX_ANGLE <= old(self).yaw_offset <= MAX_ANGLE,
            -MAX_WAY <= d.0 <= MAX_WAY,
        ensures
            *final(self) == (TpsSettings { yaw_offset: final(self).yaw_offset, ..*old(self) }),
            final(self).yaw_offset == old(self).yaw_offset - 5 * d.0,
    {
        self.yaw_offset = self.yaw_offset - 5 * d.0;
    }
}

/// A camera that looks at a point from around it.
#[derive(Clone, Copy, PartialEq, Eq, Structural, Debug)]
pub struct OrbitCamera {
    pub yaw: i64,
    pub pitch: i64,
    pub distance: i64,
    pub target: Vec3,
    /// The angle that the picture is high.
    pub fov_y: i64,
    /// Nothing nearer than this is drawn, and nothing beyond `far`.
    pub near: i64,
    pub far: i64,
}

/// What the pointer did to the camera this frame.
#[derive(Clone, Copy)]
pub struct CameraEvents {
    /// The primary button was dragged: the camera turns.
    pub orbit: Option<(i64, i64)>,
    /// The secondary button was dragged: the camera moves.
    pub pan: Option<(i64, i64)>,
    /// The middle button was dragged: the camera moves as well.
    pub pan_middle: Option<(i64, i64)>,
    /// The wheel was turned, in thousandths.
    pub scroll: i64,
}

impl CameraEvents {
    pub open spec fn valid(self) -> bool {
        &&& self.orbit matches Some(d) ==> -MAX_WAY <= d.0 <= MAX_WAY && -MAX_WAY <= d.1
            <= MAX_WAY
        &&& self.pan matches Some(d) ==> -MAX_WAY <= d.0 <= MAX_WAY && -MAX_WAY <= d.1 <= MAX_WAY
        &&& self.pan_middle matches Some(d) ==> -MAX_WAY <= d.0 <= MAX_WAY && -MAX_WAY <= d.1
            <= MAX_WAY
        &&& -MAX_WAY <= self.scroll <= MAX_WAY
    }
}

/// How far a way of the pointer moves what the camera looks at, along a direction:
/// two thousandths of the distance per pixel, rounded down.
pub open spec fn panned(way: int, distance: int, along: int) -> int {
    (along * (way * distance)) / 500_000_000_000_000
}

fn pan_by(way: i64, distance: i64, along: i64) -> (r: i64)
    requires
        -MAX_WAY <= way <= MAX_WAY,
        0 <= distance <= MAX_REACH,
        -1_000_000_000 <= along <= 1_000_000_000,
    ensures
        r == panned(way as int, distance as int, along as int),
        -0x1000_0000_0000_0000 <= r <= 0x1000_0000_0000_0000,
{
    proof {
        assert(-(0x1_0000_0000 * 0x800_0000_0000) <= way * distance <= 0x1_0000_0000
            * 0x800_0000_0000) by (nonlinear_arith)
            requires
                -0x1_0000_0000 <= way <= 0x1_0000_0000,
                0 <= distance <= 0x800_0000_0000,
        ;
        let p = way * distance;
        assert(-(1_000_000_000 * (0x1_0000_0000 * 0x800_0000_0000)) <= along * p <= 1_000_000_000
            * (0x1_0000_0000 * 0x800_0000_0000)) by (nonlinear_arith)
            requires
                -1_000_000_000 <= along <= 1_000_000_000,
                -(0x1_0000_0000 * 0x800_0000_0000) <= p <= 0x1_0000_0000 * 0x800_0000_0000,
        ;
    }
    let v: i128 = along as i128 * (way as i128 * distance as i128);
    match v.checked_div_euclid(500_000_000_000_000) {
        Some(q) => q as i64,
        None => 0,
    }
}

/// The distance after the wheel was turned: two thousandths per notch, within its
/// limits.
pub open spec fn zoomed(distance: int, scroll: int) -> int {
    kept(
        (distance * (500_000 - scroll)) / 500_000,
        MIN_DISTANCE as int,
        MAX_DISTANCE as int,
    )
}

impl OrbitCamera {
    /// Nothing is out of range.
    pub open spec fn valid(self) -> bool {
        &&& -MAX_ANGLE <= self.yaw <= MAX_ANGLE
        &&& -MAX_ANGLE <= self.pitch <= MAX_ANGLE
        &&& 0 <= self.distance <= MAX_REACH
        &&& -MAX_TARGET <= self.target.x <= MAX_TARGET
        &&& -MAX_TARGET <= self.target.y <= MAX_TARGET
        &&& -MAX_TARGET <= self.target.z <= MAX_TARGET
    }

    /// The camera as the editor opens with it.
    pub open spec fn fresh() -> OrbitCamera {
        OrbitCamera {
            yaw: 785_398,
            pitch: 500_000,
            distance: 800_000_000,
            target: Vec3 { x: 0, y: 0, z: 50_000_000 },
            fov_y: 785_398,
            near: 1_000_000,
            far: 100_000_000_000,
        }
    }

    pub fn new() -> (r: OrbitCamera)
        ensures
            r == OrbitCamera::fresh(),
            r.valid(),
    {
        OrbitCamera {
            yaw: 785_398,
            pitch: 500_000,
            distance: 800_000_000,
            target: Vec3 { x: 0, y: 0, z: 50_000_000 },
            fov_y: 785_398,
            near: 1_000_000,
            far: 100_000_000_000,
        }
    }

    /// Back to how the editor opens.
    pub fn reset(&mut self)
        ensures
            *final(self) == OrbitCamera::fresh(),
    {
        *self = OrbitCamera::new();
    }

    /// The camera after the primary button was dragged.
    pub open spec fn orbited(self, d: (i64, i64)) -> OrbitCamera {
        OrbitCamera {
            yaw: (self.yaw - 5 * d.0) as i64,
            pitch: kept(self.pitch + 5 * d.1, -MAX_PITCH as int, MAX_PITCH as int) as i64,
            ..self
        }
    }

    /// The camera after one of the other buttons was dragged. `sin` and `cos` are those of
    /// the yaw.
    pub open spec fn moved(self, d: (i64, i64), sin: i64, cos: i64) -> OrbitCamera {
        OrbitCamera {
            target: Vec3 {
                x: (self.target.x + panned(d.0 as int, self.distance as int, sin as int)) as i64,
                y: (self.target.y - panned(d.0 as int, self.distance as int, cos as int)) as i64,
                z: (self.target.z + panned(d.1 as int, self.distance as int, 1_000_000_000)) as i64,
            },
            ..self
        }
    }

    /// The camera after a frame: it turns, moves, and comes nearer.
    pub open spec fn handled(self, ev: CameraEvents, sin: i64, cos: i64) -> OrbitCamera {
        let turned = match ev.orbit {
            Some(d) => self.orbited(d),
            None => self,
        };
        let aside = match ev.pan {
            Some(d) => turned.moved(d, sin, cos),
            None => turned,
        };
        let there = match ev.pan_middle {
            Some(d) => aside.moved(d, sin, cos),
            None => aside,
        };
        if ev.scroll == 0 {
            there
        } else {
            OrbitCamera {
                distance: zoomed(there.distance as int, ev.scroll as int) as i64,
                ..there
            }
        }
    }

    fn shift(&mut self, d: (i64, i64), sin: i64, cos: i64)
        requires
            0 <= old(self).distance <= MAX_REACH,
            -2 * MAX_TARGET <= old(self).target.x <= 2 * MAX_TARGET,
            -2 * MAX_TARGET <= old(self).target.y <= 2 * MAX_TARGET,
            -2 * MAX_TARGET <= old(self).target.z <= 2 * MAX_TARGET,
            -MAX_WAY <= d.0 <= MAX_WAY,
            -MAX_WAY <= d.1 <= MAX_WAY,
            -1_000_000_000 <= sin <= 1_000_000_000,
            -1_000_000_000 <= cos <= 1_000_000_000,
        ensures
            *final(self) == old(self).moved(d, sin, cos),
            old(self).target.x - MAX_TARGET <= final(self).target.x <= old(self).target.x
                + MAX_TARGET,
            old(self).target.y - MAX_TARGET <= final(self).target.y <= old(self).target.y
                + MAX_TARGET,
            old(self).target.z - MAX_TARGET <= final(self).target.z <= old(self).target.z
                + MAX_TARGET,
    {
        let t: Vec3 = self.target;
        let dist: i64 = self.distance;
        self.target = Vec3 {
            x: t.x + pan_by(d.0, dist, sin),
            y: t.y - pan_by(d.0, dist, cos),
            z: t.z + pan_by(d.1, dist, 1_000_000_000),
        };
    }

    /// How far the camera stands from what it looks at along one axis, `a` and `b`
    /// the sines or cosines that belong to it. Rounded down.
    pub open spec fn reach(self, a: i64, b: i64) -> int {
        (self.distance * (a * b)) / 1_000_000_000_000_000_000
    }

    fn reach_of(&self, a: i64, b: i64) -> (r: i64)
        requires
            0 <= self.distance <= MAX_REACH,
            -1_000_000_000 <= a <= 1_000_000_000,
            -1_000_000_000 <= b <= 1_000_000_000,
        ensures
            r == self.reach(a, b),
            -MAX_REACH <= r <= MAX_REACH,
    {
        proof {
            let p = a * b;
            assert(-1_000_000_000_000_000_000 <= a * b <= 1_000_000_000_000_000_000)
                by (nonlinear_arith)
                requires
                    -1_000_000_000 <= a <= 1_000_000_000,
                    -1_000_000_000 <= b <= 1_000_000_000,
            ;
            assert(-(0x800_0000_0000 * 1_000_000_000_000_000_000) <= self.distance * p
                <= 0x800_0000_0000 * 1_000_000_000_000_000_000) by (nonlinear_arith)
                requires
                    0 <= self.distance <= 0x800_0000_0000,
                    -1_000_000_000_000_000_000 <= p <= 1_000_000_000_000_000_000,
            ;
        }
        let v: i128 = self.distance as i128 * (a as i128 * b as i128);
        match v.checked_div_euclid(1_000_000_000_000_000_000) {
            Some(q) => q as i64,
            None => 0,
        }
    }

    /// Where the camera stands. `yaw` and `pitch` are the sine and cosine of its
    /// angles, in parts per billion.
    pub fn eye(&self, yaw: (i64, i64), pitch: (i64, i64)) -> (r: Vec3)
        requires
            self.valid(),
            -1_000_000_000 <= yaw.0 <= 1_000_000_000,
            -1_000_000_000 <= yaw.1 <= 1_000_000_000,
            -1_000_000_000 <= pitch.0 <= 1_000_000_000,
            -1_000_000_000 <= pitch.1 <= 1_000_000_000,
        ensures
            r.x == self.target.x + self.reach(pitch.1, yaw.1),
            r.y == self.target.y + self.reach(pitch.1, yaw.0),
            r.z == self.target.z + self.reach(pitch.0, 1_000_000_000),
    {
        Vec3 {
            x: self.target.x + self.reach_of(pitch.1, yaw.1),
            y: self.target.y + self.reach_of(pitch.1, yaw.0),
            z: self.target.z + self.reach_of(pitch.0, 1_000_000_000),
        }
    }

    /// Turns, moves and zooms. `sin` and `cos` are those of the yaw that the camera
    /// has once it has turned.
    pub fn handle_orbit_pan_zoom(&mut self, ev: &CameraEvents, sin: i64, cos: i64)
        requires
            old(self).valid(),
            ev.valid(),
            -1_000_000_000 <= sin <= 1_000_000_000,
            -1_000_000_000 <= cos <= 1_000_000_000,
        ensures
            *final(self) == old(self).handled(*ev, sin, cos),
    {
        if let Some(d) = ev.orbit {
            self.yaw = self.yaw - 5 * d.0;
            let pitch: i64 = self.pitch + 5 * d.1;
            self.pitch = if pitch < -MAX_PITCH {
                -MAX_PITCH
            } else if pitch > MAX_PITCH {
                MAX_PITCH
            } else {
                pitch
            };
        }
        if let Some(d) = ev.pan {
            self.shift(d, sin, cos);
        }
        if let Some(d) = ev.pan_middle {
            self.shift(d, sin, cos);
        }
        if ev.scroll != 0 {
            proof {
                let k = 500_000 - ev.scroll;
                assert(-(0x800_0000_0000 * 0x2_0000_0000) <= self.distance * k <= 0x800_0000_0000
                    * 0x2_0000_0000) by (nonlinear_arith)
                    requires
                        0 <= self.distance <= 0x800_0000_0000,
                        -0x2_0000_0000 <= k <= 0x2_0000_0000,
                ;
            }
            let v: i128 = self.distance as i128 * (500_000 - ev.scroll as i128);
            let d: i128 = match v.checked_div_euclid(500_000) {
                Some(q) => q,
                None => 0,
            };
            self.distance = if d < MIN_DISTANCE as i128 {
                MIN_DISTANCE
            } else if d > MAX_DISTANCE as i128 {
                MAX_DISTANCE
            } else {
                d as i64
            };
        }
    }

    /// The third-person view of a link: behind it at `target`, whatever way the
    /// body faces.
    pub fn update_from_tps(&mut self, target: Vec3, body_yaw: i64, settings: &TpsSettings)
        requires
            -MAX_ANGLE <= body_yaw <= MAX_ANGLE,
            -MAX_ANGLE <= settings.yaw_offset <= MAX_ANGLE,
        ensures
            final(self).target == target,
            final(self).yaw == body_yaw + 3_141_593 + settings.yaw_offset,
            final(self).pitch == settings.pitch_offset,
            final(self).distance == (if settings.distance > 50_000_000 {
                settings.distance
            } else {
                50_000_000
            }),
            *final(self) == (OrbitCamera {
                target: final(self).target,
                yaw: final(self).yaw,
                pitch: final(self).pitch,
                distance: final(self).distance,
                ..*old(self)
            }),
    {
        self.target = target;
        self.yaw = body_yaw + HALF_TURN + settings.yaw_offset;
        self.pitch = settings.pitch_offset;
        self.distance = if settings.distance > MIN_TRAIL {
            settings.distance
        } else {
            MIN_TRAIL
        };
    }
}

/// The camera never stands further from what it looks at, along any axis, than its
/// distance, and at no distance it stands right there.
pub proof fn law_eye_is_within_reach(c: OrbitCamera, a: i64, b: i64)
    requires
        c.valid(),
        -1_000_000_000 <= a <= 1_000_000_000,
        -1_000_000_000 <= b <= 1_000_000_000,
    ensures
        -c.distance <= c.reach(a, b) <= c.distance,
{
    let p = a * b;
    let d = c.distance as int;
    assert(-1_000_000_000_000_000_000 <= a * b <= 1_000_000_000_000_000_000) by (nonlinear_arith)
        requires
            -1_000_000_000 <= a <= 1_000_000_000,
            -1_000_000_000 <= b <= 1_000_000_000,
    ;
    assert(-(d * 1_000_000_000_000_000_000) <= d * p <= d * 1_000_000_000_000_000_000)
        by (nonlinear_arith)
        requires
            0 <= d,
            -1_000_000_000_000_000_000 <= p <= 1_000_000_000_000_000_000,
    ;
}

/// Once the camera was turned it never looks straight up or down, and once the
/// wheel was used it is never further or nearer than its limits. The pointer does
/// not touch its lens.
pub proof fn law_camera_keeps_its_limits(c: OrbitCamera, ev: CameraEvents, sin: i64, cos: i64)
    ensures
        ev.orbit is Some ==> -1_500_000 <= c.handled(ev, sin, cos).pitch <= 1_500_000,
        ev.scroll != 0 ==> 10_000_000 <= c.handled(ev, sin, cos).distance <= 50_000_000_000,
        ev.orbit is None && ev.pan is None && ev.pan_middle is None && ev.scroll == 0
            ==> c.handled(ev, sin, cos) == c,
        c.handled(ev, sin, cos).fov_y == c.fov_y,
        c.handled(ev, sin, cos).near == c.near,
        c.handled(ev, sin, cos).far == c.far,
{
}

/// A drag of the primary button turns the camera by five milliradians a pixel: against the
/// way to the side, and with the way up and down as far as the camera tilts.
pub proof fn law_drag_turns_the_camera(c: OrbitCamera, d: (i64, i64), sin: i64, cos: i64)
    requires
        c.valid(),
        -MAX_WAY <= d.0 <= MAX_WAY,
        -MAX_WAY <= d.1 <= MAX_WAY,
    ensures
        ({
            let ev = CameraEvents { orbit: Some(d), pan: None, pan_middle: None, scroll: 0 };
            let h = c.handled(ev, sin, cos);
            let tilt = c.pitch + 5 * d.1;
            &&& c.yaw - h.yaw == 5 * d.0
            &&& -1_500_000 <= tilt <= 1_500_000 ==> h.pitch == tilt
            &&& tilt > 1_500_000 ==> h.pitch == 1_500_000
            &&& tilt < -1_500_000 ==> h.pitch == -1_500_000
            &&& h.target == c.target && h.distance == c.distance
        }),
{
}

/// A part of a product, rounded down, times what it is a part of, is the product again up
/// to the last digit.
proof fn lemma_part(v: int, d: int)
    requires
        d > 0,
    ensures
        0 <= v - d * (v / d) < d,
{
    let q = v / d;
    assert(0 <= v - d * q < d) by (nonlinear_arith)
        requires
            d > 0,
            q == v / d,
    ;
}

/// A pan goes with the way of the pointer, the distance and the direction that the camera
/// faces: two thousandths of the distance a pixel, up to the last digit.
pub proof fn law_pan_grows_with_the_distance(way: int, distance: int, along: int)
    ensures
        0 <= along * (way * distance) - 500_000_000_000_000 * panned(way, distance, along)
            < 500_000_000_000_000,
{
    lemma_part(along * (way * distance), 500_000_000_000_000);
}

/// The wheel brings the camera nearer by a share of its distance, within its limits.
pub proof fn law_wheel_zooms_in_proportion(distance: int, scroll: int)
    ensures
        ({
            let (there, want) = (zoomed(distance, scroll), distance * (500_000 - scroll));
            &&& 10_000_000 <= there <= 50_000_000_000
            &&& 10_000_000 < there < 50_000_000_000 ==> 0 <= want - 500_000 * there < 500_000
            &&& there == 10_000_000 ==> want < 500_000 * (10_000_000 + 1)
            &&& there == 50_000_000_000 ==> want >= 500_000 * 50_000_000_000
        }),
{
    lemma_part(distance * (500_000 - scroll), 500_000);
}

/// Along each axis the camera stands off what it looks at by its distance times the sine or
/// cosine of both angles, up to the last digit.
pub proof fn law_eye_stands_at_its_distance(c: OrbitCamera, a: i64, b: i64)
    ensures
        0 <= c.distance * (a * b) - 1_000_000_000_000_000_000 * c.reach(a, b)
            < 1_000_000_000_000_000_000,
{
    lemma_part(c.distance * (a * b), 1_000_000_000_000_000_000);
}

/// A pan moves what the camera looks at across its view: to the side along the ground and up
/// and down along the vertical. Nothing else of the camera moves.
pub proof fn law_pan_moves_across_the_view(c: OrbitCamera, d: (i64, i64), sin: i64, cos: i64)
    requires
        c.valid(),
        -MAX_WAY <= d.0 <= MAX_WAY,
        -MAX_WAY <= d.1 <= MAX_WAY,
        -1_000_000_000 <= sin <= 1_000_000_000,
        -1_000_000_000 <= cos <= 1_000_000_000,
    ensures
        ({
            let ev = CameraEvents { orbit: None, pan: Some(d), pan_middle: None, scroll: 0 };
            let middle = CameraEvents { orbit: None, pan: None, pan_middle: Some(d), scroll: 0 };
            let h = c.handled(ev, sin, cos);
            let unit: int = 500_000_000_000_000;
            let (w0, w1) = (d.0 * c.distance, d.1 * c.distance);
            &&& h == c.handled(middle, sin, cos)
            &&& 0 <= sin * w0 - unit * (h.target.x - c.target.x) < unit
            &&& 0 <= cos * w0 - unit * (c.target.y - h.target.y) < unit
            &&& 0 <= 1_000_000_000 * w1 - unit * (h.target.z - c.target.z) < unit
            &&& h == (OrbitCamera { target: h.target, ..c })
        }),
{
    lemma_pan_fits(d.0 as int, c.distance as int, sin as int);
    lemma_pan_fits(d.0 as int, c.distance as int, cos as int);
    lemma_pan_fits(d.1 as int, c.distance as int, 1_000_000_000);
}

proof fn lemma_pan_fits(way: int, distance: int, along: int)
    requires
        -MAX_WAY <= way <= MAX_WAY,
        0 <= distance <= MAX_REACH,
        -1_000_000_000 <= along <= 1_000_000_000,
    ensures
        -0x4000_0000_0000_0000 <= panned(way, distance, along) <= 0x4000_0000_0000_0000,
        0 <= along * (way * distance) - 500_000_000_000_000 * panned(way, distance, along)
            < 500_000_000_000_000,
{
    let (m, w, r) = (0x1_0000_0000int, way * distance, 0x800_0000_0000int);
    assert(-(m * r) <= w <= m * r) by (nonlinear_arith)
        requires
            -m <= way <= m,
            0 <= distance <= r,
            w == way * distance,
    ;
    let b = m * r;
    assert(-(b * 1_000_000_000) <= along * w <= b * 1_000_000_000) by (nonlinear_arith)
        requires
            -b <= w <= b,
            -1_000_000_000 <= along <= 1_000_000_000,
            b >= 0,
    ;
    law_pan_grows_with_the_distance(way, distance, along);
}

/// A fresh camera stands eight tenths of a metre off a point a little above the ground, turned
/// by an eighth of a turn and looking down.
pub proof fn law_fresh_camera()
    ensures
        OrbitCamera::fresh().yaw == 785_398,
        OrbitCamera::fresh().pitch == 500_000,
        OrbitCamera::fresh().distance == 800_000_000,
        OrbitCamera::fresh().target == (Vec3 { x: 0, y: 0, z: 50_000_000 }),
        OrbitCamera::fresh().fov_y == 785_398,
        OrbitCamera::fresh().near == 1_000_000,
        OrbitCamera::fresh().far == 100_000_000_000,
{
}

} // verus!
