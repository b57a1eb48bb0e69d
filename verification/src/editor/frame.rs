//! The window's own frame: where it is resized, and its buttons.
//!
//! Coordinates are in thousandths of a pixel, from the top left.

use vstd::prelude::*;

verus! {

/// A rectangle on the screen.
#[derive(Clone, Copy, PartialEq, Eq, Structural, Debug)]
pub struct Area {
    pub x: i64,
    pub y: i64,
    pub w: i64,
    pub h: i64,
}

/// No window is larger or further out than this.
pub const MAX_EXTENT: i64 = 0x1000_0000_0000;

impl Area {
    /// The rectangle holds a point. The right and lower edges are not part of it.
    pub open spec fn holds(self, px: int, py: int) -> bool {
        self.x <= px < self.x + self.w && self.y <= py < self.y + self.h
    }

    pub open spec fn valid(self) -> bool {
        &&& -MAX_EXTENT <= self.x <= MAX_EXTENT
        &&& -MAX_EXTENT <= self.y <= MAX_EXTENT
        &&& -MAX_EXTENT <= self.w <= MAX_EXTENT
        &&& -MAX_EXTENT <= self.h <= MAX_EXTENT
    }
}

/// Where a window is pulled to when it is resized.
#[derive(Clone, Copy, PartialEq, Eq, Structural, Debug)]
pub enum Pull {
    NorthWest,
    NorthEast,
    SouthWest,
    SouthEast,
    North,
    South,
    West,
    East,
}

/// How thick the edges are, and how far the corners reach.
pub const EDGE: i64 = 5_000;

pub const CORNER: i64 = 12_000;

/// The part of the window that is pulled in one direction. Corners are squares, and
/// the edges lie between them.
pub open spec fn pull_area(win: Area, pull: Pull) -> Area {
    let left = win.x;
    let top = win.y;
    let right = win.x + win.w;
    let bottom = win.y + win.h;
    let (x, y, w, h) = match pull {
        Pull::NorthWest => (left as int, top as int, CORNER as int, CORNER as int),
        Pull::NorthEast => (right - CORNER, top as int, CORNER as int, CORNER as int),
        Pull::SouthWest => (left as int, bottom - CORNER, CORNER as int, CORNER as int),
        Pull::SouthEast => (right - CORNER, bottom - CORNER, CORNER as int, CORNER as int),
        Pull::North => (left + CORNER, top as int, win.w - 2 * CORNER, EDGE as int),
        Pull::South => (left + CORNER, bottom - EDGE, win.w - 2 * CORNER, EDGE as int),
        Pull::West => (left as int, top + CORNER, EDGE as int, win.h - 2 * CORNER),
        Pull::East => (right - EDGE, top + CORNER, EDGE as int, win.h - 2 * CORNER),
    };
    Area { x: x as i64, y: y as i64, w: w as i64, h: h as i64 }
}

/// The part of the window that is pulled in one direction.
pub fn area_of(win: &Area, pull: Pull) -> (r: Area)
    requires
        win.valid(),
    ensures
        r == pull_area(*win, pull),
{
    let left: i64 = win.x;
    let top: i64 = win.y;
    let right: i64 = win.x + win.w;
    let bottom: i64 = win.y + win.h;
    let long: i64 = win.w - 2 * CORNER;
    let tall: i64 = win.h - 2 * CORNER;
    match pull {
        Pull::NorthWest => Area { x: left, y: top, w: CORNER, h: CORNER },
        Pull::NorthEast => Area { x: right - CORNER, y: top, w: CORNER, h: CORNER },
        Pull::SouthWest => Area { x: left, y: bottom - CORNER, w: CORNER, h: CORNER },
        Pull::SouthEast => Area { x: right - CORNER, y: bottom - CORNER, w: CORNER, h: CORNER },
        Pull::North => Area { x: left + CORNER, y: top, w: long, h: EDGE },
        Pull::South => Area { x: left + CORNER, y: bottom - EDGE, w: long, h: EDGE },
        Pull::West => Area { x: left, y: top + CORNER, w: EDGE, h: tall },
        Pull::East => Area { x: right - EDGE, y: top + CORNER, w: EDGE, h: tall },
    }
}

/// The window is large enough for its corners to keep apart.
pub open spec fn is_roomy(win: Area) -> bool {
    win.valid() && win.w >= 2 * CORNER && win.h >= 2 * CORNER
}

/// A point is pulled in one direction at most, and only where it is in the window.
pub proof fn law_pulls_are_unambiguous(win: Area, a: Pull, b: Pull, px: int, py: int)
    requires
        is_roomy(win),
        pull_area(win, a).holds(px, py),
        pull_area(win, b).holds(px, py),
    ensures
        a == b,
        win.holds(px, py),
{
}

/// The border of the window has no gap: every point of it within an edge's
/// thickness is pulled somewhere.
pub proof fn law_border_is_covered(win: Area, px: int, py: int)
    requires
        is_roomy(win),
        win.holds(px, py),
        px < win.x + EDGE || px >= win.x + win.w - EDGE || py < win.y + EDGE || py >= win.y + win.h
            - EDGE,
    ensures
        exists|pull: Pull| #[trigger] pull_area(win, pull).holds(px, py),
{
    let west = px < win.x + CORNER;
    let east = px >= win.x + win.w - CORNER;
    let north = py < win.y + CORNER;
    let south = py >= win.y + win.h - CORNER;
    let pull = if north && west {
        Pull::NorthWest
    } else if north && east {
        Pull::NorthEast
    } else if south && west {
        Pull::SouthWest
    } else if south && east {
        Pull::SouthEast
    } else if north {
        Pull::North
    } else if south {
        Pull::South
    } else if west {
        Pull::West
    } else {
        Pull::East
    };
    assert(pull_area(win, pull).holds(px, py));
}

// --------------------------------------------------------------- title bar

/// The buttons at the right end of the title bar, from the left.
#[derive(Clone, Copy, PartialEq, Eq, Structural, Debug)]
pub enum TitleButton {
    Minimize,
    Maximize,
    Close,
}

/// How wide a button of the title bar is.
pub const BUTTON_WIDTH: i64 = 40_000;

impl TitleButton {
    /// The button's place, counted from the left.
    pub open spec fn place(self) -> int {
        match self {
            TitleButton::Minimize => 0,
            TitleButton::Maximize => 1,
            TitleButton::Close => 2,
        }
    }

    /// Where the button is.
    pub open spec fn area_in(self, bar: Area) -> Area {
        Area {
            x: (bar.x + bar.w - (3 - self.place()) * BUTTON_WIDTH) as i64,
            y: bar.y,
            w: BUTTON_WIDTH,
            h: bar.h,
        }
    }

    /// Where the button is in a title bar.
    pub fn area(self, bar: &Area) -> (r: Area)
        requires
            bar.valid(),
        ensures
            r == self.area_in(*bar),
    {
        let from_right: i64 = match self {
            TitleButton::Minimize => 3,
            TitleButton::Maximize => 2,
            TitleButton::Close => 1,
        };
        Area {
            x: bar.x + bar.w - from_right * BUTTON_WIDTH,
            y: bar.y,
            w: BUTTON_WIDTH,
            h: bar.h,
        }
    }
}

/// The part of a title bar by which the window is moved: all but the buttons.
pub open spec fn drag_area_in(bar: Area) -> Area {
    Area { x: bar.x, y: bar.y, w: (bar.w - 3 * BUTTON_WIDTH) as i64, h: bar.h }
}

/// The part of a title bar by which the window is moved.
pub fn drag_area(bar: &Area) -> (r: Area)
    requires
        bar.valid(),
    ensures
        r == drag_area_in(*bar),
{
    Area { x: bar.x, y: bar.y, w: bar.w - 3 * BUTTON_WIDTH, h: bar.h }
}

/// Every point of a title bar that is wide enough either moves the window or is on
/// exactly one button.
pub proof fn law_title_bar_is_split(bar: Area, px: int, py: int)
    requires
        bar.valid(),
        bar.w >= 3 * BUTTON_WIDTH,
        bar.holds(px, py),
    ensures
        drag_area_in(bar).holds(px, py) <==> !(exists|b: TitleButton|
            #[trigger] b.area_in(bar).holds(px, py)),
        forall|a: TitleButton, b: TitleButton|
            #[trigger] a.area_in(bar).holds(px, py) && #[trigger] b.area_in(bar).holds(px, py) ==> a
                == b,
{
    let b = if px < bar.x + bar.w - 2 * BUTTON_WIDTH {
        TitleButton::Minimize
    } else if px < bar.x + bar.w - BUTTON_WIDTH {
        TitleButton::Maximize
    } else {
        TitleButton::Close
    };
    if !drag_area_in(bar).holds(px, py) {
        assert(b.area_in(bar).holds(px, py));
    }
    assert forall|a: TitleButton, b: TitleButton|
        #[trigger] a.area_in(bar).holds(px, py) && #[trigger] b.area_in(bar).holds(
            px,
            py,
        ) implies a == b by {
        assert(a.place() == b.place());
    }
}

/// What a click on the title bar asks of the window.
#[derive(Clone, Copy, PartialEq, Eq, Structural, Debug)]
pub enum WindowCommand {
    Minimized(bool),
    Maximized(bool),
    Close,
}

/// What a button does. The middle one turns the window's being maximized around.
pub fn press(button: TitleButton, maximized: bool) -> (r: WindowCommand)
    ensures
        r == match button {
            TitleButton::Minimize => WindowCommand::Minimized(true),
            TitleButton::Maximize => WindowCommand::Maximized(!maximized),
            TitleButton::Close => WindowCommand::Close,
        },
{
    match button {
        TitleButton::Minimize => WindowCommand::Minimized(true),
        TitleButton::Maximize => WindowCommand::Maximized(!maximized),
        TitleButton::Close => WindowCommand::Close,
    }
}

/// A window is pulled at its corners, in squares, and along its sides between them, in strips:
/// where the pointer is near a side says which way it pulls.
pub proof fn law_pulls_lie_on_their_sides(win: Area, pull: Pull, px: int, py: int)
    requires
        is_roomy(win),
        pull_area(win, pull).holds(px, py),
    ensures
        ({
            let (dx, dy) = (px - win.x, py - win.y);
            let (ex, ey) = (win.x + win.w - px, win.y + win.h - py);
            match pull {
                Pull::NorthWest => 0 <= dx < 12_000 && 0 <= dy < 12_000,
                Pull::NorthEast => 0 < ex <= 12_000 && 0 <= dy < 12_000,
                Pull::SouthWest => 0 <= dx < 12_000 && 0 < ey <= 12_000,
                Pull::SouthEast => 0 < ex <= 12_000 && 0 < ey <= 12_000,
                Pull::North => 0 <= dy < 5_000 && dx >= 12_000 && ex > 12_000,
                Pull::South => 0 < ey <= 5_000 && dx >= 12_000 && ex > 12_000,
                Pull::West => 0 <= dx < 5_000 && dy >= 12_000 && ey > 12_000,
                Pull::East => 0 < ex <= 5_000 && dy >= 12_000 && ey > 12_000,
            }
        }),
{
}

/// The buttons stand at the right end of the title bar, side by side: to minimise, to maximise
/// and, last, to close.
pub proof fn law_buttons_stand_at_the_right(bar: Area)
    requires
        bar.valid(),
    ensures
        TitleButton::Close.area_in(bar).x + 40_000 == bar.x + bar.w,
        TitleButton::Maximize.area_in(bar).x + 40_000 == TitleButton::Close.area_in(bar).x,
        TitleButton::Minimize.area_in(bar).x + 40_000 == TitleButton::Maximize.area_in(bar).x,
        drag_area_in(bar).x == bar.x,
        drag_area_in(bar).x + drag_area_in(bar).w == TitleButton::Minimize.area_in(bar).x,
        forall|b: TitleButton| (#[trigger] b.area_in(bar)).w == 40_000 && b.area_in(bar).h
            == bar.h && b.area_in(bar).y == bar.y,
{
}

} // verus!
