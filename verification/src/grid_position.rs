//! Integer coordinates on the board grid and in pixel space.

use vstd::prelude::*;
use vstd::string::StringExecFns;

use crate::text::{dec_int, i16_text};

verus! {

/// Width of the window in pixels.
pub const SCREEN_WIDTH: i16 = 800;
/// Height of the window in pixels.
pub const SCREEN_HEIGHT: i16 = 800;
/// Width of one grid cell in pixels.
pub const CELL_WIDTH: i16 = 100;
/// Height of one grid cell in pixels.
pub const CELL_HEIGHT: i16 = 100;

/// A two-dimensional integer coordinate.
///
/// It serves both as a cell coordinate on the board grid (each component in
/// `[0, N)` for board side `N`) and as a direction vector for line tracing
/// (each component in `{-1, 0, 1}`, never both zero).
#[derive(Clone, Copy, PartialEq, Eq, Structural, Debug)]
pub struct GridPosition {
    pub x: i16,
    pub y: i16,
}

impl GridPosition {
    /// Build a position from its two coordinates.
    pub fn new(x: i16, y: i16) -> (r: Self)
        ensures
            r.x == x,
            r.y == y,
    {
        GridPosition { x, y }
    }

    /// True iff the position lies strictly inside the window, in pixels.
    pub fn in_screen(&self) -> (r: bool)
        ensures
            r == (0 < self.x < SCREEN_WIDTH && 0 < self.y < SCREEN_HEIGHT),
    {
        0 < self.x && self.x < SCREEN_WIDTH && 0 < self.y && self.y < SCREEN_HEIGHT
    }

    /// Map a pixel-space position down to the grid cell that contains it.
    pub fn into_grid(self) -> (r: Self)
        requires
            self.x >= 0,
            self.y >= 0,
        ensures
            r.x == self.x as int / CELL_WIDTH as int,
            r.y == self.y as int / CELL_HEIGHT as int,
    {
        GridPosition { x: self.x / CELL_WIDTH, y: self.y / CELL_HEIGHT }
    }

    /// The larger of the absolute values of the two coordinates.
    pub fn max(&self) -> (r: i16)
        requires
            self.x > i16::MIN,
            self.y > i16::MIN,
        ensures
            r == vstd::math::max(vstd::math::abs(self.x as int) as int, vstd::math::abs(
                self.y as int,
            ) as int),
    {
        let ax: i16 = if self.x < 0 {
            -self.x
        } else {
            self.x
        };
        let ay: i16 = if self.y < 0 {
            -self.y
        } else {
            self.y
        };
        if ax < ay {
            ay
        } else {
            ax
        }
    }

    /// The smaller of the absolute values of the two coordinates.
    pub fn min(&self) -> (r: i16)
        requires
            self.x > i16::MIN,
            self.y > i16::MIN,
        ensures
            r == vstd::math::min(vstd::math::abs(self.x as int) as int, vstd::math::abs(
                self.y as int,
            ) as int),
    {
        let ax: i16 = if self.x < 0 {
            -self.x
        } else {
            self.x
        };
        let ay: i16 = if self.y < 0 {
            -self.y
        } else {
            self.y
        };
        if ax < ay {
            ax
        } else {
            ay
        }
    }
}

impl core::ops::Add for GridPosition {
    type Output = GridPosition;

    /// Componentwise addition, used to advance one step along a direction.
    fn add(self, other: GridPosition) -> (r: GridPosition) {
        GridPosition { x: self.x + other.x, y: self.y + other.y }
    }
}

impl vstd::std_specs::ops::AddSpecImpl for GridPosition {
    open spec fn obeys_add_spec() -> bool {
        true
    }

    open spec fn add_req(self, other: GridPosition) -> bool {
        i16::MIN <= self.x + other.x <= i16::MAX && i16::MIN <= self.y + other.y <= i16::MAX
    }

    open spec fn add_spec(self, other: GridPosition) -> GridPosition {
        GridPosition { x: (self.x + other.x) as i16, y: (self.y + other.y) as i16 }
    }
}

impl core::ops::Sub for GridPosition {
    type Output = GridPosition;

    /// Componentwise subtraction, used to step back along a direction.
    fn sub(self, other: GridPosition) -> (r: GridPosition) {
        GridPosition { x: self.x - other.x, y: self.y - other.y }
    }
}

impl vstd::std_specs::ops::SubSpecImpl for GridPosition {
    open spec fn obeys_sub_spec() -> bool {
        true
    }

    open spec fn sub_req(self, other: GridPosition) -> bool {
        i16::MIN <= self.x - other.x <= i16::MAX && i16::MIN <= self.y - other.y <= i16::MAX
    }

    open spec fn sub_spec(self, other: GridPosition) -> GridPosition {
        GridPosition { x: (self.x - other.x) as i16, y: (self.y - other.y) as i16 }
    }
}

impl GridPosition {
    /// The position as text: the two coordinates in parentheses.
    pub fn text(&self) -> (r: String)
        ensures
            r@ == seq!['('] + dec_int(self.x as int) + seq![','] + dec_int(self.y as int) + seq![
                ')',
            ],
    {
        proof {
            reveal_strlit("(");
            reveal_strlit(",");
            reveal_strlit(")");
        }
        let tx = i16_text(self.x);
        let ty = i16_text(self.y);
        let r = "(".to_owned().concat(tx.as_str()).concat(",").concat(ty.as_str()).concat(")");
        proof {
            assert(r@ =~= seq!['('] + dec_int(self.x as int) + seq![','] + dec_int(self.y as int)
                + seq![')']);
        }
        r
    }

    /// Componentwise addition in place.
    pub fn add_assign(&mut self, other: GridPosition)
        requires
            i16::MIN <= old(self).x + other.x <= i16::MAX,
            i16::MIN <= old(self).y + other.y <= i16::MAX,
        ensures
            final(self).x == old(self).x + other.x,
            final(self).y == old(self).y + other.y,
    {
        self.x = self.x + other.x;
        self.y = self.y + other.y;
    }

    /// Componentwise subtraction in place.
    pub fn sub_assign(&mut self, other: GridPosition)
        requires
            i16::MIN <= old(self).x - other.x <= i16::MAX,
            i16::MIN <= old(self).y - other.y <= i16::MAX,
        ensures
            final(self).x == old(self).x - other.x,
            final(self).y == old(self).y - other.y,
    {
        self.x = self.x - other.x;
        self.y = self.y - other.y;
    }
}

} // verus!
