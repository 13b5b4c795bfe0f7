//! Geometry of the play field and the timing of the drop cycle.

use vstd::prelude::*;

verus! {

/// x-coordinate of the centre of the left wall.
pub const LEFT_WALL: i32 = -400;

/// x-coordinate of the centre of the right wall.
pub const RIGHT_WALL: i32 = 400;

/// y-coordinate of the centre of the bottom wall.
pub const BOTTOM_WALL: i32 = -300;

/// y-coordinate of the centre of the top wall.
pub const TOP_WALL: i32 = 300;

/// Thickness of each wall.
pub const WALL_THICKNESS: i32 = 10;

/// Extra inset between a spawned piece and a wall, so that a freshly
/// committed piece never initialises overlapping one.
pub const SPAWN_MARGIN: i32 = 10;

/// y-coordinate at which queued pieces are previewed and committed.
pub const FRUIT_SPAWN_HEIGHT: i32 = 200;

/// A settled, collided piece resting above this y-coordinate ends the
/// session.
pub const LOSE_HEIGHT: i32 = 200;

/// Minimum time between two drop commits, in milliseconds.
pub const DROP_COOLDOWN_MS: u32 = 500;

/// One of the four walls that enclose the play field.
#[derive(Clone, Copy, Debug, PartialEq, Eq, Structural)]
pub enum WallLocation {
    Left,
    Right,
    Bottom,
    Top,
}

impl WallLocation {
    /// Centre of the wall, as `(x, y)`.
    pub fn position(&self) -> (r: (i32, i32))
        ensures
            r == (match *self {
                WallLocation::Left => (LEFT_WALL, 0i32),
                WallLocation::Right => (RIGHT_WALL, 0i32),
                WallLocation::Bottom => (0i32, BOTTOM_WALL),
                WallLocation::Top => (0i32, TOP_WALL),
            }),
    {
        match self {
            WallLocation::Left => (LEFT_WALL, 0),
            WallLocation::Right => (RIGHT_WALL, 0),
            WallLocation::Bottom => (0, BOTTOM_WALL),
            WallLocation::Top => (0, TOP_WALL),
        }
    }

    /// Extent of the wall, as `(width, height)`; the side walls span the
    /// arena's height and the top and bottom walls its width.
    pub fn size(&self) -> (r: (i32, i32))
        ensures
            r.0 > 0 && r.1 > 0,
            r.0 == (match *self {
                WallLocation::Left | WallLocation::Right => WALL_THICKNESS as int,
                WallLocation::Bottom | WallLocation::Top => RIGHT_WALL - LEFT_WALL,
            }),
            r.1 == (match *self {
                WallLocation::Left | WallLocation::Right => TOP_WALL - BOTTOM_WALL,
                WallLocation::Bottom | WallLocation::Top => WALL_THICKNESS as int,
            }),
    {
        let arena_height = TOP_WALL - BOTTOM_WALL;
        let arena_width = RIGHT_WALL - LEFT_WALL;
        match self {
            WallLocation::Left | WallLocation::Right => (WALL_THICKNESS, arena_height),
            WallLocation::Bottom | WallLocation::Top => (arena_width, WALL_THICKNESS),
        }
    }
}

} // verus!
