//! The play area.

use vstd::prelude::*;
use crate::utils::{Size, Vec2};

verus! {

/// Width of the play area, which is centred at the origin.
pub const WINDOW_WIDTH: i32 = 600_000;

/// Height of the play area.
pub const WINDOW_HEIGHT: i32 = 500_000;

/// Half the width of the play area.
pub const HALF_WIDTH: i32 = 300_000;

/// Half the height of the play area.
pub const HALF_HEIGHT: i32 = 250_000;

/// Size of the play area.
pub fn window_size() -> (size: Size)
    ensures
        size.width == WINDOW_WIDTH,
        size.height == WINDOW_HEIGHT,
{
    Size { width: WINDOW_WIDTH, height: WINDOW_HEIGHT }
}

/// Whether a point lies inside the play area, border included.
pub open spec fn in_play_area(point: Vec2) -> bool {
    &&& -HALF_WIDTH <= point.x <= HALF_WIDTH
    &&& -HALF_HEIGHT <= point.y <= HALF_HEIGHT
}

/// Whether a point lies strictly outside the rectangle that reaches
/// `reach_x` to either side of the origin and `reach_y` above and below it.
pub open spec fn beyond(point: Vec2, reach_x: int, reach_y: int) -> bool {
    ||| point.x > reach_x
    ||| point.x < -reach_x
    ||| point.y > reach_y
    ||| point.y < -reach_y
}

/// Decides `beyond`.
pub fn is_beyond(point: Vec2, reach_x: i32, reach_y: i32) -> (out: bool)
    ensures
        out == beyond(point, reach_x as int, reach_y as int),
{
    let x: i64 = point.x as i64;
    let y: i64 = point.y as i64;
    x > reach_x as i64 || x < -(reach_x as i64) || y > reach_y as i64 || y < -(reach_y as i64)
}

/// The depth at which each kind of sprite is drawn, back to front.
#[derive(Clone, Copy, Debug, PartialEq, Eq, Structural)]
pub struct PositionZ {
    pub background: i32,
    pub enemy: i32,
    pub bullet: i32,
    pub character: i32,
    pub explosion: i32,
    pub rain: i32,
    pub menu: i32,
    pub aim: i32,
    pub enemies_left: i32,
    pub character_lifes: i32,
    pub fps: i32,
    pub loader: i32,
}

/// The depths in use: one whole apart, the backdrop at the back. The two
/// counters share a depth.
pub fn position_z() -> (depths: PositionZ)
    ensures
        depths == (PositionZ {
            background: 0,
            enemy: 1000,
            bullet: 2000,
            character: 3000,
            explosion: 4000,
            rain: 5000,
            menu: 6000,
            aim: 7000,
            enemies_left: 8000,
            character_lifes: 8000,
            fps: 9000,
            loader: 10_000,
        }),
{
    PositionZ {
        background: 0,
        enemy: 1000,
        bullet: 2000,
        character: 3000,
        explosion: 4000,
        rain: 5000,
        menu: 6000,
        aim: 7000,
        enemies_left: 8000,
        character_lifes: 8000,
        fps: 9000,
        loader: 10_000,
    }
}

} // verus!
