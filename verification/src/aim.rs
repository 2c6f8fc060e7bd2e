//! The aim mark, which is drawn where the pointer is.

use vstd::prelude::*;
use crate::consts::{HALF_HEIGHT, HALF_WIDTH};
use crate::utils::Vec2;

verus! {

/// The value nearest to `value` that a coordinate can hold.
pub open spec fn stored(value: int) -> int {
    if value < i32::MIN {
        i32::MIN as int
    } else if value > i32::MAX {
        i32::MAX as int
    } else {
        value
    }
}

/// Where the aim mark is drawn for a pointer at `pointer`. The pointer's
/// coordinates start at a corner of the play area, the mark's at its
/// centre; a mark too far out to be stored is drawn as far out as can be.
pub fn follow_mouse(pointer: Vec2) -> (mark: Vec2)
    ensures
        mark.x == stored(pointer.x - HALF_WIDTH),
        mark.y == stored(pointer.y - HALF_HEIGHT),
{
    let x: i64 = pointer.x as i64 - HALF_WIDTH as i64;
    let y: i64 = pointer.y as i64 - HALF_HEIGHT as i64;
    Vec2 {
        x: if x < i32::MIN as i64 {
            i32::MIN
        } else {
            x as i32
        },
        y: if y < i32::MIN as i64 {
            i32::MIN
        } else {
            y as i32
        },
    }
}

} // verus!
