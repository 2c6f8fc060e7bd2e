//! The backdrop, which shifts a little against the character's movement.

use vstd::prelude::*;
use crate::events::TransformEvent;
use crate::fixed::{lemma_trunc_div_bounds, scale, scaled, trunc_div, UNIT};
use crate::utils::Vec2;

verus! {

/// How much larger than the play area the backdrop is drawn.
pub const SCALE: i32 = 1050;

/// The backdrop's shift on one axis for a character at `coordinate`: half
/// of what the backdrop's surplus makes of the coordinate, against it.
pub open spec fn shift(coordinate: int) -> int {
    trunc_div(scaled(coordinate, UNIT - SCALE), 2)
}

/// The backdrop's shift is against the character and within a fortieth of
/// its coordinate.
pub proof fn lemma_shift_is_small(coordinate: int)
    ensures
        coordinate >= 0 ==> -coordinate <= shift(coordinate) <= 0,
        coordinate <= 0 ==> 0 <= shift(coordinate) <= -coordinate,
        -40 * shift(coordinate) <= coordinate || coordinate <= 0,
        coordinate <= -40 * shift(coordinate) || coordinate >= 0,
{
    let product = coordinate * (1000 - 1050);
    assert(product == -50 * coordinate);
    lemma_trunc_div_bounds(product, 1000);
    let part = scaled(coordinate, -50);
    lemma_trunc_div_bounds(part, 2);
}

/// Where the backdrop is drawn for the latest of the transforms, or
/// nothing where there is none.
pub fn move_background(events: &Vec<TransformEvent>) -> (translation: Option<Vec2>)
    ensures
        events@.len() == 0 ==> translation.is_none(),
        events@.len() > 0 ==> translation == Some(
            Vec2 {
                x: shift(events@.last().position.x as int) as i32,
                y: shift(events@.last().position.y as int) as i32,
            },
        ) && translation.unwrap().x == shift(events@.last().position.x as int)
            && translation.unwrap().y == shift(events@.last().position.y as int),
{
    let count = events.len();
    if count == 0 {
        return None;
    }
    let position = events[count - 1].position;
    proof {
        lemma_shift_is_small(position.x as int);
        lemma_shift_is_small(position.y as int);
    }
    let x: i64 = scale(position.x, UNIT - SCALE) / 2;
    let y: i64 = scale(position.y, UNIT - SCALE) / 2;
    Some(Vec2 { x: x as i32, y: y as i32 })
}

} // verus!
