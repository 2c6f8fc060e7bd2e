//! Rain: drops that fall across the play area and start anew from the top
//! once they have left it on the right or at the bottom.

use vstd::prelude::*;
use crate::consts::{HALF_HEIGHT, HALF_WIDTH};
use crate::fixed::{between, lemma_product_bound, lemma_trunc_div_bounds, scale, scaled};
use crate::utils::{interpolate, random_in_range, sample_in_range, Vec2};

verus! {

/// Speed of a drop to the right.
pub const SPEED_X: i32 = 10_000;

/// One end of the range of a drop's speed downward.
pub const MIN_SPEED_Y: i32 = 130_000;

/// The other end of the range of a drop's speed downward.
pub const MAX_SPEED_Y: i32 = 40_000;

/// Width of a drop.
pub const DROP_WIDTH: i32 = 2_000;

/// Length of a drop.
pub const DROP_HEIGHT: i32 = 8_000;

/// Number of drops.
pub const DROP_COUNT: u32 = 200;

/// Leftmost place where a drop starts.
pub const DROP_LEFT: i32 = -302_000;

/// Height at which a drop starts anew; as far below, it has left.
pub const DROP_TOP: i32 = 254_000;

/// How far right a drop may be before it has left.
pub const DROP_RIGHT: i32 = 301_000;

/// A drop of rain. `speed.x` is its speed to the right, `speed.y` its speed
/// downward.
#[derive(Clone, Copy, Debug, PartialEq, Eq, Structural)]
pub struct RainDrop {
    pub position: Vec2,
    pub speed: Vec2,
}

impl RainDrop {
    /// A drop falls to the right at `SPEED_X` and downward at a speed of
    /// the range between `MAX_SPEED_Y` and `MIN_SPEED_Y`.
    pub open spec fn wf(self) -> bool {
        &&& self.speed.x == SPEED_X
        &&& MAX_SPEED_Y <= self.speed.y <= MIN_SPEED_Y
    }

    /// Whether the drop has left the play area on the right or at the
    /// bottom.
    pub open spec fn fallen(self) -> bool {
        self.position.x > DROP_RIGHT || self.position.y < -DROP_TOP
    }

    /// Whether the drop is at a place where drops start anew: at the top,
    /// somewhere between the leftmost start and the right border.
    pub open spec fn at_restart(self) -> bool {
        &&& self.position.y == DROP_TOP
        &&& DROP_LEFT <= self.position.x <= HALF_WIDTH
    }

    /// Whether the drop is at a place where drops start at first: anywhere
    /// between the leftmost start and the right border, and between the
    /// bottom border and the top.
    pub open spec fn at_start(self) -> bool {
        &&& DROP_LEFT <= self.position.x <= HALF_WIDTH
        &&& -HALF_HEIGHT <= self.position.y <= DROP_TOP
    }

    /// The drop after `dt` milliseconds of falling.
    pub open spec fn fell(self, dt: u16) -> RainDrop {
        RainDrop {
            position: Vec2 {
                x: (self.position.x + scaled(self.speed.x as int, dt as int)) as i32,
                y: (self.position.y - scaled(self.speed.y as int, dt as int)) as i32,
            },
            speed: self.speed,
        }
    }

    /// The drop that the three raw samples select: the first its speed
    /// downward, the others its place.
    pub fn from_samples(fall: u32, x: u32, y: u32) -> (drop: RainDrop)
        ensures
            drop.wf(),
            drop.at_start(),
            drop.speed.x == SPEED_X,
            drop.speed.y == crate::utils::interpolate(
                MIN_SPEED_Y as int,
                MAX_SPEED_Y as int,
                fall as int,
            ),
            drop.position.x == crate::utils::interpolate(
                DROP_LEFT as int,
                HALF_WIDTH as int,
                x as int,
            ),
            drop.position.y == crate::utils::interpolate(
                -HALF_HEIGHT as int,
                DROP_TOP as int,
                y as int,
            ),
    {
        RainDrop {
            position: Vec2 {
                x: sample_in_range(DROP_LEFT, HALF_WIDTH, x),
                y: sample_in_range(-HALF_HEIGHT, DROP_TOP, y),
            },
            speed: Vec2 { x: SPEED_X, y: sample_in_range(MIN_SPEED_Y, MAX_SPEED_Y, fall) },
        }
    }

    /// A fresh drop at a random place, with a random speed downward.
    pub fn new() -> (drop: RainDrop)
        ensures
            drop.wf(),
            drop.at_start(),
    {
        let position = get_initial_position();
        let fall = random_in_range(MIN_SPEED_Y, MAX_SPEED_Y);
        RainDrop { position, speed: Vec2 { x: SPEED_X, y: fall } }
    }

    pub fn is_wf(&self) -> (ok: bool)
        ensures
            ok == self.wf(),
    {
        self.speed.x == SPEED_X && MAX_SPEED_Y <= self.speed.y && self.speed.y <= MIN_SPEED_Y
    }

    pub fn has_fallen(&self) -> (fallen: bool)
        ensures
            fallen == self.fallen(),
    {
        self.position.x > DROP_RIGHT || self.position.y < -DROP_TOP
    }

    /// Lets the drop fall for `dt` milliseconds.
    pub fn fall(&mut self, dt: u16)
        requires
            old(self).wf(),
            !old(self).fallen(),
        ensures
            *final(self) == old(self).fell(dt),
            final(self).wf(),
            final(self).position.x == old(self).position.x + scaled(
                old(self).speed.x as int,
                dt as int,
            ),
            final(self).position.y == old(self).position.y - scaled(
                old(self).speed.y as int,
                dt as int,
            ),
    {
        proof {
            lemma_fall_bound(self.speed.x as int, dt);
            lemma_fall_bound(self.speed.y as int, dt);
        }
        let x: i64 = self.position.x as i64 + scale(self.speed.x, dt as i32);
        let y: i64 = self.position.y as i64 - scale(self.speed.y, dt as i32);
        self.position = Vec2 { x: x as i32, y: y as i32 };
    }
}

/// How far a drop falls in one frame at most.
pub proof fn lemma_fall_bound(speed: int, dt: u16)
    requires
        0 <= speed <= MIN_SPEED_Y,
    ensures
        0 <= scaled(speed, dt as int) <= MIN_SPEED_Y * 66,
{
    lemma_product_bound(speed, dt as int, MIN_SPEED_Y as int, 65_535);
    assert(speed * dt >= 0) by (nonlinear_arith)
        requires
            speed >= 0,
            dt >= 0,
    ;
    lemma_trunc_div_bounds(speed * dt, 1000);
    let step = scaled(speed, dt as int);
    assert(step <= 130_000 * 66) by (nonlinear_arith)
        requires
            step * 1000 <= 130_000 * 65_535,
    ;
}

/// A random place for a drop to start at first: the place that some pair of
/// raw samples selects, which lies between the leftmost start and the right
/// border, and between the bottom border and the top.
pub fn get_initial_position() -> (position: Vec2)
    ensures
        DROP_LEFT <= position.x <= HALF_WIDTH,
        -HALF_HEIGHT <= position.y <= DROP_TOP,
        exists|x: u32, y: u32|
            (position.x as int, position.y as int) == start_place(x as int, y as int),
{
    let x = random_in_range(DROP_LEFT, HALF_WIDTH);
    let y = random_in_range(-HALF_HEIGHT, DROP_TOP);
    proof {
        lemma_start_place_exists(
            x as int,
            y as int,
            DROP_LEFT as int,
            HALF_WIDTH as int,
            -HALF_HEIGHT as int,
            DROP_TOP as int,
        );
    }
    Vec2 { x, y }
}

/// The place for a drop to start at first that two raw samples select: the
/// first how far right between the leftmost start and the right border, the
/// second how far up between the bottom border and the top.
pub open spec fn start_place(x: int, y: int) -> (int, int) {
    (
        interpolate(DROP_LEFT as int, HALF_WIDTH as int, x),
        interpolate(-HALF_HEIGHT as int, DROP_TOP as int, y),
    )
}

/// The place for a drop to start at first that the two samples select.
pub fn initial_position_from(x: u32, y: u32) -> (position: Vec2)
    ensures
        (position.x as int, position.y as int) == start_place(x as int, y as int),
        DROP_LEFT <= position.x <= HALF_WIDTH,
        -HALF_HEIGHT <= position.y <= DROP_TOP,
{
    Vec2 {
        x: sample_in_range(DROP_LEFT, HALF_WIDTH, x),
        y: sample_in_range(-HALF_HEIGHT, DROP_TOP, y),
    }
}

/// Two coordinates that each some raw sample selects make a place that some
/// pair of raw samples selects.
proof fn lemma_start_place_exists(
    right: int,
    up: int,
    left_end: int,
    right_end: int,
    bottom_end: int,
    top_end: int,
)
    requires
        left_end == DROP_LEFT,
        right_end == HALF_WIDTH,
        bottom_end == -HALF_HEIGHT,
        top_end == DROP_TOP,
        exists|sample: u32| right == #[trigger] interpolate(left_end, right_end, sample as int),
        exists|sample: u32| up == #[trigger] interpolate(bottom_end, top_end, sample as int),
    ensures
        exists|x: u32, y: u32| (right, up) == start_place(x as int, y as int),
{
    let x = choose|sample: u32|
        right == #[trigger] interpolate(left_end, right_end, sample as int);
    let y = choose|sample: u32| up == #[trigger] interpolate(bottom_end, top_end, sample as int);
    assert((right, up) == start_place(x as int, y as int));
}

/// A random place at the top for a drop to start anew.
pub fn get_restart_position() -> (position: Vec2)
    ensures
        DROP_LEFT <= position.x <= HALF_WIDTH,
        position.y == DROP_TOP,
{
    let x = random_in_range(DROP_LEFT, HALF_WIDTH);
    Vec2 { x, y: DROP_TOP }
}

/// Whether every drop of the sequence is well formed.
pub open spec fn all_wf(drops: Seq<RainDrop>) -> bool {
    forall|i: int| 0 <= i < drops.len() ==> (#[trigger] drops[i]).wf()
}

/// Decides `all_wf`.
pub fn are_wf(drops: &Vec<RainDrop>) -> (ok: bool)
    ensures
        ok == all_wf(drops@),
{
    let count = drops.len();
    let mut index: usize = 0;
    while index < count
        invariant
            index <= count,
            count == drops@.len(),
            forall|i: int| 0 <= i < index ==> (#[trigger] drops@[i]).wf(),
        decreases count - index,
    {
        if !drops[index].is_wf() {
            return false;
        }
        index = index + 1;
    }
    true
}

/// Whether `after` is what one frame makes of the drop `before`: a drop
/// that had left starts anew at the top with its speed kept; any other has
/// fallen on.
pub open spec fn rained(before: RainDrop, after: RainDrop, dt: u16) -> bool {
    if before.fallen() {
        after.at_restart() && after.speed == before.speed
    } else {
        after == before.fell(dt)
    }
}

/// The rain at the start of play: `count` drops at random places.
pub fn add_rain(count: u32) -> (drops: Vec<RainDrop>)
    ensures
        drops@.len() == count,
        all_wf(drops@),
        forall|i: int| 0 <= i < drops@.len() ==> (#[trigger] drops@[i]).at_start(),
{
    let mut drops: Vec<RainDrop> = Vec::new();
    let mut made: u32 = 0;
    while made < count
        invariant
            made <= count,
            drops@.len() == made,
            all_wf(drops@),
            forall|i: int| 0 <= i < drops@.len() ==> (#[trigger] drops@[i]).at_start(),
        decreases count - made,
    {
        drops.push(RainDrop::new());
        made = made + 1;
    }
    drops
}

/// One frame of rain. The number of drops stays.
pub fn update_rain(drops: &mut Vec<RainDrop>, dt: u16)
    requires
        all_wf(old(drops)@),
    ensures
        final(drops)@.len() == old(drops)@.len(),
        forall|i: int|
            0 <= i < old(drops)@.len() ==> rained(old(drops)@[i], #[trigger] final(drops)@[i], dt),
        all_wf(final(drops)@),
{
    let count = drops.len();
    let mut index: usize = 0;
    while index < count
        invariant
            index <= count,
            count == drops@.len(),
            count == old(drops)@.len(),
            all_wf(drops@),
            forall|i: int| 0 <= i < index ==> rained(old(drops)@[i], #[trigger] drops@[i], dt),
            forall|i: int| index <= i < count ==> drops@[i] == old(drops)@[i],
        decreases count - index,
    {
        let mut drop = drops[index];
        if drop.has_fallen() {
            drop.position = get_restart_position();
        } else {
            drop.fall(dt);
        }
        drops.set(index, drop);
        index = index + 1;
    }
}

} // verus!
