//! Enemies: a population of fixed size that wanders across the play area.
//! Each enemy starts on the outer edge, heads inward in a straight line, and
//! starts anew from the edge once it has left on the far side.

use vstd::prelude::*;
use crate::consts::{beyond, is_beyond, WINDOW_HEIGHT, WINDOW_WIDTH};
use crate::fixed::scaled;
use crate::utils::{
    advance, heading, heading_of, interpolate, lemma_step_bound, moved, on_rect_edge,
    random_in_range, random_in_rect_edge, sample_in_range, unit_direction, BoundingRect, Position,
    GetBoundingRect, Vec2,
};

verus! {

/// Least speed at which an enemy heads inward.
pub const MIN_SPEED: i32 = 100_000;

/// Greatest speed of an enemy on either axis.
pub const MAX_SPEED: i32 = 200_000;

/// Width of an enemy.
pub const ENEMY_WIDTH: i32 = 128_000;

/// Height of an enemy.
pub const ENEMY_HEIGHT: i32 = 128_000;

/// Distance of the outer edge's left and right sides from the origin: half
/// the play area's width and half an enemy's.
pub const ENEMY_EDGE_X: i32 = 364_000;

/// Distance of the outer edge's top and bottom sides from the origin: half
/// the play area's height and half an enemy's.
pub const ENEMY_EDGE_Y: i32 = 314_000;

/// Size of the population.
pub const ENEMY_COUNT: u32 = 5;

/// The corner of the outer edge at the top right.
pub fn enemy_edge_position() -> (corner: Position)
    ensures
        corner == (Position { x: ENEMY_EDGE_X, y: ENEMY_EDGE_Y }),
        2 * corner.x == WINDOW_WIDTH + ENEMY_WIDTH,
        2 * corner.y == WINDOW_HEIGHT + ENEMY_HEIGHT,
{
    Position { x: ENEMY_EDGE_X, y: ENEMY_EDGE_Y }
}

/// A wandering enemy.
#[derive(Clone, Copy, Debug, PartialEq, Eq, Structural)]
pub struct Enemy {
    pub position: Vec2,
    pub speed: Vec2,
}

/// Whether a point lies on the outer edge.
pub open spec fn on_outer_edge(position: Vec2) -> bool {
    on_rect_edge(
        position,
        -ENEMY_EDGE_X as int,
        ENEMY_EDGE_X as int,
        ENEMY_EDGE_Y as int,
        -ENEMY_EDGE_Y as int,
    )
}

/// Whether a speed component heads in the positive direction at no less than
/// `MIN_SPEED` and no more than `MAX_SPEED`.
pub open spec fn heads_up(component: int) -> bool {
    MIN_SPEED <= component <= MAX_SPEED
}

/// Whether a speed component heads in the negative direction at no less than
/// `MIN_SPEED` and no more than `MAX_SPEED`.
pub open spec fn heads_down(component: int) -> bool {
    -MAX_SPEED <= component <= -MIN_SPEED
}

/// Whether a speed component is free: anything up to `MAX_SPEED` either way.
pub open spec fn drifts(component: int) -> bool {
    -MAX_SPEED <= component <= MAX_SPEED
}

/// Whether a velocity carries an enemy inward from `position`: away from the
/// side it starts on (the left side first, then the right, the top, the
/// bottom), and freely along it.
pub open spec fn heads_inward(position: Vec2, speed: Vec2) -> bool {
    if position.x == -ENEMY_EDGE_X {
        heads_up(speed.x as int) && drifts(speed.y as int)
    } else if position.x == ENEMY_EDGE_X {
        heads_down(speed.x as int) && drifts(speed.y as int)
    } else if position.y == ENEMY_EDGE_Y {
        drifts(speed.x as int) && heads_down(speed.y as int)
    } else {
        drifts(speed.x as int) && heads_up(speed.y as int)
    }
}

/// The inward velocity that two raw samples select for a start at
/// `position`: `across` for the component away from the side, `along` for
/// the component along it.
pub open spec fn inward_speed(position: Vec2, across: int, along: int) -> (int, int) {
    if position.x == -ENEMY_EDGE_X {
        (
            interpolate(MIN_SPEED as int, MAX_SPEED as int, across),
            interpolate(-MAX_SPEED as int, MAX_SPEED as int, along),
        )
    } else if position.x == ENEMY_EDGE_X {
        (
            interpolate(-MAX_SPEED as int, -MIN_SPEED as int, across),
            interpolate(-MAX_SPEED as int, MAX_SPEED as int, along),
        )
    } else if position.y == ENEMY_EDGE_Y {
        (
            interpolate(-MAX_SPEED as int, MAX_SPEED as int, along),
            interpolate(-MAX_SPEED as int, -MIN_SPEED as int, across),
        )
    } else {
        (
            interpolate(-MAX_SPEED as int, MAX_SPEED as int, along),
            interpolate(MIN_SPEED as int, MAX_SPEED as int, across),
        )
    }
}

impl Enemy {
    /// An enemy is no faster than `MAX_SPEED` on either axis.
    pub open spec fn wf(self) -> bool {
        &&& drifts(self.speed.x as int)
        &&& drifts(self.speed.y as int)
    }

    /// Whether the enemy has left the outer edge behind.
    pub open spec fn out(self) -> bool {
        beyond(self.position, ENEMY_EDGE_X as int, ENEMY_EDGE_Y as int)
    }

    /// Whether the enemy is as one that has just started: on the outer edge,
    /// heading inward.
    pub open spec fn is_spawn(self) -> bool {
        &&& on_outer_edge(self.position)
        &&& heads_inward(self.position, self.speed)
    }

    /// The enemy after `dt` milliseconds of travel.
    pub open spec fn advanced(self, dt: u16) -> Enemy {
        Enemy { position: moved(self.position, self.speed, dt), speed: self.speed }
    }

    /// An enemy at `position` with the given velocity, or nothing where the
    /// velocity is beyond an enemy's speed.
    pub fn new(position: Vec2, speed: Vec2) -> (enemy: Option<Enemy>)
        ensures
            enemy == if (Enemy { position, speed }).wf() {
                Some(Enemy { position, speed })
            } else {
                None
            },
    {
        if -MAX_SPEED <= speed.x && speed.x <= MAX_SPEED && -MAX_SPEED <= speed.y && speed.y
            <= MAX_SPEED {
            Some(Enemy { position, speed })
        } else {
            None
        }
    }

    /// A fresh enemy at a random point of the outer edge, heading inward.
    pub fn spawn() -> (enemy: Enemy)
        ensures
            enemy.is_spawn(),
            enemy.wf(),
            !enemy.out(),
    {
        let position = get_position();
        let speed = get_speed(&position);
        Enemy { position, speed }
    }

    pub fn is_wf(&self) -> (ok: bool)
        ensures
            ok == self.wf(),
    {
        -MAX_SPEED <= self.speed.x && self.speed.x <= MAX_SPEED && -MAX_SPEED <= self.speed.y
            && self.speed.y <= MAX_SPEED
    }

    pub fn is_out(&self) -> (out: bool)
        ensures
            out == self.out(),
    {
        is_beyond(self.position, ENEMY_EDGE_X, ENEMY_EDGE_Y)
    }

    /// Moves the enemy along its velocity for `dt` milliseconds.
    pub fn advance(&mut self, dt: u16)
        requires
            old(self).wf(),
            !old(self).out(),
        ensures
            *final(self) == old(self).advanced(dt),
            final(self).wf(),
            final(self).position.x == old(self).position.x + scaled(
                old(self).speed.x as int,
                dt as int,
            ),
            final(self).position.y == old(self).position.y + scaled(
                old(self).speed.y as int,
                dt as int,
            ),
    {
        proof {
            lemma_step_bound(self.speed.x as int, dt, MAX_SPEED as int);
            lemma_step_bound(self.speed.y as int, dt, MAX_SPEED as int);
        }
        self.position = advance(self.position, self.speed, dt);
    }

    /// The direction the enemy faces: that of its velocity.
    pub fn get_rotation(&self) -> (rotation: Vec2)
        ensures
            rotation == heading_of(self.speed.x as int, self.speed.y as int),
            unit_direction(rotation),
    {
        heading(self.speed.x as i64, self.speed.y as i64)
    }
}

impl Default for Enemy {
    fn default() -> (enemy: Enemy)
        ensures
            enemy == (Enemy { position: Vec2 { x: 0, y: 0 }, speed: Vec2 { x: 0, y: 0 } }),
    {
        Enemy { position: Vec2 { x: 0, y: 0 }, speed: Vec2 { x: 0, y: 0 } }
    }
}

impl GetBoundingRect for Enemy {
    open spec fn bounding_rect(&self) -> BoundingRect {
        BoundingRect {
            x: self.position.x,
            y: self.position.y,
            width: ENEMY_WIDTH,
            height: ENEMY_HEIGHT,
        }
    }

    fn get_bounding_rect(&self) -> (rect: BoundingRect) {
        BoundingRect {
            x: self.position.x,
            y: self.position.y,
            width: ENEMY_WIDTH,
            height: ENEMY_HEIGHT,
        }
    }
}

/// A random point of the outer edge.
pub fn get_position() -> (position: Vec2)
    ensures
        on_outer_edge(position),
{
    random_in_rect_edge(-ENEMY_EDGE_X, ENEMY_EDGE_X, ENEMY_EDGE_Y, -ENEMY_EDGE_Y)
}

/// The inward velocity that the two samples select for a start at
/// `position`.
pub fn speed_from(position: &Vec2, across: u32, along: u32) -> (speed: Vec2)
    ensures
        (speed.x as int, speed.y as int) == inward_speed(*position, across as int, along as int),
        heads_inward(*position, speed),
{
    if position.x == -ENEMY_EDGE_X {
        Vec2 {
            x: sample_in_range(MIN_SPEED, MAX_SPEED, across),
            y: sample_in_range(-MAX_SPEED, MAX_SPEED, along),
        }
    } else if position.x == ENEMY_EDGE_X {
        Vec2 {
            x: sample_in_range(-MAX_SPEED, -MIN_SPEED, across),
            y: sample_in_range(-MAX_SPEED, MAX_SPEED, along),
        }
    } else if position.y == ENEMY_EDGE_Y {
        Vec2 {
            x: sample_in_range(-MAX_SPEED, MAX_SPEED, along),
            y: sample_in_range(-MAX_SPEED, -MIN_SPEED, across),
        }
    } else {
        Vec2 {
            x: sample_in_range(-MAX_SPEED, MAX_SPEED, along),
            y: sample_in_range(MIN_SPEED, MAX_SPEED, across),
        }
    }
}

/// A random inward velocity for a start at `position`.
pub fn get_speed(position: &Vec2) -> (speed: Vec2)
    ensures
        heads_inward(*position, speed),
        exists|across: u32, along: u32|
            (speed.x as int, speed.y as int) == inward_speed(
                *position,
                across as int,
                along as int,
            ),
{
    if position.x == -ENEMY_EDGE_X {
        let x = random_in_range(MIN_SPEED, MAX_SPEED);
        let y = random_in_range(-MAX_SPEED, MAX_SPEED);
        proof {
            lemma_samples_exist(
                *position,
                x as int,
                y as int,
                MIN_SPEED as int,
                MAX_SPEED as int,
                -MAX_SPEED as int,
                MAX_SPEED as int,
            );
        }
        Vec2 { x, y }
    } else if position.x == ENEMY_EDGE_X {
        let x = random_in_range(-MAX_SPEED, -MIN_SPEED);
        let y = random_in_range(-MAX_SPEED, MAX_SPEED);
        proof {
            lemma_samples_exist(
                *position,
                x as int,
                y as int,
                -MAX_SPEED as int,
                -MIN_SPEED as int,
                -MAX_SPEED as int,
                MAX_SPEED as int,
            );
        }
        Vec2 { x, y }
    } else if position.y == ENEMY_EDGE_Y {
        let x = random_in_range(-MAX_SPEED, MAX_SPEED);
        let y = random_in_range(-MAX_SPEED, -MIN_SPEED);
        proof {
            lemma_samples_exist(
                *position,
                y as int,
                x as int,
                -MAX_SPEED as int,
                -MIN_SPEED as int,
                -MAX_SPEED as int,
                MAX_SPEED as int,
            );
        }
        Vec2 { x, y }
    } else {
        let x = random_in_range(-MAX_SPEED, MAX_SPEED);
        let y = random_in_range(MIN_SPEED, MAX_SPEED);
        proof {
            lemma_samples_exist(
                *position,
                y as int,
                x as int,
                MIN_SPEED as int,
                MAX_SPEED as int,
                -MAX_SPEED as int,
                MAX_SPEED as int,
            );
        }
        Vec2 { x, y }
    }
}

/// The range of the component away from the side that `position` is on.
pub open spec fn across_range(position: Vec2) -> (int, int) {
    if position.x == -ENEMY_EDGE_X {
        (MIN_SPEED as int, MAX_SPEED as int)
    } else if position.x == ENEMY_EDGE_X {
        (-MAX_SPEED as int, -MIN_SPEED as int)
    } else if position.y == ENEMY_EDGE_Y {
        (-MAX_SPEED as int, -MIN_SPEED as int)
    } else {
        (MIN_SPEED as int, MAX_SPEED as int)
    }
}

/// Two components that each some raw sample selects make a velocity that
/// some pair of raw samples selects.
proof fn lemma_samples_exist(
    position: Vec2,
    across_value: int,
    along_value: int,
    low: int,
    high: int,
    drift_low: int,
    drift_high: int,
)
    requires
        (low, high) == across_range(position),
        drift_low == -MAX_SPEED,
        drift_high == MAX_SPEED,
        exists|sample: u32| across_value == #[trigger] interpolate(low, high, sample as int),
        exists|sample: u32|
            along_value == #[trigger] interpolate(drift_low, drift_high, sample as int),
    ensures
        exists|across: u32, along: u32|
            (if position.x == -ENEMY_EDGE_X || position.x == ENEMY_EDGE_X {
                (across_value, along_value)
            } else {
                (along_value, across_value)
            }) == inward_speed(position, across as int, along as int),
{
    let across = choose|sample: u32|
        across_value == #[trigger] interpolate(low, high, sample as int);
    let along = choose|sample: u32|
        along_value == #[trigger] interpolate(drift_low, drift_high, sample as int);
    assert((if position.x == -ENEMY_EDGE_X || position.x == ENEMY_EDGE_X {
        (across_value, along_value)
    } else {
        (along_value, across_value)
    }) == inward_speed(position, across as int, along as int));
}

/// An inward velocity is within an enemy's speed, and a point of the outer
/// edge is not beyond it.
pub proof fn lemma_spawn_is_wf(enemy: Enemy)
    requires
        enemy.is_spawn(),
    ensures
        enemy.wf(),
        !enemy.out(),
{
}

/// Whether every enemy of the sequence is no faster than an enemy can be.
pub open spec fn all_wf(enemies: Seq<Enemy>) -> bool {
    forall|i: int| 0 <= i < enemies.len() ==> (#[trigger] enemies[i]).wf()
}

/// Decides `all_wf`.
pub fn are_wf(enemies: &Vec<Enemy>) -> (ok: bool)
    ensures
        ok == all_wf(enemies@),
{
    let count = enemies.len();
    let mut index: usize = 0;
    while index < count
        invariant
            index <= count,
            count == enemies@.len(),
            forall|i: int| 0 <= i < index ==> (#[trigger] enemies@[i]).wf(),
        decreases count - index,
    {
        if !enemies[index].is_wf() {
            return false;
        }
        index = index + 1;
    }
    true
}

/// Whether every enemy of the sequence is on the outer edge, heading inward.
pub open spec fn all_spawned(enemies: Seq<Enemy>) -> bool {
    forall|i: int| 0 <= i < enemies.len() ==> (#[trigger] enemies[i]).is_spawn()
}

/// Whether `after` is what one frame makes of `before`: an enemy that had
/// left the outer edge behind starts anew from the edge, heading inward;
/// any other has moved on.
pub open spec fn wandered(before: Enemy, after: Enemy, dt: u16) -> bool {
    if before.out() {
        after.is_spawn()
    } else {
        after == before.advanced(dt)
    }
}

/// The population at the start of play: `count` enemies, each at a random
/// point of the outer edge, heading inward.
pub fn add_enemies(count: u32) -> (enemies: Vec<Enemy>)
    ensures
        enemies@.len() == count,
        all_spawned(enemies@),
        all_wf(enemies@),
{
    let mut enemies: Vec<Enemy> = Vec::new();
    let mut made: u32 = 0;
    while made < count
        invariant
            made <= count,
            enemies@.len() == made,
            all_spawned(enemies@),
            all_wf(enemies@),
        decreases count - made,
    {
        enemies.push(Enemy::spawn());
        made = made + 1;
    }
    enemies
}

/// One frame of the enemy subsystem. The population keeps its size: an
/// enemy that has left the outer edge behind is overwritten in place.
pub fn update_enemies(enemies: &mut Vec<Enemy>, dt: u16)
    requires
        all_wf(old(enemies)@),
    ensures
        final(enemies)@.len() == old(enemies)@.len(),
        forall|i: int|
            0 <= i < old(enemies)@.len() ==> wandered(
                old(enemies)@[i],
                #[trigger] final(enemies)@[i],
                dt,
            ),
        all_wf(final(enemies)@),
{
    let count = enemies.len();
    let mut index: usize = 0;
    while index < count
        invariant
            index <= count,
            count == enemies@.len(),
            count == old(enemies)@.len(),
            all_wf(enemies@),
            forall|i: int|
                0 <= i < index ==> wandered(old(enemies)@[i], #[trigger] enemies@[i], dt),
            forall|i: int| index <= i < count ==> enemies@[i] == old(enemies)@[i],
        decreases count - index,
    {
        let mut enemy = enemies[index];
        if enemy.is_out() {
            enemy = Enemy::spawn();
        } else {
            enemy.advance(dt);
        }
        enemies.set(index, enemy);
        index = index + 1;
    }
}

/// The count of enemies left, shown to the player. It only ever goes down.
#[derive(Clone, Copy, Debug, PartialEq, Eq, Structural)]
pub struct EnemyCount {
    pub count: u32,
}

impl EnemyCount {
    /// The count after one more enemy is gone; it stops at zero.
    pub open spec fn removed(self) -> EnemyCount {
        EnemyCount {
            count: if self.count > 0 {
                (self.count - 1) as u32
            } else {
                0
            },
        }
    }

    pub fn new(count: u32) -> (enemy_count: EnemyCount)
        ensures
            enemy_count.count == count,
    {
        EnemyCount { count }
    }

    /// Counts one enemy off.
    pub fn remove(&mut self)
        ensures
            *final(self) == old(self).removed(),
            final(self).count <= old(self).count,
    {
        if self.count > 0 {
            self.count = self.count - 1;
        }
    }
}

} // verus!
