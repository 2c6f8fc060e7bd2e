//! Bullets: the source that fires them under a cooldown, their flight in a
//! straight line, and their removal once they have left the play area.

use vstd::prelude::*;
use crate::consts::{beyond, is_beyond};
use crate::events::TransformEvent;
use crate::fixed::{magnitude, scale, scaled, UNIT};
use crate::timer::Timer;
use crate::utils::{
    advance, is_unit_direction, lemma_step_bound, lemma_up_is_unit_direction,
    lemma_within_unit_components, moved, unit_direction, BoundingRect, GetBoundingRect, Vec2,
};

verus! {

/// Speed of a bullet along its heading.
pub const BULLET_SPEED: i32 = 300_000;

/// Width of a bullet.
pub const BULLET_WIDTH: i32 = 5_000;

/// Length of a bullet.
pub const BULLET_HEIGHT: i32 = 20_000;

/// Time before the first shot is allowed.
pub const BULLET_INITIAL_DELAY: u32 = 100;

/// Time between two shots.
pub const BULLET_DELAY: u32 = 500;

/// How far from the origin a bullet may be, sideways, before it is removed:
/// half the play area's width and half its own.
pub const BULLET_REACH_X: i32 = 302_500;

/// How far from the origin a bullet may be, up or down, before it is
/// removed: half the play area's height and half its own length.
pub const BULLET_REACH_Y: i32 = 260_000;

/// A bullet in flight. A bullet that is hit or leaves the play area is
/// removed, not flagged.
#[derive(Clone, Copy, Debug, PartialEq, Eq, Structural)]
pub struct Bullet {
    pub position: Vec2,
    pub speed: Vec2,
}

impl Bullet {
    /// A bullet is no faster than `BULLET_SPEED` on either axis.
    pub open spec fn wf(self) -> bool {
        &&& -BULLET_SPEED <= self.speed.x <= BULLET_SPEED
        &&& -BULLET_SPEED <= self.speed.y <= BULLET_SPEED
    }

    /// Whether the bullet has left the play area by more than its margin.
    pub open spec fn gone(self) -> bool {
        beyond(self.position, BULLET_REACH_X as int, BULLET_REACH_Y as int)
    }

    /// The bullet after `dt` milliseconds of flight.
    pub open spec fn advanced(self, dt: u16) -> Bullet {
        Bullet { position: moved(self.position, self.speed, dt), speed: self.speed }
    }

    /// The bullet fired from `position` along `rotation`.
    pub open spec fn fired(position: Vec2, rotation: Vec2) -> Bullet {
        Bullet {
            position,
            speed: Vec2 {
                x: scaled(BULLET_SPEED as int, rotation.x as int) as i32,
                y: scaled(BULLET_SPEED as int, rotation.y as int) as i32,
            },
        }
    }

    /// A bullet at `position` with the given velocity, or nothing where the
    /// velocity is beyond a bullet's speed.
    pub fn new(position: Vec2, speed: Vec2) -> (bullet: Option<Bullet>)
        ensures
            bullet == if (Bullet { position, speed }).wf() {
                Some(Bullet { position, speed })
            } else {
                None
            },
    {
        if -BULLET_SPEED <= speed.x && speed.x <= BULLET_SPEED && -BULLET_SPEED <= speed.y
            && speed.y <= BULLET_SPEED {
            Some(Bullet { position, speed })
        } else {
            None
        }
    }

    /// Fires a bullet from `position` along `rotation`, at `BULLET_SPEED`.
    pub fn fire(position: Vec2, rotation: Vec2) -> (bullet: Bullet)
        requires
            unit_direction(rotation),
        ensures
            bullet == Bullet::fired(position, rotation),
            bullet.wf(),
            bullet.speed.x == scaled(BULLET_SPEED as int, rotation.x as int),
            bullet.speed.y == scaled(BULLET_SPEED as int, rotation.y as int),
            at_bullet_speed(bullet.speed),
    {
        proof {
            lemma_fired_at_speed(rotation);
        }
        let x: i64 = scale(BULLET_SPEED, rotation.x);
        let y: i64 = scale(BULLET_SPEED, rotation.y);
        Bullet { position, speed: Vec2 { x: x as i32, y: y as i32 } }
    }

    pub fn is_wf(&self) -> (ok: bool)
        ensures
            ok == self.wf(),
    {
        -BULLET_SPEED <= self.speed.x && self.speed.x <= BULLET_SPEED && -BULLET_SPEED
            <= self.speed.y && self.speed.y <= BULLET_SPEED
    }

    pub fn is_gone(&self) -> (gone: bool)
        ensures
            gone == self.gone(),
    {
        is_beyond(self.position, BULLET_REACH_X, BULLET_REACH_Y)
    }

    /// Moves the bullet along its velocity for `dt` milliseconds.
    pub fn advance(&mut self, dt: u16)
        requires
            old(self).wf(),
            !old(self).gone(),
        ensures
            *final(self) == old(self).advanced(dt),
            final(self).wf(),
            final(self).position.x == old(self).position.x + scaled(
                old(self).speed.x as int,
                dt as int,
            ),
            final(self).position.y == old(self).position.y + scaled(
                old(self).speed.y as int,
                dt as int,
            ),
    {
        proof {
            lemma_step_bound(self.speed.x as int, dt, BULLET_SPEED as int);
            lemma_step_bound(self.speed.y as int, dt, BULLET_SPEED as int);
        }
        self.position = advance(self.position, self.speed, dt);
    }
}

/// The least part of a bullet's speed that a heading can tell apart: what
/// one thousandth of a heading's length comes to.
pub const BULLET_SPEED_STEP: i32 = 300;

/// Whether a velocity is of the speed `BULLET_SPEED`, as nearly as the
/// rounding of a heading allows: no faster, and, lengthened by one step on
/// each axis, faster than that speed less one step.
pub open spec fn at_bullet_speed(speed: Vec2) -> bool {
    &&& speed.x * speed.x + speed.y * speed.y <= BULLET_SPEED * BULLET_SPEED
    &&& (magnitude(speed.x as int) + BULLET_SPEED_STEP) * (magnitude(speed.x as int)
        + BULLET_SPEED_STEP) + (magnitude(speed.y as int) + BULLET_SPEED_STEP) * (magnitude(
        speed.y as int,
    ) + BULLET_SPEED_STEP) > (BULLET_SPEED - BULLET_SPEED_STEP) * (BULLET_SPEED
        - BULLET_SPEED_STEP)
}

/// A bullet fired along a facing direction flies at the speed
/// `BULLET_SPEED`.
pub proof fn lemma_fired_at_speed(rotation: Vec2)
    requires
        unit_direction(rotation),
    ensures
        -UNIT <= rotation.x <= UNIT,
        -UNIT <= rotation.y <= UNIT,
        Bullet::fired(Vec2 { x: 0, y: 0 }, rotation).speed.x == 300 * rotation.x,
        Bullet::fired(Vec2 { x: 0, y: 0 }, rotation).speed.y == 300 * rotation.y,
        Bullet::fired(Vec2 { x: 0, y: 0 }, rotation).wf(),
        at_bullet_speed(Bullet::fired(Vec2 { x: 0, y: 0 }, rotation).speed),
{
    lemma_within_unit_components(rotation);
    lemma_fired_speed(rotation.x as int);
    lemma_fired_speed(rotation.y as int);
    let x = rotation.x as int;
    let y = rotation.y as int;
    let a = magnitude(x);
    let b = magnitude(y);
    assert((300 * x) * (300 * x) + (300 * y) * (300 * y) <= 300_000 * 300_000)
        by (nonlinear_arith)
        requires
            x * x + y * y <= 1_000_000,
    ;
    assert(magnitude(300 * x) == 300 * a && magnitude(300 * y) == 300 * b);
    assert((300 * a + 300) * (300 * a + 300) + (300 * b + 300) * (300 * b + 300) > (300_000
        - 300) * (300_000 - 300)) by (nonlinear_arith)
        requires
            (a + 1) * (a + 1) + (b + 1) * (b + 1) > (1000 - 1) * (1000 - 1),
    ;
}

/// One component of a fired bullet's velocity: the bullet's speed times the
/// matching component of the heading, which is `300` times that component.
pub proof fn lemma_fired_speed(component: int)
    requires
        -UNIT <= component <= UNIT,
    ensures
        scaled(BULLET_SPEED as int, component) == 300 * component,
        -BULLET_SPEED <= scaled(BULLET_SPEED as int, component) <= BULLET_SPEED,
{
    assert(300_000 * component == (300 * component) * 1000) by (nonlinear_arith);
    if component >= 0 {
        assert(((300 * component) * 1000) / 1000 == 300 * component) by (nonlinear_arith);
    } else {
        assert(-(300_000 * component) == (300 * (-component)) * 1000) by (nonlinear_arith);
        assert(((300 * (-component)) * 1000) / 1000 == 300 * (-component)) by (nonlinear_arith);
    }
}

impl GetBoundingRect for Bullet {
    /// The bullet's width and length around its position.
    open spec fn bounding_rect(&self) -> BoundingRect {
        BoundingRect {
            x: self.position.x,
            y: self.position.y,
            width: BULLET_WIDTH,
            height: BULLET_HEIGHT,
        }
    }

    fn get_bounding_rect(&self) -> (rect: BoundingRect) {
        BoundingRect {
            x: self.position.x,
            y: self.position.y,
            width: BULLET_WIDTH,
            height: BULLET_HEIGHT,
        }
    }
}

/// The emitter of bullets: a cooldown, and the character's place and facing
/// direction as last heard of.
#[derive(Clone, Copy, Debug, PartialEq, Eq, Structural)]
pub struct BulletSource {
    pub timer: Timer,
    pub position: Vec2,
    pub rotation: Vec2,
}

impl BulletSource {
    /// The facing direction is of length one.
    pub open spec fn wf(self) -> bool {
        unit_direction(self.rotation)
    }

    /// The source at the start of play: at the origin, facing up, with the
    /// short delay before the first shot.
    pub open spec fn initial() -> BulletSource {
        BulletSource {
            timer: Timer::started(BULLET_INITIAL_DELAY),
            position: Vec2 { x: 0, y: 0 },
            rotation: Vec2 { x: 0, y: UNIT },
        }
    }

    /// The source after it has heard of the given transforms, in order: the
    /// latest one counts.
    pub open spec fn informed(self, events: Seq<TransformEvent>) -> BulletSource {
        if events.len() == 0 {
            self
        } else {
            BulletSource {
                position: events.last().position,
                rotation: events.last().rotation,
                ..self
            }
        }
    }

    /// Whether a press of the trigger in a frame of `dt` milliseconds fires:
    /// the cooldown, ticked by the frame, must have run out.
    pub open spec fn fires(self, just_pressed: bool, dt: u16) -> bool {
        just_pressed && self.timer.ticked(dt as u32).finished
    }

    /// The bullet that the frame's trigger press fires, if it fires one.
    pub open spec fn shot(self, just_pressed: bool, dt: u16) -> Option<Bullet> {
        if self.fires(just_pressed, dt) {
            Some(Bullet::fired(self.position, self.rotation))
        } else {
            None
        }
    }

    /// The cooldown's span after a shot: the short delay before the first
    /// shot gives way to the delay between shots.
    pub open spec fn next_delay(span: u32) -> u32 {
        if span == BULLET_INITIAL_DELAY {
            BULLET_DELAY
        } else {
            span
        }
    }

    /// The source after the frame: its cooldown has ticked, and starts anew
    /// where a bullet was fired.
    pub open spec fn triggered(self, just_pressed: bool, dt: u16) -> BulletSource {
        if self.fires(just_pressed, dt) {
            BulletSource {
                timer: Timer::started(Self::next_delay(self.timer.duration)),
                ..self
            }
        } else {
            BulletSource { timer: self.timer.ticked(dt as u32), ..self }
        }
    }

    pub fn new() -> (source: BulletSource)
        ensures
            source == BulletSource::initial(),
            source.wf(),
    {
        proof {
            lemma_up_is_unit_direction();
        }
        BulletSource {
            timer: Timer::new(BULLET_INITIAL_DELAY),
            position: Vec2 { x: 0, y: 0 },
            rotation: Vec2 { x: 0, y: UNIT },
        }
    }

    pub fn is_wf(&self) -> (ok: bool)
        ensures
            ok == self.wf(),
    {
        is_unit_direction(self.rotation)
    }

    /// Whether a press of the trigger in a frame of `dt` milliseconds would
    /// fire.
    pub fn will_fire(&self, just_pressed: bool, dt: u16) -> (fires: bool)
        ensures
            fires == self.fires(just_pressed, dt),
    {
        let mut timer = self.timer;
        timer.tick(dt as u32);
        just_pressed && timer.finished()
    }

    /// Takes note of where the character is and faces.
    pub fn handle_transform(&mut self, events: &Vec<TransformEvent>)
        requires
            old(self).wf(),
            forall|i: int|
                0 <= i < events@.len() ==> unit_direction((#[trigger] events@[i]).rotation),
        ensures
            *final(self) == old(self).informed(events@),
            final(self).wf(),
    {
        let count = events.len();
        if count > 0 {
            let latest = events[count - 1];
            self.position = latest.position;
            self.rotation = latest.rotation;
        }
    }

    /// Ticks the cooldown and, where the trigger was pressed in this frame
    /// and the cooldown has run out, fires one bullet and restarts the
    /// cooldown.
    pub fn trigger(&mut self, just_pressed: bool, dt: u16) -> (shot: Option<Bullet>)
        requires
            old(self).wf(),
        ensures
            shot == old(self).shot(just_pressed, dt),
            *final(self) == old(self).triggered(just_pressed, dt),
            final(self).wf(),
            shot.is_some() ==> shot.unwrap().wf() && at_bullet_speed(shot.unwrap().speed),
    {
        self.timer.tick(dt as u32);
        if self.timer.finished() && just_pressed {
            let bullet = Bullet::fire(self.position, self.rotation);
            if self.timer.duration() == BULLET_INITIAL_DELAY {
                self.timer.set_duration(BULLET_DELAY);
            }
            self.timer.reset();
            Some(bullet)
        } else {
            None
        }
    }
}

impl Default for BulletSource {
    fn default() -> (source: BulletSource)
        ensures
            source == BulletSource::initial(),
    {
        BulletSource::new()
    }
}

/// The bullets that are still inside their reach.
pub open spec fn in_flight() -> spec_fn(Bullet) -> bool {
    |bullet: Bullet| !bullet.gone()
}

/// One frame of flight.
pub open spec fn flight(dt: u16) -> spec_fn(Bullet) -> Bullet {
    |bullet: Bullet| bullet.advanced(dt)
}

/// The bullets after a frame: each has moved on, and those that the move
/// has taken beyond their reach are removed. A bullet that was beyond its
/// reach already is removed where it is.
pub open spec fn flown(bullets: Seq<Bullet>, dt: u16) -> Seq<Bullet> {
    bullets.filter(in_flight()).map_values(flight(dt)).filter(in_flight())
}

/// Whether no bullet of the sequence is beyond its reach.
pub open spec fn all_in_flight(bullets: Seq<Bullet>) -> bool {
    forall|i: int| 0 <= i < bullets.len() ==> !(#[trigger] bullets[i]).gone()
}

/// Decides `all_wf`.
pub fn are_wf(bullets: &Vec<Bullet>) -> (ok: bool)
    ensures
        ok == all_wf(bullets@),
{
    let count = bullets.len();
    let mut index: usize = 0;
    while index < count
        invariant
            index <= count,
            count == bullets@.len(),
            forall|i: int| 0 <= i < index ==> (#[trigger] bullets@[i]).wf(),
        decreases count - index,
    {
        if !bullets[index].is_wf() {
            return false;
        }
        index = index + 1;
    }
    true
}

/// The bullets with the frame's shot, if there was one, added at the end.
pub open spec fn joined(bullets: Seq<Bullet>, shot: Option<Bullet>) -> Seq<Bullet> {
    match shot {
        Some(bullet) => bullets.push(bullet),
        None => bullets,
    }
}

/// Whether every bullet of the sequence is no faster than a bullet can be.
pub open spec fn all_wf(bullets: Seq<Bullet>) -> bool {
    forall|i: int| 0 <= i < bullets.len() ==> (#[trigger] bullets[i]).wf()
}

proof fn lemma_flown_push(bullets: Seq<Bullet>, bullet: Bullet, dt: u16)
    ensures
        flown(bullets.push(bullet), dt) == if bullet.gone() || bullet.advanced(dt).gone() {
            flown(bullets, dt)
        } else {
            flown(bullets, dt).push(bullet.advanced(dt))
        },
{
    reveal(Seq::filter);
    assert(bullets.push(bullet).drop_last() == bullets);
    let kept = bullets.filter(in_flight());
    if !bullet.gone() {
        let moved_on = kept.map_values(flight(dt));
        assert(kept.push(bullet).map_values(flight(dt)) == moved_on.push(bullet.advanced(dt)));
        assert(moved_on.push(bullet.advanced(dt)).drop_last() == moved_on);
    }
}

/// One frame of the bullet subsystem: fires on a trigger press once the
/// cooldown has run out, moves every bullet on, the fresh one included, and
/// removes each as soon as it is beyond its reach.
pub fn update_bullet(
    source: &mut BulletSource,
    bullets: &mut Vec<Bullet>,
    just_pressed: bool,
    dt: u16,
)
    requires
        old(source).wf(),
        all_wf(old(bullets)@),
    ensures
        *final(source) == old(source).triggered(just_pressed, dt),
        final(bullets)@ == flown(joined(old(bullets)@, old(source).shot(just_pressed, dt)), dt),
        final(source).wf(),
        all_wf(final(bullets)@),
        all_in_flight(final(bullets)@),
{
    let shot = source.trigger(just_pressed, dt);
    match shot {
        Some(bullet) => {
            bullets.push(bullet);
        },
        None => {},
    }
    let ghost all = bullets@;
    let mut kept: Vec<Bullet> = Vec::new();
    let count = bullets.len();
    let mut index: usize = 0;
    assert(all.take(0) == Seq::<Bullet>::empty());
    reveal(Seq::filter);
    while index < count
        invariant
            index <= count,
            count == all.len(),
            bullets@ == all,
            all_wf(all),
            all_wf(kept@),
            all_in_flight(kept@),
            kept@ == flown(all.take(index as int), dt),
        decreases count - index,
    {
        let mut bullet = bullets[index];
        proof {
            assert(all.take(index as int + 1) == all.take(index as int).push(all[index as int]));
            lemma_flown_push(all.take(index as int), all[index as int], dt);
        }
        if !bullet.is_gone() {
            bullet.advance(dt);
            if !bullet.is_gone() {
                kept.push(bullet);
            }
        }
        index = index + 1;
    }
    assert(all.take(count as int) == all);
    *bullets = kept;
}

/// The source after a run of frames, given as the trigger press and the
/// length of each frame.
pub open spec fn after_triggers(source: BulletSource, frames: Seq<(bool, u16)>) -> BulletSource
    decreases frames.len(),
{
    if frames.len() == 0 {
        source
    } else {
        after_triggers(source, frames.drop_last()).triggered(frames.last().0, frames.last().1)
    }
}

/// The time that a run of frames takes.
pub open spec fn total_time(frames: Seq<(bool, u16)>) -> int
    decreases frames.len(),
{
    if frames.len() == 0 {
        0
    } else {
        total_time(frames.drop_last()) + frames.last().1
    }
}

/// A frame fires exactly when the trigger is pressed in it and the cooldown
/// has no more time left than the frame brings.
pub proof fn lemma_fires_when_cooled(source: BulletSource, just_pressed: bool, dt: u16)
    ensures
        source.fires(just_pressed, dt) == (just_pressed && dt >= source.timer.remaining()),
        source.shot(just_pressed, dt).is_some() == source.fires(just_pressed, dt),
        !source.fires(just_pressed, dt) ==> source.triggered(
            just_pressed,
            dt,
        ).timer.remaining() >= source.timer.remaining() - dt,
{
}

/// A shot adds exactly one bullet, and a frame without a shot adds none.
pub proof fn lemma_one_bullet_per_shot(
    source: BulletSource,
    bullets: Seq<Bullet>,
    just_pressed: bool,
    dt: u16,
)
    ensures
        joined(bullets, source.shot(just_pressed, dt)).len() == bullets.len() + if source.fires(
            just_pressed,
            dt,
        ) {
            1int
        } else {
            0int
        },
{
}

/// A shot starts the cooldown anew: the next shot has to wait for the whole
/// delay between shots.
pub proof fn lemma_shot_restarts_cooldown(source: BulletSource, dt: u16)
    requires
        source.fires(true, dt),
        source.timer.duration == BULLET_INITIAL_DELAY || source.timer.duration == BULLET_DELAY,
    ensures
        source.triggered(true, dt).timer == Timer::started(BULLET_DELAY),
        source.triggered(true, dt).timer.remaining() == BULLET_DELAY,
{
}

/// While the frames of a run take less time together than the cooldown has
/// left, no frame of the run fires, whether the trigger is pressed or not.
pub proof fn lemma_no_shot_during_cooldown(
    source: BulletSource,
    frames: Seq<(bool, u16)>,
    k: int,
)
    requires
        total_time(frames) < source.timer.remaining(),
        0 <= k < frames.len(),
    ensures
        !after_triggers(source, frames.take(k)).fires(frames[k].0, frames[k].1),
        after_triggers(source, frames).timer.remaining() >= source.timer.remaining() - total_time(
            frames,
        ),
    decreases frames.len(),
{
    let earlier = frames.drop_last();
    lemma_total_time_grows(frames);
    if k < frames.len() - 1 {
        lemma_no_shot_during_cooldown(source, earlier, k);
        assert(earlier.take(k) == frames.take(k));
        assert(earlier[k] == frames[k]);
        lemma_fires_when_cooled(
            after_triggers(source, earlier),
            frames.last().0,
            frames.last().1,
        );
    } else {
        assert(frames.take(k) == earlier);
        lemma_cooldown_left(source, earlier);
        lemma_fires_when_cooled(
            after_triggers(source, earlier),
            frames.last().0,
            frames.last().1,
        );
    }
}

/// A run of frames takes no negative time, and no less than its earlier
/// part.
pub proof fn lemma_total_time_grows(frames: Seq<(bool, u16)>)
    ensures
        total_time(frames) >= 0,
        frames.len() > 0 ==> total_time(frames) >= total_time(frames.drop_last()),
    decreases frames.len(),
{
    if frames.len() > 0 {
        lemma_total_time_grows(frames.drop_last());
    }
}

/// While the frames of a run take less time together than the cooldown has
/// left, the cooldown has at least the difference left after the run.
pub proof fn lemma_cooldown_left(source: BulletSource, frames: Seq<(bool, u16)>)
    requires
        total_time(frames) < source.timer.remaining(),
    ensures
        after_triggers(source, frames).timer.remaining() >= source.timer.remaining() - total_time(
            frames,
        ),
    decreases frames.len(),
{
    if frames.len() > 0 {
        lemma_total_time_grows(frames);
        lemma_cooldown_left(source, frames.drop_last());
        lemma_fires_when_cooled(
            after_triggers(source, frames.drop_last()),
            frames.last().0,
            frames.last().1,
        );
    }
}

} // verus!
