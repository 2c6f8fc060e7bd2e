//! The character: steering by the keyboard with friction and clamping to the
//! play area, aiming by the pointer, and the spell of invulnerability after
//! a hit.

use vstd::prelude::*;
use crate::consts::{in_play_area, HALF_HEIGHT, HALF_WIDTH};
use crate::events::TransformEvent;
use crate::fixed::{
    clamp, clamped, lemma_scaled_shrinks, lemma_trunc_div_bounds, magnitude, scale, scaled, UNIT,
};
use crate::timer::Timer;
use crate::utils::{
    heading, heading_of, is_unit_direction, lemma_up_is_unit_direction, unit_direction,
    BoundingRect, GetBoundingRect, IsActive, SetSpeed, Vec2,
};

verus! {

/// Width of the character.
pub const CHARACTER_WIDTH: i32 = 128_000;

/// Height of the character.
pub const CHARACTER_HEIGHT: i32 = 128_000;

/// Speed that a held key gives the character.
pub const MAX_SPEED: i32 = 150_000;

/// Share of its velocity that the character keeps from one frame to the
/// next.
pub const FRICTION: i32 = 960;

/// Length of the spell of invulnerability after a hit.
pub const INACTIVE_DURATION: u32 = 3000;

/// Lives at the start of play.
pub const CHARACTER_LIFES: u32 = 3;

/// Whether the character takes part in collisions.
#[derive(Clone, Copy, Debug, PartialEq, Eq, Structural)]
pub struct CharacterActive(pub bool);

impl IsActive for CharacterActive {
    open spec fn is_active(&self) -> bool {
        self.0
    }

    fn get_active(&self) -> (active: bool) {
        self.0
    }

    fn set_active(&mut self, active: bool) {
        self.0 = active;
    }
}

/// The lives the character has left. The count only ever goes down.
#[derive(Clone, Copy, Debug, PartialEq, Eq, Structural)]
pub struct CharacterLifes {
    pub lifes: u32,
}

impl CharacterLifes {
    /// The count after one life is lost; it stops at zero.
    pub open spec fn decreased(self) -> CharacterLifes {
        CharacterLifes {
            lifes: if self.lifes > 0 {
                (self.lifes - 1) as u32
            } else {
                0
            },
        }
    }

    pub fn new(lifes: u32) -> (character_lifes: CharacterLifes)
        ensures
            character_lifes.lifes == lifes,
    {
        CharacterLifes { lifes }
    }

    /// Takes one life off.
    pub fn decrease(&mut self)
        ensures
            *final(self) == old(self).decreased(),
            final(self).lifes <= old(self).lifes,
    {
        if self.lifes > 0 {
            self.lifes = self.lifes - 1;
        }
    }
}

/// The directional keys that are held down in a frame.
#[derive(Clone, Copy, Debug, PartialEq, Eq, Structural)]
pub struct Keys {
    pub up: bool,
    pub down: bool,
    pub left: bool,
    pub right: bool,
}

impl Keys {
    /// Whether no key is held.
    pub open spec fn idle(self) -> bool {
        !self.up && !self.down && !self.left && !self.right
    }

    pub fn released() -> (keys: Keys)
        ensures
            keys.idle(),
    {
        Keys { up: false, down: false, left: false, right: false }
    }
}

/// The character.
#[derive(Clone, Copy, Debug, PartialEq, Eq, Structural)]
pub struct Character {
    /// Where the character is.
    pub position: Vec2,
    /// How far the character moves per frame.
    pub speed: Vec2,
    /// The pointer as last seen, in the window's coordinates, whose origin
    /// is a corner of the play area.
    pub mouse: Vec2,
    /// The direction the character faces.
    pub rotation: Vec2,
    /// Cleared while the character is invulnerable after a hit.
    pub active: CharacterActive,
    /// Counts the spell of invulnerability down.
    pub inactive_timer: Timer,
    /// The lives left.
    pub lifes: CharacterLifes,
}

/// The distance that a held key moves the character in a frame of `dt`
/// milliseconds.
pub open spec fn pace(dt: u16) -> int {
    scaled(MAX_SPEED as int, dt as int)
}

/// A held key moves the character by `150` thousandths per millisecond.
pub proof fn lemma_pace(dt: u16)
    ensures
        pace(dt) == 150 * dt,
        0 <= pace(dt) <= 150 * 65_535,
{
    assert(150_000 * dt == (150 * dt) * 1000) by (nonlinear_arith);
    assert(((150 * dt) * 1000) / 1000 == 150 * dt) by (nonlinear_arith);
}

/// The velocity on one axis once the keys of that axis have had their say:
/// the key toward the negative end wins over the one toward the positive
/// end, and with neither held the velocity stays.
pub open spec fn steered_axis(speed: int, positive: bool, negative: bool, dt: u16) -> int {
    if negative {
        -pace(dt)
    } else if positive {
        pace(dt)
    } else {
        speed
    }
}

impl Character {
    /// The character is inside the play area and faces a proper direction.
    pub open spec fn wf(self) -> bool {
        &&& in_play_area(self.position)
        &&& unit_direction(self.rotation)
    }

    /// The character at the start of play: at rest at the origin, aiming at
    /// the centre of the window, facing up, vulnerable, with all its lives.
    pub open spec fn initial() -> Character {
        Character {
            position: Vec2 { x: 0, y: 0 },
            speed: Vec2 { x: 0, y: 0 },
            mouse: Vec2 { x: HALF_WIDTH, y: HALF_HEIGHT },
            rotation: Vec2 { x: 0, y: UNIT },
            active: CharacterActive(true),
            inactive_timer: Timer::started(INACTIVE_DURATION),
            lifes: CharacterLifes { lifes: CHARACTER_LIFES },
        }
    }

    /// The character with the pointer seen at `(x, y)`.
    pub open spec fn aimed(self, x: i32, y: i32) -> Character {
        Character { mouse: Vec2 { x, y }, ..self }
    }

    /// The velocity once the held keys have had their say.
    pub open spec fn steered(self, keys: Keys, dt: u16) -> Vec2 {
        Vec2 {
            x: steered_axis(self.speed.x as int, keys.right, keys.left, dt) as i32,
            y: steered_axis(self.speed.y as int, keys.up, keys.down, dt) as i32,
        }
    }

    /// The character after a frame of steering: the held keys set the
    /// velocity, the velocity moves the character, the play area holds it
    /// back at its border, and friction takes its share of the velocity.
    pub open spec fn after_keyboard(self, keys: Keys, dt: u16) -> Character {
        let speed = self.steered(keys, dt);
        Character {
            position: Vec2 {
                x: clamped(self.position.x + speed.x, HALF_WIDTH as int) as i32,
                y: clamped(self.position.y + speed.y, HALF_HEIGHT as int) as i32,
            },
            speed: Vec2 {
                x: scaled(speed.x as int, FRICTION as int) as i32,
                y: scaled(speed.y as int, FRICTION as int) as i32,
            },
            ..self
        }
    }

    /// The direction from the character to the pointer. The pointer's
    /// coordinates start at a corner of the play area, the character's at
    /// its centre.
    pub open spec fn facing(self) -> Vec2 {
        heading_of(
            self.mouse.x - self.position.x - HALF_WIDTH,
            self.mouse.y - self.position.y - HALF_HEIGHT,
        )
    }

    /// The character turned toward the pointer.
    pub open spec fn oriented(self) -> Character {
        Character { rotation: self.facing(), ..self }
    }

    /// The transform that the character publishes.
    pub open spec fn transform(self) -> TransformEvent {
        TransformEvent { position: self.position, rotation: self.rotation }
    }

    /// The character after `dt` milliseconds of its spell of
    /// invulnerability, if it is under one: the countdown ticks, and the
    /// character is vulnerable again as the countdown runs out.
    pub open spec fn recovered(self, dt: u16) -> Character {
        if self.active.0 {
            self
        } else {
            let timer = self.inactive_timer.ticked(dt as u32);
            Character {
                inactive_timer: timer,
                active: CharacterActive(timer.just_finished),
                ..self
            }
        }
    }

    /// The character switched on or off. Switching it off starts the spell
    /// of invulnerability at its full length.
    pub open spec fn switched(self, active: bool) -> Character {
        Character {
            active: CharacterActive(active),
            inactive_timer: if active {
                self.inactive_timer
            } else {
                self.inactive_timer.rewound()
            },
            ..self
        }
    }

    pub fn is_wf(&self) -> (ok: bool)
        ensures
            ok == self.wf(),
    {
        -HALF_WIDTH <= self.position.x && self.position.x <= HALF_WIDTH && -HALF_HEIGHT
            <= self.position.y && self.position.y <= HALF_HEIGHT && is_unit_direction(
            self.rotation,
        )
    }

    pub fn new() -> (character: Character)
        ensures
            character == Character::initial(),
            character.wf(),
    {
        proof {
            lemma_up_is_unit_direction();
        }
        Character {
            position: Vec2 { x: 0, y: 0 },
            speed: Vec2 { x: 0, y: 0 },
            mouse: Vec2 { x: HALF_WIDTH, y: HALF_HEIGHT },
            rotation: Vec2 { x: 0, y: UNIT },
            active: CharacterActive(true),
            inactive_timer: Timer::new(INACTIVE_DURATION),
            lifes: CharacterLifes::new(CHARACTER_LIFES),
        }
    }

    /// Stores the pointer's raw coordinates as the aim target.
    pub fn follow_mouse(&mut self, x: i32, y: i32)
        ensures
            *final(self) == old(self).aimed(x, y),
    {
        self.mouse = Vec2 { x, y };
    }

    /// One frame of steering.
    pub fn follow_keyboard(&mut self, keys: Keys, dt: u16)
        ensures
            *final(self) == old(self).after_keyboard(keys, dt),
            in_play_area(final(self).position),
            keys.idle() ==> magnitude(final(self).speed.x as int) <= magnitude(
                old(self).speed.x as int,
            ) && magnitude(final(self).speed.y as int) <= magnitude(old(self).speed.y as int),
    {
        proof {
            lemma_pace(dt);
        }
        let step: i32 = scale(MAX_SPEED, dt as i32) as i32;
        let mut speed = self.speed;
        if keys.up {
            speed.y = step;
        }
        if keys.down {
            speed.y = -step;
        }
        if keys.right {
            speed.x = step;
        }
        if keys.left {
            speed.x = -step;
        }
        assert(speed == old(self).steered(keys, dt));
        proof {
            lemma_scaled_shrinks(speed.x as int, FRICTION as int);
            lemma_scaled_shrinks(speed.y as int, FRICTION as int);
        }
        self.position = Vec2 {
            x: clamp(self.position.x as i64 + speed.x as i64, HALF_WIDTH),
            y: clamp(self.position.y as i64 + speed.y as i64, HALF_HEIGHT),
        };
        self.speed = Vec2 {
            x: scale(speed.x, FRICTION) as i32,
            y: scale(speed.y, FRICTION) as i32,
        };
    }

    /// Turns the character toward the pointer.
    pub fn orient(&mut self)
        ensures
            *final(self) == old(self).oriented(),
            unit_direction(final(self).rotation),
    {
        let dx: i64 = self.mouse.x as i64 - self.position.x as i64 - HALF_WIDTH as i64;
        let dy: i64 = self.mouse.y as i64 - self.position.y as i64 - HALF_HEIGHT as i64;
        self.rotation = heading(dx, dy);
    }

    /// Turns the character toward the pointer and, where its position or
    /// its facing direction is no longer what `published` says, hands back
    /// the transform to publish.
    pub fn transform_changed(&mut self, published: TransformEvent) -> (event: Option<
        TransformEvent,
    >)
        ensures
            *final(self) == old(self).oriented(),
            unit_direction(final(self).rotation),
            event == if old(self).oriented().transform() == published {
                None
            } else {
                Some(old(self).oriented().transform())
            },
    {
        self.orient();
        let current = TransformEvent { position: self.position, rotation: self.rotation };
        if current.position.x == published.position.x && current.position.y
            == published.position.y && current.rotation.x == published.rotation.x
            && current.rotation.y == published.rotation.y {
            None
        } else {
            Some(current)
        }
    }

    /// Starts the spell of invulnerability anew if the character has been
    /// switched off.
    pub fn active_changed(&mut self)
        ensures
            *final(self) == old(self).switched(old(self).active.0),
    {
        if !self.active.get_active() {
            self.inactive_timer.reset();
        }
    }

    /// One frame of the spell of invulnerability.
    pub fn inactive_timer_changed(&mut self, dt: u16)
        ensures
            *final(self) == old(self).recovered(dt),
    {
        if !self.active.get_active() {
            self.inactive_timer.tick(dt as u32);
            if self.inactive_timer.just_finished() {
                self.active.set_active(true);
            }
        }
    }
}

impl Default for Character {
    fn default() -> (character: Character)
        ensures
            character == Character::initial(),
    {
        Character::new()
    }
}

impl GetBoundingRect for Character {
    open spec fn bounding_rect(&self) -> BoundingRect {
        BoundingRect {
            x: self.position.x,
            y: self.position.y,
            width: CHARACTER_WIDTH,
            height: CHARACTER_HEIGHT,
        }
    }

    fn get_bounding_rect(&self) -> (rect: BoundingRect) {
        BoundingRect {
            x: self.position.x,
            y: self.position.y,
            width: CHARACTER_WIDTH,
            height: CHARACTER_HEIGHT,
        }
    }
}

impl SetSpeed for Character {
    open spec fn current_speed(&self) -> Vec2 {
        self.speed
    }

    fn set_speed(&mut self, speed: Vec2)
        ensures
            *final(self) == (Character { speed, ..*old(self) }),
    {
        self.speed = speed;
    }
}

impl IsActive for Character {
    open spec fn is_active(&self) -> bool {
        self.active.0
    }

    fn get_active(&self) -> (active: bool) {
        self.active.get_active()
    }

    fn set_active(&mut self, active: bool)
        ensures
            *final(self) == old(self).switched(active),
    {
        self.active.set_active(active);
        self.active_changed();
    }
}

/// The character after a run of frames of steering, given as the keys held
/// and the length of each frame.
pub open spec fn after_frames(character: Character, frames: Seq<(Keys, u16)>) -> Character
    decreases frames.len(),
{
    if frames.len() == 0 {
        character
    } else {
        after_frames(character, frames.drop_last()).after_keyboard(
            frames.last().0,
            frames.last().1,
        )
    }
}

/// A frame of steering leaves the character inside the play area, wherever
/// it was and whatever the keys and its velocity.
pub proof fn lemma_keyboard_keeps_in_play_area(character: Character, keys: Keys, dt: u16)
    ensures
        in_play_area(character.after_keyboard(keys, dt).position),
{
}

/// A character inside the play area is still inside it after any run of
/// frames of steering.
pub proof fn lemma_stays_in_play_area(character: Character, frames: Seq<(Keys, u16)>)
    requires
        in_play_area(character.position),
    ensures
        in_play_area(after_frames(character, frames).position),
    decreases frames.len(),
{
    if frames.len() > 0 {
        lemma_keyboard_keeps_in_play_area(
            after_frames(character, frames.drop_last()),
            frames.last().0,
            frames.last().1,
        );
    }
}

/// Friction takes a share of a velocity component and never turns it
/// round: the component shrinks toward zero, and strictly so unless it is
/// zero already.
pub proof fn lemma_friction_shrinks(component: int)
    ensures
        magnitude(scaled(component, FRICTION as int)) <= magnitude(component),
        component != 0 ==> magnitude(scaled(component, FRICTION as int)) < magnitude(component),
        component >= 0 ==> scaled(component, FRICTION as int) >= 0,
        component <= 0 ==> scaled(component, FRICTION as int) <= 0,
{
    lemma_scaled_shrinks(component, FRICTION as int);
    let size = magnitude(component);
    if component != 0 {
        assert(magnitude(component * 960) == size * 960) by (nonlinear_arith)
            requires
                size == magnitude(component),
                magnitude(component) == if component >= 0 {
                    component
                } else {
                    -component
                },
                magnitude(component * 960) == if component * 960 >= 0 {
                    component * 960
                } else {
                    -(component * 960)
                },
        ;
        lemma_trunc_div_bounds(component * 960, 1000);
        let kept = magnitude(scaled(component, 960));
        assert(kept < size) by (nonlinear_arith)
            requires
                kept * 1000 <= size * 960,
                size >= 1,
        ;
    }
}

/// With no key held, the velocity decays: after a frame of steering neither
/// component is larger than before, each that was not zero is smaller, and
/// so the speed itself has not grown.
pub proof fn lemma_friction_decays(character: Character, keys: Keys, dt: u16)
    requires
        keys.idle(),
    ensures
        ({
            let before = character.speed;
            let after = character.after_keyboard(keys, dt).speed;
            &&& magnitude(after.x as int) <= magnitude(before.x as int)
            &&& magnitude(after.y as int) <= magnitude(before.y as int)
            &&& before.x != 0 ==> magnitude(after.x as int) < magnitude(before.x as int)
            &&& before.y != 0 ==> magnitude(after.y as int) < magnitude(before.y as int)
            &&& after.x * after.x + after.y * after.y <= before.x * before.x + before.y
                * before.y
        }),
{
    let before = character.speed;
    let after = character.after_keyboard(keys, dt).speed;
    lemma_friction_shrinks(before.x as int);
    lemma_friction_shrinks(before.y as int);
    lemma_square_order(after.x as int, before.x as int);
    lemma_square_order(after.y as int, before.y as int);
}

/// The smaller of two numbers by magnitude has the smaller square.
pub proof fn lemma_square_order(small: int, large: int)
    requires
        magnitude(small) <= magnitude(large),
    ensures
        small * small <= large * large,
{
    let a = magnitude(small);
    let b = magnitude(large);
    assert(a * a <= b * b) by (nonlinear_arith)
        requires
            0 <= a <= b,
    ;
    assert(small * small == a * a) by (nonlinear_arith)
        requires
            a == small || a == -small,
    ;
    assert(large * large == b * b) by (nonlinear_arith)
        requires
            b == large || b == -large,
    ;
}

} // verus!
