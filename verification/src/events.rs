//! The messages that systems leave for one another during a frame.

use vstd::prelude::*;
use crate::utils::{is_unit_direction, unit_direction, Vec2};

verus! {

/// The character has moved or turned: where it is now and where it faces.
/// `rotation` is the facing direction as a vector of length one.
#[derive(Clone, Copy, Debug, PartialEq, Eq, Structural)]
pub struct TransformEvent {
    pub position: Vec2,
    pub rotation: Vec2,
}

/// An explosion is to be shown at `position`.
#[derive(Clone, Copy, Debug, PartialEq, Eq, Structural)]
pub struct AddExplosionEvent {
    pub position: Vec2,
}

/// The count of enemies left has changed to `enemies_left`.
#[derive(Clone, Copy, Debug, PartialEq, Eq, Structural)]
pub struct EnemiesLeftEvent {
    pub enemies_left: u32,
}

/// The count of lives has changed to `character_lifes`.
#[derive(Clone, Copy, Debug, PartialEq, Eq, Structural)]
pub struct CharacterLifesEvent {
    pub character_lifes: u32,
}

/// The queues of one frame, each in the order of sending. They are emptied
/// when a frame starts, filled by the systems that run in it, and read by
/// whoever runs later in the same frame or after it.
pub struct Events {
    pub transforms: Vec<TransformEvent>,
    pub explosions: Vec<AddExplosionEvent>,
    pub enemies_left: Vec<EnemiesLeftEvent>,
    pub character_lifes: Vec<CharacterLifesEvent>,
}

impl Events {
    /// Every transform on the queue carries a proper facing direction.
    pub open spec fn wf(&self) -> bool {
        forall|i: int|
            0 <= i < self.transforms@.len() ==> unit_direction(
                (#[trigger] self.transforms@[i]).rotation,
            )
    }

    /// Whether all four queues are empty.
    pub open spec fn is_empty(&self) -> bool {
        &&& self.transforms@.len() == 0
        &&& self.explosions@.len() == 0
        &&& self.enemies_left@.len() == 0
        &&& self.character_lifes@.len() == 0
    }

    pub fn is_wf(&self) -> (ok: bool)
        ensures
            ok == self.wf(),
    {
        let count = self.transforms.len();
        let mut index: usize = 0;
        while index < count
            invariant
                index <= count,
                count == self.transforms@.len(),
                forall|i: int|
                    0 <= i < index ==> unit_direction((#[trigger] self.transforms@[i]).rotation),
            decreases count - index,
        {
            if !is_unit_direction(self.transforms[index].rotation) {
                return false;
            }
            index = index + 1;
        }
        true
    }

    pub fn new() -> (events: Events)
        ensures
            events.is_empty(),
            events.wf(),
    {
        Events {
            transforms: Vec::new(),
            explosions: Vec::new(),
            enemies_left: Vec::new(),
            character_lifes: Vec::new(),
        }
    }

    /// Drops whatever the last frame left.
    pub fn clear(&mut self)
        ensures
            final(self).is_empty(),
            final(self).wf(),
    {
        self.transforms.clear();
        self.explosions.clear();
        self.enemies_left.clear();
        self.character_lifes.clear();
    }

    pub fn send_transform(&mut self, event: TransformEvent)
        requires
            old(self).wf(),
            unit_direction(event.rotation),
        ensures
            final(self).wf(),
            final(self).transforms@ == old(self).transforms@.push(event),
            final(self).explosions == old(self).explosions,
            final(self).enemies_left == old(self).enemies_left,
            final(self).character_lifes == old(self).character_lifes,
    {
        self.transforms.push(event);
    }

    pub fn send_explosion(&mut self, event: AddExplosionEvent)
        ensures
            final(self).transforms == old(self).transforms,
            final(self).explosions@ == old(self).explosions@.push(event),
            final(self).enemies_left == old(self).enemies_left,
            final(self).character_lifes == old(self).character_lifes,
    {
        self.explosions.push(event);
    }

    pub fn send_enemies_left(&mut self, event: EnemiesLeftEvent)
        ensures
            final(self).transforms == old(self).transforms,
            final(self).explosions == old(self).explosions,
            final(self).enemies_left@ == old(self).enemies_left@.push(event),
            final(self).character_lifes == old(self).character_lifes,
    {
        self.enemies_left.push(event);
    }

    pub fn send_character_lifes(&mut self, event: CharacterLifesEvent)
        ensures
            final(self).transforms == old(self).transforms,
            final(self).explosions == old(self).explosions,
            final(self).enemies_left == old(self).enemies_left,
            final(self).character_lifes@ == old(self).character_lifes@.push(event),
    {
        self.character_lifes.push(event);
    }
}

/// A sound for the presentation to play.
#[derive(Clone, Copy, Debug, PartialEq, Eq, Structural)]
pub enum Sound {
    /// The start button was clicked.
    Button,
    /// A bullet was fired.
    Bullet,
    /// The character was hit and lives on.
    Collision,
    /// An enemy or the character was destroyed.
    Explosion,
}

/// The announcements of lives after which the character lives on.
pub open spec fn survived() -> spec_fn(CharacterLifesEvent) -> bool {
    |event: CharacterLifesEvent| event.character_lifes > 0
}

/// The sound of a hit that the character outlives.
pub open spec fn collision_sound() -> spec_fn(CharacterLifesEvent) -> Sound {
    |event: CharacterLifesEvent| Sound::Collision
}

/// The sound of an explosion.
pub open spec fn explosion_sound() -> spec_fn(AddExplosionEvent) -> Sound {
    |event: AddExplosionEvent| Sound::Explosion
}

/// The sounds of a frame, in the order of playing: the shot, where a bullet
/// was fired; a collision for each hit that left the character with lives;
/// an explosion for each enemy or character destroyed.
pub open spec fn sounds_of(
    fired: bool,
    character_lifes: Seq<CharacterLifesEvent>,
    explosions: Seq<AddExplosionEvent>,
) -> Seq<Sound> {
    (if fired {
        seq![Sound::Bullet]
    } else {
        Seq::empty()
    }) + character_lifes.filter(survived()).map_values(collision_sound())
        + explosions.map_values(explosion_sound())
}

proof fn lemma_survived_push(events: Seq<CharacterLifesEvent>, event: CharacterLifesEvent)
    ensures
        events.push(event).filter(survived()).map_values(collision_sound()) == if
            event.character_lifes > 0 {
            events.filter(survived()).map_values(collision_sound()).push(Sound::Collision)
        } else {
            events.filter(survived()).map_values(collision_sound())
        },
{
    reveal(Seq::filter);
    assert(events.push(event).drop_last() == events);
    let kept = events.filter(survived());
    if event.character_lifes > 0 {
        assert(kept.push(event).map_values(collision_sound()) == kept.map_values(
            collision_sound(),
        ).push(Sound::Collision));
    }
}

/// The sounds that go with what a frame has published. `fired` tells
/// whether the frame fired a bullet.
pub fn sounds(events: &Events, fired: bool) -> (cues: Vec<Sound>)
    ensures
        cues@ == sounds_of(fired, events.character_lifes@, events.explosions@),
{
    let mut cues: Vec<Sound> = Vec::new();
    if fired {
        cues.push(Sound::Bullet);
    }
    let ghost shot = cues@;
    let ghost lifes = events.character_lifes@;
    let ghost blasts = events.explosions@;
    let hits = events.character_lifes.len();
    let mut index: usize = 0;
    proof {
        reveal(Seq::filter);
        assert(lifes.take(0) == Seq::<CharacterLifesEvent>::empty());
        assert(shot + lifes.take(0).filter(survived()).map_values(collision_sound()) == shot);
    }
    while index < hits
        invariant
            index <= hits,
            hits == lifes.len(),
            lifes == events.character_lifes@,
            cues@ == shot + lifes.take(index as int).filter(survived()).map_values(
                collision_sound(),
            ),
        decreases hits - index,
    {
        let event = events.character_lifes[index];
        proof {
            let seen = lifes.take(index as int);
            assert(lifes.take(index as int + 1) == seen.push(event));
            lemma_survived_push(seen, event);
            let so_far = seen.filter(survived()).map_values(collision_sound());
            assert(shot + so_far.push(Sound::Collision) == (shot + so_far).push(
                Sound::Collision,
            ));
        }
        if event.character_lifes > 0 {
            cues.push(Sound::Collision);
        }
        index = index + 1;
    }
    assert(lifes.take(hits as int) == lifes);
    let ghost hit = cues@;
    let count = events.explosions.len();
    let mut index: usize = 0;
    proof {
        assert(blasts.take(0).map_values(explosion_sound()) == Seq::<Sound>::empty());
        assert(hit + blasts.take(0).map_values(explosion_sound()) == hit);
    }
    while index < count
        invariant
            index <= count,
            count == blasts.len(),
            blasts == events.explosions@,
            cues@ == hit + blasts.take(index as int).map_values(explosion_sound()),
        decreases count - index,
    {
        proof {
            let seen = blasts.take(index as int);
            assert(blasts.take(index as int + 1) == seen.push(blasts[index as int]));
            assert(seen.push(blasts[index as int]).map_values(explosion_sound())
                == seen.map_values(explosion_sound()).push(Sound::Explosion));
            assert(hit + seen.map_values(explosion_sound()).push(Sound::Explosion) == (hit
                + seen.map_values(explosion_sound())).push(Sound::Explosion));
        }
        cues.push(Sound::Explosion);
        index = index + 1;
    }
    assert(blasts.take(count as int) == blasts);
    cues
}

} // verus!
