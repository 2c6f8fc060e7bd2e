//! The world: every entity of a session under one roof, and the order in
//! which a frame steps through them.

use vstd::prelude::*;
use crate::bullet::{
    all_in_flight, flown, in_flight, joined, update_bullet, Bullet, BulletSource,
};
use crate::character::{lemma_keyboard_keeps_in_play_area, Character, Keys};
use crate::consts::in_play_area;
use crate::collision::{
    after_hit, blasts, check_bullet_collision, check_character_collision, countdown,
    counted_down, last_blast, lifes_news, missing, renewed, spared, KillPolicy,
};
use crate::enemies::{
    add_enemies, all_spawned, update_enemies, wandered, Enemy, EnemyCount, ENEMY_COUNT,
};
use crate::events::{Events, TransformEvent};
use crate::state::{AppState, GameState, Interaction, LoadState};
use crate::utils::Vec2;

verus! {

/// What the input devices report for one frame.
#[derive(Clone, Copy, Debug, PartialEq, Eq, Structural)]
pub struct FrameInput {
    /// The directional keys that are held.
    pub keys: Keys,
    /// Where the pointer has moved to, if it has moved.
    pub pointer: Option<Vec2>,
    /// Whether the trigger went down in this frame.
    pub fire: bool,
    /// The length of the frame in milliseconds.
    pub dt: u16,
}

/// The state of a session.
pub struct World {
    /// The phase of the application.
    pub state: AppState,
    /// The character, while it lives.
    pub character: Option<Character>,
    /// The emitter of bullets.
    pub bullet_source: BulletSource,
    /// The bullets in flight.
    pub bullets: Vec<Bullet>,
    /// The enemies.
    pub enemies: Vec<Enemy>,
    /// The count of enemies left.
    pub enemy_count: EnemyCount,
    /// The messages of the current frame.
    pub events: Events,
    /// What becomes of an enemy that a bullet has hit.
    pub policy: KillPolicy,
}

/// The character after the frame's input: the pointer is taken note of, the
/// keys steer, the character turns toward the pointer, and its spell of
/// invulnerability runs on.
pub open spec fn steered(character: Character, input: FrameInput) -> Character {
    let aimed = match input.pointer {
        Some(pointer) => character.aimed(pointer.x, pointer.y),
        None => character,
    };
    aimed.after_keyboard(input.keys, input.dt).oriented().recovered(input.dt)
}

/// The transform that the bullet source has last heard of.
pub open spec fn heard(source: BulletSource) -> TransformEvent {
    TransformEvent { position: source.position, rotation: source.rotation }
}

/// The transforms that a frame publishes: the character's, where it is no
/// longer what the bullet source has heard of.
pub open spec fn published(character: Option<Character>, source: BulletSource) -> Seq<
    TransformEvent,
> {
    match character {
        Some(character) => if character.transform() == heard(source) {
            Seq::empty()
        } else {
            seq![character.transform()]
        },
        None => Seq::empty(),
    }
}

impl World {
    /// Every entity is well formed.
    pub open spec fn wf(&self) -> bool {
        &&& self.character.is_some() ==> self.character.unwrap().wf()
        &&& self.bullet_source.wf()
        &&& crate::bullet::all_wf(self.bullets@)
        &&& crate::enemies::all_wf(self.enemies@)
        &&& self.events.wf()
    }

    /// Whether `after` is what the movement of one frame makes of `self`.
    /// The queues start empty. The character, if there is one, follows the
    /// input and publishes its transform where that is news to the bullet
    /// source. The source takes note of it, then fires on a trigger press if
    /// its cooldown allows. The bullets fly on or leave. The enemies wander.
    pub open spec fn moves_to(&self, after: &World, input: FrameInput) -> bool {
        let character = match self.character {
            Some(character) => Some(steered(character, input)),
            None => None,
        };
        let news = published(character, self.bullet_source);
        let source = self.bullet_source.informed(news);
        &&& after.state == self.state
        &&& after.policy == self.policy
        &&& after.enemy_count == self.enemy_count
        &&& after.character == character
        &&& after.events.transforms@ == news
        &&& after.events.explosions@.len() == 0
        &&& after.events.enemies_left@.len() == 0
        &&& after.events.character_lifes@.len() == 0
        &&& after.bullet_source == source.triggered(input.fire, input.dt)
        &&& after.bullets@ == flown(
            joined(self.bullets@, source.shot(input.fire, input.dt)),
            input.dt,
        )
        &&& after.enemies@.len() == self.enemies@.len()
        &&& forall|i: int|
            0 <= i < self.enemies@.len() ==> wandered(
                self.enemies@[i],
                #[trigger] after.enemies@[i],
                input.dt,
            )
    }

    /// Whether `after` is what the collision checks make of `self`: first
    /// the character's against the enemies, then the bullets'.
    pub open spec fn collides_to(&self, after: &World) -> bool {
        let hits = blasts(self.bullets@, self.enemies@);
        &&& after.state == self.state
        &&& after.policy == self.policy
        &&& after.bullet_source == self.bullet_source
        &&& after.character == after_hit(self.character, self.enemies@)
        &&& after.bullets@ == self.bullets@.filter(missing(self.enemies@))
        &&& self.policy == KillPolicy::Remove ==> after.enemies@ == self.enemies@.filter(
            spared(self.bullets@),
        )
        &&& self.policy == KillPolicy::Respawn ==> after.enemies@.len() == self.enemies@.len()
            && forall|j: int|
            0 <= j < self.enemies@.len() ==> renewed(
                self.enemies@[j],
                #[trigger] after.enemies@[j],
                self.bullets@,
            )
        &&& after.enemy_count == counted_down(self.enemy_count, hits.len())
        &&& after.events.transforms == self.events.transforms
        &&& after.events.character_lifes@ == self.events.character_lifes@ + lifes_news(
            self.character,
            self.enemies@,
        )
        &&& after.events.explosions@ == self.events.explosions@ + last_blast(
            self.character,
            self.enemies@,
        ) + hits
        &&& after.events.enemies_left@ == self.events.enemies_left@ + countdown(
            self.enemy_count,
            hits.len(),
        )
    }

    pub fn is_wf(&self) -> (ok: bool)
        ensures
            ok == self.wf(),
    {
        let character = match self.character {
            Some(character) => character.is_wf(),
            None => true,
        };
        character && self.bullet_source.is_wf() && crate::bullet::are_wf(&self.bullets)
            && crate::enemies::are_wf(&self.enemies) && self.events.is_wf()
    }

    /// A world that is still loading: no character, no bullets, no enemies.
    pub fn new(policy: KillPolicy) -> (world: World)
        ensures
            world.wf(),
            world.state == AppState::Loading,
            world.policy == policy,
            world.character.is_none(),
            world.bullet_source == BulletSource::initial(),
            world.bullets@.len() == 0,
            world.enemies@.len() == 0,
            world.enemy_count.count == ENEMY_COUNT,
            world.events.is_empty(),
    {
        World {
            state: AppState::Loading,
            character: None,
            bullet_source: BulletSource::new(),
            bullets: Vec::new(),
            enemies: Vec::new(),
            enemy_count: EnemyCount::new(ENEMY_COUNT),
            events: Events::new(),
            policy,
        }
    }

    /// The loading phase's step: once the loader reports every asset
    /// loaded, the menu opens.
    pub fn loading(&mut self, load: LoadState)
        requires
            old(self).wf(),
        ensures
            final(self).wf(),
            final(self).state == old(self).state.after_loading(load),
            final(self).character == old(self).character,
            final(self).bullet_source == old(self).bullet_source,
            final(self).bullets == old(self).bullets,
            final(self).enemies == old(self).enemies,
            final(self).enemy_count == old(self).enemy_count,
            final(self).events == old(self).events,
            final(self).policy == old(self).policy,
    {
        self.state = crate::state::loading(self.state, load);
    }

    /// Sets the stage for play: the character at the origin, the bullet
    /// source at rest, no bullets, and a full population of enemies on the
    /// outer edge.
    pub fn setup(&mut self)
        ensures
            final(self).wf(),
            final(self).state == old(self).state,
            final(self).policy == old(self).policy,
            final(self).character == Some(Character::initial()),
            final(self).bullet_source == BulletSource::initial(),
            final(self).bullets@.len() == 0,
            final(self).enemies@.len() == ENEMY_COUNT,
            all_spawned(final(self).enemies@),
            final(self).enemy_count.count == ENEMY_COUNT,
            final(self).events.is_empty(),
    {
        self.character = Some(Character::new());
        self.bullet_source = BulletSource::new();
        self.bullets = Vec::new();
        self.enemies = add_enemies(ENEMY_COUNT);
        self.enemy_count = EnemyCount::new(ENEMY_COUNT);
        self.events = Events::new();
    }

    /// The menu phase's step: a click on the start button sets the stage and
    /// starts play. The result tells whether play has started.
    pub fn button_system(&mut self, interaction: Interaction) -> (started: bool)
        requires
            old(self).wf(),
        ensures
            final(self).wf(),
            started == (old(self).state == AppState::Menu && interaction
                == Interaction::Clicked),
            final(self).state == old(self).state.after_interaction(interaction),
            final(self).policy == old(self).policy,
            started ==> {
                &&& final(self).character == Some(Character::initial())
                &&& final(self).bullet_source == BulletSource::initial()
                &&& final(self).bullets@.len() == 0
                &&& final(self).enemies@.len() == ENEMY_COUNT
                &&& all_spawned(final(self).enemies@)
                &&& final(self).enemy_count.count == ENEMY_COUNT
                &&& final(self).events.is_empty()
            },
            !started ==> {
                &&& final(self).character == old(self).character
                &&& final(self).bullet_source == old(self).bullet_source
                &&& final(self).bullets == old(self).bullets
                &&& final(self).enemies == old(self).enemies
                &&& final(self).enemy_count == old(self).enemy_count
                &&& final(self).events == old(self).events
            },
    {
        let next = crate::state::button_system(self.state, interaction);
        let started = !self.state.is_main() && next.is_main();
        self.state = next;
        if started {
            self.setup();
        }
        started
    }

    /// The movement of one frame.
    pub fn step(&mut self, input: FrameInput)
        requires
            old(self).wf(),
        ensures
            final(self).wf(),
            old(self).moves_to(final(self), input),
    {
        self.events.clear();
        match self.character {
            Some(mut character) => {
                match input.pointer {
                    Some(pointer) => {
                        character.follow_mouse(pointer.x, pointer.y);
                    },
                    None => {},
                }
                character.follow_keyboard(input.keys, input.dt);
                let known = TransformEvent {
                    position: self.bullet_source.position,
                    rotation: self.bullet_source.rotation,
                };
                let news = character.transform_changed(known);
                character.inactive_timer_changed(input.dt);
                match news {
                    Some(event) => {
                        self.events.send_transform(event);
                    },
                    None => {},
                }
                self.character = Some(character);
            },
            None => {},
        }
        assert(self.events.transforms@ =~= published(self.character, old(self).bullet_source));
        self.bullet_source.handle_transform(&self.events.transforms);
        update_bullet(&mut self.bullet_source, &mut self.bullets, input.fire, input.dt);
        update_enemies(&mut self.enemies, input.dt);
    }

    /// The collision checks of one frame.
    pub fn collide(&mut self)
        requires
            old(self).wf(),
        ensures
            final(self).wf(),
            old(self).collides_to(final(self)),
    {
        check_character_collision(&mut self.character, &self.enemies, &mut self.events);
        check_bullet_collision(
            &mut self.bullets,
            &mut self.enemies,
            &mut self.enemy_count,
            &mut self.events,
            self.policy,
        );
    }

    /// One frame. Outside play nothing happens. In play, everything moves,
    /// then collisions are checked against the new positions; the queues
    /// hold what the frame has published until the next frame starts.
    pub fn update(&mut self, input: FrameInput)
        requires
            old(self).wf(),
        ensures
            final(self).wf(),
            old(self).state != AppState::Main ==> *final(self) == *old(self),
            old(self).state == AppState::Main ==> exists|moved: World|
                #![auto]
                old(self).moves_to(&moved, input) && moved.collides_to(final(self)),
    {
        if self.state.is_main() {
            self.step(input);
            let ghost moved = *self;
            self.collide();
            assert(old(self).moves_to(&moved, input) && moved.collides_to(self));
        }
    }

    /// The counters shown to the player.
    pub fn game_state(&self) -> (game: GameState)
        ensures
            game.enemies_left == self.enemy_count.count,
    {
        GameState { enemies_left: self.enemy_count.count }
    }
}

/// A frame leaves the character, if it is still there, inside the play
/// area.
pub proof fn lemma_frame_keeps_character_in_play_area(
    before: World,
    moved: World,
    after: World,
    input: FrameInput,
)
    requires
        before.moves_to(&moved, input),
        moved.collides_to(&after),
    ensures
        after.character.is_some() ==> in_play_area(after.character.unwrap().position),
{
    if before.character.is_some() {
        let aimed = match input.pointer {
            Some(pointer) => before.character.unwrap().aimed(pointer.x, pointer.y),
            None => before.character.unwrap(),
        };
        lemma_keyboard_keeps_in_play_area(aimed, input.keys, input.dt);
    }
}

/// A frame leaves no bullet beyond its reach: a bullet is gone with the move
/// that takes it there, before the collisions are checked.
pub proof fn lemma_frame_leaves_no_bullet_beyond_reach(
    before: World,
    moved: World,
    after: World,
    input: FrameInput,
)
    requires
        before.moves_to(&moved, input),
        moved.collides_to(&after),
    ensures
        all_in_flight(moved.bullets@),
        all_in_flight(after.bullets@),
{
    let source = before.bullet_source.informed(moved.events.transforms@);
    let flying = joined(before.bullets@, source.shot(input.fire, input.dt)).filter(
        in_flight(),
    ).map_values(crate::bullet::flight(input.dt));
    assert forall|i: int| 0 <= i < moved.bullets@.len() implies !(
    #[trigger] moved.bullets@[i]).gone() by {
        flying.lemma_filter_pred(in_flight(), i);
    }
    let kept = missing(moved.enemies@);
    assert forall|i: int| 0 <= i < after.bullets@.len() implies !(
    #[trigger] after.bullets@[i]).gone() by {
        let bullet = after.bullets@[i];
        assert(moved.bullets@.filter(kept).contains(bullet));
        moved.bullets@.lemma_filter_contains_rev(kept, bullet);
        let j = choose|j: int| 0 <= j < moved.bullets@.len() && moved.bullets@[j] == bullet;
        assert(!moved.bullets@[j].gone());
    }
}

/// Where enemies that are hit start anew, a frame leaves the population at
/// its size; where they are removed, it never grows.
pub proof fn lemma_frame_keeps_population(
    before: World,
    moved: World,
    after: World,
    input: FrameInput,
)
    requires
        before.moves_to(&moved, input),
        moved.collides_to(&after),
    ensures
        before.policy == KillPolicy::Respawn ==> after.enemies@.len() == before.enemies@.len(),
        before.policy == KillPolicy::Remove ==> after.enemies@.len() <= before.enemies@.len(),
        after.enemy_count.count <= before.enemy_count.count,
{
    moved.enemies@.lemma_filter_len(spared(moved.bullets@));
}

/// Once the character is gone, no frame brings it back, and none takes a
/// life or announces one.
pub proof fn lemma_no_character_no_updates(
    before: World,
    moved: World,
    after: World,
    input: FrameInput,
)
    requires
        before.character.is_none(),
        before.moves_to(&moved, input),
        moved.collides_to(&after),
    ensures
        after.character.is_none(),
        after.events.transforms@.len() == 0,
        after.events.character_lifes@.len() == 0,
{
}

/// Whether `after` is what a run of frames of play, one for each input,
/// can make of `before`.
pub open spec fn runs_to(before: World, inputs: Seq<FrameInput>, after: World) -> bool
    decreases inputs.len(),
{
    if inputs.len() == 0 {
        after == before
    } else {
        exists|earlier: World, moved: World|
            #![auto]
            runs_to(before, inputs.drop_last(), earlier) && earlier.moves_to(
                &moved,
                inputs.last(),
            ) && moved.collides_to(&after)
    }
}

/// The lives of a character, or none for a character that is gone.
pub open spec fn lifes_left(character: Option<Character>) -> int {
    match character {
        Some(character) => character.lifes.lifes as int,
        None => 0,
    }
}

/// Whatever the number of frames and whatever the input: a character that
/// starts inside the play area is inside it for as long as it lives, a
/// character that is gone stays gone, neither the lives nor the count of
/// enemies left ever go up, and the population keeps its size where enemies
/// that are hit start anew and never grows where they are removed.
pub proof fn lemma_run_keeps_order(before: World, inputs: Seq<FrameInput>, after: World)
    requires
        runs_to(before, inputs, after),
        before.character.is_some() ==> in_play_area(before.character.unwrap().position),
    ensures
        after.policy == before.policy,
        after.character.is_some() ==> in_play_area(after.character.unwrap().position),
        before.character.is_none() ==> after.character.is_none(),
        lifes_left(after.character) <= lifes_left(before.character),
        after.enemy_count.count <= before.enemy_count.count,
        before.policy == KillPolicy::Respawn ==> after.enemies@.len() == before.enemies@.len(),
        before.policy == KillPolicy::Remove ==> after.enemies@.len() <= before.enemies@.len(),
    decreases inputs.len(),
{
    if inputs.len() > 0 {
        let (earlier, moved) = choose|earlier: World, moved: World|
            #![auto]
            runs_to(before, inputs.drop_last(), earlier) && earlier.moves_to(
                &moved,
                inputs.last(),
            ) && moved.collides_to(&after);
        lemma_run_keeps_order(before, inputs.drop_last(), earlier);
        lemma_frame_keeps_character_in_play_area(earlier, moved, after, inputs.last());
        lemma_frame_keeps_population(earlier, moved, after, inputs.last());
    }
}

} // verus!
