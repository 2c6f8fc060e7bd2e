//! Collisions and what follows from them. Both checks run once per frame,
//! after every entity has moved, and test bounding rectangles as they stand
//! at that moment.

use vstd::prelude::*;
use crate::bullet::Bullet;
use crate::character::Character;
use crate::enemies::{Enemy, EnemyCount};
use crate::events::{AddExplosionEvent, CharacterLifesEvent, EnemiesLeftEvent, Events};
use crate::fixed::{lemma_scaled_shrinks, scale, scaled};
use crate::utils::{hit_test, overlaps, GetBoundingRect, IsActive, SetSpeed, Vec2};

verus! {

/// Share of an enemy's velocity that a bump passes on to the character.
pub const BUMP: i32 = 20;

/// Whether the character's rectangle overlaps the enemy's.
pub open spec fn touches(character: Character, enemy: Enemy) -> bool {
    overlaps(character.bounding_rect(), enemy.bounding_rect())
}

/// Whether enemy `index` is the first of the sequence to touch the
/// character.
pub open spec fn is_first_touch(character: Character, enemies: Seq<Enemy>, index: int) -> bool {
    &&& 0 <= index < enemies.len()
    &&& touches(character, enemies[index])
    &&& forall|j: int| 0 <= j < index ==> !touches(character, #[trigger] enemies[j])
}

/// Whether no enemy touches the character.
pub open spec fn untouched(character: Character, enemies: Seq<Enemy>) -> bool {
    forall|j: int| 0 <= j < enemies.len() ==> !touches(character, #[trigger] enemies[j])
}

/// The velocity that a bump by `enemy` gives the character.
pub open spec fn bump_speed(enemy: Enemy) -> Vec2 {
    Vec2 {
        x: scaled(enemy.speed.x as int, BUMP as int) as i32,
        y: scaled(enemy.speed.y as int, BUMP as int) as i32,
    }
}

/// Whether the character outlives one more hit.
pub open spec fn survives(character: Character) -> bool {
    character.lifes.lifes > 1
}

/// The character after a hit by `enemy` that it outlives: one life is gone,
/// the spell of invulnerability starts, and the enemy's bump is its new
/// velocity.
pub open spec fn bumped(character: Character, enemy: Enemy) -> Character {
    Character {
        speed: bump_speed(enemy),
        lifes: character.lifes.decreased(),
        ..character.switched(false)
    }
}

/// The velocity that a bump by `enemy` gives the character.
pub fn bump(enemy: &Enemy) -> (speed: Vec2)
    ensures
        speed == bump_speed(*enemy),
        speed.x == scaled(enemy.speed.x as int, BUMP as int),
        speed.y == scaled(enemy.speed.y as int, BUMP as int),
{
    proof {
        lemma_scaled_shrinks(enemy.speed.x as int, BUMP as int);
        lemma_scaled_shrinks(enemy.speed.y as int, BUMP as int);
    }
    Vec2 { x: scale(enemy.speed.x, BUMP) as i32, y: scale(enemy.speed.y, BUMP) as i32 }
}

/// Finds the first enemy that touches the character.
pub fn first_touch(character: &Character, enemies: &Vec<Enemy>) -> (found: Option<usize>)
    ensures
        match found {
            Some(index) => is_first_touch(*character, enemies@, index as int),
            None => untouched(*character, enemies@),
        },
{
    let rect = character.get_bounding_rect();
    let count = enemies.len();
    let mut index: usize = 0;
    while index < count
        invariant
            index <= count,
            count == enemies@.len(),
            rect == character.bounding_rect(),
            forall|j: int| 0 <= j < index ==> !touches(*character, #[trigger] enemies@[j]),
        decreases count - index,
    {
        if hit_test(rect, enemies[index].get_bounding_rect()) {
            return Some(index);
        }
        index = index + 1;
    }
    None
}

/// At most one enemy is the first to touch the character.
pub proof fn lemma_first_touch_unique(character: Character, enemies: Seq<Enemy>, a: int, b: int)
    requires
        is_first_touch(character, enemies, a),
        is_first_touch(character, enemies, b),
    ensures
        a == b,
{
}

/// The place of the first enemy that touches the character.
pub open spec fn first_touch_at(character: Character, enemies: Seq<Enemy>) -> int {
    choose|index: int| is_first_touch(character, enemies, index)
}

/// Whether the check hits the character: it must be there, active, and
/// touched by an enemy.
pub open spec fn is_hit(character: Option<Character>, enemies: Seq<Enemy>) -> bool {
    &&& character.is_some()
    &&& character.unwrap().active.0
    &&& !untouched(character.unwrap(), enemies)
}

/// The character after the check: unharmed, bumped by the first enemy that
/// touches it, or gone with its last life.
pub open spec fn after_hit(character: Option<Character>, enemies: Seq<Enemy>) -> Option<
    Character,
> {
    if !is_hit(character, enemies) {
        character
    } else if survives(character.unwrap()) {
        Some(
            bumped(
                character.unwrap(),
                enemies[first_touch_at(character.unwrap(), enemies)],
            ),
        )
    } else {
        None
    }
}

/// What the check announces of the character's lives: the new count, where
/// the character is hit.
pub open spec fn lifes_news(character: Option<Character>, enemies: Seq<Enemy>) -> Seq<
    CharacterLifesEvent,
> {
    if is_hit(character, enemies) {
        seq![
            CharacterLifesEvent { character_lifes: character.unwrap().lifes.decreased().lifes },
        ]
    } else {
        Seq::empty()
    }
}

/// The explosion that the check sets off where the character stands, if the
/// hit takes its last life.
pub open spec fn last_blast(character: Option<Character>, enemies: Seq<Enemy>) -> Seq<
    AddExplosionEvent,
> {
    if is_hit(character, enemies) && !survives(character.unwrap()) {
        seq![AddExplosionEvent { position: character.unwrap().position }]
    } else {
        Seq::empty()
    }
}

/// The check of the character against the enemies. Only a character that is
/// there and active can be hit, and only by the first enemy that touches it:
/// the hit takes a life and announces the new count. A character with lives
/// left is bumped and made invulnerable for a while; one without explodes
/// where it stands and is removed. The result is the place of the enemy
/// that hit.
pub fn check_character_collision(
    character: &mut Option<Character>,
    enemies: &Vec<Enemy>,
    events: &mut Events,
) -> (hit: Option<usize>)
    ensures
        *final(character) == after_hit(*old(character), enemies@),
        final(events).character_lifes@ == old(events).character_lifes@ + lifes_news(
            *old(character),
            enemies@,
        ),
        final(events).explosions@ == old(events).explosions@ + last_blast(
            *old(character),
            enemies@,
        ),
        final(events).transforms == old(events).transforms,
        final(events).enemies_left == old(events).enemies_left,
        match hit {
            Some(index) => is_hit(*old(character), enemies@) && is_first_touch(
                old(character).unwrap(),
                enemies@,
                index as int,
            ),
            None => !is_hit(*old(character), enemies@),
        },
        final(character).is_some() ==> final(character).unwrap().position == old(
            character,
        ).unwrap().position && final(character).unwrap().rotation == old(
            character,
        ).unwrap().rotation,
{
    proof {
        assert(events.character_lifes@ + Seq::<CharacterLifesEvent>::empty()
            == events.character_lifes@);
        assert(events.explosions@ + Seq::<AddExplosionEvent>::empty() == events.explosions@);
    }
    let mut hero = match *character {
        Some(hero) => hero,
        None => {
            return None;
        },
    };
    if !hero.get_active() {
        return None;
    }
    let index = match first_touch(&hero, enemies) {
        Some(index) => index,
        None => {
            return None;
        },
    };
    proof {
        lemma_first_touch_unique(
            hero,
            enemies@,
            index as int,
            first_touch_at(hero, enemies@),
        );
    }
    hero.set_active(false);
    hero.lifes.decrease();
    let news = CharacterLifesEvent { character_lifes: hero.lifes.lifes };
    events.send_character_lifes(news);
    assert(old(events).character_lifes@.push(news) == old(events).character_lifes@ + seq![news]);
    if hero.lifes.lifes > 0 {
        hero.set_speed(bump(&enemies[index]));
        *character = Some(hero);
    } else {
        let blast = AddExplosionEvent { position: hero.position };
        events.send_explosion(blast);
        assert(old(events).explosions@.push(blast) == old(events).explosions@ + seq![blast]);
        *character = None;
    }
    Some(index)
}

/// What becomes of an enemy that a bullet has hit.
#[derive(Clone, Copy, Debug, PartialEq, Eq, Structural)]
pub enum KillPolicy {
    /// The enemy is removed, and the population shrinks.
    Remove,
    /// The enemy starts anew from the outer edge, and the population keeps
    /// its size.
    Respawn,
}

/// Whether the bullet's rectangle overlaps the enemy's.
pub open spec fn strikes(bullet: Bullet, enemy: Enemy) -> bool {
    overlaps(bullet.bounding_rect(), enemy.bounding_rect())
}

/// Whether the bullet strikes any of the enemies.
pub open spec fn strikes_any(bullet: Bullet, enemies: Seq<Enemy>) -> bool {
    exists|j: int| 0 <= j < enemies.len() && strikes(bullet, #[trigger] enemies[j])
}

/// Whether any of the bullets strikes the enemy.
pub open spec fn struck_by_any(enemy: Enemy, bullets: Seq<Bullet>) -> bool {
    exists|i: int| 0 <= i < bullets.len() && strikes(#[trigger] bullets[i], enemy)
}

/// The enemies that `bullet` strikes.
pub open spec fn struck_by(bullet: Bullet) -> spec_fn(Enemy) -> bool {
    |enemy: Enemy| strikes(bullet, enemy)
}

/// The bullets that strike none of the enemies.
pub open spec fn missing(enemies: Seq<Enemy>) -> spec_fn(Bullet) -> bool {
    |bullet: Bullet| !strikes_any(bullet, enemies)
}

/// The enemies that none of the bullets strikes.
pub open spec fn spared(bullets: Seq<Bullet>) -> spec_fn(Enemy) -> bool {
    |enemy: Enemy| !struck_by_any(enemy, bullets)
}

/// The explosion that marks the end of an enemy.
pub open spec fn blast() -> spec_fn(Enemy) -> AddExplosionEvent {
    |enemy: Enemy| AddExplosionEvent { position: enemy.position }
}

/// The explosions that one bullet sets off, in the order of the enemies.
pub open spec fn blasts_of(bullet: Bullet, enemies: Seq<Enemy>) -> Seq<AddExplosionEvent> {
    enemies.filter(struck_by(bullet)).map_values(blast())
}

/// The explosions that the bullets set off: one for each pair of a bullet
/// and an enemy that it strikes, bullet by bullet.
pub open spec fn blasts(bullets: Seq<Bullet>, enemies: Seq<Enemy>) -> Seq<AddExplosionEvent>
    decreases bullets.len(),
{
    if bullets.len() == 0 {
        Seq::empty()
    } else {
        blasts(bullets.drop_last(), enemies) + blasts_of(bullets.last(), enemies)
    }
}

/// The count after `hits` enemies are counted off; it stops at zero.
pub open spec fn counted_down(count: EnemyCount, hits: nat) -> EnemyCount {
    EnemyCount {
        count: if count.count >= hits {
            (count.count - hits) as u32
        } else {
            0
        },
    }
}

/// The announcements that go with counting `hits` enemies off: the count
/// after the first, after the second, and so on.
pub open spec fn countdown(count: EnemyCount, hits: nat) -> Seq<EnemiesLeftEvent> {
    Seq::new(
        hits,
        |k: int| EnemiesLeftEvent { enemies_left: counted_down(count, (k + 1) as nat).count },
    )
}

/// Whether `after` is what the check makes of the enemy `before` where
/// enemies that are hit start anew: one that a bullet has struck is back on
/// the outer edge, heading inward; any other is as it was.
pub open spec fn renewed(before: Enemy, after: Enemy, bullets: Seq<Bullet>) -> bool {
    if struck_by_any(before, bullets) {
        after.is_spawn()
    } else {
        after == before
    }
}

proof fn lemma_filter_push<T>(items: Seq<T>, item: T, pred: spec_fn(T) -> bool)
    ensures
        items.push(item).filter(pred) == if pred(item) {
            items.filter(pred).push(item)
        } else {
            items.filter(pred)
        },
{
    reveal(Seq::filter);
    assert(items.push(item).drop_last() == items);
}

/// What holds of every item holds of every item that a filter keeps.
proof fn lemma_filter_keeps<T>(items: Seq<T>, pred: spec_fn(T) -> bool, holds: spec_fn(T) -> bool)
    requires
        forall|k: int| 0 <= k < items.len() ==> holds(#[trigger] items[k]),
    ensures
        forall|k: int|
            0 <= k < items.filter(pred).len() ==> holds(#[trigger] items.filter(pred)[k]),
    decreases items.len(),
{
    reveal(Seq::filter);
    if items.len() > 0 {
        let rest = items.drop_last();
        lemma_filter_keeps(rest, pred, holds);
        assert forall|k: int| 0 <= k < items.filter(pred).len() implies holds(
            #[trigger] items.filter(pred)[k],
        ) by {
            if k < rest.filter(pred).len() {
                assert(items.filter(pred)[k] == rest.filter(pred)[k]);
            } else {
                assert(items.filter(pred)[k] == items[items.len() - 1]);
            }
        }
    }
}

proof fn lemma_blasts_of_push(bullet: Bullet, enemies: Seq<Enemy>, enemy: Enemy)
    ensures
        blasts_of(bullet, enemies.push(enemy)) == if strikes(bullet, enemy) {
            blasts_of(bullet, enemies).push(AddExplosionEvent { position: enemy.position })
        } else {
            blasts_of(bullet, enemies)
        },
{
    lemma_filter_push(enemies, enemy, struck_by(bullet));
    let kept = enemies.filter(struck_by(bullet));
    if strikes(bullet, enemy) {
        assert(kept.push(enemy).map_values(blast()) == kept.map_values(blast()).push(
            AddExplosionEvent { position: enemy.position },
        ));
    }
}

proof fn lemma_strikes_any_push(bullet: Bullet, enemies: Seq<Enemy>, enemy: Enemy)
    ensures
        strikes_any(bullet, enemies.push(enemy)) == (strikes_any(bullet, enemies) || strikes(
            bullet,
            enemy,
        )),
{
    let longer = enemies.push(enemy);
    if strikes_any(bullet, enemies) {
        let j = choose|j: int| 0 <= j < enemies.len() && strikes(bullet, #[trigger] enemies[j]);
        assert(longer[j] == enemies[j]);
    }
    if strikes(bullet, enemy) {
        assert(longer[enemies.len() as int] == enemy);
    }
    if strikes_any(bullet, longer) {
        let j = choose|j: int| 0 <= j < longer.len() && strikes(bullet, #[trigger] longer[j]);
        if j < enemies.len() {
            assert(longer[j] == enemies[j]);
        }
    }
}

proof fn lemma_struck_by_any_push(enemy: Enemy, bullets: Seq<Bullet>, bullet: Bullet)
    ensures
        struck_by_any(enemy, bullets.push(bullet)) == (struck_by_any(enemy, bullets) || strikes(
            bullet,
            enemy,
        )),
{
    let longer = bullets.push(bullet);
    if struck_by_any(enemy, bullets) {
        let i = choose|i: int| 0 <= i < bullets.len() && strikes(#[trigger] bullets[i], enemy);
        assert(longer[i] == bullets[i]);
    }
    if strikes(bullet, enemy) {
        assert(longer[bullets.len() as int] == bullet);
    }
    if struck_by_any(enemy, longer) {
        let i = choose|i: int| 0 <= i < longer.len() && strikes(#[trigger] longer[i], enemy);
        if i < bullets.len() {
            assert(longer[i] == bullets[i]);
        }
    }
}

proof fn lemma_countdown_push(count: EnemyCount, hits: nat)
    ensures
        countdown(count, hits + 1) == countdown(count, hits).push(
            EnemiesLeftEvent { enemies_left: counted_down(count, hits + 1).count },
        ),
        counted_down(count, hits + 1) == counted_down(count, hits).removed(),
{
    assert(countdown(count, hits + 1) =~= countdown(count, hits).push(
        EnemiesLeftEvent { enemies_left: counted_down(count, hits + 1).count },
    ));
}

/// As many marks as asked for, none of them set.
fn unmarked(count: usize) -> (marks: Vec<bool>)
    ensures
        marks@.len() == count,
        forall|k: int| 0 <= k < count ==> !(#[trigger] marks@[k]),
{
    let mut marks: Vec<bool> = Vec::new();
    while marks.len() < count
        invariant
            marks@.len() <= count,
            forall|k: int| 0 <= k < marks@.len() ==> !(#[trigger] marks@[k]),
        decreases count - marks@.len(),
    {
        marks.push(false);
    }
    marks
}

/// The items that are not marked, in their order.
fn keep_unmarked<T: Copy>(
    items: &Vec<T>,
    marks: &Vec<bool>,
    Ghost(keep): Ghost<spec_fn(T) -> bool>,
) -> (kept: Vec<T>)
    requires
        marks@.len() == items@.len(),
        forall|k: int| 0 <= k < items@.len() ==> marks@[k] == !keep(#[trigger] items@[k]),
    ensures
        kept@ == items@.filter(keep),
{
    let mut kept: Vec<T> = Vec::new();
    let count = items.len();
    let mut index: usize = 0;
    proof {
        reveal(Seq::filter);
        assert(items@.take(0) == Seq::<T>::empty());
    }
    while index < count
        invariant
            index <= count,
            count == items@.len(),
            marks@.len() == items@.len(),
            forall|k: int| 0 <= k < items@.len() ==> marks@[k] == !keep(#[trigger] items@[k]),
            kept@ == items@.take(index as int).filter(keep),
        decreases count - index,
    {
        proof {
            assert(items@.take(index as int + 1) == items@.take(index as int).push(
                items@[index as int],
            ));
            lemma_filter_push(items@.take(index as int), items@[index as int], keep);
        }
        if !marks[index] {
            kept.push(items[index]);
        }
        index = index + 1;
    }
    assert(items@.take(count as int) == items@);
    kept
}

/// Tests one bullet against every enemy. Each enemy struck explodes where it
/// stands, is counted off and announced, and is marked. The result tells
/// whether the bullet struck any.
fn strike(
    bullet: &Bullet,
    enemies: &Vec<Enemy>,
    downed: &mut Vec<bool>,
    enemy_count: &mut EnemyCount,
    events: &mut Events,
    Ghost(earlier): Ghost<Seq<Bullet>>,
    Ghost(start): Ghost<EnemyCount>,
    Ghost(hits): Ghost<nat>,
    Ghost(said): Ghost<Seq<EnemiesLeftEvent>>,
) -> (spent: bool)
    requires
        old(events).enemies_left@ == said + countdown(start, hits),
        old(downed)@.len() == enemies@.len(),
        forall|j: int|
            0 <= j < enemies@.len() ==> old(downed)@[j] == struck_by_any(
                #[trigger] enemies@[j],
                earlier,
            ),
        *old(enemy_count) == counted_down(start, hits),
    ensures
        spent == strikes_any(*bullet, enemies@),
        final(downed)@.len() == enemies@.len(),
        forall|j: int|
            0 <= j < enemies@.len() ==> final(downed)@[j] == struck_by_any(
                #[trigger] enemies@[j],
                earlier.push(*bullet),
            ),
        final(events).explosions@ == old(events).explosions@ + blasts_of(*bullet, enemies@),
        *final(enemy_count) == counted_down(start, hits + blasts_of(*bullet, enemies@).len()),
        final(events).enemies_left@ == said + countdown(
            start,
            hits + blasts_of(*bullet, enemies@).len(),
        ),
        final(events).transforms == old(events).transforms,
        final(events).character_lifes == old(events).character_lifes,
{
    let rect = bullet.get_bounding_rect();
    let count = enemies.len();
    let mut spent = false;
    let mut index: usize = 0;
    proof {
        reveal(Seq::filter);
        assert(enemies@.take(0) == Seq::<Enemy>::empty());
        assert(blasts_of(*bullet, enemies@.take(0)) == Seq::<AddExplosionEvent>::empty());
        assert(events.explosions@ + Seq::<AddExplosionEvent>::empty() == events.explosions@);
    }
    while index < count
        invariant
            index <= count,
            count == enemies@.len(),
            downed@.len() == enemies@.len(),
            rect == bullet.bounding_rect(),
            spent == strikes_any(*bullet, enemies@.take(index as int)),
            forall|j: int|
                0 <= j < index ==> downed@[j] == struck_by_any(
                    #[trigger] enemies@[j],
                    earlier.push(*bullet),
                ),
            forall|j: int|
                index <= j < count ==> downed@[j] == struck_by_any(
                    #[trigger] enemies@[j],
                    earlier,
                ),
            events.explosions@ == old(events).explosions@ + blasts_of(
                *bullet,
                enemies@.take(index as int),
            ),
            *enemy_count == counted_down(
                start,
                hits + blasts_of(*bullet, enemies@.take(index as int)).len(),
            ),
            events.enemies_left@ == said + countdown(
                start,
                hits + blasts_of(*bullet, enemies@.take(index as int)).len(),
            ),
            events.transforms == old(events).transforms,
            events.character_lifes == old(events).character_lifes,
        decreases count - index,
    {
        let enemy = enemies[index];
        let ghost seen = enemies@.take(index as int);
        let ghost so_far = hits + blasts_of(*bullet, seen).len();
        proof {
            assert(enemies@.take(index as int + 1) == seen.push(enemy));
            lemma_blasts_of_push(*bullet, seen, enemy);
            lemma_strikes_any_push(*bullet, seen, enemy);
            lemma_struck_by_any_push(enemy, earlier, *bullet);
            lemma_countdown_push(start, so_far);
        }
        if hit_test(rect, enemy.get_bounding_rect()) {
            events.send_explosion(AddExplosionEvent { position: enemy.position });
            enemy_count.remove();
            events.send_enemies_left(EnemiesLeftEvent { enemies_left: enemy_count.count });
            downed.set(index, true);
            spent = true;
            proof {
                let news = EnemiesLeftEvent { enemies_left: enemy_count.count };
                let blast = AddExplosionEvent { position: enemy.position };
                assert(old(events).explosions@ + blasts_of(*bullet, seen).push(blast) == (old(
                    events,
                ).explosions@ + blasts_of(*bullet, seen)).push(blast));
                assert(said + countdown(start, so_far).push(news) == (said + countdown(
                    start,
                    so_far,
                )).push(news));
            }
        }
        index = index + 1;
    }
    assert(enemies@.take(count as int) == enemies@);
    spent
}

/// Sends every marked enemy back to the outer edge.
fn respawn_marked(enemies: &mut Vec<Enemy>, downed: &Vec<bool>, Ghost(bullets): Ghost<Seq<Bullet>>)
    requires
        downed@.len() == old(enemies)@.len(),
        forall|j: int|
            0 <= j < old(enemies)@.len() ==> downed@[j] == struck_by_any(
                #[trigger] old(enemies)@[j],
                bullets,
            ),
    ensures
        final(enemies)@.len() == old(enemies)@.len(),
        forall|j: int|
            0 <= j < old(enemies)@.len() ==> renewed(
                old(enemies)@[j],
                #[trigger] final(enemies)@[j],
                bullets,
            ),
        crate::enemies::all_wf(old(enemies)@) ==> crate::enemies::all_wf(final(enemies)@),
{
    let count = enemies.len();
    let mut index: usize = 0;
    while index < count
        invariant
            index <= count,
            count == enemies@.len(),
            count == old(enemies)@.len(),
            downed@.len() == count,
            forall|j: int|
                0 <= j < count ==> downed@[j] == struck_by_any(
                    #[trigger] old(enemies)@[j],
                    bullets,
                ),
            forall|j: int|
                0 <= j < index ==> renewed(old(enemies)@[j], #[trigger] enemies@[j], bullets),
            forall|j: int| index <= j < count ==> enemies@[j] == old(enemies)@[j],
            crate::enemies::all_wf(old(enemies)@) ==> crate::enemies::all_wf(enemies@),
        decreases count - index,
    {
        if downed[index] {
            enemies.set(index, Enemy::spawn());
        }
        index = index + 1;
    }
}

/// The check of the bullets against the enemies. Every pair of a bullet and
/// an enemy is tested as the frame's movement has left them. For each pair
/// that overlaps, bullet by bullet and enemy by enemy, the enemy explodes
/// where it stands, is counted off, and the new count is announced. Once
/// every pair has been tested, the bullets that struck an enemy are removed,
/// and the enemies that were struck are removed or start anew, as the policy
/// says.
pub fn check_bullet_collision(
    bullets: &mut Vec<Bullet>,
    enemies: &mut Vec<Enemy>,
    enemy_count: &mut EnemyCount,
    events: &mut Events,
    policy: KillPolicy,
)
    ensures
        final(bullets)@ == old(bullets)@.filter(missing(old(enemies)@)),
        policy == KillPolicy::Remove ==> final(enemies)@ == old(enemies)@.filter(
            spared(old(bullets)@),
        ),
        policy == KillPolicy::Respawn ==> final(enemies)@.len() == old(enemies)@.len() && forall|
            j: int,
        |
            0 <= j < old(enemies)@.len() ==> renewed(
                old(enemies)@[j],
                #[trigger] final(enemies)@[j],
                old(bullets)@,
            ),
        final(events).explosions@ == old(events).explosions@ + blasts(
            old(bullets)@,
            old(enemies)@,
        ),
        *final(enemy_count) == counted_down(
            *old(enemy_count),
            blasts(old(bullets)@, old(enemies)@).len(),
        ),
        final(events).enemies_left@ == old(events).enemies_left@ + countdown(
            *old(enemy_count),
            blasts(old(bullets)@, old(enemies)@).len(),
        ),
        final(events).transforms == old(events).transforms,
        final(events).character_lifes == old(events).character_lifes,
        crate::bullet::all_wf(old(bullets)@) ==> crate::bullet::all_wf(final(bullets)@),
        crate::enemies::all_wf(old(enemies)@) ==> crate::enemies::all_wf(final(enemies)@),
{
    let bullet_count = bullets.len();
    let mut spent: Vec<bool> = unmarked(bullet_count);
    let mut downed: Vec<bool> = unmarked(enemies.len());
    let ghost start = *enemy_count;
    let ghost said = events.enemies_left@;
    let mut index: usize = 0;
    proof {
        assert(bullets@.take(0) == Seq::<Bullet>::empty());
        assert(events.explosions@ + Seq::<AddExplosionEvent>::empty() == events.explosions@);
        assert(said + countdown(start, 0) == said);
    }
    while index < bullet_count
        invariant
            index <= bullet_count,
            bullet_count == bullets@.len(),
            bullets@ == old(bullets)@,
            enemies@ == old(enemies)@,
            spent@.len() == bullet_count,
            downed@.len() == enemies@.len(),
            forall|k: int|
                0 <= k < index ==> spent@[k] == strikes_any(#[trigger] bullets@[k], enemies@),
            forall|k: int| index <= k < bullet_count ==> !(#[trigger] spent@[k]),
            forall|j: int|
                0 <= j < enemies@.len() ==> downed@[j] == struck_by_any(
                    #[trigger] enemies@[j],
                    bullets@.take(index as int),
                ),
            events.explosions@ == old(events).explosions@ + blasts(
                bullets@.take(index as int),
                enemies@,
            ),
            *enemy_count == counted_down(
                start,
                blasts(bullets@.take(index as int), enemies@).len(),
            ),
            events.enemies_left@ == said + countdown(
                start,
                blasts(bullets@.take(index as int), enemies@).len(),
            ),
            events.transforms == old(events).transforms,
            events.character_lifes == old(events).character_lifes,
        decreases bullet_count - index,
    {
        let bullet = bullets[index];
        let ghost earlier = bullets@.take(index as int);
        let ghost hits = blasts(earlier, enemies@).len();
        proof {
            assert(bullets@.take(index as int + 1) == earlier.push(bullet));
            assert(earlier.push(bullet).drop_last() == earlier);
            assert((old(events).explosions@ + blasts(earlier, enemies@)) + blasts_of(
                bullet,
                enemies@,
            ) == old(events).explosions@ + (blasts(earlier, enemies@) + blasts_of(
                bullet,
                enemies@,
            )));
        }
        let struck = strike(
            &bullet,
            enemies,
            &mut downed,
            enemy_count,
            events,
            Ghost(earlier),
            Ghost(start),
            Ghost(hits),
            Ghost(said),
        );
        spent.set(index, struck);
        index = index + 1;
    }
    proof {
        assert(bullets@.take(bullet_count as int) == bullets@);
        assert forall|k: int| 0 <= k < bullets@.len() implies spent@[k] == !missing(enemies@)(
            #[trigger] bullets@[k],
        ) by {}
        assert forall|j: int| 0 <= j < enemies@.len() implies downed@[j] == !spared(bullets@)(
            #[trigger] enemies@[j],
        ) by {}
    }
    let ghost flying = bullets@;
    let kept = keep_unmarked(bullets, &spent, Ghost(missing(enemies@)));
    proof {
        if crate::bullet::all_wf(flying) {
            lemma_filter_keeps(flying, missing(enemies@), |bullet: Bullet| bullet.wf());
        }
        if crate::enemies::all_wf(enemies@) {
            lemma_filter_keeps(enemies@, spared(flying), |enemy: Enemy| enemy.wf());
        }
    }
    match policy {
        KillPolicy::Remove => {
            let standing = keep_unmarked(enemies, &downed, Ghost(spared(flying)));
            *enemies = standing;
        },
        KillPolicy::Respawn => {
            respawn_marked(enemies, &downed, Ghost(flying));
        },
    }
    *bullets = kept;
}

} // verus!
