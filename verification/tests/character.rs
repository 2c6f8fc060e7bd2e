use stars_rs::character::{
    Character, CharacterActive, CharacterLifes, Keys, CHARACTER_LIFES, INACTIVE_DURATION,
};
use stars_rs::events::TransformEvent;
use stars_rs::timer::Timer;
use stars_rs::utils::{BoundingRect, GetBoundingRect, IsActive, SetSpeed, Vec2};

fn keys(up: bool, down: bool, left: bool, right: bool) -> Keys {
    Keys { up, down, left, right }
}

#[test]
fn character_starts_at_rest_at_the_origin() {
    let character = Character::new();
    assert_eq!(character.position, Vec2 { x: 0, y: 0 });
    assert_eq!(character.speed, Vec2 { x: 0, y: 0 });
    assert_eq!(character.mouse, Vec2 { x: 300_000, y: 250_000 });
    assert_eq!(character.rotation, Vec2 { x: 0, y: 1000 });
    assert!(character.get_active());
    assert_eq!(character.inactive_timer, Timer::new(INACTIVE_DURATION));
    assert_eq!(character.lifes.lifes, CHARACTER_LIFES);
    assert_eq!(character.lifes.lifes, 3);
    assert_eq!(Character::default(), character);
}

#[test]
fn a_held_key_sets_the_velocity() {
    let mut character = Character::new();
    character.follow_keyboard(keys(false, false, false, true), 16);
    assert_eq!(character.position, Vec2 { x: 2400, y: 0 });
    assert_eq!(character.speed, Vec2 { x: 2304, y: 0 });
    character.follow_keyboard(keys(true, false, false, false), 10);
    assert_eq!(character.position, Vec2 { x: 4704, y: 1500 });
    assert_eq!(character.speed, Vec2 { x: 2211, y: 1440 });
}

#[test]
fn the_later_key_of_an_axis_wins() {
    let mut character = Character::new();
    character.follow_keyboard(keys(true, true, true, true), 16);
    assert_eq!(character.position, Vec2 { x: -2400, y: -2400 });
    assert_eq!(character.speed, Vec2 { x: -2304, y: -2304 });
}

#[test]
fn the_play_area_holds_the_character_back() {
    let mut character = Character::new();
    character.position = Vec2 { x: 299_000, y: -249_000 };
    character.follow_keyboard(keys(false, true, false, true), 16);
    assert_eq!(character.position, Vec2 { x: 300_000, y: -250_000 });
    assert_eq!(character.speed, Vec2 { x: 2304, y: -2304 });
    character.position = Vec2 { x: -299_000, y: 249_000 };
    character.follow_keyboard(keys(true, false, true, false), 16);
    assert_eq!(character.position, Vec2 { x: -300_000, y: 250_000 });
}

#[test]
fn character_never_leaves_the_play_area() {
    let mut character = Character::new();
    let mut seed: u32 = 12345;
    for frame in 0..5000u32 {
        seed = seed.wrapping_mul(1_664_525).wrapping_add(1_013_904_223);
        let held = keys(seed & 0x100 != 0, seed & 0x200 != 0, seed & 0x400 != 0, seed & 0x800 != 0);
        let dt = if frame % 97 == 0 { u16::MAX } else { (seed >> 20) as u16 % 40 };
        character.follow_keyboard(held, dt);
        assert!(character.position.x >= -300_000 && character.position.x <= 300_000);
        assert!(character.position.y >= -250_000 && character.position.y <= 250_000);
    }
}

#[test]
fn character_is_held_back_whatever_its_velocity() {
    let mut character = Character::new();
    character.set_speed(Vec2 { x: i32::MAX, y: i32::MIN });
    character.follow_keyboard(Keys::released(), 16);
    assert_eq!(character.position, Vec2 { x: 300_000, y: -250_000 });
    assert_eq!(character.speed, Vec2 { x: 2_061_584_301, y: -2_061_584_302 });
}

#[test]
fn friction_brings_the_character_to_rest() {
    let mut character = Character::new();
    character.set_speed(Vec2 { x: 1000, y: -3000 });
    let mut frames = 0;
    while character.speed != (Vec2 { x: 0, y: 0 }) {
        let before = character.speed;
        character.follow_keyboard(Keys::released(), 16);
        assert!(character.speed.x.abs() < before.x.abs() || before.x == 0);
        assert!(character.speed.y.abs() < before.y.abs() || before.y == 0);
        assert!(character.speed.x >= 0 && character.speed.y <= 0);
        frames += 1;
        assert!(frames < 1000);
    }
    let rest = character.position;
    character.follow_keyboard(Keys::released(), 16);
    assert_eq!(character.position, rest);
}

#[test]
fn friction_takes_four_hundredths() {
    let mut character = Character::new();
    character.set_speed(Vec2 { x: 1000, y: -1000 });
    character.follow_keyboard(Keys::released(), 16);
    assert_eq!(character.speed, Vec2 { x: 960, y: -960 });
    character.follow_keyboard(Keys::released(), 16);
    assert_eq!(character.speed, Vec2 { x: 921, y: -921 });
    assert_eq!(character.position, Vec2 { x: 1960, y: -1960 });
}

#[test]
fn follow_mouse_stores_the_pointer() {
    let mut character = Character::new();
    character.follow_mouse(12_000, -7);
    assert_eq!(character.mouse, Vec2 { x: 12_000, y: -7 });
    assert_eq!(character.position, Vec2 { x: 0, y: 0 });
}

#[test]
fn character_turns_toward_the_pointer() {
    let mut character = Character::new();
    character.orient();
    assert_eq!(character.rotation, Vec2 { x: 0, y: 1000 });
    character.follow_mouse(600_000, 250_000);
    character.orient();
    assert_eq!(character.rotation, Vec2 { x: 1000, y: 0 });
    character.follow_mouse(303_000, 254_000);
    character.orient();
    assert_eq!(character.rotation, Vec2 { x: 600, y: 800 });
    character.position = Vec2 { x: 3_000, y: 4_000 };
    character.follow_mouse(300_000, 250_000);
    character.orient();
    assert_eq!(character.rotation, Vec2 { x: -600, y: -800 });
}

#[test]
fn character_turns_toward_the_farthest_pointer() {
    let mut character = Character::new();
    character.position = Vec2 { x: -300_000, y: -250_000 };
    character.follow_mouse(i32::MAX, i32::MAX);
    character.orient();
    assert_eq!(character.rotation, Vec2 { x: 707, y: 707 });
    character.position = Vec2 { x: 300_000, y: 250_000 };
    character.follow_mouse(i32::MIN, i32::MIN);
    character.orient();
    assert_eq!(character.rotation, Vec2 { x: -707, y: -707 });
}

#[test]
fn transform_is_published_when_it_is_news() {
    let mut character = Character::new();
    let known = TransformEvent { position: Vec2 { x: 0, y: 0 }, rotation: Vec2 { x: 0, y: 1000 } };
    assert_eq!(character.transform_changed(known), None);
    character.follow_mouse(600_000, 250_000);
    let news = character.transform_changed(known);
    assert_eq!(
        news,
        Some(TransformEvent { position: Vec2 { x: 0, y: 0 }, rotation: Vec2 { x: 1000, y: 0 } })
    );
    assert_eq!(character.transform_changed(news.unwrap()), None);
    character.follow_keyboard(Keys { up: true, down: false, left: false, right: false }, 16);
    let news = character.transform_changed(news.unwrap()).unwrap();
    assert_eq!(news.position, Vec2 { x: 0, y: 2400 });
    assert_eq!(news.rotation, Vec2 { x: 999, y: -7 });
}

#[test]
fn switching_off_starts_the_spell_at_full_length() {
    let mut character = Character::new();
    character.inactive_timer.tick(5000);
    assert!(character.inactive_timer.finished());
    character.set_active(false);
    assert!(!character.get_active());
    assert_eq!(character.inactive_timer, Timer::new(3000));
}

#[test]
fn switching_on_leaves_the_countdown() {
    let mut character = Character::new();
    character.set_active(false);
    character.inactive_timer_changed(1200);
    character.set_active(true);
    assert!(character.get_active());
    assert_eq!(character.inactive_timer.elapsed(), 1200);
}

#[test]
fn the_spell_ends_after_three_seconds() {
    let mut character = Character::new();
    character.set_active(false);
    character.inactive_timer_changed(1000);
    assert!(!character.get_active());
    character.inactive_timer_changed(1999);
    assert!(!character.get_active());
    character.inactive_timer_changed(1);
    assert!(character.get_active());
    character.set_active(false);
    character.inactive_timer_changed(2999);
    assert!(!character.get_active());
    character.inactive_timer_changed(16);
    assert!(character.get_active());
}

#[test]
fn the_countdown_rests_while_the_character_is_active() {
    let mut character = Character::new();
    character.inactive_timer_changed(5000);
    assert!(character.get_active());
    assert_eq!(character.inactive_timer, Timer::new(3000));
}

#[test]
fn active_changed_rewinds_only_when_switched_off() {
    let mut character = Character::new();
    character.inactive_timer.tick(700);
    character.active_changed();
    assert_eq!(character.inactive_timer.elapsed(), 700);
    character.active = CharacterActive(false);
    character.active_changed();
    assert_eq!(character.inactive_timer.elapsed(), 0);
}

#[test]
fn character_active_is_a_switch() {
    let mut active = CharacterActive(true);
    assert!(active.get_active());
    active.set_active(false);
    assert!(!active.get_active());
    active.set_active(true);
    assert_eq!(active, CharacterActive(true));
}

#[test]
fn lifes_stop_at_zero() {
    let mut lifes = CharacterLifes::new(2);
    lifes.decrease();
    assert_eq!(lifes.lifes, 1);
    lifes.decrease();
    assert_eq!(lifes.lifes, 0);
    lifes.decrease();
    assert_eq!(lifes.lifes, 0);
}

#[test]
fn character_bounding_rect_follows_its_position() {
    let mut character = Character::new();
    character.position = Vec2 { x: -5, y: 77 };
    assert_eq!(
        character.get_bounding_rect(),
        BoundingRect { x: -5, y: 77, width: 128_000, height: 128_000 }
    );
}

#[test]
fn set_speed_overwrites_the_velocity_only() {
    let mut character = Character::new();
    let before = character;
    character.set_speed(Vec2 { x: 3000, y: -2000 });
    assert_eq!(character.speed, Vec2 { x: 3000, y: -2000 });
    assert_eq!(character.position, before.position);
    assert_eq!(character.lifes, before.lifes);
    assert_eq!(character.active, before.active);
}
