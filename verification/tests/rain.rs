use stars_rs::aim;
use stars_rs::background::move_background;
use stars_rs::consts::{position_z, window_size, is_beyond};
use stars_rs::events::TransformEvent;
use stars_rs::explosion::{animate, next_frame};
use stars_rs::rain::{
    add_rain, are_wf, get_initial_position, get_restart_position, initial_position_from,
    update_rain, RainDrop, DROP_COUNT,
};
use stars_rs::utils::Vec2;

fn drop_at(x: i32, y: i32) -> RainDrop {
    RainDrop { position: Vec2 { x, y }, speed: Vec2 { x: 10_000, y: 85_000 } }
}

#[test]
fn rain_starts_inside_its_range() {
    assert_eq!(DROP_COUNT, 200);
    let drops = add_rain(DROP_COUNT);
    assert_eq!(drops.len(), 200);
    assert!(are_wf(&drops));
    for drop in drops.iter() {
        assert!(drop.position.x >= -302_000 && drop.position.x <= 300_000);
        assert!(drop.position.y >= -250_000 && drop.position.y <= 254_000);
        assert_eq!(drop.speed.x, 10_000);
        assert!(drop.speed.y >= 40_000 && drop.speed.y <= 130_000);
    }
}

#[test]
fn rain_positions_are_in_range() {
    for _ in 0..200 {
        let p = get_initial_position();
        assert!(p.x >= -302_000 && p.x <= 300_000 && p.y >= -250_000 && p.y <= 254_000);
        let p = get_restart_position();
        assert!(p.x >= -302_000 && p.x <= 300_000);
        assert_eq!(p.y, 254_000);
    }
}

#[test]
fn a_drop_is_what_its_samples_select() {
    let drop = RainDrop::from_samples(0x8000_0000, 0, 0xC000_0000);
    assert_eq!(drop.speed, Vec2 { x: 10_000, y: 85_000 });
    assert_eq!(drop.position, Vec2 { x: -302_000, y: 128_000 });
    let drop = RainDrop::from_samples(0, u32::MAX, 0);
    assert_eq!(drop.speed, Vec2 { x: 10_000, y: 130_000 });
    assert_eq!(drop.position, Vec2 { x: 299_999, y: -250_000 });
}

#[test]
fn rain_falls_to_the_right_and_down() {
    let mut drops = vec![drop_at(0, 0), drop_at(301_000, -254_000)];
    update_rain(&mut drops, 16);
    assert_eq!(drops, vec![drop_at(160, -1360), drop_at(301_160, -255_360)]);
    update_rain(&mut drops, u16::MAX);
    assert_eq!(drops[0].position, Vec2 { x: 655_510, y: -5_571_835 });
}

#[test]
fn a_drop_that_has_left_starts_anew_at_the_top() {
    let mut drops =
        vec![drop_at(301_001, 0), drop_at(0, -254_001), drop_at(i32::MAX, i32::MIN), drop_at(5, 5)];
    update_rain(&mut drops, 16);
    assert_eq!(drops.len(), 4);
    for drop in drops.iter().take(3) {
        assert_eq!(drop.position.y, 254_000);
        assert!(drop.position.x >= -302_000 && drop.position.x <= 300_000);
        assert_eq!(drop.speed, Vec2 { x: 10_000, y: 85_000 });
        assert!(!drop.has_fallen());
    }
    assert_eq!(drops[3], drop_at(165, -1355));
}

#[test]
fn rain_keeps_its_drops() {
    let mut drops = add_rain(50);
    for _ in 0..2000 {
        update_rain(&mut drops, 16);
        assert_eq!(drops.len(), 50);
    }
    assert!(are_wf(&drops));
    assert!(!are_wf(&vec![RainDrop {
        position: Vec2 { x: 0, y: 0 },
        speed: Vec2 { x: 10_000, y: 39_999 }
    }]));
}

#[test]
fn the_backdrop_shifts_against_the_character() {
    let at = |x: i32, y: i32| TransformEvent {
        position: Vec2 { x, y },
        rotation: Vec2 { x: 0, y: 1000 },
    };
    assert_eq!(move_background(&Vec::new()), None);
    assert_eq!(move_background(&vec![at(300_000, -250_000)]), Some(Vec2 { x: -7_500, y: 6_250 }));
    assert_eq!(
        move_background(&vec![at(300_000, -250_000), at(40, -79)]),
        Some(Vec2 { x: -1, y: 1 })
    );
    assert_eq!(move_background(&vec![at(39, -39)]), Some(Vec2 { x: 0, y: 0 }));
    assert_eq!(
        move_background(&vec![at(i32::MAX, i32::MIN)]),
        Some(Vec2 { x: -53_687_091, y: 53_687_091 })
    );
}

#[test]
fn the_aim_mark_is_drawn_where_the_pointer_is() {
    assert_eq!(aim::follow_mouse(Vec2 { x: 300_000, y: 250_000 }), Vec2 { x: 0, y: 0 });
    assert_eq!(aim::follow_mouse(Vec2 { x: 0, y: 0 }), Vec2 { x: -300_000, y: -250_000 });
    assert_eq!(aim::follow_mouse(Vec2 { x: 600_000, y: 1 }), Vec2 { x: 300_000, y: -249_999 });
    assert_eq!(
        aim::follow_mouse(Vec2 { x: i32::MIN, y: i32::MIN + 250_001 }),
        Vec2 { x: i32::MIN, y: i32::MIN + 1 }
    );
    assert_eq!(
        aim::follow_mouse(Vec2 { x: i32::MAX, y: i32::MAX }),
        Vec2 { x: i32::MAX - 300_000, y: i32::MAX - 250_000 }
    );
}

#[test]
fn animations_run_round() {
    assert_eq!(next_frame(0, 5), 1);
    assert_eq!(next_frame(3, 5), 4);
    assert_eq!(next_frame(4, 5), 0);
    assert_eq!(next_frame(0, 1), 0);
    assert_eq!(next_frame(7, 5), 3);
}

#[test]
fn an_explosion_ends_after_its_last_frame() {
    assert_eq!(animate(0, 5), Some(1));
    assert_eq!(animate(3, 5), Some(4));
    assert_eq!(animate(4, 5), None);
    assert_eq!(animate(9, 5), None);
    assert_eq!(animate(0, 0), None);
    assert_eq!(animate(0, 1), None);
    assert_eq!(animate(usize::MAX, usize::MAX), None);
    assert_eq!(animate(usize::MAX - 1, usize::MAX), None);
    assert_eq!(animate(usize::MAX - 2, usize::MAX), Some(usize::MAX - 1));
}

#[test]
fn the_play_area_is_six_hundred_by_five_hundred() {
    let size = window_size();
    assert_eq!((size.width, size.height), (600_000, 500_000));
    let z = position_z();
    assert_eq!(
        [z.background, z.enemy, z.bullet, z.character, z.explosion, z.rain],
        [0, 1000, 2000, 3000, 4000, 5000]
    );
    assert_eq!(
        [z.menu, z.aim, z.enemies_left, z.character_lifes, z.fps, z.loader],
        [6000, 7000, 8000, 8000, 9000, 10_000]
    );
    assert!(is_beyond(Vec2 { x: 11, y: 0 }, 10, 10));
    assert!(is_beyond(Vec2 { x: 0, y: -11 }, 10, 10));
    assert!(!is_beyond(Vec2 { x: -10, y: 10 }, 10, 10));
}

#[test]
fn a_start_is_what_its_samples_select() {
    assert_eq!(initial_position_from(0, 0), Vec2 { x: -302_000, y: -250_000 });
    assert_eq!(initial_position_from(0x8000_0000, 0x8000_0000), Vec2 { x: -1_000, y: 2_000 });
    assert_eq!(initial_position_from(0x4000_0000, 0xC000_0000), Vec2 { x: -151_500, y: 128_000 });
    assert_eq!(initial_position_from(u32::MAX, u32::MAX), Vec2 { x: 299_999, y: 253_999 });
}

#[test]
fn rain_starts_at_many_places() {
    let first = get_initial_position();
    let mut varied = false;
    for _ in 0..64 {
        if get_initial_position() != first {
            varied = true;
        }
    }
    assert!(varied);
}
