use stars_rs::enemies::{
    add_enemies, enemy_edge_position, get_position, get_speed, speed_from, update_enemies, Enemy, EnemyCount,
    ENEMY_COUNT,
};
use stars_rs::utils::{BoundingRect, GetBoundingRect, Position, Vec2};

const EDGE_X: i32 = 364_000;
const EDGE_Y: i32 = 314_000;

fn assert_spawned(enemy: &Enemy) {
    let p = enemy.position;
    let v = enemy.speed;
    assert!(p.x >= -EDGE_X && p.x <= EDGE_X && p.y >= -EDGE_Y && p.y <= EDGE_Y);
    assert!(p.x == -EDGE_X || p.x == EDGE_X || p.y == EDGE_Y || p.y == -EDGE_Y);
    assert!(v.x.abs() <= 200_000 && v.y.abs() <= 200_000);
    if p.x == -EDGE_X {
        assert!(v.x >= 100_000);
    } else if p.x == EDGE_X {
        assert!(v.x <= -100_000);
    } else if p.y == EDGE_Y {
        assert!(v.y <= -100_000);
    } else {
        assert!(v.y >= 100_000);
    }
}

#[test]
fn enemies_spawn_on_the_edge_heading_inward() {
    for _ in 0..500 {
        assert_spawned(&Enemy::spawn());
    }
}

#[test]
fn get_position_lies_on_the_outer_edge() {
    for _ in 0..200 {
        let p = get_position();
        assert!(p.x.abs() <= EDGE_X && p.y.abs() <= EDGE_Y);
        assert!(p.x.abs() == EDGE_X || p.y.abs() == EDGE_Y);
    }
}

#[test]
fn get_speed_heads_away_from_each_side() {
    for _ in 0..100 {
        let v = get_speed(&Vec2 { x: -EDGE_X, y: 17 });
        assert!(v.x >= 100_000 && v.x <= 200_000 && v.y.abs() <= 200_000);
        let v = get_speed(&Vec2 { x: EDGE_X, y: 17 });
        assert!(v.x <= -100_000 && v.x >= -200_000 && v.y.abs() <= 200_000);
        let v = get_speed(&Vec2 { x: 17, y: EDGE_Y });
        assert!(v.y <= -100_000 && v.y >= -200_000 && v.x.abs() <= 200_000);
        let v = get_speed(&Vec2 { x: 17, y: -EDGE_Y });
        assert!(v.y >= 100_000 && v.y <= 200_000 && v.x.abs() <= 200_000);
    }
}

#[test]
fn speed_from_is_exact() {
    let half = 0x8000_0000;
    let quarter = 0x4000_0000;
    assert_eq!(
        speed_from(&Vec2 { x: -EDGE_X, y: 0 }, half, quarter),
        Vec2 { x: 150_000, y: -100_000 }
    );
    assert_eq!(
        speed_from(&Vec2 { x: EDGE_X, y: 0 }, half, quarter),
        Vec2 { x: -150_000, y: -100_000 }
    );
    assert_eq!(
        speed_from(&Vec2 { x: 0, y: EDGE_Y }, half, quarter),
        Vec2 { x: -100_000, y: -150_000 }
    );
    assert_eq!(
        speed_from(&Vec2 { x: 0, y: -EDGE_Y }, half, quarter),
        Vec2 { x: -100_000, y: 150_000 }
    );
    assert_eq!(speed_from(&Vec2 { x: 0, y: -EDGE_Y }, 0, 0), Vec2 { x: -200_000, y: 100_000 });
    assert_eq!(
        speed_from(&Vec2 { x: 0, y: -EDGE_Y }, u32::MAX, u32::MAX),
        Vec2 { x: 199_999, y: 199_999 }
    );
}

#[test]
fn a_corner_counts_as_the_left_or_right_side() {
    assert_eq!(
        speed_from(&Vec2 { x: -EDGE_X, y: EDGE_Y }, 0, 0x8000_0000),
        Vec2 { x: 100_000, y: 0 }
    );
    assert_eq!(
        speed_from(&Vec2 { x: EDGE_X, y: -EDGE_Y }, 0, 0x8000_0000),
        Vec2 { x: -200_000, y: 0 }
    );
}

#[test]
fn enemy_new_refuses_what_is_too_fast() {
    let position = Vec2 { x: 0, y: 100_000 };
    assert_eq!(
        Enemy::new(position, Vec2 { x: 200_000, y: -200_000 }),
        Some(Enemy { position, speed: Vec2 { x: 200_000, y: -200_000 } })
    );
    assert_eq!(Enemy::new(position, Vec2 { x: 200_001, y: 0 }), None);
    assert_eq!(Enemy::new(position, Vec2 { x: 0, y: -200_001 }), None);
    let rest = Enemy::default();
    assert_eq!(rest, Enemy { position: Vec2 { x: 0, y: 0 }, speed: Vec2 { x: 0, y: 0 } });
}

#[test]
fn add_enemies_makes_the_population() {
    assert_eq!(ENEMY_COUNT, 5);
    let enemies = add_enemies(ENEMY_COUNT);
    assert_eq!(enemies.len(), 5);
    for enemy in enemies.iter() {
        assert_spawned(enemy);
    }
    assert_eq!(add_enemies(0).len(), 0);
    assert_eq!(add_enemies(200).len(), 200);
}

#[test]
fn enemies_move_by_speed_times_time() {
    let mut enemies = vec![
        Enemy { position: Vec2 { x: -364_000, y: 0 }, speed: Vec2 { x: 150_000, y: -100_000 } },
        Enemy { position: Vec2 { x: 364_000, y: 314_000 }, speed: Vec2 { x: -125_500, y: -199_999 } },
    ];
    update_enemies(&mut enemies, 16);
    assert_eq!(
        enemies,
        vec![
            Enemy { position: Vec2 { x: -361_600, y: -1600 }, speed: Vec2 { x: 150_000, y: -100_000 } },
            Enemy {
                position: Vec2 { x: 361_992, y: 310_801 },
                speed: Vec2 { x: -125_500, y: -199_999 }
            },
        ]
    );
}

#[test]
fn an_enemy_beyond_the_edge_starts_anew() {
    let gone = [
        Vec2 { x: 364_001, y: 0 },
        Vec2 { x: -364_001, y: 0 },
        Vec2 { x: 0, y: 314_001 },
        Vec2 { x: 0, y: -314_001 },
        Vec2 { x: i32::MAX, y: i32::MIN },
    ];
    for position in gone.iter() {
        let mut enemies =
            vec![Enemy { position: *position, speed: Vec2 { x: 150_000, y: 150_000 } }];
        update_enemies(&mut enemies, 16);
        assert_eq!(enemies.len(), 1);
        assert_spawned(&enemies[0]);
    }
}

#[test]
fn population_keeps_its_size() {
    let mut enemies = add_enemies(5);
    let mut respawned = false;
    for frame in 0..3000u32 {
        let before = enemies.clone();
        update_enemies(&mut enemies, 16 + (frame % 5) as u16);
        assert_eq!(enemies.len(), 5);
        for (old, new) in before.iter().zip(enemies.iter()) {
            assert!(new.speed.x.abs() <= 200_000 && new.speed.y.abs() <= 200_000);
            if old.position.x.abs() > EDGE_X || old.position.y.abs() > EDGE_Y {
                assert_spawned(new);
                respawned = true;
            } else {
                assert_eq!(new.speed, old.speed);
            }
        }
    }
    assert!(respawned);
}

#[test]
fn enemies_travel_for_the_longest_frame() {
    let mut enemies = vec![Enemy {
        position: Vec2 { x: 364_000, y: -314_000 },
        speed: Vec2 { x: 200_000, y: -200_000 },
    }];
    update_enemies(&mut enemies, u16::MAX);
    assert_eq!(enemies[0].position, Vec2 { x: 13_471_000, y: -13_421_000 });
}

#[test]
fn enemy_count_stops_at_zero() {
    let mut count = EnemyCount::new(2);
    count.remove();
    assert_eq!(count.count, 1);
    count.remove();
    assert_eq!(count.count, 0);
    count.remove();
    assert_eq!(count.count, 0);
}

#[test]
fn enemy_faces_where_it_heads() {
    let enemy = Enemy { position: Vec2 { x: 0, y: 0 }, speed: Vec2 { x: -120_000, y: 160_000 } };
    assert_eq!(enemy.get_rotation(), Vec2 { x: -600, y: 800 });
    assert_eq!(Enemy::default().get_rotation(), Vec2 { x: 0, y: 1000 });
}

#[test]
fn enemy_bounding_rect_follows_its_position() {
    let enemy = Enemy { position: Vec2 { x: 9, y: -9 }, speed: Vec2 { x: 0, y: 0 } };
    assert_eq!(
        enemy.get_bounding_rect(),
        BoundingRect { x: 9, y: -9, width: 128_000, height: 128_000 }
    );
    assert!(!enemy.is_out());
}

#[test]
fn the_outer_edge_lies_half_an_enemy_beyond_the_play_area() {
    assert_eq!(enemy_edge_position(), Position { x: 364_000, y: 314_000 });
    assert_eq!(enemy_edge_position(), Position { x: EDGE_X, y: EDGE_Y });
}
