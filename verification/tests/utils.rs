use stars_rs::fixed::{axis_distance, ceil_sqrt, clamp, scale};
use stars_rs::utils::{
    advance, heading, hit_test, is_unit_direction, is_within_unit, random_in_range, random_in_rect_edge, rect_edge_point,
    sample_in_range, BoundingRect, Vec2,
};

// Lengths are in thousandths: 1.0 is 1000, 0.49 is 490.

#[test]
fn test_hit_test() {
    let lhr: BoundingRect = BoundingRect { x: 0, y: 0, width: 1000, height: 1000 };
    let rhr: BoundingRect = BoundingRect { x: 490, y: 490, width: 1000, height: 1000 };
    assert_eq!(hit_test(lhr, rhr), true);

    let lhr: BoundingRect = BoundingRect { x: 0, y: 0, width: 1000, height: 1000 };
    let rhr: BoundingRect = BoundingRect { x: 500, y: 500, width: 1000, height: 1000 };
    assert_eq!(hit_test(lhr, rhr), false);
}

#[test]
fn test_random_in_range() {
    for _ in 0..10 {
        let subject = random_in_range(0, 1000);
        assert!(subject >= 0);
        assert!(subject <= 1000);
    }
}

#[test]
fn test_random_in_rect_edge() {
    for _ in 0..10 {
        let subject = random_in_rect_edge(-1000, 1000, 1000, -1000);
        assert!(subject.x >= -1000);
        assert!(subject.x <= 1000);
        assert!(subject.y >= -1000);
        assert!(subject.y <= 1000);
    }
}

#[test]
fn hit_test_is_symmetric() {
    let rects = [
        BoundingRect { x: 0, y: 0, width: 1000, height: 1000 },
        BoundingRect { x: 490, y: -490, width: 1000, height: 1000 },
        BoundingRect { x: 499, y: 0, width: 1000, height: 3000 },
        BoundingRect { x: -64_000, y: 31_000, width: 128_000, height: 128_000 },
        BoundingRect { x: i32::MAX, y: i32::MIN, width: i32::MAX, height: i32::MAX },
        BoundingRect { x: i32::MIN, y: i32::MAX, width: -5, height: 0 },
    ];
    for a in rects.iter() {
        for b in rects.iter() {
            assert_eq!(hit_test(*a, *b), hit_test(*b, *a));
        }
    }
}

#[test]
fn hit_test_uses_a_quarter_of_the_summed_sizes() {
    let wide = BoundingRect { x: 0, y: 0, width: 128_000, height: 128_000 };
    let thin = BoundingRect { x: 33_249, y: 0, width: 5_000, height: 5_000 };
    assert!(hit_test(wide, thin));
    let thin = BoundingRect { x: 33_250, y: 0, width: 5_000, height: 5_000 };
    assert!(!hit_test(wide, thin));
    let thin = BoundingRect { x: 0, y: -33_250, width: 5_000, height: 5_000 };
    assert!(!hit_test(wide, thin));
}

#[test]
fn hit_test_needs_both_axes() {
    let a = BoundingRect { x: 0, y: 0, width: 1000, height: 1000 };
    assert!(!hit_test(a, BoundingRect { x: 100, y: 500, width: 1000, height: 1000 }));
    assert!(!hit_test(a, BoundingRect { x: 500, y: 100, width: 1000, height: 1000 }));
    assert!(hit_test(a, BoundingRect { x: 100, y: 100, width: 1000, height: 1000 }));
}

#[test]
fn hit_test_takes_the_whole_range() {
    let far = BoundingRect { x: i32::MIN, y: i32::MIN, width: i32::MAX, height: i32::MAX };
    let other = BoundingRect { x: i32::MAX, y: i32::MAX, width: i32::MAX, height: i32::MAX };
    assert!(!hit_test(far, other));
    assert!(hit_test(far, far));
}

#[test]
fn sample_in_range_is_exact() {
    assert_eq!(sample_in_range(0, 1000, 0), 0);
    assert_eq!(sample_in_range(0, 1000, 0x8000_0000), 500);
    assert_eq!(sample_in_range(0, 1000, u32::MAX), 999);
    assert_eq!(sample_in_range(100_000, 200_000, 0x4000_0000), 125_000);
    assert_eq!(sample_in_range(-200_000, 200_000, 0x8000_0000), 0);
    assert_eq!(sample_in_range(-200_000, -100_000, 0xC000_0000), -125_000);
    assert_eq!(sample_in_range(7, 7, 0xDEAD_BEEF), 7);
}

#[test]
fn sample_in_range_takes_ends_either_way_round() {
    assert_eq!(sample_in_range(130_000, 40_000, 0), 130_000);
    assert_eq!(sample_in_range(130_000, 40_000, 0x8000_0000), 85_000);
    assert_eq!(sample_in_range(130_000, 40_000, u32::MAX), 40_001);
}

#[test]
fn sample_in_range_takes_the_whole_range() {
    assert_eq!(sample_in_range(i32::MIN, i32::MAX, 0), i32::MIN);
    assert_eq!(sample_in_range(i32::MIN, i32::MAX, u32::MAX), i32::MAX - 1);
    assert_eq!(sample_in_range(i32::MAX, i32::MIN, u32::MAX), i32::MIN + 1);
    assert_eq!(sample_in_range(i32::MIN, i32::MAX, 0x8000_0000), -1);
}

#[test]
fn random_in_range_stays_between_reversed_ends() {
    for _ in 0..200 {
        let subject = random_in_range(130_000, 40_000);
        assert!(subject >= 40_000);
        assert!(subject <= 130_000);
    }
}

#[test]
fn random_in_range_of_one_point() {
    for _ in 0..20 {
        assert_eq!(random_in_range(-3, -3), -3);
    }
}

#[test]
fn random_in_range_varies() {
    let first = random_in_range(i32::MIN, i32::MAX);
    let mut varied = false;
    for _ in 0..64 {
        if random_in_range(i32::MIN, i32::MAX) != first {
            varied = true;
        }
    }
    assert!(varied);
}

#[test]
fn rect_edge_point_is_exact() {
    assert_eq!(
        rect_edge_point(-1000, 1000, 1000, -1000, true, true, 0x8000_0000),
        Vec2 { x: 0, y: 1000 }
    );
    assert_eq!(
        rect_edge_point(-1000, 1000, 1000, -1000, true, false, 0),
        Vec2 { x: -1000, y: -1000 }
    );
    assert_eq!(
        rect_edge_point(-1000, 1000, 1000, -1000, false, true, 0x4000_0000),
        Vec2 { x: 1000, y: -500 }
    );
    assert_eq!(
        rect_edge_point(-1000, 1000, 1000, -1000, false, false, 0xC000_0000),
        Vec2 { x: -1000, y: 500 }
    );
}

#[test]
fn random_in_rect_edge_lies_on_an_edge() {
    let mut sides = [false; 4];
    for _ in 0..400 {
        let p = random_in_rect_edge(-364_000, 364_000, 314_000, -314_000);
        assert!(p.x >= -364_000 && p.x <= 364_000);
        assert!(p.y >= -314_000 && p.y <= 314_000);
        assert!(p.x == -364_000 || p.x == 364_000 || p.y == 314_000 || p.y == -314_000);
        if p.x == -364_000 {
            sides[0] = true;
        }
        if p.x == 364_000 {
            sides[1] = true;
        }
        if p.y == 314_000 {
            sides[2] = true;
        }
        if p.y == -314_000 {
            sides[3] = true;
        }
    }
    assert_eq!(sides, [true; 4]);
}

#[test]
fn scale_rounds_toward_zero() {
    assert_eq!(scale(1500, 960), 1440);
    assert_eq!(scale(-1500, 960), -1440);
    assert_eq!(scale(1, 960), 0);
    assert_eq!(scale(-1, 960), 0);
    assert_eq!(scale(1999, 500), 999);
    assert_eq!(scale(-1999, 500), -999);
    assert_eq!(scale(150_000, 16), 2400);
    assert_eq!(scale(i32::MIN, i32::MIN), 4_611_686_018_427_387);
    assert_eq!(scale(i32::MIN, i32::MAX), -4_611_686_016_279_904);
}

#[test]
fn axis_distance_is_absolute() {
    assert_eq!(axis_distance(3, 10), 7);
    assert_eq!(axis_distance(10, 3), 7);
    assert_eq!(axis_distance(-5, 5), 10);
    assert_eq!(axis_distance(i32::MIN, i32::MAX), 4_294_967_295);
}

#[test]
fn clamp_holds_back_at_the_limit() {
    assert_eq!(clamp(300_001, 300_000), 300_000);
    assert_eq!(clamp(-300_001, 300_000), -300_000);
    assert_eq!(clamp(299_999, 300_000), 299_999);
    assert_eq!(clamp(i64::MAX, 0), 0);
    assert_eq!(clamp(i64::MIN, i32::MAX), -i32::MAX);
}

#[test]
fn ceil_sqrt_rounds_up() {
    assert_eq!(ceil_sqrt(0), 0);
    assert_eq!(ceil_sqrt(1), 1);
    assert_eq!(ceil_sqrt(2), 2);
    assert_eq!(ceil_sqrt(4), 2);
    assert_eq!(ceil_sqrt(5), 3);
    assert_eq!(ceil_sqrt(1_000_000_000_000), 1_000_000);
    assert_eq!(ceil_sqrt(1_000_000_000_001), 1_000_001);
    assert_eq!(ceil_sqrt(1u128 << 96), 1u64 << 48);
    assert_eq!(ceil_sqrt((1u128 << 96) - 1), 1u64 << 48);
}

#[test]
fn heading_is_a_unit_vector() {
    assert_eq!(heading(0, 0), Vec2 { x: 0, y: 1000 });
    assert_eq!(heading(0, 5), Vec2 { x: 0, y: 1000 });
    assert_eq!(heading(0, -5), Vec2 { x: 0, y: -1000 });
    assert_eq!(heading(7, 0), Vec2 { x: 1000, y: 0 });
    assert_eq!(heading(3000, 4000), Vec2 { x: 600, y: 800 });
    assert_eq!(heading(-3000, 4000), Vec2 { x: -600, y: 800 });
    assert_eq!(heading(-300_000, -400_000), Vec2 { x: -600, y: -800 });
    assert_eq!(heading(1, 1), Vec2 { x: 706, y: 706 });
}

#[test]
fn heading_is_never_longer_than_one() {
    let offsets: [i64; 9] =
        [-0x2_0000_0000, -2_147_483_648, -300_000, -1, 0, 1, 17, 299_999, 0x2_0000_0000];
    for dx in offsets.iter() {
        for dy in offsets.iter() {
            let h = heading(*dx, *dy);
            let x = h.x as i64;
            let y = h.y as i64;
            assert!(x * x + y * y <= 1_000_000);
            assert!(x * x + y * y >= 996_000);
            assert!(x == 0 || (x > 0) == (*dx > 0));
            assert!(y == 0 || (y > 0) == (*dy > 0) || (*dx == 0 && *dy == 0));
        }
    }
}

#[test]
fn advance_moves_by_speed_times_time() {
    let start = Vec2 { x: 0, y: 100_000 };
    assert_eq!(advance(start, Vec2 { x: 0, y: 300_000 }, 16), Vec2 { x: 0, y: 104_800 });
    assert_eq!(advance(start, Vec2 { x: -150_000, y: 0 }, 1000), Vec2 { x: -150_000, y: 100_000 });
    assert_eq!(advance(start, Vec2 { x: 999, y: -999 }, 1), Vec2 { x: 0, y: 100_000 });
    assert_eq!(advance(start, Vec2 { x: 1999, y: -1999 }, 1), Vec2 { x: 1, y: 99_999 });
    assert_eq!(advance(start, Vec2 { x: 5, y: 5 }, 0), start);
}

#[test]
fn hit_test_agrees_with_the_formula_in_floats() {
    // Multiples of an eighth are exact in floating point.
    let steps: [i32; 7] = [-1000, -500, -125, 0, 125, 500, 1000];
    let sizes: [i32; 4] = [0, 250, 1000, 2000];
    for ax in steps.iter() {
        for bx in steps.iter() {
            for aw in sizes.iter() {
                for bw in sizes.iter() {
                    let a = BoundingRect { x: *ax, y: *bx, width: *aw, height: *bw };
                    let b = BoundingRect { x: *bx, y: *ax, width: *bw, height: *aw };
                    let fa = [*ax as f32 / 1000.0, *bx as f32 / 1000.0];
                    let fb = [*bx as f32 / 1000.0, *ax as f32 / 1000.0];
                    let fw = (*aw as f32 / 1000.0 + *bw as f32 / 1000.0) / 4.0;
                    let expected = (fa[0] - fb[0]).abs() < fw && (fa[1] - fb[1]).abs() < fw;
                    assert_eq!(hit_test(a, b), expected);
                }
            }
        }
    }
}

#[test]
fn is_unit_direction_tells_a_heading() {
    assert!(is_unit_direction(Vec2 { x: 0, y: 1000 }));
    assert!(is_unit_direction(Vec2 { x: 600, y: -800 }));
    assert!(is_unit_direction(Vec2 { x: 706, y: 706 }));
    assert!(is_unit_direction(Vec2 { x: -998, y: 0 }));
    assert!(!is_unit_direction(Vec2 { x: -997, y: 0 }));
    assert!(!is_unit_direction(Vec2 { x: 0, y: 0 }));
    assert!(!is_unit_direction(Vec2 { x: 500, y: 500 }));
    assert!(!is_unit_direction(Vec2 { x: 601, y: 800 }));
    assert!(!is_unit_direction(Vec2 { x: i32::MIN, y: i32::MAX }));
    let offsets: [i64; 7] = [-0x2_0000_0000, -300_000, -1, 0, 1, 299_999, 0x2_0000_0000];
    for dx in offsets.iter() {
        for dy in offsets.iter() {
            assert!(is_unit_direction(heading(*dx, *dy)));
        }
    }
}

#[test]
fn is_within_unit_tells_the_length() {
    assert!(is_within_unit(Vec2 { x: 0, y: 1000 }));
    assert!(is_within_unit(Vec2 { x: 600, y: -800 }));
    assert!(is_within_unit(Vec2 { x: 0, y: 0 }));
    assert!(!is_within_unit(Vec2 { x: 601, y: 800 }));
    assert!(!is_within_unit(Vec2 { x: 1000, y: 1 }));
    assert!(!is_within_unit(Vec2 { x: i32::MIN, y: i32::MIN }));
}
