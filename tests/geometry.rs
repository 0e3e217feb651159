use enemy_ai::geometry::{
    calculate_dodge_position, dodge_position, flee_position, nearest_threat,
    offset_position, random_dodge_position, saturate_i64, scale_to_length,
};

fn dist2(a: (i32, i32), b: (i32, i32)) -> i128 {
    let dx = b.0 as i128 - a.0 as i128;
    let dy = b.1 as i128 - a.1 as i128;
    dx * dx + dy * dy
}

#[test]
fn scale_to_length_values() {
    assert_eq!(scale_to_length(3, 4, 10), (6, 8));
    assert_eq!(scale_to_length(-3, 4, 10), (-6, 8));
    assert_eq!(scale_to_length(0, 0, 10), (0, 0));
    assert_eq!(scale_to_length(10, 0, 50), (50, 0));
    // each component of (1, 1) scaled to 10 is 7.07..., rounded to 7
    assert_eq!(scale_to_length(1, 1, 10), (7, 7));
    assert_eq!(scale_to_length(1, 1, 1), (1, 1));
    assert_eq!(scale_to_length(-2, 1, 100), (-89, 45));
}

#[test]
fn saturate_clamps() {
    assert_eq!(saturate_i64(5), 5);
    assert_eq!(saturate_i64(i64::MAX), i32::MAX);
    assert_eq!(saturate_i64(i64::MIN), i32::MIN);
}

#[test]
fn flee_steps_away_from_threat() {
    assert_eq!(flee_position((0, 0), (3, 4), 10), (-6, -8));
    assert_eq!(flee_position((100, 100), (100, 50), 20), (100, 120));
    // coinciding points give no direction, so no step
    assert_eq!(flee_position((7, 7), (7, 7), 20), (7, 7));
    assert_eq!(flee_position((i32::MIN, 0), (0, 0), 20), (i32::MIN, 0));
}

#[test]
fn offset_position_values() {
    assert_eq!(offset_position((10, 10), 3, 4, 5), (13, 14));
    assert_eq!(offset_position((10, 10), 0, 0, 5), (10, 10));
}

#[test]
fn nearest_threat_picks_closest_within_radius() {
    let ps = vec![(100, 0), (30, 0), (0, 20), (20, 0), (0, -49)];
    assert_eq!(nearest_threat((0, 0), &ps), Some(2));
    assert_eq!(nearest_threat((0, 0), &vec![(50, 0), (0, 60)]), None);
    assert_eq!(nearest_threat((0, 0), &vec![]), None);
    assert_eq!(nearest_threat((0, 0), &vec![(49, 0)]), Some(0));
}

#[test]
fn nearest_threat_ties_go_to_earliest() {
    let ps = vec![(40, 0), (0, 10), (-10, 0), (0, -10)];
    assert_eq!(nearest_threat((0, 0), &ps), Some(1));
}

#[test]
fn dodge_moves_away_from_single_close_projectile() {
    assert_eq!(calculate_dodge_position((0, 0), vec![(10, 0)], 50), (-50, 0));
    assert_eq!(calculate_dodge_position((0, 0), vec![(10, 0)], 7), (-7, 0));
}

#[test]
fn diagonal_dodge_keeps_full_speed() {
    assert_eq!(calculate_dodge_position((0, 0), vec![(1, 1)], 50), (-35, -35));
    assert_eq!(calculate_dodge_position((0, 0), vec![(1, 1)], 1), (-1, -1));
    for (dx, dy) in [(1, 1), (3, -7), (-20, 11), (0, -5), (13, 13)] {
        for speed in [1u16, 2, 7, 50, 333] {
            let p = calculate_dodge_position((100, 100), vec![(100 + dx, 100 + dy)], speed);
            let d2 = dist2((100, 100), p);
            let s = speed as i128;
            assert!((s - 1) * (s - 1) <= d2 && d2 <= (s + 1) * (s + 1), "{:?} {} {:?}", (dx, dy), speed, p);
            assert!((p.0 as i128 - 100) * dx as i128 <= 0 && (p.1 as i128 - 100) * dy as i128 <= 0);
        }
    }
}

#[test]
fn dodge_flees_nearest_of_several() {
    let ps = vec![(1000, 1000), (0, 30), (20, 0)];
    assert_eq!(calculate_dodge_position((0, 0), ps, 40), (-40, 0));
}

#[test]
fn dodge_without_threat_stays_within_radius() {
    for _ in 0..200 {
        let p = calculate_dodge_position((300, -200), vec![(400, -200), (300, 500)], 50);
        assert!(dist2((300, -200), p) <= 500 * 500);
    }
    for _ in 0..200 {
        let p = calculate_dodge_position((0, 0), vec![], 50);
        assert!(dist2((0, 0), p) <= 500 * 500);
    }
}

#[test]
fn dodge_position_uses_fallback_only_without_threat() {
    assert_eq!(dodge_position((0, 0), &vec![(60, 0)], 10, (5, 5)), (5, 5));
    assert_eq!(dodge_position((0, 0), &vec![(0, 10)], 10, (5, 5)), (0, -10));
}

#[test]
fn random_dodge_varies() {
    let first = random_dodge_position((0, 0));
    let mut differs = false;
    for _ in 0..100 {
        let p = random_dodge_position((0, 0));
        assert!(dist2((0, 0), p) <= 500 * 500);
        if p != first {
            differs = true;
        }
    }
    assert!(differs);
}
