use type_defender::tuning::{Tuning, MIN_SPEED};

#[test]
fn standard_tuning_values() {
    let t = Tuning::standard();
    assert_eq!(t.tick_rate, 30);
    assert_eq!(t.wpm_start, 30);
    assert_eq!(t.wpm_ceiling, 120);
    assert_eq!(t.wpm_half_score, 500_000);
    assert_eq!(t.score_factor, 500);
}

#[test]
fn wpm_grows_and_saturates() {
    let t = Tuning::standard();
    assert_eq!(t.wpm_for_score(0), 30);
    assert_eq!(t.wpm_for_score(500_000), 75);
    assert_eq!(t.wpm_for_score(1_500_000), 97);
    assert_eq!(t.wpm_for_score(u64::MAX), 119);
    let mut last = 0;
    for score in (0..5_000_000u64).step_by(37_000) {
        let w = t.wpm_for_score(score);
        assert!(w >= last && w <= 120);
        last = w;
    }
}

#[test]
fn spawn_interval_rounds_to_nearest_step() {
    let t = Tuning::standard();
    assert_eq!(t.spawn_interval(30), 60);
    assert_eq!(t.spawn_interval(75), 24);
    assert_eq!(t.spawn_interval(120), 15);
    assert_eq!(t.spawn_interval(7), 257);
}

#[test]
fn spawn_speed_adds_jitter_and_keeps_a_floor() {
    let t = Tuning::standard();
    assert_eq!(t.spawn_speed(30, 0), 50);
    assert_eq!(t.spawn_speed(30, -20), 30);
    assert_eq!(t.spawn_speed(30, 20), 70);
    assert_eq!(t.spawn_speed(120, 0), 200);
    let slow = Tuning { tick_rate: 1000, wpm_start: 1, wpm_ceiling: 2, wpm_half_score: 1, score_factor: 1 };
    assert_eq!(slow.spawn_speed(1, -20), MIN_SPEED);
    assert_eq!(slow.spawn_speed(1, 20), 20);
}

#[test]
fn award_is_cubic_in_headroom() {
    let t = Tuning::standard();
    assert_eq!(t.award(0, 500), 250_000);
    assert_eq!(t.award(50_000, 1000), 62_500);
    assert_eq!(t.award(90_000, 1000), 500);
    assert_eq!(t.award(100_000, 1000), 0);
    assert_eq!(t.award(250_000, 1000), 0);
}
