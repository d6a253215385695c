use type_defender::menu::Language;
use type_defender::state::{check_console_height, GameError, GameState, TickResult, LANE_COUNT};
use type_defender::tuning::Tuning;
use type_defender::word::{Word, PROGRESS_ONE};

fn session_with(words: &[&str]) -> GameState {
    let mut s = GameState::new();
    s.load_words(words.iter().map(|w| w.to_string()).collect());
    s
}

fn occupied(s: &GameState) -> usize {
    s.lanes.iter().filter(|l| l.is_some()).count()
}

fn live(s: &GameState) -> usize {
    s.words.iter().filter(|w| !w.found).count()
}

#[test]
fn new_session_is_empty() {
    let s = GameState::new();
    assert_eq!(s.score, 0);
    assert_eq!(s.countdown, 20);
    assert_eq!(s.wpm, 30);
    assert_eq!(s.lanes.len(), LANE_COUNT);
    assert!(s.lanes.iter().all(|l| l.is_none()));
    assert!(s.words.is_empty());
    assert_eq!(s.language, Language::English);
}

#[test]
fn load_words_keeps_non_empty_lines() {
    let mut s = GameState::new();
    s.load_words(vec!["apple".to_string(), String::new(), "Pear".to_string(), String::new()]);
    assert_eq!(s.word_pool, vec!["apple".to_string(), "Pear".to_string()]);
}

#[test]
fn place_word_lowercases_and_occupies_lane() {
    let mut s = session_with(&["Apple", "PEAR"]);
    s.place_word(5, 1, 120);
    assert_eq!(s.words.len(), 1);
    assert_eq!(s.words[0].text, "pear");
    assert_eq!(s.words[0].lane, 5);
    assert_eq!(s.words[0].speed, 120);
    assert_eq!(s.words[0].x, 0);
    assert!(!s.words[0].found);
    assert_eq!(s.lanes[5], Some(0));
    assert_eq!(s.word_pool, vec!["Apple".to_string()]);
}

#[test]
fn escape_after_two_hundred_steps_at_half_speed() {
    let mut s = session_with(&["cat"]);
    s.place_word(0, 0, 500);
    for _ in 0..199 {
        assert_eq!(s.advance(), TickResult::Continue);
    }
    assert_eq!(s.words[0].x, 99_500);
    assert_eq!(s.words[0].progress(), 99_500);
    assert!(!s.words[0].escaped());
    assert_eq!(s.advance(), TickResult::Escaped(0));
    assert_eq!(s.words[0].x, 100_000);
    assert!(s.words[0].escaped());
}

#[test]
fn duplicate_words_are_matched_together() {
    let mut s = session_with(&["dog", "dog"]);
    s.place_word(3, 0, 500);
    s.place_word(7, 0, 500);
    assert!(s.check_if_typed("dog"));
    assert!(s.words[0].found && s.words[1].found);
    assert_eq!(s.lanes[3], None);
    assert_eq!(s.lanes[7], None);
    assert_eq!(s.score, 500_000);
    assert!(!s.check_if_typed("dog"));
    assert_eq!(s.score, 500_000);
}

#[test]
fn matching_ignores_case_but_needs_the_whole_word() {
    let mut s = session_with(&["cat"]);
    s.place_word(2, 0, 500);
    assert!(!s.check_if_typed("ca"));
    assert!(!s.words[0].found);
    assert_eq!(s.score, 0);
    assert!(s.check_if_typed("CAT"));
    assert!(s.words[0].found);
    assert_eq!(s.lanes[2], None);
}

#[test]
fn empty_input_is_never_checked() {
    let mut s = session_with(&["cat"]);
    s.place_word(2, 0, 500);
    assert!(!s.submit_input(""));
    assert!(!s.words[0].found);
    assert!(s.submit_input("Cat"));
    assert!(s.words[0].found);
}

#[test]
fn found_word_stops_moving_and_frees_its_lane() {
    let mut s = session_with(&["cat", "dog"]);
    s.place_word(0, 0, 500);
    s.place_word(1, 0, 700);
    s.advance();
    assert!(s.check_if_typed("cat"));
    s.advance();
    assert_eq!(s.words[0].x, 500);
    assert_eq!(s.words[1].x, 1400);
}

#[test]
fn score_rewards_early_matches() {
    let mut early = session_with(&["cat"]);
    early.place_word(0, 0, 1000);
    assert!(early.check_if_typed("cat"));
    let mut late = session_with(&["cat"]);
    late.place_word(0, 0, 1000);
    for _ in 0..50 {
        late.advance();
    }
    assert_eq!(late.words[0].x, 50_000);
    assert!(late.check_if_typed("cat"));
    assert_eq!(early.score, 500_000);
    assert_eq!(late.score, 62_500);
}

#[test]
fn score_never_falls() {
    let mut s = session_with(&["a", "b", "c", "d"]);
    let mut last = s.score;
    s.place_word(0, 0, 400);
    s.place_word(1, 0, 300);
    s.place_word(2, 0, 100_000);
    for text in ["a", "zzz", "b", "c", "d"] {
        s.advance();
        s.check_if_typed(text);
        assert!(s.score >= last);
        last = s.score;
    }
}

#[test]
fn lanes_match_live_words_through_a_session() {
    let pool: Vec<String> = (0..30).map(|i| format!("w{}", i)).collect();
    let mut s = GameState::new();
    s.load_words(pool);
    s.countdown = 0;
    for step in 0..600 {
        match s.tick() {
            Ok(TickResult::Escaped(_)) | Ok(TickResult::Won) | Err(_) => break,
            Ok(TickResult::Continue) => {}
        }
        if step % 7 == 0 {
            let target = s.words.iter().find(|w| !w.found).map(|w| w.text.clone());
            if let Some(t) = target {
                assert!(s.check_if_typed(&t));
            }
        }
        assert_eq!(occupied(&s), live(&s));
    }
    assert!(!s.words.is_empty());
}

#[test]
fn every_speed_is_positive() {
    let pool: Vec<String> = (0..40).map(|i| format!("w{}", i)).collect();
    let mut s = GameState::new();
    s.load_words(pool);
    for _ in 0..40 {
        assert_eq!(s.spawn_new_word(), Ok(()));
    }
    assert_eq!(s.words.len(), 40);
    assert!(s.words.iter().all(|w| w.speed >= 10 && w.speed >= 30 && w.speed <= 70));
}

#[test]
fn spawned_texts_are_unique() {
    let pool: Vec<String> = (0..12).map(|i| format!("word{}", i)).collect();
    let mut s = GameState::new();
    s.load_words(pool);
    for _ in 0..12 {
        assert_eq!(s.spawn_new_word(), Ok(()));
    }
    assert!(s.word_pool.is_empty());
    for i in 0..s.words.len() {
        for j in 0..s.words.len() {
            if i != j {
                assert_ne!(s.words[i].text, s.words[j].text);
            }
        }
    }
    assert_eq!(s.spawn_new_word(), Err(GameError::NoWordsLeft));
}

#[test]
fn spawn_with_every_lane_taken_does_nothing() {
    let pool: Vec<String> = (0..41).map(|i| format!("w{}", i)).collect();
    let mut s = GameState::new();
    s.load_words(pool);
    for lane in 0..LANE_COUNT {
        s.place_word(lane, 0, 100);
    }
    assert!(s.free_lanes().is_empty());
    assert_eq!(s.spawn_new_word(), Ok(()));
    assert_eq!(s.words.len(), 40);
    assert_eq!(s.word_pool.len(), 1);
}

#[test]
fn free_lanes_lists_the_free_ones() {
    let mut s = session_with(&["a", "b"]);
    s.place_word(0, 0, 100);
    s.place_word(39, 0, 100);
    let free = s.free_lanes();
    assert_eq!(free, (1..39).collect::<Vec<usize>>());
}

#[test]
fn tick_counts_down_then_spawns() {
    let mut s = session_with(&["one", "two", "three"]);
    for k in 0..20u64 {
        assert_eq!(s.tick(), Ok(TickResult::Continue));
        assert_eq!(s.countdown, 19 - k);
        assert!(s.words.is_empty());
    }
    assert_eq!(s.tick(), Ok(TickResult::Continue));
    assert_eq!(s.words.len(), 1);
    assert_eq!(s.word_pool.len(), 2);
    assert_eq!(s.countdown, 60);
    assert_eq!(s.wpm, 30);
    assert_eq!(s.words[0].x, s.words[0].speed);
    assert_eq!(occupied(&s), 1);
}

#[test]
fn tick_with_an_empty_pool_and_a_live_word_is_fatal() {
    let mut s = session_with(&["solo"]);
    s.countdown = 0;
    assert_eq!(s.tick(), Ok(TickResult::Continue));
    assert_eq!(s.words.len(), 1);
    s.countdown = 0;
    assert_eq!(s.tick(), Err(GameError::NoWordsLeft));
    assert_eq!(GameError::NoWordsLeft.message(), "No more words left.");
}

#[test]
fn clearing_every_word_wins() {
    let mut s = session_with(&["solo"]);
    s.countdown = 0;
    assert_eq!(s.tick(), Ok(TickResult::Continue));
    assert!(!s.is_cleared());
    assert!(s.check_if_typed("solo"));
    assert!(s.is_cleared());
    assert_eq!(s.tick(), Ok(TickResult::Won));
    let mut empty = GameState::new();
    assert_eq!(empty.tick(), Ok(TickResult::Won));
}

#[test]
fn lane_rows_place_and_colour_words() {
    let mut s = session_with(&["cat"]);
    s.place_word(4, 0, 1000);
    for _ in 0..50 {
        s.advance();
    }
    let rows = s.lane_rows(103);
    assert_eq!(rows.len(), LANE_COUNT);
    for (l, row) in rows.iter().enumerate() {
        assert_eq!(row.is_some(), l == 4);
    }
    let row = rows[4].as_ref().unwrap();
    assert_eq!(row.text, "cat");
    assert_eq!(row.indent, 48);
    assert_eq!(row.red, 127);
    assert_eq!(row.green, 127);
    let narrow = s.lane_rows(4);
    assert_eq!(narrow[4].as_ref().unwrap().indent, 0);
}

#[test]
fn console_height_is_checked() {
    assert_eq!(check_console_height(46), Err(GameError::ConsoleTooSmall));
    assert_eq!(check_console_height(47), Ok(()));
    assert_eq!(
        GameError::ConsoleTooSmall.message(),
        "Console should be at least 47 lines tall"
    );
}

#[test]
fn word_new_and_increment() {
    let mut w = Word::new("hello".to_string(), 3, 250);
    assert_eq!(w.x, 0);
    w.increment();
    w.increment();
    assert_eq!(w.x, 500);
    assert_eq!(w.progress(), 500);
    let mut far = Word::new("x".to_string(), 0, u64::MAX);
    far.increment();
    far.increment();
    assert_eq!(far.x, u64::MAX);
    assert!(far.x >= PROGRESS_ONE);
    assert!(Word::new("a".to_string(), 1, 5) == Word::new("a".to_string(), 2, 9));
    assert!(Word::new("a".to_string(), 1, 5) != Word::new("b".to_string(), 1, 5));
}

#[test]
fn tuning_changes_the_spawn_speed() {
    let mut s = session_with(&["a"]);
    s.tuning = Tuning { tick_rate: 10, wpm_start: 60, wpm_ceiling: 60, wpm_half_score: 1, score_factor: 1 };
    s.wpm = 60;
    assert_eq!(s.spawn_new_word(), Ok(()));
    assert!(s.words[0].speed >= 280 && s.words[0].speed <= 320);
}

#[test]
fn resolve_folded_compares_the_given_keys() {
    let mut s = session_with(&["cat", "dog", "cow"]);
    s.place_word(0, 0, 500);
    s.place_word(1, 0, 500);
    s.place_word(2, 0, 500);
    let keys = vec!["K".to_string(), "Q".to_string(), "K".to_string()];
    assert!(!s.resolve_folded("cat", &keys));
    assert!(s.resolve_folded("K", &keys));
    assert!(s.words[0].found && !s.words[1].found && s.words[2].found);
    assert_eq!(s.lanes[0], None);
    assert_eq!(s.lanes[1], Some(1));
    assert_eq!(s.lanes[2], None);
    assert_eq!(s.score, 500_000);
    assert!(!s.resolve_folded("K", &keys));
}

#[test]
fn with_tuning_starts_at_its_wpm() {
    let t = Tuning { tick_rate: 60, wpm_start: 45, wpm_ceiling: 90, wpm_half_score: 10, score_factor: 2 };
    let s = GameState::with_tuning(t);
    assert_eq!(s.tuning, t);
    assert_eq!(s.wpm, 45);
    assert_eq!(s.countdown, 20);
    assert_eq!(s.lanes.len(), LANE_COUNT);
}
