use dual_nback::game::{random_practice_settings, simulate_session, start_game, submit_user_input};
use dual_nback::{AccuracyStats, GameState, GenerationError, UserResponse, UserSettings};

fn scripted_state(n: usize, audio: Vec<char>, visual: Vec<u8>) -> GameState {
    let settings = UserSettings { n_level: n, speed_ms: 1000, session_length: audio.len() };
    let mut state = GameState::new(settings);
    state.audio_sequence = audio;
    state.visual_sequence = visual;
    state.is_running = true;
    state
}

fn total(stats: &AccuracyStats) -> u32 {
    stats.true_positives + stats.true_negatives + stats.false_positives + stats.false_negatives
}

#[test]
fn always_no_match_example_counts() {
    let mut state = scripted_state(2, vec!['A', 'B', 'C', 'B', 'D'], vec![1, 2, 1, 4, 1]);
    for _ in 0..5 {
        state.process_turn(UserResponse::default());
    }
    let truth: Vec<(bool, bool)> =
        state.event_history.iter().map(|e| (e.is_visual_match, e.is_audio_match)).collect();
    assert_eq!(
        truth,
        vec![(false, false), (false, false), (true, false), (false, true), (true, false)]
    );
    // Turns 2 and 4 are visual matches, turn 3 an audio match: all missed.
    assert_eq!(state.visual_stats.true_negatives, 3);
    assert_eq!(state.visual_stats.false_negatives, 2);
    assert_eq!(state.visual_stats.true_positives, 0);
    assert_eq!(state.visual_stats.false_positives, 0);
    assert_eq!(state.audio_stats.true_negatives, 4);
    assert_eq!(state.audio_stats.false_negatives, 1);
    assert_eq!(state.audio_stats.true_positives, 0);
    assert_eq!(state.audio_stats.false_positives, 0);
}

#[test]
fn turns_before_lag_are_never_hits_or_misses() {
    // Every symbol equal: any turn from the lag on is a match.
    let mut state = scripted_state(3, vec!['A'; 6], vec![5; 6]);
    for _ in 0..3 {
        state.process_turn(UserResponse { visual_match: true, audio_match: false });
    }
    assert_eq!(state.visual_stats.true_positives, 0);
    assert_eq!(state.visual_stats.false_positives, 3);
    assert_eq!(state.audio_stats.false_negatives, 0);
    assert_eq!(state.audio_stats.true_negatives, 3);
    state.process_turn(UserResponse { visual_match: true, audio_match: false });
    assert_eq!(state.visual_stats.true_positives, 1);
    assert_eq!(state.audio_stats.false_negatives, 1);
}

#[test]
fn counters_add_up_to_processed_turns() {
    let mut state = scripted_state(1, vec!['A', 'A', 'B', 'B', 'A'], vec![1, 2, 2, 3, 3]);
    let answers = [(true, false), (false, true), (true, true), (false, false), (true, true)];
    for (k, &(v, a)) in answers.iter().enumerate() {
        state.process_turn(UserResponse { visual_match: v, audio_match: a });
        assert_eq!(total(&state.visual_stats) as usize, k + 1);
        assert_eq!(total(&state.audio_stats) as usize, k + 1);
        assert_eq!(state.event_history.len(), k + 1);
    }
}

#[test]
fn session_finishes_exactly_at_its_length() {
    let mut state = scripted_state(1, vec!['A', 'B', 'C', 'D'], vec![1, 2, 3, 4]);
    for k in 0..4 {
        assert!(state.is_running);
        state.process_turn(UserResponse::default());
        assert_eq!(state.is_running, k + 1 < 4);
    }
    assert_eq!(state.current_turn_index, 4);
    // Once finished, further answers change nothing.
    state.process_turn(UserResponse { visual_match: true, audio_match: true });
    assert_eq!(state.current_turn_index, 4);
    assert_eq!(state.event_history.len(), 4);
    assert_eq!(total(&state.visual_stats), 4);
}

#[test]
fn process_turn_ignored_when_not_running() {
    let settings = UserSettings { n_level: 2, speed_ms: 1000, session_length: 5 };
    let mut state = GameState::new(settings);
    state.process_turn(UserResponse { visual_match: true, audio_match: true });
    assert_eq!(state.current_turn_index, 0);
    assert!(state.event_history.is_empty());
    assert_eq!(total(&state.visual_stats), 0);
    assert!(state.peek_stimulus().is_none());
}

#[test]
fn peek_returns_current_stimulus_without_advancing() {
    let state = scripted_state(2, vec!['Q', 'R', 'S'], vec![7, 8, 9]);
    let first = state.peek_stimulus().unwrap();
    assert_eq!(first.visual, 7);
    assert_eq!(first.audio, 'Q');
    assert_eq!(state.peek_stimulus(), Some(first));
    assert_eq!(state.current_turn_index, 0);
}

#[test]
fn events_record_stimulus_truth_and_answer() {
    let mut state = scripted_state(1, vec!['A', 'A', 'C'], vec![4, 6, 6]);
    state.process_turn(UserResponse { visual_match: true, audio_match: false });
    state.process_turn(UserResponse { visual_match: false, audio_match: true });
    let e = state.event_history[1];
    assert_eq!(e.turn_index, 1);
    assert_eq!(e.stimulus.visual, 6);
    assert_eq!(e.stimulus.audio, 'A');
    assert!(!e.is_visual_match);
    assert!(e.is_audio_match);
    assert_eq!(e.user_response, UserResponse { visual_match: false, audio_match: true });
}

#[test]
fn upcoming_matches_follow_ground_truth() {
    let mut state = scripted_state(2, vec!['A', 'B', 'A', 'C'], vec![1, 2, 3, 2]);
    assert_eq!(state.upcoming_matches(), (false, false));
    state.process_turn(UserResponse::default());
    state.process_turn(UserResponse::default());
    assert_eq!(state.upcoming_matches(), (false, true));
    state.process_turn(UserResponse::default());
    assert_eq!(state.upcoming_matches(), (true, false));
    state.process_turn(UserResponse::default());
    assert!(!state.is_running);
    assert_eq!(state.upcoming_matches(), (false, false));
}

#[test]
fn new_state_streams_have_session_length() {
    let settings = UserSettings { n_level: 3, speed_ms: 2500, session_length: 40 };
    let state = GameState::new(settings);
    assert_eq!(state.audio_sequence.len(), 40);
    assert_eq!(state.visual_sequence.len(), 40);
    assert!(state.audio_sequence.iter().all(|c| ('A'..='Z').contains(c)));
    assert!(state.visual_sequence.iter().all(|&v| (1..=9).contains(&v)));
    let audio_matches: Vec<usize> =
        (3..40).filter(|&i| state.audio_sequence[i] == state.audio_sequence[i - 3]).collect();
    let visual_matches: Vec<usize> =
        (3..40).filter(|&i| state.visual_sequence[i] == state.visual_sequence[i - 3]).collect();
    // One fifth of 37 positions, rounded up: 8, within [40/6, 40/4].
    assert_eq!(audio_matches.len(), 8);
    assert_eq!(visual_matches.len(), 8);
    assert!(visual_matches.iter().all(|i| !audio_matches.contains(i)));
}

#[test]
fn start_game_clamps_length_and_runs() {
    let short = UserSettings { n_level: 2, speed_ms: 1000, session_length: 5 };
    let state = start_game(short).unwrap();
    assert!(state.is_running);
    assert_eq!(state.settings.session_length, 10);
    assert_eq!(state.current_turn_index, 0);
    assert_eq!(state.audio_sequence.len(), 10);

    let long = UserSettings { n_level: 2, speed_ms: 1000, session_length: 500 };
    assert_eq!(start_game(long).unwrap().settings.session_length, 100);

    let kept = UserSettings { n_level: 4, speed_ms: 1000, session_length: 37 };
    let state = start_game(kept).unwrap();
    assert_eq!(state.settings.session_length, 37);
    assert_eq!(state.settings.n_level, 4);
    assert_eq!(state.settings.speed_ms, 1000);
}

#[test]
fn start_game_rejects_bad_lag() {
    let too_long_lag = UserSettings { n_level: 10, speed_ms: 1000, session_length: 5 };
    assert_eq!(start_game(too_long_lag).err(), Some(GenerationError::InvalidLag));
    let zero_lag = UserSettings { n_level: 0, speed_ms: 1000, session_length: 20 };
    assert_eq!(start_game(zero_lag).err(), Some(GenerationError::InvalidLag));
}

#[test]
fn submit_reports_the_finishing_answer() {
    let mut state = scripted_state(1, vec!['A', 'B', 'C'], vec![1, 2, 3]);
    assert!(!submit_user_input(&mut state, UserResponse::default()));
    assert!(!submit_user_input(&mut state, UserResponse::default()));
    assert!(submit_user_input(&mut state, UserResponse::default()));
    assert!(!submit_user_input(&mut state, UserResponse::default()));
    assert_eq!(state.current_turn_index, 3);
}

#[test]
fn simulated_session_is_complete() {
    let settings = UserSettings { n_level: 2, speed_ms: 2000, session_length: 25 };
    let state = simulate_session(settings);
    assert!(!state.is_running);
    assert_eq!(state.current_turn_index, 25);
    assert_eq!(state.event_history.len(), 25);
    assert_eq!(total(&state.visual_stats), 25);
    assert_eq!(total(&state.audio_stats), 25);
}

#[test]
fn practice_settings_in_range() {
    for _ in 0..50 {
        let s = random_practice_settings();
        assert!((2..=4).contains(&s.n_level));
        assert!((2000..=3000).contains(&s.speed_ms));
        assert!((20..=30).contains(&s.session_length));
    }
}

#[test]
fn default_settings_and_response() {
    let s = UserSettings::default();
    assert_eq!((s.n_level, s.speed_ms, s.session_length), (2, 2000, 20));
    let r = UserResponse::default();
    assert!(!r.visual_match && !r.audio_match);
}
