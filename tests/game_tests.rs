use dual_nback::{GameState, UserResponse, UserSettings};

fn default_settings() -> UserSettings {
    UserSettings {
        n_level: 2,
        speed_ms: 1000,
        session_length: 5,
    }
}

#[test]
fn test_new_game_state() {
    let settings = default_settings();
    let game_state = GameState::new(settings.clone());
    assert_eq!(game_state.settings.n_level, 2);
    assert_eq!(game_state.is_running, false);
    assert_eq!(game_state.event_history.len(), 0);
    assert_eq!(game_state.current_turn_index, 0);
    assert_eq!(game_state.visual_stats.true_positives, 0);
}

#[test]
fn test_peek_and_process_turn() {
    let mut settings = default_settings();
    settings.session_length = 5;
    let mut game_state = GameState::new(settings);
    game_state.is_running = true;

    for i in 0..5 {
        assert_eq!(game_state.current_turn_index, i);
        let stimulus = game_state.peek_stimulus().unwrap();
        assert!(stimulus.visual > 0);

        game_state.process_turn(UserResponse::default());
        assert_eq!(game_state.event_history.len(), i + 1);
    }

    assert_eq!(game_state.current_turn_index, 5);
    assert_eq!(game_state.is_running, false);

    assert!(game_state.peek_stimulus().is_none());
}

#[test]
fn test_process_turn_with_pregen_sequence() {
    let mut settings = default_settings();
    settings.n_level = 2;
    let mut game_state = GameState::new(settings);

    game_state.audio_sequence = vec!['A', 'B', 'C', 'B', 'D'];
    game_state.visual_sequence = vec![1, 2, 1, 4, 1];

    game_state.is_running = true;

    // Turn 0
    game_state.peek_stimulus();
    game_state.process_turn(UserResponse { visual_match: false, audio_match: false });
    assert_eq!(game_state.visual_stats.true_negatives, 1);
    assert_eq!(game_state.audio_stats.true_negatives, 1);
    assert_eq!(game_state.current_turn_index, 1);
    let event0 = &game_state.event_history[0];
    assert_eq!(event0.is_visual_match, false);
    assert_eq!(event0.user_response.visual_match, false);

    // Turn 1
    game_state.peek_stimulus();
    game_state.process_turn(UserResponse { visual_match: false, audio_match: false });
    assert_eq!(game_state.visual_stats.true_negatives, 2);
    assert_eq!(game_state.audio_stats.true_negatives, 2);
    assert_eq!(game_state.current_turn_index, 2);

    // Turn 2: visual match
    game_state.peek_stimulus();
    game_state.process_turn(UserResponse { visual_match: true, audio_match: false });
    assert_eq!(game_state.visual_stats.true_positives, 1);
    assert_eq!(game_state.audio_stats.true_negatives, 3);
    assert_eq!(game_state.current_turn_index, 3);
    let event2 = &game_state.event_history[2];
    assert_eq!(event2.is_visual_match, true);
    assert_eq!(event2.user_response.visual_match, true);

    // Turn 3: audio match
    game_state.peek_stimulus();
    game_state.process_turn(UserResponse { visual_match: false, audio_match: true });
    assert_eq!(game_state.visual_stats.true_negatives, 3);
    assert_eq!(game_state.audio_stats.true_positives, 1);
    assert_eq!(game_state.current_turn_index, 4);
    let event3 = &game_state.event_history[3];
    assert_eq!(event3.is_audio_match, true);
    assert_eq!(event3.user_response.audio_match, true);

    // Turn 4: visual match, missed
    game_state.peek_stimulus();
    game_state.process_turn(UserResponse { visual_match: false, audio_match: false });
    assert_eq!(game_state.visual_stats.false_negatives, 1);
    assert_eq!(game_state.audio_stats.true_negatives, 4);
    assert_eq!(game_state.current_turn_index, 5);
    let event4 = &game_state.event_history[4];
    assert_eq!(event4.is_visual_match, true);
    assert_eq!(event4.user_response.visual_match, false);
}

#[test]
fn test_logic_with_n_equals_3() {
    let mut settings = default_settings();
    settings.n_level = 3;
    settings.session_length = 6;
    let mut game_state = GameState::new(settings);

    game_state.audio_sequence = vec!['A', 'B', 'C', 'A', 'D', 'C'];
    game_state.visual_sequence = vec![1, 2, 3, 4, 2, 6];

    game_state.is_running = true;

    for _ in 0..3 {
        game_state.peek_stimulus();
        game_state.process_turn(UserResponse::default());
    }
    assert_eq!(game_state.current_turn_index, 3);
    assert_eq!(game_state.visual_stats.true_negatives, 3);
    assert_eq!(game_state.audio_stats.true_negatives, 3);

    // Turn 3: audio match
    game_state.peek_stimulus();
    game_state.process_turn(UserResponse { visual_match: false, audio_match: true });
    assert_eq!(game_state.audio_stats.true_positives, 1);
    assert_eq!(game_state.visual_stats.true_negatives, 4);
    assert_eq!(game_state.current_turn_index, 4);

    // Turn 4: visual match
    game_state.peek_stimulus();
    game_state.process_turn(UserResponse { visual_match: true, audio_match: false });
    assert_eq!(game_state.visual_stats.true_positives, 1);
    assert_eq!(game_state.audio_stats.true_negatives, 4);
    assert_eq!(game_state.current_turn_index, 5);

    // Turn 5: audio match, missed
    game_state.peek_stimulus();
    game_state.process_turn(UserResponse { visual_match: false, audio_match: false });
    assert_eq!(game_state.audio_stats.false_negatives, 1);
    assert_eq!(game_state.visual_stats.true_negatives, 5);
    assert_eq!(game_state.current_turn_index, 6);
}
