use harness::{
    capture_file_name, ScreenshotPhase, ScreenshotState, SequenceSettings, TickAction,
    PRE_ROLL_FRAMES, SETTLE_FRAMES,
};

fn state_in(phase: ScreenshotPhase) -> ScreenshotState {
    let mut state = ScreenshotState::new(1_700_000_000_123);
    state.phase = phase;
    state
}

#[test]
fn new_state_starts_with_pre_roll() {
    let state = ScreenshotState::new(1_700_000_000_123);
    assert_eq!(state.phase, ScreenshotPhase::Init(60));
    assert_eq!(PRE_ROLL_FRAMES, 60);
    assert_eq!(SETTLE_FRAMES, 30);
    assert_eq!(ScreenshotPhase::default(), ScreenshotPhase::Init(PRE_ROLL_FRAMES));
    assert_eq!(state.current_preset, 0);
    assert_eq!(state.session_dir, "1700000000123");
    assert!(state.captured_paths.is_empty());
    assert_eq!(ScreenshotState::new(0).session_dir, "0");
    assert_eq!(ScreenshotState::new(u64::MAX).session_dir, "18446744073709551615");
}

#[test]
fn pre_roll_counts_down_then_waits_for_frame() {
    let settings = SequenceSettings { multi_shot: true, exit_after: true, preset_count: 3 };
    let mut state = state_in(ScreenshotPhase::Init(3));
    let mut seen = Vec::new();
    for _ in 0..4 {
        assert_eq!(state.tick(&[], &settings), TickAction::Wait);
        seen.push(state.phase);
    }
    assert_eq!(
        seen,
        vec![
            ScreenshotPhase::Init(2),
            ScreenshotPhase::Init(1),
            ScreenshotPhase::Init(0),
            ScreenshotPhase::Capturing,
        ]
    );
    for _ in 0..10 {
        assert_eq!(state.tick(&[], &settings), TickAction::Wait);
        assert_eq!(state.phase, ScreenshotPhase::Capturing);
        assert!(state.captured_paths.is_empty());
    }
    assert_eq!(
        state.tick(&[7, 7, 7, 7], &settings),
        TickAction::Capture { preset: 0, next_preset: Some(1) }
    );
}

#[test]
fn frames_during_pre_roll_are_ignored() {
    let settings = SequenceSettings { multi_shot: true, exit_after: true, preset_count: 1 };
    let mut state = state_in(ScreenshotPhase::Init(1));
    assert_eq!(state.tick(&[1, 2, 3], &settings), TickAction::Wait);
    assert_eq!(state.phase, ScreenshotPhase::Init(0));
    assert_eq!(state.tick(&[1, 2, 3], &settings), TickAction::Wait);
    assert_eq!(state.phase, ScreenshotPhase::Capturing);
}

#[test]
fn two_presets_multi_shot_reach_done_with_two_paths() {
    let settings = SequenceSettings { multi_shot: true, exit_after: true, preset_count: 2 };
    let mut state = state_in(ScreenshotPhase::Capturing);
    let frame = vec![1u8; 16];

    let action = state.tick(&frame, &settings);
    assert_eq!(action, TickAction::Capture { preset: 0, next_preset: Some(1) });
    state.record_capture(format!("shots/{}/{}", state.session_dir, capture_file_name("wide")));
    assert_eq!(state.phase, ScreenshotPhase::Settling(SETTLE_FRAMES));
    assert_eq!(state.current_preset, 1);

    for n in (0..SETTLE_FRAMES).rev() {
        assert_eq!(state.tick(&frame, &settings), TickAction::Wait);
        assert_eq!(state.phase, ScreenshotPhase::Settling(n));
    }
    assert_eq!(state.tick(&frame, &settings), TickAction::Wait);
    assert_eq!(state.phase, ScreenshotPhase::Capturing);

    let action = state.tick(&frame, &settings);
    assert_eq!(action, TickAction::Capture { preset: 1, next_preset: None });
    state.record_capture(format!("shots/{}/{}", state.session_dir, capture_file_name("close")));
    assert_eq!(state.phase, ScreenshotPhase::Done);
    assert_eq!(state.captured_paths.len(), 2);
    assert_eq!(state.captured_paths[1], "shots/1700000000123/close.png");
    assert_eq!(state.tick(&frame, &settings), TickAction::Exit);
}

#[test]
fn single_shot_is_done_after_one_capture() {
    for preset_count in [1usize, 2, 3, 10] {
        let settings = SequenceSettings { multi_shot: false, exit_after: true, preset_count };
        let mut state = state_in(ScreenshotPhase::Capturing);
        let action = state.tick(&[0, 0, 0, 255], &settings);
        assert_eq!(action, TickAction::Capture { preset: 0, next_preset: None });
        assert_eq!(state.phase, ScreenshotPhase::Done);
        assert_eq!(state.current_preset, 0);
    }
}

#[test]
fn last_preset_ends_sequence() {
    let settings = SequenceSettings { multi_shot: true, exit_after: true, preset_count: 3 };
    let mut state = state_in(ScreenshotPhase::Capturing);
    state.current_preset = 2;
    assert_eq!(state.tick(&[1], &settings), TickAction::Capture { preset: 2, next_preset: None });
    assert_eq!(state.phase, ScreenshotPhase::Done);
}

#[test]
fn done_without_exit_stays_idle() {
    let settings = SequenceSettings { multi_shot: true, exit_after: false, preset_count: 1 };
    let mut state = state_in(ScreenshotPhase::Done);
    for _ in 0..3 {
        assert_eq!(state.tick(&[1, 2], &settings), TickAction::Wait);
        assert_eq!(state.phase, ScreenshotPhase::Done);
    }
}

#[test]
fn record_capture_appends_in_order() {
    let mut state = ScreenshotState::new(5);
    state.record_capture("a.png".to_string());
    state.record_capture("b.png".to_string());
    assert_eq!(state.captured_paths, vec!["a.png".to_string(), "b.png".to_string()]);
    assert_eq!(state.phase, ScreenshotPhase::Init(PRE_ROLL_FRAMES));
}

#[test]
fn capture_file_names() {
    assert_eq!(capture_file_name("wide"), "wide.png");
    assert_eq!(capture_file_name("detail_top"), "detail_top.png");
    assert_eq!(capture_file_name(""), ".png");
}
