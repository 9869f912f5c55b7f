use velocity::game::finish_callback;
use velocity::game::{next_frame_action, tick_action, FrameAction, FramePhase, TickAction};
use velocity::input::{
    client_size, get_key_just_pressed, get_key_pressed, get_mouse_button_pressed, quit, CallbackState, InputSnapshot,
    KeyboardState,
};

#[test]
fn helpers_read_callback_snapshot_and_tick_has_no_frame_edges() {
    let mut input = InputSnapshot::default();
    input.buttons = 5;
    input.keys[1] = 2; // A = 65
    input.pressed[1] = 2;
    let state = CallbackState::enter(input, false);
    assert!(get_mouse_button_pressed(&state, 0));
    assert!(!get_mouse_button_pressed(&state, 1));
    assert!(get_mouse_button_pressed(&state, 2));
    assert!(!get_mouse_button_pressed(&state, 255));
    assert!(get_key_pressed(&state, b'A'));
    assert!(get_key_just_pressed(&state, b'A'));
    let mut state = CallbackState::enter(input, true);
    assert!(get_key_pressed(&state, b'A'));
    assert!(!get_key_just_pressed(&state, b'A'));
    quit(&mut state);
    assert!(state.quit);
    let outside = CallbackState::default();
    assert!(!get_key_pressed(&outside, b'A'));
}

#[test]
fn snapshot_holds_exactly_the_window_keys() {
    let mut down = vec![false; 256];
    let mut just = vec![false; 256];
    down[b'A' as usize] = true;
    down[255] = true;
    just[0x20] = true;
    let s = CallbackState::enter(InputSnapshot::from_keys(&down, &just, 1), false);
    for k in 0..=255u8 {
        assert_eq!(get_key_pressed(&s, k), k == b'A' || k == 255);
        assert_eq!(get_key_just_pressed(&s, k), k == 0x20);
    }
    assert!(get_mouse_button_pressed(&s, 0));
}

#[test]
fn keyboard_tracks_presses_within_a_frame() {
    let mut kb = KeyboardState::new();
    kb.key_event(65, true);
    assert!(kb.key_down(65));
    assert!(kb.key_just_pressed(65));
    kb.begin_frame();
    assert!(kb.key_down(65));
    assert!(!kb.key_just_pressed(65));
    kb.key_event(65, false);
    assert!(!kb.key_down(65));
    kb.key_event(66, true);
    kb.focus_lost();
    assert!(!kb.key_down(66));
    kb.button_down(0);
    kb.button_down(2);
    assert_eq!(kb.buttons(), 5);
    assert!(!kb.button_up(0));
    assert!(kb.button_up(2));
    assert_eq!(kb.buttons(), 0);
    kb.button_down(1);
    kb.release_buttons();
    assert_eq!(kb.buttons(), 0);
}

#[test]
fn client_size_unpacks_low_and_high_words() {
    assert_eq!(client_size(0x02d0_0500), (1280, 720));
    assert_eq!(client_size(0), (0, 0));
}

#[test]
fn frame_limits_and_window_sizes_are_checked() {
    use_game_checks();
}

fn use_game_checks() {
    assert_eq!(velocity::game::frame_rate_limit(-1), Ok(None));
    assert_eq!(velocity::game::frame_rate_limit(144), Ok(Some(144)));
    assert_eq!(velocity::game::frame_rate_limit(0).unwrap_err(), "max_framerate must be -1 or positive");
    assert_eq!(velocity::game::frame_rate_limit(-5).unwrap_err(), "max_framerate must be -1 or positive");
    assert!(velocity::game::check_window_size(1280, 720).is_ok());
    assert_eq!(velocity::game::check_window_size(0, 720).unwrap_err(), "invalid window dimensions");
    assert_eq!(velocity::game::check_window_size(32768, 1).unwrap_err(), "invalid window dimensions");
}

#[test]
fn frames_honour_quit_before_any_callback() {
    assert_eq!(next_frame_action(FramePhase::Started, false, true), FrameAction::SwitchScene);
    assert_eq!(next_frame_action(FramePhase::Started, false, false), FrameAction::Process);
    assert_eq!(next_frame_action(FramePhase::Switched, false, false), FrameAction::Process);
    assert_eq!(next_frame_action(FramePhase::Processed, false, true), FrameAction::Render);
    for phase in [FramePhase::Started, FramePhase::Switched, FramePhase::Processed] {
        assert_eq!(next_frame_action(phase, true, true), FrameAction::Stop);
    }
    assert_eq!(tick_action(true, false), TickAction::Stop);
    assert_eq!(tick_action(false, true), TickAction::Skip);
    assert_eq!(tick_action(false, false), TickAction::Tick);
}

#[test]
fn a_request_to_quit_is_kept_across_callbacks() {
    let mut asked = CallbackState::enter(InputSnapshot::default(), false);
    quit(&mut asked);
    let quiet = CallbackState::enter(InputSnapshot::default(), false);
    let mut quitting = false;
    quitting = finish_callback(quitting, &quiet);
    assert!(!quitting);
    quitting = finish_callback(quitting, &asked);
    assert!(quitting);
    quitting = finish_callback(quitting, &quiet);
    assert!(quitting);
}
