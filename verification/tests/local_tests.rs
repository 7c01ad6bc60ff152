use ilonhro::local::{should_resize, tail_chars, AppState, Key, KeyAction, KeyModifier, OutputEvent};

#[test]
fn new_state_shows_the_banner() {
    let app = AppState::new("bash".to_string());
    assert_eq!(app.output.lines.len(), 3);
    assert_eq!(app.output.lines[0], "iLonhro Terminal by Lonhro");
    assert_eq!(app.input, "");
    assert_eq!(app.shell_name, "bash");
    assert!(!app.shell_exited);
}

#[test]
fn ctrl_q_requests_quit() {
    let mut app = AppState::new("sh".to_string());
    let action = app.handle_key(Key::Char('q'), KeyModifier::Control);
    assert_eq!(action, KeyAction::Quit);
    assert_eq!(app.input, "");
}

#[test]
fn ctrl_c_sends_interrupt_byte() {
    let mut app = AppState::new("sh".to_string());
    assert_eq!(app.handle_key(Key::Char('c'), KeyModifier::Control), KeyAction::SendControl(0x03));
}

#[test]
fn ctrl_d_sends_end_of_input_byte() {
    let mut app = AppState::new("sh".to_string());
    assert_eq!(app.handle_key(Key::Char('d'), KeyModifier::Control), KeyAction::SendControl(0x04));
}

#[test]
fn enter_sends_the_line_and_clears_it() {
    let mut app = AppState::new("sh".to_string());
    app.handle_key(Key::Char('l'), KeyModifier::Plain);
    app.handle_key(Key::Char('s'), KeyModifier::Plain);
    let action = app.handle_key(Key::Enter, KeyModifier::Plain);
    assert_eq!(action, KeyAction::SendLine("ls\n".to_string()));
    assert_eq!(app.input, "");
}

#[test]
fn backspace_drops_the_last_input_char() {
    let mut app = AppState::new("sh".to_string());
    app.handle_key(Key::Char('a'), KeyModifier::Plain);
    app.handle_key(Key::Char('b'), KeyModifier::Plain);
    assert_eq!(app.handle_key(Key::Backspace, KeyModifier::Plain), KeyAction::Stay);
    assert_eq!(app.input, "a");
}

#[test]
fn backspace_on_empty_input_is_noop() {
    let mut app = AppState::new("sh".to_string());
    assert_eq!(app.handle_key(Key::Backspace, KeyModifier::Plain), KeyAction::Stay);
    assert_eq!(app.input, "");
}

#[test]
fn shifted_chars_are_typed_too() {
    let mut app = AppState::new("sh".to_string());
    app.handle_key(Key::Char('L'), KeyModifier::Shifted);
    assert_eq!(app.input, "L");
}

#[test]
fn other_control_chords_do_nothing() {
    let mut app = AppState::new("sh".to_string());
    assert_eq!(app.handle_key(Key::Char('x'), KeyModifier::Control), KeyAction::Stay);
    assert_eq!(app.handle_key(Key::Char('x'), KeyModifier::Other), KeyAction::Stay);
    assert_eq!(app.handle_key(Key::Other, KeyModifier::Plain), KeyAction::Stay);
    assert_eq!(app.input, "");
}

#[test]
fn paste_appends_to_input() {
    let mut app = AppState::new("sh".to_string());
    app.handle_key(Key::Char('a'), KeyModifier::Plain);
    app.handle_paste("bc");
    assert_eq!(app.input, "abc");
}

#[test]
fn output_chunk_feeds_the_buffer() {
    let mut app = AppState::new("sh".to_string());
    app.apply_output_event(OutputEvent::Chunk(b"hi\n".to_vec()));
    assert_eq!(app.output.lines.len(), 4);
    assert_eq!(app.output.lines[3], "hi");
    assert!(!app.shell_exited);
}

#[test]
fn channel_closure_marks_exit_without_ending_anything() {
    let mut app = AppState::new("sh".to_string());
    app.apply_output_event(OutputEvent::Closed);
    assert!(app.shell_exited);
    assert_eq!(app.output.lines.len(), 3);
    assert_eq!(app.input, "");
    // The loop goes on: keys still work, only an explicit quit ends it.
    app.handle_key(Key::Char('x'), KeyModifier::Plain);
    assert_eq!(app.input, "x");
    assert_eq!(app.handle_key(Key::Char('q'), KeyModifier::Control), KeyAction::Quit);
}

#[test]
fn resize_only_on_a_real_nonzero_change() {
    assert!(should_resize(0, 0, 80, 24));
    assert!(!should_resize(80, 24, 80, 24));
    assert!(should_resize(80, 24, 81, 24));
    assert!(!should_resize(80, 24, 0, 24));
    assert!(!should_resize(80, 24, 80, 0));
}

#[test]
fn tail_chars_keeps_the_tail() {
    assert_eq!(tail_chars("abcdef", 0), "");
    assert_eq!(tail_chars("abcdef", 6), "abcdef");
    assert_eq!(tail_chars("abcdef", 10), "abcdef");
    assert_eq!(tail_chars("abcdef", 3), "def");
}
