use paneview::app::FocusDirection;
use paneview::input::{key_labels, InputAction, InputState, KeyCode, KeyEvent, KeyEventKind, KeyModifiers, ScrollAction};
use paneview::layout::SplitDirection;

fn press(code: KeyCode, modifiers: KeyModifiers) -> KeyEvent {
    // KeyEvent::new makes a press.
    KeyEvent::new(code, modifiers)
}

#[test]
fn ctrl_s_in_normal_mode_is_passed_to_pty() {
    let mut state = InputState::new();
    let action = state.handle(press(KeyCode::Char('s'), KeyModifiers::control()));
    assert_eq!(action, Some(InputAction::Send(vec![0x13])));
}

#[test]
fn ctrl_q_in_normal_mode_is_passed_to_pty() {
    let mut state = InputState::new();
    let action = state.handle(press(KeyCode::Char('q'), KeyModifiers::control()));
    assert_eq!(action, Some(InputAction::Send(vec![0x11])));
}

#[test]
fn prefix_then_q_quits() {
    let mut state = InputState::new();
    assert!(state.handle(press(KeyCode::Char('b'), KeyModifiers::control())).is_none());
    assert!(state.prefix_armed());
    let action = state.handle(press(KeyCode::Char('q'), KeyModifiers::none()));
    assert_eq!(action, Some(InputAction::Quit));
    assert!(!state.prefix_armed());
}

#[test]
fn prefix_then_arrow_moves_focus() {
    let mut state = InputState::new();
    state.handle(press(KeyCode::Char('b'), KeyModifiers::control()));
    let action = state.handle(press(KeyCode::Right, KeyModifiers::none()));
    assert_eq!(action, Some(InputAction::Focus(FocusDirection::Right)));
}

#[test]
fn ctrl_up_uses_modifier_csi_sequence() {
    let mut state = InputState::new();
    let action = state.handle(press(KeyCode::Up, KeyModifiers::control()));
    assert_eq!(action, Some(InputAction::Send(b"\x1b[1;5A".to_vec())));
}

#[test]
fn shift_left_uses_modifier_csi_sequence() {
    let mut state = InputState::new();
    let action = state.handle(press(KeyCode::Left, KeyModifiers::shift()));
    assert_eq!(action, Some(InputAction::Send(b"\x1b[1;2D".to_vec())));
}

#[test]
fn plain_f1_sends_ss3_sequence() {
    let mut state = InputState::new();
    let action = state.handle(press(KeyCode::F(1), KeyModifiers::none()));
    assert_eq!(action, Some(InputAction::Send(b"\x1bOP".to_vec())));
}

#[test]
fn ctrl_f5_uses_csi_modifier_form() {
    let mut state = InputState::new();
    let action = state.handle(press(KeyCode::F(5), KeyModifiers::control()));
    assert_eq!(action, Some(InputAction::Send(b"\x1b[15;5~".to_vec())));
}

#[test]
fn alt_letter_gets_esc_prefix() {
    let mut state = InputState::new();
    let action = state.handle(press(KeyCode::Char('x'), KeyModifiers::alt()));
    assert_eq!(action, Some(InputAction::Send(b"\x1bx".to_vec())));
}

#[test]
fn scroll_mode_captures_navigation() {
    let mut state = InputState::new();
    state.set_scroll_mode(true);
    let action = state.handle(press(KeyCode::PageUp, KeyModifiers::none()));
    assert_eq!(action, Some(InputAction::Scroll(ScrollAction::PageUp)));
}

#[test]
fn scroll_mode_q_exits() {
    let mut state = InputState::new();
    state.set_scroll_mode(true);
    let action = state.handle(press(KeyCode::Char('q'), KeyModifiers::none()));
    assert_eq!(action, Some(InputAction::ExitScrollMode));
}

#[test]
fn prefix_then_pipe_splits_vertically() {
    let mut state = InputState::new();
    state.handle(press(KeyCode::Char('b'), KeyModifiers::control()));
    let action = state.handle(press(KeyCode::Char('|'), KeyModifiers::none()));
    assert_eq!(action, Some(InputAction::Split(SplitDirection::Vertical)));
}

#[test]
fn prefix_then_minus_splits_horizontally() {
    let mut state = InputState::new();
    state.handle(press(KeyCode::Char('b'), KeyModifiers::control()));
    let action = state.handle(press(KeyCode::Char('-'), KeyModifiers::none()));
    assert_eq!(action, Some(InputAction::Split(SplitDirection::Horizontal)));
}

#[test]
fn prefix_then_x_closes_pane() {
    let mut state = InputState::new();
    state.handle(press(KeyCode::Char('b'), KeyModifiers::control()));
    let action = state.handle(press(KeyCode::Char('x'), KeyModifiers::none()));
    assert_eq!(action, Some(InputAction::ClosePane));
}

#[test]
fn prefix_armed_consumed_even_on_unknown_key() {
    // An unknown key after the prefix consumes the prefix and does nothing.
    let mut state = InputState::new();
    state.handle(press(KeyCode::Char('b'), KeyModifiers::control()));
    assert!(state.prefix_armed());
    let action = state.handle(press(KeyCode::Char('?'), KeyModifiers::none()));
    assert!(action.is_none());
    assert!(!state.prefix_armed());
}

#[test]
fn ctrl_shift_left_uses_combined_modifier() {
    let mut state = InputState::new();
    let action = state.handle(press(KeyCode::Left, KeyModifiers::control().union(KeyModifiers::shift())));
    // 6 == Ctrl+Shift in the xterm modifier encoding.
    assert_eq!(action, Some(InputAction::Send(b"\x1b[1;6D".to_vec())));
}

#[test]
fn plain_arrow_has_no_modifier_param() {
    let mut state = InputState::new();
    let action = state.handle(press(KeyCode::Up, KeyModifiers::none()));
    assert_eq!(action, Some(InputAction::Send(b"\x1b[A".to_vec())));
}

#[test]
fn unrecognised_scroll_key_exits_mode_silently() {
    let mut state = InputState::new();
    state.set_scroll_mode(true);
    // A letter that is no scroll command leaves scroll mode.
    let action = state.handle(press(KeyCode::Char('z'), KeyModifiers::none()));
    assert!(action.is_none());
    assert!(!state.scroll_mode());
}

#[test]
fn release_events_do_nothing() {
    let mut state = InputState::new();
    let mut key = press(KeyCode::Char('b'), KeyModifiers::control());
    key.kind = KeyEventKind::Release;
    assert!(state.handle(key).is_none());
    assert!(!state.prefix_armed());
}

#[test]
fn plain_character_is_sent_as_utf8() {
    let mut state = InputState::new();
    let action = state.handle(press(KeyCode::Char('é'), KeyModifiers::none()));
    assert_eq!(action, Some(InputAction::Send("é".as_bytes().to_vec())));
}

#[test]
fn enter_sends_carriage_return() {
    let mut state = InputState::new();
    let action = state.handle(press(KeyCode::Enter, KeyModifiers::none()));
    assert_eq!(action, Some(InputAction::Send(vec![b'\r'])));
}

#[test]
fn prefix_then_bracket_enters_scroll_mode() {
    let mut state = InputState::new();
    state.handle(press(KeyCode::Char('b'), KeyModifiers::control()));
    let action = state.handle(press(KeyCode::Char('['), KeyModifiers::none()));
    assert_eq!(action, Some(InputAction::EnterScrollMode));
}

#[test]
fn key_labels_name_letter_and_modifier() {
    let labels = key_labels(press(KeyCode::Char('a'), KeyModifiers::control()));
    assert!(labels.contains(&"A"));
    assert!(labels.contains(&"CTRL"));
}

fn after_prefix(code: KeyCode) -> Option<InputAction> {
    let mut state = InputState::new();
    state.handle(press(KeyCode::Char('b'), KeyModifiers::control()));
    state.handle(press(code, KeyModifiers::none()))
}

#[test]
fn prefix_bindings_follow_the_key_table() {
    assert_eq!(after_prefix(KeyCode::Char('h')), Some(InputAction::Focus(FocusDirection::Left)));
    assert_eq!(after_prefix(KeyCode::Char('j')), Some(InputAction::Focus(FocusDirection::Down)));
    assert_eq!(after_prefix(KeyCode::Char('k')), Some(InputAction::Focus(FocusDirection::Up)));
    assert_eq!(after_prefix(KeyCode::Char('l')), Some(InputAction::Focus(FocusDirection::Right)));
    assert_eq!(after_prefix(KeyCode::Down), Some(InputAction::Focus(FocusDirection::Down)));
    assert_eq!(after_prefix(KeyCode::Char('\\')), Some(InputAction::Split(SplitDirection::Vertical)));
    assert_eq!(after_prefix(KeyCode::Char('n')), Some(InputAction::NewPane));
    assert_eq!(after_prefix(KeyCode::Char('c')), Some(InputAction::NewPane));
    assert_eq!(after_prefix(KeyCode::Char('w')), Some(InputAction::ClosePane));
    assert_eq!(after_prefix(KeyCode::Char('s')), Some(InputAction::ToggleSystem));
    assert_eq!(after_prefix(KeyCode::PageUp), Some(InputAction::EnterScrollMode));
}

fn in_scroll_mode(code: KeyCode) -> Option<InputAction> {
    let mut state = InputState::new();
    state.set_scroll_mode(true);
    state.handle(press(code, KeyModifiers::none()))
}

#[test]
fn scroll_bindings_follow_the_key_table() {
    assert_eq!(in_scroll_mode(KeyCode::Char('b')), Some(InputAction::Scroll(ScrollAction::PageUp)));
    assert_eq!(in_scroll_mode(KeyCode::PageDown), Some(InputAction::Scroll(ScrollAction::PageDown)));
    assert_eq!(in_scroll_mode(KeyCode::Char('f')), Some(InputAction::Scroll(ScrollAction::PageDown)));
    assert_eq!(in_scroll_mode(KeyCode::Up), Some(InputAction::Scroll(ScrollAction::LineUp)));
    assert_eq!(in_scroll_mode(KeyCode::Char('j')), Some(InputAction::Scroll(ScrollAction::LineDown)));
    assert_eq!(in_scroll_mode(KeyCode::Char('g')), Some(InputAction::Scroll(ScrollAction::Top)));
    assert_eq!(in_scroll_mode(KeyCode::Home), Some(InputAction::Scroll(ScrollAction::Top)));
    assert_eq!(in_scroll_mode(KeyCode::Char('G')), Some(InputAction::Scroll(ScrollAction::Bottom)));
    assert_eq!(in_scroll_mode(KeyCode::End), Some(InputAction::Scroll(ScrollAction::Bottom)));
    assert_eq!(in_scroll_mode(KeyCode::Esc), Some(InputAction::ExitScrollMode));
}

#[test]
fn shell_shortcuts_reach_the_shell() {
    for (letter, code) in [('c', 0x03u8), ('s', 0x13), ('q', 0x11), ('w', 0x17), ('z', 0x1a)] {
        let mut state = InputState::new();
        let action = state.handle(press(KeyCode::Char(letter), KeyModifiers::control()));
        assert_eq!(action, Some(InputAction::Send(vec![code])));
        assert!(!state.prefix_armed());
    }
}

#[test]
fn function_keys_and_navigation_are_forwarded() {
    let mut state = InputState::new();
    assert_eq!(
        state.handle(press(KeyCode::F(12), KeyModifiers::none())),
        Some(InputAction::Send(b"\x1b[24~".to_vec()))
    );
    assert_eq!(
        state.handle(press(KeyCode::F(4), KeyModifiers::alt())),
        Some(InputAction::Send(b"\x1b[1;3S".to_vec()))
    );
    assert_eq!(
        state.handle(press(KeyCode::Delete, KeyModifiers::none())),
        Some(InputAction::Send(b"\x1b[3~".to_vec()))
    );
    assert_eq!(state.handle(press(KeyCode::F(13), KeyModifiers::none())), None);
    assert_eq!(
        state.handle(press(KeyCode::Char('a'), KeyModifiers::alt())),
        Some(InputAction::Send(b"\x1ba".to_vec()))
    );
}

#[test]
fn prefix_cannot_be_armed_in_scroll_mode() {
    let mut state = InputState::new();
    assert!(!state.prefix_armed() && !state.scroll_mode());
    state.handle(press(KeyCode::Char('b'), KeyModifiers::control()));
    assert!(state.prefix_armed());
    state.set_scroll_mode(true);
    assert!(state.scroll_mode());
    assert!(!state.prefix_armed());
    // In scroll mode the prefix chord is not a prefix: nothing arms.
    state.handle(press(KeyCode::Char('b'), KeyModifiers::control()));
    assert!(!(state.scroll_mode() && state.prefix_armed()));
}
