use std::collections::HashMap;

use paneview::app::{directional_neighbor, AppState, Command, FocusDirection, ScrollStep};
use paneview::input::{InputAction, KeyCode, KeyEvent, KeyEventKind, KeyModifiers, ScrollAction};
use paneview::layout::{PaneId, SplitDirection};
use paneview::rect::Rect;

fn r(x: u16, y: u16, w: u16, h: u16) -> Rect {
    Rect::new(x, y, w, h)
}

#[test]
fn right_neighbor_prefers_axis_overlap() {
    // Layout:
    //   +-------+---+
    //   |   A   | B |   B is aligned with A on the y-axis
    //   +-------+---+
    //   |     C     |
    //   +-----------+
    // Moving right from A picks B, not C.
    let mut last_rects = HashMap::new();
    last_rects.insert(1usize, r(0, 0, 40, 10));
    last_rects.insert(2usize, r(40, 0, 20, 10));
    last_rects.insert(3usize, r(0, 10, 60, 10));

    assert_eq!(directional_neighbor(&last_rects, PaneId(1), FocusDirection::Right), Some(PaneId(2)));
}

#[test]
fn left_with_no_neighbor_returns_none() {
    let mut last_rects = HashMap::new();
    last_rects.insert(1usize, r(0, 0, 40, 10));
    assert_eq!(directional_neighbor(&last_rects, PaneId(1), FocusDirection::Left), None);
}

#[test]
fn down_picks_overlapping_pane() {
    let mut last_rects = HashMap::new();
    last_rects.insert(1usize, r(0, 0, 40, 10));
    // Stacked below A, partial overlap on x.
    last_rects.insert(2usize, r(20, 10, 60, 10));
    assert_eq!(directional_neighbor(&last_rects, PaneId(1), FocusDirection::Down), Some(PaneId(2)));
}

#[test]
fn up_prefers_nearest_candidate() {
    let mut last_rects = HashMap::new();
    last_rects.insert(1usize, r(0, 20, 40, 10));
    last_rects.insert(2usize, r(0, 10, 40, 10));
    last_rects.insert(3usize, r(0, 0, 40, 10));
    assert_eq!(directional_neighbor(&last_rects, PaneId(1), FocusDirection::Up), Some(PaneId(2)));
}

fn press(code: KeyCode, modifiers: KeyModifiers) -> KeyEvent {
    KeyEvent::new(code, modifiers)
}

fn split_app() -> AppState {
    let mut app = AppState::new();
    match app.handle_action(InputAction::Split(SplitDirection::Vertical)) {
        Command::SpawnPane { id, direction } => {
            assert_eq!(id, PaneId(2));
            assert_eq!(direction, SplitDirection::Vertical);
            assert!(app.attach_pane(id, direction));
        }
        _ => panic!("split asks for a new pane"),
    }
    app
}

#[test]
fn new_app_starts_with_one_pane() {
    let app = AppState::new();
    assert_eq!(app.focused(), PaneId(1));
    assert_eq!(app.pane_count(), 1);
    assert_eq!(app.next_pane_id(), 2);
    assert!(app.show_system_panel());
    assert!(!app.should_quit());
    assert_eq!(app.status(), "normal");
}

#[test]
fn split_attaches_and_focuses_new_pane() {
    let app = split_app();
    assert_eq!(app.focused(), PaneId(2));
    assert_eq!(app.panes_in_layout_order(), vec![PaneId(1), PaneId(2)]);
    assert_eq!(app.next_pane_id(), 3);
    assert_eq!(app.status(), "created pane 2 with vertical split");
}

#[test]
fn closing_last_pane_is_refused() {
    let mut app = AppState::new();
    let cmd = app.handle_action(InputAction::ClosePane);
    assert!(matches!(cmd, Command::Nothing));
    assert_eq!(app.pane_count(), 1);
    assert_eq!(app.status(), "cannot close the last pane");
}

#[test]
fn close_undoes_attach() {
    let mut app = split_app();
    let cmd = app.handle_action(InputAction::ClosePane);
    assert!(matches!(cmd, Command::ClosePane(PaneId(2))));
    assert_eq!(app.panes_in_layout_order(), vec![PaneId(1)]);
    assert_eq!(app.focused(), PaneId(1));
    assert_eq!(app.status(), "closed pane 2");
}

#[test]
fn focus_uses_cached_rects_then_falls_back_to_order() {
    let mut app = split_app();
    let sizes = app.resize_panes(r(0, 0, 100, 20));
    assert_eq!(sizes, vec![(PaneId(1), 18, 48), (PaneId(2), 18, 48)]);
    // Same area again: nothing to do.
    assert!(app.resize_panes(r(0, 0, 100, 20)).is_empty());
    app.handle_action(InputAction::Focus(FocusDirection::Left));
    assert_eq!(app.focused(), PaneId(1));
    assert_eq!(app.status(), "focused pane 1");
    // Nothing above: the previous pane in order (wrapping) takes focus.
    app.handle_action(InputAction::Focus(FocusDirection::Up));
    assert_eq!(app.focused(), PaneId(2));
}

#[test]
fn toggle_system_panel_invalidates_rects() {
    let mut app = AppState::new();
    app.resize_panes(r(0, 0, 80, 24));
    app.handle_action(InputAction::ToggleSystem);
    assert!(!app.show_system_panel());
    assert_eq!(app.status(), "system panel hidden");
    assert_eq!(app.resize_panes(r(0, 0, 80, 24)).len(), 1);
    app.handle_action(InputAction::ToggleSystem);
    assert_eq!(app.status(), "system panel shown");
}

#[test]
fn scroll_mode_round_trip() {
    let mut app = AppState::new();
    app.handle_action(InputAction::EnterScrollMode);
    assert!(app.scroll_mode());
    assert_eq!(app.status(), "scroll mode (pane 1) \u{2014} q/Esc to exit");
    match app.handle_action(InputAction::Scroll(ScrollAction::PageUp)) {
        Command::Scroll { pane, step } => {
            assert_eq!(pane, PaneId(1));
            assert_eq!(step, ScrollStep::By(20));
        }
        _ => panic!("scrolling asks to scroll the pane"),
    }
    app.scrolled(20);
    assert_eq!(app.status(), "scroll mode (pane 1, offset 20)");
    let cmd = app.handle_action(InputAction::ExitScrollMode);
    assert!(matches!(cmd, Command::SnapToLive(PaneId(1))));
    assert!(!app.scroll_mode());
    assert_eq!(app.status(), "normal");
}

#[test]
fn quit_sets_should_quit() {
    let mut app = AppState::new();
    assert!(matches!(app.handle_action(InputAction::Quit), Command::Nothing));
    assert!(app.should_quit());
}

#[test]
fn paste_turns_line_feeds_into_carriage_returns() {
    let mut app = AppState::new();
    match app.handle_paste("ls\nécho\n") {
        Command::Write { pane, bytes } => {
            assert_eq!(pane, PaneId(1));
            assert_eq!(bytes, "ls\récho\r".as_bytes().to_vec());
        }
        _ => panic!("a paste writes to the pane"),
    }
}

#[test]
fn key_presses_light_labels_until_they_expire() {
    let mut app = AppState::new();
    let action = app.handle_key(press(KeyCode::Char('a'), KeyModifiers::none()));
    assert_eq!(action, Some(InputAction::Send(vec![b'a'])));
    assert!(app.is_key_active("A"));
    for _ in 0..7 {
        app.tick();
    }
    assert!(app.is_key_active("A"));
    app.tick();
    assert!(!app.is_key_active("A"));
    assert_eq!(app.animation_tick(), 8);
}

#[test]
fn key_release_darkens_labels() {
    let mut app = AppState::new();
    app.handle_key(press(KeyCode::Char('b'), KeyModifiers::control()));
    assert!(app.is_key_active("CTRL"));
    assert!(app.is_key_active("B"));
    assert!(app.prefix_armed());
    let mut release = press(KeyCode::Char('b'), KeyModifiers::control());
    release.kind = KeyEventKind::Release;
    assert_eq!(app.handle_key(release), None);
    assert!(!app.is_key_active("CTRL"));
    assert!(!app.is_key_active("B"));
    assert!(app.prefix_armed());
}

#[test]
fn poll_interval_follows_activity() {
    assert_eq!(paneview::app::poll_interval_ms(true), 16);
    assert_eq!(paneview::app::poll_interval_ms(false), 33);
}

#[test]
fn resize_cache_matches_layout_rects() {
    let mut app = split_app();
    let area = r(0, 0, 100, 20);
    app.resize_panes(area);
    assert_eq!(*app.cached_rects(), app.layout().rects(area));
    // A second call on the same area changes nothing and keeps the cache right.
    assert!(app.resize_panes(area).is_empty());
    assert_eq!(*app.cached_rects(), app.layout().rects(area));
    // A new area recomputes.
    let wider = r(0, 0, 120, 30);
    assert_eq!(app.resize_panes(wider), vec![(PaneId(1), 28, 58), (PaneId(2), 28, 58)]);
    assert_eq!(*app.cached_rects(), app.layout().rects(wider));
}

#[test]
fn armed_prefix_is_dropped_on_entering_scroll_mode() {
    let mut app = AppState::new();
    assert_eq!(app.handle_key(press(KeyCode::Char('b'), KeyModifiers::control())), None);
    assert!(app.prefix_armed());
    app.handle_action(InputAction::EnterScrollMode);
    assert!(app.scroll_mode());
    assert!(!app.prefix_armed());
}
