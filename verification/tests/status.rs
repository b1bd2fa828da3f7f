use paneview::app::AppState;
use paneview::input::{InputAction, KeyCode, KeyEvent, KeyModifiers};
use paneview::layout::PaneId;
use paneview::status::{pane_label, status_info, status_lines};

#[test]
fn pane_label_is_the_number() {
    assert_eq!(pane_label(PaneId(42)), "42");
}

#[test]
fn status_info_summarises_the_state() {
    let mut app = AppState::new();
    assert_eq!(status_info(&app), "mode:normal | pane:1/1 | sys:on | msg:normal");
    app.handle_action(InputAction::EnterScrollMode);
    app.handle_action(InputAction::ToggleSystem);
    assert_eq!(status_info(&app), "mode:SCROLL | pane:1/1 | sys:off | msg:system panel hidden");
}

#[test]
fn status_lines_depend_on_height() {
    assert!(status_lines("info", 0, 80, 0).is_empty());
    let one = status_lines("info", 1, 200, 0);
    assert_eq!(
        one,
        vec!["| info | C-b q quit | C-b h/j/k/l focus | C-b | / - split | C-b n new | C-b x close".to_string()]
    );
    let two = status_lines("info", 2, 200, 8);
    assert_eq!(two[0], "/ info");
    assert_eq!(
        two[1],
        "Prefix: Ctrl+B then q quit | h/j/k/l focus | | / - split | n new | x close | s sys | [ scroll"
    );
    let many = status_lines("info", 9, 12, 16);
    assert_eq!(many.len(), 3);
    assert_eq!(many[0], "- info");
    assert_eq!(many[1], "Prefix: Ctr~");
    assert!(many.iter().all(|l| l.chars().count() <= 12));
}

#[test]
fn status_shows_prefix_mode_between_prefix_and_next_key() {
    let mut app = AppState::new();
    app.handle_key(KeyEvent::new(KeyCode::Char('b'), KeyModifiers::control()));
    assert!(status_info(&app).starts_with("mode:PREFIX | "));
    app.handle_key(KeyEvent::new(KeyCode::Char('?'), KeyModifiers::none()));
    assert!(status_info(&app).starts_with("mode:normal | "));
}
