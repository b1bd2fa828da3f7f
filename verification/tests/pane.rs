use paneview::app::ScrollStep;
use paneview::layout::PaneId;
use paneview::pane::{default_shell, pane_title, paste_bytes, scroll_request, shell_name, terminal_size};

#[test]
fn shell_comes_from_environment_unless_blank() {
    assert_eq!(default_shell(Some("/bin/zsh".to_string())), "/bin/zsh");
    assert_eq!(default_shell(Some(" \t".to_string())), "/bin/sh");
    assert_eq!(default_shell(Some(String::new())), "/bin/sh");
    assert_eq!(default_shell(None), "/bin/sh");
}

#[test]
fn shell_name_is_the_last_path_part() {
    assert_eq!(shell_name("/usr/local/bin/fish"), "fish");
    assert_eq!(shell_name("bash"), "bash");
    assert_eq!(shell_name("/bin/"), "");
}

#[test]
fn terminal_size_is_at_least_one_cell() {
    assert_eq!(terminal_size(0, 0), (1, 1));
    assert_eq!(terminal_size(24, 80), (24, 80));
}

#[test]
fn scroll_requests_saturate() {
    assert_eq!(scroll_request(5, ScrollStep::By(20)), 25);
    assert_eq!(scroll_request(5, ScrollStep::By(-20)), 0);
    assert_eq!(scroll_request(30, ScrollStep::By(-20)), 10);
    assert_eq!(scroll_request(usize::MAX - 1, ScrollStep::By(20)), usize::MAX);
    assert_eq!(scroll_request(7, ScrollStep::By(isize::MIN)), 0);
    assert_eq!(scroll_request(7, ScrollStep::ToTop), usize::MAX);
    assert_eq!(scroll_request(7, ScrollStep::ToBottom), 0);
}

#[test]
fn paste_bytes_replace_line_feeds() {
    assert_eq!(paste_bytes("a\nb\n"), b"a\rb\r".to_vec());
    assert_eq!(paste_bytes("ü\r\n"), "ü\r\r".as_bytes().to_vec());
    assert_eq!(paste_bytes(""), Vec::<u8>::new());
}

#[test]
fn pane_titles_show_state() {
    assert_eq!(pane_title(PaneId(3), "zsh", true, None, None), " pane 3 | zsh | running ");
    assert_eq!(
        pane_title(PaneId(3), "zsh", false, Some("exit status: 1"), None),
        " pane 3 | zsh | exit status: 1 "
    );
    assert_eq!(pane_title(PaneId(3), "zsh", false, None, None), " pane 3 | zsh | exited ");
    assert_eq!(pane_title(PaneId(12), "sh", true, None, Some(40)), " pane 12 | sh | running [scroll +40] ");
}
