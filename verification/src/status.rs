//! The text of the status bar: the one-line summary of the application
//! state and the help lines under it.

use vstd::prelude::*;
use vstd::string::StringExecFns;

use crate::app::{AppState, AppView};
use crate::fmt::{activity_indicator, spinner_frame, truncate, truncated};
use crate::input::{input_step, is_prefix_key, is_press, InputAction, KeyEvent};
use crate::layout::{leaves_of, PaneId};
use crate::text::{decimal, decimal_string, push_decimal, push_str};

verus! {

/// The name of the input mode: scroll mode wins over an armed prefix.
pub open spec fn mode_label(input: (bool, bool)) -> Seq<char> {
    if input.1 {
        "SCROLL"@
    } else if input.0 {
        "PREFIX"@
    } else {
        "normal"@
    }
}

/// The summary line: mode, focused pane out of the pane count, whether the
/// system panel is on, and the status message.
pub open spec fn status_summary(v: AppView) -> Seq<char> {
    "mode:"@ + mode_label(v.input) + " | pane:"@ + decimal(v.focused.0 as nat) + "/"@ + decimal(
        leaves_of(v.layout).len(),
    ) + " | "@ + (if v.show_system_panel {
        "sys:on"@
    } else {
        "sys:off"@
    }) + " | msg:"@ + v.status
}

/// The label of a pane: its number.
pub fn pane_label(id: PaneId) -> (label: String)
    ensures
        label@ == decimal(id.0 as nat),
{
    decimal_string(id.0 as u64)
}

/// The summary line of the status bar for `app`.
pub fn status_info(app: &AppState) -> (info: String)
    ensures
        info@ == status_summary(app@),
{
    let mode = if app.scroll_mode() {
        "SCROLL"
    } else if app.prefix_armed() {
        "PREFIX"
    } else {
        "normal"
    };
    let mut info = String::from_str("mode:");
    push_str(&mut info, mode);
    push_str(&mut info, " | pane:");
    push_decimal(&mut info, app.focused().0 as u64);
    push_str(&mut info, "/");
    push_decimal(&mut info, app.pane_count() as u64);
    push_str(&mut info, " | ");
    push_str(&mut info, if app.show_system_panel() { "sys:on" } else { "sys:off" });
    push_str(&mut info, " | msg:");
    push_str(&mut info, app.status());
    assert(info@ =~= status_summary(app@));
    info
}

/// The help text after the summary on a one-line status bar.
pub open spec fn one_line_help() -> Seq<char> {
    " | C-b q quit | C-b h/j/k/l focus | C-b | / - split | C-b n new | C-b x close"@
}

/// The help line of a two-line status bar.
pub open spec fn two_line_help() -> Seq<char> {
    "Prefix: Ctrl+B then q quit | h/j/k/l focus | | / - split | n new | x close | s sys | [ scroll"@
}

/// The first help line of a taller status bar.
pub open spec fn long_help_first() -> Seq<char> {
    "Prefix: Ctrl+B then  q quit  |  h/j/k/l or arrows focus  |  | vertical split  |  - horizontal split"@
}

/// The second help line of a taller status bar.
pub open spec fn long_help_second() -> Seq<char> {
    "                     n new pane  |  x close pane  |  s system panel  |  [ enter scroll mode"@
}

/// The lines of a status bar `height` rows tall and `width` wide: the
/// spinner and the summary, then as much help as fits, each line cut to
/// the width.
pub open spec fn status_text(info: Seq<char>, height: nat, width: nat, tick: u64) -> Seq<Seq<char>> {
    let head = spinner_frame(tick) + " "@ + info;
    if height == 0 {
        seq![]
    } else if height == 1 {
        seq![truncated(head + one_line_help(), width)]
    } else if height == 2 {
        seq![truncated(head, width), truncated(two_line_help(), width)]
    } else {
        seq![truncated(head, width), truncated(long_help_first(), width), truncated(long_help_second(), width)]
    }
}

/// The lines of the status bar.
pub fn status_lines(info: &str, height: u16, width: u16, tick: u64) -> (lines: Vec<String>)
    ensures
        lines@.map_values(|l: String| l@) == status_text(info@, height as nat, width as nat, tick),
{
    let w = width as usize;
    let mut head = String::from_str(activity_indicator(tick));
    push_str(&mut head, " ");
    push_str(&mut head, info);
    let mut lines: Vec<String> = Vec::new();
    if height == 0 {
    } else if height == 1 {
        push_str(
            &mut head,
            " | C-b q quit | C-b h/j/k/l focus | C-b | / - split | C-b n new | C-b x close",
        );
        lines.push(truncate(head.as_str(), w));
    } else if height == 2 {
        lines.push(truncate(head.as_str(), w));
        lines.push(
            truncate(
                "Prefix: Ctrl+B then q quit | h/j/k/l focus | | / - split | n new | x close | s sys | [ scroll",
                w,
            ),
        );
    } else {
        lines.push(truncate(head.as_str(), w));
        lines.push(
            truncate(
                "Prefix: Ctrl+B then  q quit  |  h/j/k/l or arrows focus  |  | vertical split  |  - horizontal split",
                w,
            ),
        );
        lines.push(
            truncate(
                "                     n new pane  |  x close pane  |  s system panel  |  [ enter scroll mode",
                w,
            ),
        );
    }
    assert(lines@.map_values(|l: String| l@) =~= status_text(info@, height as nat, width as nat, tick));
    lines
}

/// The status bar shows at most three lines, one per row, none wider than
/// the bar.
pub proof fn law_status_lines_fit(info: Seq<char>, height: nat, width: nat, tick: u64)
    ensures
        status_text(info, height, width, tick).len() == if height <= 3 { height } else { 3 },
        forall|i: int|
            0 <= i < status_text(info, height, width, tick).len() ==> (#[trigger] status_text(
                info,
                height,
                width,
                tick,
            )[i]).len() <= width,
{
    let head = spinner_frame(tick) + " "@ + info;
    lemma_truncated_fits(head + one_line_help(), width);
    lemma_truncated_fits(head, width);
    lemma_truncated_fits(two_line_help(), width);
    lemma_truncated_fits(long_help_first(), width);
    lemma_truncated_fits(long_help_second(), width);
}

proof fn lemma_truncated_fits(v: Seq<char>, max: nat)
    ensures
        truncated(v, max).len() <= max,
{
}

/// The status bar names the mode the keys leave: `PREFIX` right after the
/// prefix key is pressed in normal mode, `SCROLL` whenever scroll mode is
/// on, `normal` otherwise.
pub proof fn law_status_names_the_mode(
    before: (bool, bool),
    after: (bool, bool),
    key: KeyEvent,
    action: Option<InputAction>,
)
    requires
        input_step(before, after, key, action),
    ensures
        !before.0 && !before.1 && is_press(key) && is_prefix_key(key) ==> mode_label(after) == "PREFIX"@,
        after.1 ==> mode_label(after) == "SCROLL"@,
        !after.0 && !after.1 ==> mode_label(after) == "normal"@,
{
}

} // verus!
