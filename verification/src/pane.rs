//! The decisions around a pane's shell: which shell to start, how it is
//! named, the size its terminal gets, where its scrollback is asked to
//! move, the bytes a paste sends, and the title of the pane.

use vstd::prelude::*;
use vstd::string::StringExecFns;
use vstd::string::StrSliceExecFns;
use vstd::utf8::{encode_scalar, encode_utf8};

use crate::app::ScrollStep;
use crate::cli::{is_white_space, white_space};
use crate::fmt::last_segment;
use crate::layout::PaneId;
use crate::text::{decimal, encode_char, push_decimal, push_str};

verus! {

/// How many lines of scrollback a pane's terminal keeps.
pub const SCROLLBACK_LINES: usize = 2000;

/// The shell started when the environment names none.
pub open spec fn fallback_shell() -> Seq<char> {
    "/bin/sh"@
}

/// Whether `s` holds a character that is not white space.
pub open spec fn not_blank(s: Seq<char>) -> bool {
    exists|i: int| 0 <= i < s.len() && !is_white_space(#[trigger] s[i])
}

/// The shell to start: the one the environment names (`$SHELL`) unless it
/// is missing or blank, else `/bin/sh`.
pub open spec fn chosen_shell(env: Option<Seq<char>>) -> Seq<char> {
    match env {
        Some(s) => if not_blank(s) {
            s
        } else {
            fallback_shell()
        },
        None => fallback_shell(),
    }
}

/// Picks the shell from the value of `$SHELL`, if set.
pub fn default_shell(env: Option<String>) -> (shell: String)
    ensures
        shell@ == chosen_shell(
            match env {
                Some(s) => Some(s@),
                None => None,
            },
        ),
{
    match env {
        Some(s) => {
            let n = s.as_str().unicode_len();
            let mut i: usize = 0;
            while i < n
                invariant
                    i <= n,
                    n == s@.len(),
                    env == Some(s),
                    forall|j: int| 0 <= j < i ==> is_white_space(#[trigger] s@[j]),
                decreases n - i,
            {
                if !white_space(s.as_str().get_char(i)) {
                    assert(!is_white_space(s@[i as int]));
                    assert(not_blank(s@));
                    return s;
                }
                i += 1;
            }
            String::from_str("/bin/sh")
        },
        None => String::from_str("/bin/sh"),
    }
}

/// The name of a shell: the part of its path after the last `/`.
pub fn shell_name(shell: &str) -> (name: &str)
    ensures
        name@ == last_segment(shell@),
{
    let ghost s = shell@;
    let n = shell.unicode_len();
    let mut start = n;
    assert(s.take(n as int) =~= s);
    assert(s.subrange(n as int, n as int) =~= seq![]);
    while start > 0 && shell.get_char(start - 1) != '/'
        invariant
            start <= n,
            n == s.len(),
            s == shell@,
            last_segment(s) == last_segment(s.take(start as int)) + s.subrange(start as int, n as int),
        decreases start,
    {
        assert(s.take(start - 1) =~= s.take(start as int).drop_last());
        assert(s.subrange(start - 1, n as int) =~= seq![s[start - 1]] + s.subrange(start as int, n as int));
        assert(last_segment(s.take(start - 1)).push(s[start - 1]) + s.subrange(start as int, n as int)
            =~= last_segment(s.take(start - 1)) + s.subrange(start - 1, n as int));
        start -= 1;
    }
    assert(last_segment(s.take(start as int)) =~= seq![]);
    assert(last_segment(s) =~= s.subrange(start as int, n as int));
    shell.substring_char(start, n)
}

/// The size a pane's terminal gets: at least one row and one column.
pub fn terminal_size(rows: u16, cols: u16) -> (size: (u16, u16))
    ensures
        size.0 == if rows == 0 { 1 } else { rows },
        size.1 == if cols == 0 { 1 } else { cols },
{
    (if rows == 0 { 1 } else { rows }, if cols == 0 { 1 } else { cols })
}

/// The scrollback offset asked for when `step` moves a pane at `offset`
/// (the terminal then clamps it to the lines it holds).
pub open spec fn requested_offset(offset: usize, step: ScrollStep) -> usize {
    match step {
        ScrollStep::By(delta) => if delta >= 0 {
            offset.saturating_add(delta as usize)
        } else {
            offset.saturating_sub((-(delta as int)) as usize)
        },
        ScrollStep::ToTop => usize::MAX,
        ScrollStep::ToBottom => 0,
    }
}

/// The scrollback offset to ask for (see `requested_offset`).
pub fn scroll_request(offset: usize, step: ScrollStep) -> (target: usize)
    ensures
        target == requested_offset(offset, step),
{
    match step {
        ScrollStep::By(delta) => {
            if delta >= 0 {
                offset.saturating_add(delta as usize)
            } else {
                let back: usize = if delta == isize::MIN {
                    (isize::MAX as usize) + 1
                } else {
                    (-delta) as usize
                };
                offset.saturating_sub(back)
            }
        },
        ScrollStep::ToTop => usize::MAX,
        ScrollStep::ToBottom => 0,
    }
}

/// The characters of a paste as sent to the shell: line feeds become
/// carriage returns.
pub open spec fn paste_chars(text: Seq<char>) -> Seq<char> {
    text.map_values(|c: char| if c == '\n' { '\r' } else { c })
}

proof fn lemma_encode_push(s: Seq<char>, c: char)
    ensures
        encode_utf8(s.push(c)) == encode_utf8(s) + encode_scalar(c as u32),
    decreases s.len(),
{
    if s.len() == 0 {
        assert(s.push(c).drop_first() =~= seq![]);
        assert(encode_utf8(s.push(c)) =~= encode_scalar(c as u32) + encode_utf8(seq![]));
    } else {
        lemma_encode_push(s.drop_first(), c);
        assert(s.push(c).drop_first() =~= s.drop_first().push(c));
        assert(s.push(c)[0] == s[0]);
    }
}

/// The bytes a paste of `text` sends to the shell: its UTF-8 encoding with
/// line feeds turned into carriage returns.
pub fn paste_bytes(text: &str) -> (bytes: Vec<u8>)
    ensures
        bytes@ == encode_utf8(paste_chars(text@)),
{
    let ghost p = paste_chars(text@);
    let n = text.unicode_len();
    let mut bytes: Vec<u8> = Vec::new();
    let mut i: usize = 0;
    while i < n
        invariant
            i <= n,
            n == text@.len(),
            p == paste_chars(text@),
            bytes@ == encode_utf8(p.take(i as int)),
        decreases n - i,
    {
        let c = text.get_char(i);
        let d = if c == '\n' { '\r' } else { c };
        let mut enc = encode_char(d);
        proof {
            assert(p[i as int] == d);
            assert(p.take(i + 1) =~= p.take(i as int).push(d));
            lemma_encode_push(p.take(i as int), d);
        }
        bytes.append(&mut enc);
        i += 1;
    }
    assert(p.take(n as int) =~= p);
    bytes
}

/// The title of a pane: its number, its shell's name, whether the shell
/// runs (or how it ended), and in scroll mode the scrollback offset.
pub open spec fn pane_title_text(id: PaneId, shell: Seq<char>, state: Seq<char>, scroll: Option<usize>) -> Seq<char> {
    let base = " pane "@ + decimal(id.0 as nat) + " | "@ + shell + " | "@ + state + " "@;
    match scroll {
        Some(offset) => base + "[scroll +"@ + decimal(offset as nat) + "] "@,
        None => base,
    }
}

/// The state shown in a pane's title: `running`, else the exit status, or
/// `exited` when there is none.
pub open spec fn pane_state_text(alive: bool, exit_status: Option<Seq<char>>) -> Seq<char> {
    if alive {
        "running"@
    } else {
        match exit_status {
            Some(s) => s,
            None => "exited"@,
        }
    }
}

/// The title of a pane; `scroll` is the scrollback offset when the pane is
/// in scroll mode.
pub fn pane_title(
    id: PaneId,
    shell: &str,
    alive: bool,
    exit_status: Option<&str>,
    scroll: Option<usize>,
) -> (title: String)
    ensures
        title@ == pane_title_text(
            id,
            shell@,
            pane_state_text(
                alive,
                match exit_status {
                    Some(s) => Some(s@),
                    None => None,
                },
            ),
            scroll,
        ),
{
    let mut title = String::from_str(" pane ");
    push_decimal(&mut title, id.0 as u64);
    push_str(&mut title, " | ");
    push_str(&mut title, shell);
    push_str(&mut title, " | ");
    let state = if alive {
        "running"
    } else {
        match exit_status {
            Some(s) => s,
            None => "exited",
        }
    };
    push_str(&mut title, state);
    push_str(&mut title, " ");
    if let Some(offset) = scroll {
        push_str(&mut title, "[scroll +");
        push_decimal(&mut title, offset as u64);
        push_str(&mut title, "] ");
    }
    title
}

/// A paste keeps its characters in order, turns each line feed into a
/// carriage return (so the shell sees Enter) and leaves no line feed.
pub proof fn law_paste_turns_line_feeds_into_returns(text: Seq<char>)
    ensures
        paste_chars(text).len() == text.len(),
        forall|i: int|
            0 <= i < text.len() ==> (text[i] == '\n' ==> paste_chars(text)[i] == '\r') && (text[i]
                != '\n' ==> paste_chars(text)[i] == text[i]),
        !paste_chars(text).contains('\n'),
{
}

} // verus!
