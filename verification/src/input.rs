//! Keyboard input: the prefix-key state machine, scroll-mode bindings, and
//! the xterm byte sequences that other keys are forwarded to a shell as.

use vstd::prelude::*;
use vstd::utf8::encode_scalar;

use crate::app::FocusDirection;
use crate::layout::SplitDirection;
use crate::text::{encode_char, str_eq};

verus! {

// ---------------------------------------------------------------------------
// Key events

/// The key of a key event.
#[derive(Debug, Clone, Copy, PartialEq, Eq, Structural)]
pub enum KeyCode {
    Backspace,
    Enter,
    Left,
    Right,
    Up,
    Down,
    Home,
    End,
    PageUp,
    PageDown,
    Tab,
    BackTab,
    Delete,
    Insert,
    /// A function key, `F(1)` to `F(12)` and beyond.
    F(u8),
    Char(char),
    Null,
    Esc,
    CapsLock,
    ScrollLock,
    NumLock,
    PrintScreen,
    Pause,
    Menu,
    KeypadBegin,
    /// A media key (play, pause, volume, ...).
    Media,
    /// A modifier key pressed on its own.
    Modifier,
}

/// The modifier keys held during a key event.
#[derive(Debug, Clone, Copy, PartialEq, Eq, Structural)]
pub struct KeyModifiers {
    pub shift: bool,
    pub control: bool,
    pub alt: bool,
    pub super_key: bool,
    pub hyper: bool,
    pub meta: bool,
}

impl KeyModifiers {
    /// No modifier.
    #[verifier::allow_in_spec]
    pub fn none() -> KeyModifiers
        returns
            (KeyModifiers {
                shift: false,
                control: false,
                alt: false,
                super_key: false,
                hyper: false,
                meta: false,
            }),
    {
        KeyModifiers {
            shift: false,
            control: false,
            alt: false,
            super_key: false,
            hyper: false,
            meta: false,
        }
    }

    /// Shift alone.
    #[verifier::allow_in_spec]
    pub fn shift() -> KeyModifiers
        returns
            (KeyModifiers {
                shift: true,
                control: false,
                alt: false,
                super_key: false,
                hyper: false,
                meta: false,
            }),
    {
        KeyModifiers { shift: true, control: false, alt: false, super_key: false, hyper: false, meta: false }
    }

    /// Control alone.
    #[verifier::allow_in_spec]
    pub fn control() -> KeyModifiers
        returns
            (KeyModifiers {
                shift: false,
                control: true,
                alt: false,
                super_key: false,
                hyper: false,
                meta: false,
            }),
    {
        KeyModifiers { shift: false, control: true, alt: false, super_key: false, hyper: false, meta: false }
    }

    /// Alt alone.
    #[verifier::allow_in_spec]
    pub fn alt() -> KeyModifiers
        returns
            (KeyModifiers {
                shift: false,
                control: false,
                alt: true,
                super_key: false,
                hyper: false,
                meta: false,
            }),
    {
        KeyModifiers { shift: false, control: false, alt: true, super_key: false, hyper: false, meta: false }
    }

    /// Whether every modifier of `other` is held.
    #[verifier::allow_in_spec]
    pub fn contains(&self, other: KeyModifiers) -> bool
        returns
            (other.shift ==> self.shift) && (other.control ==> self.control) && (other.alt
                ==> self.alt) && (other.super_key ==> self.super_key) && (other.hyper
                ==> self.hyper) && (other.meta ==> self.meta),
    {
        (!other.shift || self.shift) && (!other.control || self.control) && (!other.alt
            || self.alt) && (!other.super_key || self.super_key) && (!other.hyper || self.hyper)
            && (!other.meta || self.meta)
    }

    /// The modifiers held in either.
    #[verifier::allow_in_spec]
    pub fn union(&self, other: KeyModifiers) -> KeyModifiers
        returns
            (KeyModifiers {
                shift: self.shift || other.shift,
                control: self.control || other.control,
                alt: self.alt || other.alt,
                super_key: self.super_key || other.super_key,
                hyper: self.hyper || other.hyper,
                meta: self.meta || other.meta,
            }),
    {
        KeyModifiers {
            shift: self.shift || other.shift,
            control: self.control || other.control,
            alt: self.alt || other.alt,
            super_key: self.super_key || other.super_key,
            hyper: self.hyper || other.hyper,
            meta: self.meta || other.meta,
        }
    }
}

/// Whether a key went down, repeated, or went up.
#[derive(Debug, Clone, Copy, PartialEq, Eq, Structural)]
pub enum KeyEventKind {
    Press,
    Repeat,
    Release,
}

/// One key event.
#[derive(Debug, Clone, Copy, PartialEq, Eq, Structural)]
pub struct KeyEvent {
    pub code: KeyCode,
    pub modifiers: KeyModifiers,
    pub kind: KeyEventKind,
}

impl KeyEvent {
    /// A key press.
    pub fn new(code: KeyCode, modifiers: KeyModifiers) -> (key: KeyEvent)
        ensures
            key == (KeyEvent { code, modifiers, kind: KeyEventKind::Press }),
    {
        KeyEvent { code, modifiers, kind: KeyEventKind::Press }
    }
}

// ---------------------------------------------------------------------------
// Actions

/// What a key asks the application to do.
#[derive(Debug, Clone, PartialEq, Eq)]
pub enum InputAction {
    /// Quit the application.
    Quit,
    /// Move the focused pane in the requested direction.
    Focus(FocusDirection),
    /// Split the focused pane.
    Split(SplitDirection),
    /// Close the focused pane.
    ClosePane,
    /// Toggle the system dashboard panel.
    ToggleSystem,
    /// Create a new pane (vertical split by default).
    NewPane,
    /// Enter scroll mode on the focused pane (view scrollback).
    EnterScrollMode,
    /// Scroll the focused pane (only valid inside scroll mode).
    Scroll(ScrollAction),
    /// Leave scroll mode and return to live PTY output.
    ExitScrollMode,
    /// Send raw bytes to the focused pane's PTY.
    Send(Vec<u8>),
}

/// A scroll step in scroll mode.
#[derive(Debug, Clone, Copy, PartialEq, Eq, Structural)]
pub enum ScrollAction {
    LineUp,
    LineDown,
    PageUp,
    PageDown,
    Top,
    Bottom,
}

// ---------------------------------------------------------------------------
// The bindings

/// The key went down or repeats (releases do nothing).
pub open spec fn is_press(key: KeyEvent) -> bool {
    key.kind == KeyEventKind::Press || key.kind == KeyEventKind::Repeat
}

/// Ctrl+B, the prefix key.
pub open spec fn is_prefix_key(key: KeyEvent) -> bool {
    key.modifiers.contains(KeyModifiers::control()) && (key.code == KeyCode::Char('b')
        || key.code == KeyCode::Char('B'))
}

/// The command bound to the key that follows the prefix.
pub open spec fn prefix_binding(code: KeyCode) -> Option<InputAction> {
    match code {
        KeyCode::Char('q') | KeyCode::Char('Q') => Some(InputAction::Quit),
        KeyCode::Char('h') | KeyCode::Char('H') | KeyCode::Left => Some(
            InputAction::Focus(FocusDirection::Left),
        ),
        KeyCode::Char('j') | KeyCode::Char('J') | KeyCode::Down => Some(
            InputAction::Focus(FocusDirection::Down),
        ),
        KeyCode::Char('k') | KeyCode::Char('K') | KeyCode::Up => Some(
            InputAction::Focus(FocusDirection::Up),
        ),
        KeyCode::Char('l') | KeyCode::Char('L') | KeyCode::Right => Some(
            InputAction::Focus(FocusDirection::Right),
        ),
        KeyCode::Char('|') | KeyCode::Char('\\') => Some(
            InputAction::Split(SplitDirection::Vertical),
        ),
        KeyCode::Char('-') | KeyCode::Char('_') => Some(
            InputAction::Split(SplitDirection::Horizontal),
        ),
        KeyCode::Char('w') | KeyCode::Char('W') | KeyCode::Char('x') | KeyCode::Char('X') => Some(
            InputAction::ClosePane,
        ),
        KeyCode::Char('s') | KeyCode::Char('S') => Some(InputAction::ToggleSystem),
        KeyCode::Char('n') | KeyCode::Char('N') | KeyCode::Char('c') | KeyCode::Char('C') => Some(
            InputAction::NewPane,
        ),
        KeyCode::Char('[') | KeyCode::PageUp => Some(InputAction::EnterScrollMode),
        _ => None,
    }
}

/// The command bound to a key in scroll mode.
pub open spec fn scroll_binding(code: KeyCode) -> Option<InputAction> {
    match code {
        KeyCode::Char('q') | KeyCode::Char('Q') | KeyCode::Esc => Some(InputAction::ExitScrollMode),
        KeyCode::Up | KeyCode::Char('k') | KeyCode::Char('K') => Some(
            InputAction::Scroll(ScrollAction::LineUp),
        ),
        KeyCode::Down | KeyCode::Char('j') | KeyCode::Char('J') => Some(
            InputAction::Scroll(ScrollAction::LineDown),
        ),
        KeyCode::PageUp | KeyCode::Char('b') | KeyCode::Char('B') => Some(
            InputAction::Scroll(ScrollAction::PageUp),
        ),
        KeyCode::PageDown | KeyCode::Char('f') | KeyCode::Char('F') | KeyCode::Char(' ') => Some(
            InputAction::Scroll(ScrollAction::PageDown),
        ),
        KeyCode::Home | KeyCode::Char('g') => Some(InputAction::Scroll(ScrollAction::Top)),
        KeyCode::End | KeyCode::Char('G') => Some(InputAction::Scroll(ScrollAction::Bottom)),
        _ => None,
    }
}

/// The xterm modifier parameter: 1 plus Shift (1), Alt (2) and Ctrl (4);
/// `None` without modifiers.
pub open spec fn csi_modifier_param(ctrl: bool, alt: bool, shift: bool) -> Option<u8> {
    let mask = (if shift { 1int } else { 0int }) + (if alt { 2int } else { 0int }) + (if ctrl {
        4int
    } else {
        0int
    });
    if mask == 0 {
        None
    } else {
        Some((mask + 1) as u8)
    }
}

/// ESC [ letter, or ESC [ 1 ; m letter with a modifier.
pub open spec fn arrow_sequence(letter: u8, modifier: Option<u8>) -> Seq<u8> {
    match modifier {
        None => seq![0x1bu8, 0x5bu8, letter],
        Some(m) => seq![0x1bu8, 0x5bu8, 0x31u8, 0x3bu8, (0x30 + m) as u8, letter],
    }
}

/// ESC [ n ~, or ESC [ n ; m ~ with a modifier.
pub open spec fn tilde_sequence(number: u8, modifier: Option<u8>) -> Seq<u8> {
    match modifier {
        None => seq![0x1bu8, 0x5bu8, (0x30 + number) as u8, 0x7eu8],
        Some(m) => seq![0x1bu8, 0x5bu8, (0x30 + number) as u8, 0x3bu8, (0x30 + m) as u8, 0x7eu8],
    }
}

/// The two-digit xterm parameter of F5 to F12.
pub open spec fn function_key_param(n: u8) -> Seq<u8> {
    if n == 5 {
        seq![0x31u8, 0x35u8]
    } else if n == 6 {
        seq![0x31u8, 0x37u8]
    } else if n == 7 {
        seq![0x31u8, 0x38u8]
    } else if n == 8 {
        seq![0x31u8, 0x39u8]
    } else if n == 9 {
        seq![0x32u8, 0x30u8]
    } else if n == 10 {
        seq![0x32u8, 0x31u8]
    } else if n == 11 {
        seq![0x32u8, 0x33u8]
    } else {
        seq![0x32u8, 0x34u8]
    }
}

/// The final letter of the SS3 form of F1 to F4: P, Q, R, S.
pub open spec fn function_key_letter(n: u8) -> u8 {
    (0x50 + n - 1) as u8
}

/// F1 to F4 are ESC O P..S, or ESC [ 1 ; m P..S with a modifier; F5 to F12
/// are ESC [ nn ~, or ESC [ nn ; m ~ with a modifier; others have none.
pub open spec fn function_key_sequence(n: u8, modifier: Option<u8>) -> Option<Seq<u8>> {
    if 1 <= n <= 4 {
        match modifier {
            None => Some(seq![0x1bu8, 0x4fu8, function_key_letter(n)]),
            Some(m) => Some(
                seq![0x1bu8, 0x5bu8, 0x31u8, 0x3bu8, (0x30 + m) as u8, function_key_letter(n)],
            ),
        }
    } else if 5 <= n <= 12 {
        match modifier {
            None => Some(seq![0x1bu8, 0x5bu8] + function_key_param(n) + seq![0x7eu8]),
            Some(m) => Some(
                seq![0x1bu8, 0x5bu8] + function_key_param(n) + seq![0x3bu8, (0x30 + m) as u8, 0x7eu8],
            ),
        }
    } else {
        None
    }
}

/// Ctrl with a character: space is NUL, an ASCII character gives its code
/// modulo 32, anything else has no control code.
pub open spec fn control_char_sequence(c: char) -> Option<Seq<u8>> {
    if c == ' ' {
        Some(seq![0u8])
    } else if (c as u32) < 128 {
        Some(seq![((c as u32) % 32) as u8])
    } else {
        None
    }
}

/// How a key is written to a shell: the bytes, and whether Alt is carried by
/// an ESC in front (plain keys) rather than inside the sequence.
pub open spec fn key_encoding(key: KeyEvent) -> Option<(bool, Seq<u8>)> {
    let ctrl = key.modifiers.contains(KeyModifiers::control());
    let alt = key.modifiers.contains(KeyModifiers::alt());
    let shift = key.modifiers.contains(KeyModifiers::shift());
    let m = csi_modifier_param(ctrl, alt, shift);
    match key.code {
        KeyCode::Char(c) => if ctrl {
            match control_char_sequence(c) {
                Some(b) => Some((true, b)),
                None => None,
            }
        } else {
            Some((true, encode_scalar(c as u32)))
        },
        KeyCode::Enter => Some((true, seq![0x0du8])),
        KeyCode::Backspace => Some((true, seq![0x7fu8])),
        KeyCode::Tab => Some((true, seq![0x09u8])),
        KeyCode::BackTab => Some((false, seq![0x1bu8, 0x5bu8, 0x5au8])),
        KeyCode::Esc => Some((true, seq![0x1bu8])),
        KeyCode::Left => Some((false, arrow_sequence(0x44, m))),
        KeyCode::Right => Some((false, arrow_sequence(0x43, m))),
        KeyCode::Up => Some((false, arrow_sequence(0x41, m))),
        KeyCode::Down => Some((false, arrow_sequence(0x42, m))),
        KeyCode::Home => Some((false, arrow_sequence(0x48, m))),
        KeyCode::End => Some((false, arrow_sequence(0x46, m))),
        KeyCode::Delete => Some((false, tilde_sequence(3, m))),
        KeyCode::Insert => Some((false, tilde_sequence(2, m))),
        KeyCode::PageUp => Some((false, tilde_sequence(5, m))),
        KeyCode::PageDown => Some((false, tilde_sequence(6, m))),
        KeyCode::F(n) => match function_key_sequence(n, m) {
            Some(b) => Some((false, b)),
            None => None,
        },
        _ => None,
    }
}

/// The bytes a key is forwarded to the shell as; `None` for keys that have
/// no encoding.
pub open spec fn key_bytes(key: KeyEvent) -> Option<Seq<u8>> {
    match key_encoding(key) {
        None => None,
        Some((plain, b)) => if plain && key.modifiers.contains(KeyModifiers::alt()) {
            Some(seq![0x1bu8] + b)
        } else {
            Some(b)
        },
    }
}

// ---------------------------------------------------------------------------
// The state machine

/// What handling `key` does: `before` and `after` are (prefix armed,
/// scroll mode), `action` what the key asks for. Releases do nothing; in
/// scroll mode the scroll bindings apply and any other key leaves scroll
/// mode; an armed prefix is consumed by the next key, which is looked up in
/// the prefix bindings; Ctrl+B arms the prefix; any other key is forwarded
/// as its bytes.
pub open spec fn input_step(
    before: (bool, bool),
    after: (bool, bool),
    key: KeyEvent,
    action: Option<InputAction>,
) -> bool {
    if !is_press(key) {
        action is None && after == before
    } else if before.1 {
        &&& action == scroll_binding(key.code)
        &&& after == (before.0, action is Some)
    } else if before.0 {
        &&& action == prefix_binding(key.code)
        &&& after == (false, false)
    } else if is_prefix_key(key) {
        &&& action is None
        &&& after == (true, false)
    } else {
        &&& after == before
        &&& match key_bytes(key) {
            None => action is None,
            Some(b) => action matches Some(InputAction::Send(v)) && v@ == b,
        }
    }
}

/// A chord never leaves the state machine stuck: whatever key follows an
/// armed prefix, the prefix is spent; in scroll mode a key that is no
/// scroll command leaves scroll mode; releases change nothing.
pub proof fn law_modes_end_after_one_key(
    before: (bool, bool),
    after: (bool, bool),
    key: KeyEvent,
    action: Option<InputAction>,
)
    requires
        input_step(before, after, key, action),
    ensures
        !is_press(key) ==> after == before && action is None,
        is_press(key) && before.0 && !before.1 ==> after == (false, false),
        is_press(key) && before.1 && action is None ==> !after.1,
        is_press(key) && !before.0 && !before.1 && !is_prefix_key(key) ==> after == before,
{
}

/// Shell shortcuts reach the shell unchanged: outside the prefix and
/// scroll modes, Ctrl with a lower-case letter other than `b` is sent as
/// that letter's control code, and the mode stays as it was.
pub proof fn law_shell_shortcuts_forwarded(
    before: (bool, bool),
    after: (bool, bool),
    letter: char,
    action: Option<InputAction>,
)
    requires
        !before.0,
        !before.1,
        'a' <= letter <= 'z',
        letter != 'b',
        input_step(
            before,
            after,
            KeyEvent { code: KeyCode::Char(letter), modifiers: KeyModifiers::control(), kind: KeyEventKind::Press },
            action,
        ),
    ensures
        after == before,
        action matches Some(InputAction::Send(v)) && v@ == seq![((letter as u32) % 32) as u8],
{
}

/// The modes after scroll mode is switched `on` or off: switching it on
/// drops an armed prefix.
pub open spec fn scroll_mode_set(before: (bool, bool), on: bool) -> (bool, bool) {
    (if on { false } else { before.0 }, on)
}

/// An armed prefix and scroll mode are never on together: neither a key
/// nor switching scroll mode brings them together, and a new state has
/// neither; so it holds after any run of keys and switches.
pub proof fn law_prefix_and_scroll_exclusive(
    before: (bool, bool),
    after: (bool, bool),
    key: KeyEvent,
    action: Option<InputAction>,
    on: bool,
)
    requires
        !(before.0 && before.1),
    ensures
        input_step(before, after, key, action) ==> !(after.0 && after.1),
        !(scroll_mode_set(before, on).0 && scroll_mode_set(before, on).1),
{
}

/// The xterm modifier digit: '1' plus 1 for Shift, 2 for Alt and 4 for Ctrl.
pub open spec fn xterm_modifier_digit(m: KeyModifiers) -> u8 {
    (0x31 + (if m.shift { 1int } else { 0 }) + (if m.alt { 2int } else { 0 }) + (if m.control {
        4int
    } else {
        0
    })) as u8
}

/// A key event with these parts.
pub open spec fn key_event(code: KeyCode, modifiers: KeyModifiers, kind: KeyEventKind) -> KeyEvent {
    KeyEvent { code, modifiers, kind }
}

/// Without Shift, Alt or Ctrl the named keys are forwarded as the xterm
/// sequences: Page Up is ESC [ 5 ~ and Page Down ESC [ 6 ~, Insert and
/// Delete ESC [ 2 ~ and ESC [ 3 ~, the arrows ESC [ A (up), B (down),
/// C (right), D (left), Home and End ESC [ H and ESC [ F, Shift+Tab
/// ESC [ Z, F1 to F4 ESC O P to S, F5 to F12 ESC [ 15 ~ to ESC [ 24 ~;
/// Enter, Tab, Backspace and Esc are CR, HT, DEL and ESC.
pub proof fn law_named_keys_send_xterm_sequences(m: KeyModifiers, kind: KeyEventKind)
    requires
        !m.shift,
        !m.alt,
        !m.control,
    ensures
        key_bytes(key_event(KeyCode::PageUp, m, kind)) == Some(seq![0x1bu8, 0x5bu8, 0x35u8, 0x7eu8]),
        key_bytes(key_event(KeyCode::PageDown, m, kind)) == Some(seq![0x1bu8, 0x5bu8, 0x36u8, 0x7eu8]),
        key_bytes(key_event(KeyCode::Insert, m, kind)) == Some(seq![0x1bu8, 0x5bu8, 0x32u8, 0x7eu8]),
        key_bytes(key_event(KeyCode::Delete, m, kind)) == Some(seq![0x1bu8, 0x5bu8, 0x33u8, 0x7eu8]),
        key_bytes(key_event(KeyCode::Up, m, kind)) == Some(seq![0x1bu8, 0x5bu8, 0x41u8]),
        key_bytes(key_event(KeyCode::Down, m, kind)) == Some(seq![0x1bu8, 0x5bu8, 0x42u8]),
        key_bytes(key_event(KeyCode::Right, m, kind)) == Some(seq![0x1bu8, 0x5bu8, 0x43u8]),
        key_bytes(key_event(KeyCode::Left, m, kind)) == Some(seq![0x1bu8, 0x5bu8, 0x44u8]),
        key_bytes(key_event(KeyCode::Home, m, kind)) == Some(seq![0x1bu8, 0x5bu8, 0x48u8]),
        key_bytes(key_event(KeyCode::End, m, kind)) == Some(seq![0x1bu8, 0x5bu8, 0x46u8]),
        key_bytes(key_event(KeyCode::BackTab, m, kind)) == Some(seq![0x1bu8, 0x5bu8, 0x5au8]),
        key_bytes(key_event(KeyCode::Enter, m, kind)) == Some(seq![0x0du8]),
        key_bytes(key_event(KeyCode::Tab, m, kind)) == Some(seq![0x09u8]),
        key_bytes(key_event(KeyCode::Backspace, m, kind)) == Some(seq![0x7fu8]),
        key_bytes(key_event(KeyCode::Esc, m, kind)) == Some(seq![0x1bu8]),
        key_bytes(key_event(KeyCode::F(1), m, kind)) == Some(seq![0x1bu8, 0x4fu8, 0x50u8]),
        key_bytes(key_event(KeyCode::F(2), m, kind)) == Some(seq![0x1bu8, 0x4fu8, 0x51u8]),
        key_bytes(key_event(KeyCode::F(3), m, kind)) == Some(seq![0x1bu8, 0x4fu8, 0x52u8]),
        key_bytes(key_event(KeyCode::F(4), m, kind)) == Some(seq![0x1bu8, 0x4fu8, 0x53u8]),
        key_bytes(key_event(KeyCode::F(5), m, kind)) == Some(seq![0x1bu8, 0x5bu8, 0x31u8, 0x35u8, 0x7eu8]),
        key_bytes(key_event(KeyCode::F(6), m, kind)) == Some(seq![0x1bu8, 0x5bu8, 0x31u8, 0x37u8, 0x7eu8]),
        key_bytes(key_event(KeyCode::F(7), m, kind)) == Some(seq![0x1bu8, 0x5bu8, 0x31u8, 0x38u8, 0x7eu8]),
        key_bytes(key_event(KeyCode::F(8), m, kind)) == Some(seq![0x1bu8, 0x5bu8, 0x31u8, 0x39u8, 0x7eu8]),
        key_bytes(key_event(KeyCode::F(9), m, kind)) == Some(seq![0x1bu8, 0x5bu8, 0x32u8, 0x30u8, 0x7eu8]),
        key_bytes(key_event(KeyCode::F(10), m, kind)) == Some(seq![0x1bu8, 0x5bu8, 0x32u8, 0x31u8, 0x7eu8]),
        key_bytes(key_event(KeyCode::F(11), m, kind)) == Some(seq![0x1bu8, 0x5bu8, 0x32u8, 0x33u8, 0x7eu8]),
        key_bytes(key_event(KeyCode::F(12), m, kind)) == Some(seq![0x1bu8, 0x5bu8, 0x32u8, 0x34u8, 0x7eu8]),
{
    lemma_plain_tilde_keys(m, kind);
    lemma_plain_arrow_keys(m, kind);
    lemma_plain_plain_keys(m, kind);
    lemma_plain_ss3_keys(m, kind);
    lemma_plain_csi_keys(m, kind);
    lemma_plain_csi_high_keys(m, kind);
}

proof fn lemma_plain_tilde_keys(m: KeyModifiers, kind: KeyEventKind)
    requires
        !m.shift,
        !m.alt,
        !m.control,
    ensures
        key_bytes(key_event(KeyCode::PageUp, m, kind)) == Some(seq![0x1bu8, 0x5bu8, 0x35u8, 0x7eu8]),
        key_bytes(key_event(KeyCode::PageDown, m, kind)) == Some(seq![0x1bu8, 0x5bu8, 0x36u8, 0x7eu8]),
        key_bytes(key_event(KeyCode::Insert, m, kind)) == Some(seq![0x1bu8, 0x5bu8, 0x32u8, 0x7eu8]),
        key_bytes(key_event(KeyCode::Delete, m, kind)) == Some(seq![0x1bu8, 0x5bu8, 0x33u8, 0x7eu8]),
{
    assert(key_bytes(key_event(KeyCode::PageUp, m, kind)).unwrap() =~= seq![0x1bu8, 0x5bu8, 0x35u8, 0x7eu8]);
    assert(key_bytes(key_event(KeyCode::PageDown, m, kind)).unwrap() =~= seq![0x1bu8, 0x5bu8, 0x36u8, 0x7eu8]);
    assert(key_bytes(key_event(KeyCode::Insert, m, kind)).unwrap() =~= seq![0x1bu8, 0x5bu8, 0x32u8, 0x7eu8]);
    assert(key_bytes(key_event(KeyCode::Delete, m, kind)).unwrap() =~= seq![0x1bu8, 0x5bu8, 0x33u8, 0x7eu8]);
}

proof fn lemma_plain_arrow_keys(m: KeyModifiers, kind: KeyEventKind)
    requires
        !m.shift,
        !m.alt,
        !m.control,
    ensures
        key_bytes(key_event(KeyCode::Up, m, kind)) == Some(seq![0x1bu8, 0x5bu8, 0x41u8]),
        key_bytes(key_event(KeyCode::Down, m, kind)) == Some(seq![0x1bu8, 0x5bu8, 0x42u8]),
        key_bytes(key_event(KeyCode::Right, m, kind)) == Some(seq![0x1bu8, 0x5bu8, 0x43u8]),
        key_bytes(key_event(KeyCode::Left, m, kind)) == Some(seq![0x1bu8, 0x5bu8, 0x44u8]),
        key_bytes(key_event(KeyCode::Home, m, kind)) == Some(seq![0x1bu8, 0x5bu8, 0x48u8]),
        key_bytes(key_event(KeyCode::End, m, kind)) == Some(seq![0x1bu8, 0x5bu8, 0x46u8]),
        key_bytes(key_event(KeyCode::BackTab, m, kind)) == Some(seq![0x1bu8, 0x5bu8, 0x5au8]),
{

}

proof fn lemma_plain_plain_keys(m: KeyModifiers, kind: KeyEventKind)
    requires
        !m.shift,
        !m.alt,
        !m.control,
    ensures
        key_bytes(key_event(KeyCode::Enter, m, kind)) == Some(seq![0x0du8]),
        key_bytes(key_event(KeyCode::Tab, m, kind)) == Some(seq![0x09u8]),
        key_bytes(key_event(KeyCode::Backspace, m, kind)) == Some(seq![0x7fu8]),
        key_bytes(key_event(KeyCode::Esc, m, kind)) == Some(seq![0x1bu8]),
{
    assert(key_bytes(key_event(KeyCode::Enter, m, kind)).unwrap() =~= seq![0x0du8]);
    assert(key_bytes(key_event(KeyCode::Tab, m, kind)).unwrap() =~= seq![0x09u8]);
    assert(key_bytes(key_event(KeyCode::Backspace, m, kind)).unwrap() =~= seq![0x7fu8]);
    assert(key_bytes(key_event(KeyCode::Esc, m, kind)).unwrap() =~= seq![0x1bu8]);
}

proof fn lemma_plain_ss3_keys(m: KeyModifiers, kind: KeyEventKind)
    requires
        !m.shift,
        !m.alt,
        !m.control,
    ensures
        key_bytes(key_event(KeyCode::F(1), m, kind)) == Some(seq![0x1bu8, 0x4fu8, 0x50u8]),
        key_bytes(key_event(KeyCode::F(2), m, kind)) == Some(seq![0x1bu8, 0x4fu8, 0x51u8]),
        key_bytes(key_event(KeyCode::F(3), m, kind)) == Some(seq![0x1bu8, 0x4fu8, 0x52u8]),
        key_bytes(key_event(KeyCode::F(4), m, kind)) == Some(seq![0x1bu8, 0x4fu8, 0x53u8]),
{

}

proof fn lemma_plain_csi_keys(m: KeyModifiers, kind: KeyEventKind)
    requires
        !m.shift,
        !m.alt,
        !m.control,
    ensures
        key_bytes(key_event(KeyCode::F(5), m, kind)) == Some(seq![0x1bu8, 0x5bu8, 0x31u8, 0x35u8, 0x7eu8]),
        key_bytes(key_event(KeyCode::F(6), m, kind)) == Some(seq![0x1bu8, 0x5bu8, 0x31u8, 0x37u8, 0x7eu8]),
        key_bytes(key_event(KeyCode::F(7), m, kind)) == Some(seq![0x1bu8, 0x5bu8, 0x31u8, 0x38u8, 0x7eu8]),
        key_bytes(key_event(KeyCode::F(8), m, kind)) == Some(seq![0x1bu8, 0x5bu8, 0x31u8, 0x39u8, 0x7eu8]),
{
    assert(key_bytes(key_event(KeyCode::F(5), m, kind)).unwrap() =~= seq![0x1bu8, 0x5bu8, 0x31u8, 0x35u8, 0x7eu8]);
    assert(key_bytes(key_event(KeyCode::F(6), m, kind)).unwrap() =~= seq![0x1bu8, 0x5bu8, 0x31u8, 0x37u8, 0x7eu8]);
    assert(key_bytes(key_event(KeyCode::F(7), m, kind)).unwrap() =~= seq![0x1bu8, 0x5bu8, 0x31u8, 0x38u8, 0x7eu8]);
    assert(key_bytes(key_event(KeyCode::F(8), m, kind)).unwrap() =~= seq![0x1bu8, 0x5bu8, 0x31u8, 0x39u8, 0x7eu8]);
}

proof fn lemma_plain_csi_high_keys(m: KeyModifiers, kind: KeyEventKind)
    requires
        !m.shift,
        !m.alt,
        !m.control,
    ensures
        key_bytes(key_event(KeyCode::F(9), m, kind)) == Some(seq![0x1bu8, 0x5bu8, 0x32u8, 0x30u8, 0x7eu8]),
        key_bytes(key_event(KeyCode::F(10), m, kind)) == Some(seq![0x1bu8, 0x5bu8, 0x32u8, 0x31u8, 0x7eu8]),
        key_bytes(key_event(KeyCode::F(11), m, kind)) == Some(seq![0x1bu8, 0x5bu8, 0x32u8, 0x33u8, 0x7eu8]),
        key_bytes(key_event(KeyCode::F(12), m, kind)) == Some(seq![0x1bu8, 0x5bu8, 0x32u8, 0x34u8, 0x7eu8]),
{
    assert(key_bytes(key_event(KeyCode::F(9), m, kind)).unwrap() =~= seq![0x1bu8, 0x5bu8, 0x32u8, 0x30u8, 0x7eu8]);
    assert(key_bytes(key_event(KeyCode::F(10), m, kind)).unwrap() =~= seq![0x1bu8, 0x5bu8, 0x32u8, 0x31u8, 0x7eu8]);
    assert(key_bytes(key_event(KeyCode::F(11), m, kind)).unwrap() =~= seq![0x1bu8, 0x5bu8, 0x32u8, 0x33u8, 0x7eu8]);
    assert(key_bytes(key_event(KeyCode::F(12), m, kind)).unwrap() =~= seq![0x1bu8, 0x5bu8, 0x32u8, 0x34u8, 0x7eu8]);
}


/// An ASCII character typed without Ctrl is sent as its own byte, with an
/// ESC in front when Alt is held.
pub proof fn law_characters_sent_as_typed(c: char, m: KeyModifiers, kind: KeyEventKind)
    requires
        (c as u32) < 128,
        !m.control,
    ensures
        key_bytes(key_event(KeyCode::Char(c), m, kind)) == Some(
            if m.alt {
                seq![0x1bu8, c as u8]
            } else {
                seq![c as u8]
            },
        ),
{
    let v = c as u32;
    assert((v & 0x7F) == v) by (bit_vector)
        requires
            v < 128,
    ;
    assert(encode_scalar(v) =~= seq![c as u8]);
    if m.alt {
        assert(seq![0x1bu8] + encode_scalar(v) =~= seq![0x1bu8, c as u8]);
    }
}

/// After the prefix, the vim letters act as the arrows in either case (h
/// left, j down, k up, l right); `|` and `\` split side by side, `-` and
/// `_` one above the other; q quits; w and x close the pane; s toggles the
/// system panel; n and c open a new pane; `[` and Page Up enter scroll mode.
pub proof fn law_prefix_bindings()
    ensures
        prefix_binding(KeyCode::Left) == Some(InputAction::Focus(FocusDirection::Left)),
        prefix_binding(KeyCode::Down) == Some(InputAction::Focus(FocusDirection::Down)),
        prefix_binding(KeyCode::Up) == Some(InputAction::Focus(FocusDirection::Up)),
        prefix_binding(KeyCode::Right) == Some(InputAction::Focus(FocusDirection::Right)),
        prefix_binding(KeyCode::Char('h')) == prefix_binding(KeyCode::Left),
        prefix_binding(KeyCode::Char('H')) == prefix_binding(KeyCode::Left),
        prefix_binding(KeyCode::Char('j')) == prefix_binding(KeyCode::Down),
        prefix_binding(KeyCode::Char('J')) == prefix_binding(KeyCode::Down),
        prefix_binding(KeyCode::Char('k')) == prefix_binding(KeyCode::Up),
        prefix_binding(KeyCode::Char('K')) == prefix_binding(KeyCode::Up),
        prefix_binding(KeyCode::Char('l')) == prefix_binding(KeyCode::Right),
        prefix_binding(KeyCode::Char('L')) == prefix_binding(KeyCode::Right),
        prefix_binding(KeyCode::Char('|')) == Some(InputAction::Split(SplitDirection::Vertical)),
        prefix_binding(KeyCode::Char('\\')) == Some(InputAction::Split(SplitDirection::Vertical)),
        prefix_binding(KeyCode::Char('-')) == Some(InputAction::Split(SplitDirection::Horizontal)),
        prefix_binding(KeyCode::Char('_')) == Some(InputAction::Split(SplitDirection::Horizontal)),
        prefix_binding(KeyCode::Char('q')) == Some(InputAction::Quit),
        prefix_binding(KeyCode::Char('Q')) == Some(InputAction::Quit),
        prefix_binding(KeyCode::Char('w')) == Some(InputAction::ClosePane),
        prefix_binding(KeyCode::Char('x')) == Some(InputAction::ClosePane),
        prefix_binding(KeyCode::Char('s')) == Some(InputAction::ToggleSystem),
        prefix_binding(KeyCode::Char('n')) == Some(InputAction::NewPane),
        prefix_binding(KeyCode::Char('c')) == Some(InputAction::NewPane),
        prefix_binding(KeyCode::Char('[')) == Some(InputAction::EnterScrollMode),
        prefix_binding(KeyCode::PageUp) == Some(InputAction::EnterScrollMode),
{
}

/// In scroll mode q, Q and Esc leave it, and keys bound to nothing leave it
/// too, asking for nothing; no key arms the prefix there.
pub proof fn law_scroll_mode_exits(
    before: (bool, bool),
    after: (bool, bool),
    key: KeyEvent,
    action: Option<InputAction>,
)
    requires
        before.1,
        !before.0,
        is_press(key),
        input_step(before, after, key, action),
    ensures
        key.code == KeyCode::Char('q') || key.code == KeyCode::Char('Q') || key.code == KeyCode::Esc
            ==> action == Some(InputAction::ExitScrollMode),
        !after.0,
        action is None ==> !after.1,
{
}

/// Ctrl with a letter sends the letter's place in the alphabet (Ctrl+A is
/// 1, Ctrl+Z is 26) whatever its case, Ctrl+space sends NUL, and Alt adds
/// an ESC in front; Ctrl with a character beyond ASCII sends nothing.
pub proof fn law_control_characters(c: char, m: KeyModifiers, kind: KeyEventKind)
    requires
        m.control,
    ensures
        'a' <= c <= 'z' ==> key_bytes(key_event(KeyCode::Char(c), m, kind)) == Some(
            if m.alt {
                seq![0x1bu8, (c as u32 - 'a' as u32 + 1) as u8]
            } else {
                seq![(c as u32 - 'a' as u32 + 1) as u8]
            },
        ),
        'A' <= c <= 'Z' ==> key_bytes(key_event(KeyCode::Char(c), m, kind)) == Some(
            if m.alt {
                seq![0x1bu8, (c as u32 - 'A' as u32 + 1) as u8]
            } else {
                seq![(c as u32 - 'A' as u32 + 1) as u8]
            },
        ),
        c == ' ' ==> key_bytes(key_event(KeyCode::Char(c), m, kind)) == Some(
            if m.alt {
                seq![0x1bu8, 0u8]
            } else {
                seq![0u8]
            },
        ),
        (c as u32) >= 128 ==> key_bytes(key_event(KeyCode::Char(c), m, kind)) is None,
{
    if m.alt {
        if 'a' <= c <= 'z' {
            assert(seq![0x1bu8] + seq![((c as u32) % 32) as u8] =~= seq![0x1bu8, (c as u32 - 'a' as u32 + 1) as u8]);
        }
        if 'A' <= c <= 'Z' {
            assert(seq![0x1bu8] + seq![((c as u32) % 32) as u8] =~= seq![0x1bu8, (c as u32 - 'A' as u32 + 1) as u8]);
        }
        if c == ' ' {
            assert(seq![0x1bu8] + seq![0u8] =~= seq![0x1bu8, 0u8]);
        }
    }
}

/// Keys with no terminal sequence are not sent: the lock, menu, media and
/// lone modifier keys, and function keys outside F1 to F12.
pub proof fn law_unsent_keys(m: KeyModifiers, kind: KeyEventKind, n: u8)
    ensures
        key_bytes(key_event(KeyCode::CapsLock, m, kind)) is None,
        key_bytes(key_event(KeyCode::ScrollLock, m, kind)) is None,
        key_bytes(key_event(KeyCode::NumLock, m, kind)) is None,
        key_bytes(key_event(KeyCode::PrintScreen, m, kind)) is None,
        key_bytes(key_event(KeyCode::Pause, m, kind)) is None,
        key_bytes(key_event(KeyCode::Menu, m, kind)) is None,
        key_bytes(key_event(KeyCode::Media, m, kind)) is None,
        key_bytes(key_event(KeyCode::Modifier, m, kind)) is None,
        key_bytes(key_event(KeyCode::Null, m, kind)) is None,
        key_bytes(key_event(KeyCode::KeypadBegin, m, kind)) is None,
        n == 0 || n > 12 ==> key_bytes(key_event(KeyCode::F(n), m, kind)) is None,
        1 <= n <= 12 ==> key_bytes(key_event(KeyCode::F(n), m, kind)) is Some,
{
}

/// With Shift, Alt or Ctrl held, the named keys carry the xterm modifier
/// digit `d` (see `xterm_modifier_digit`): Page Up is ESC [ 5 ; d ~ and
/// Page Down ESC [ 6 ; d ~, Insert and Delete ESC [ 2 ; d ~ and
/// ESC [ 3 ; d ~, the arrows, Home and End ESC [ 1 ; d and their letter,
/// F1 to F4 ESC [ 1 ; d P to S, F5 ESC [ 15 ; d ~ and F12 ESC [ 24 ; d ~.
pub proof fn law_modified_keys_carry_the_modifier(m: KeyModifiers, kind: KeyEventKind)
    requires
        m.shift || m.alt || m.control,
    ensures
        key_bytes(key_event(KeyCode::PageUp, m, kind)) == Some(
            seq![0x1bu8, 0x5bu8, 0x35u8, 0x3bu8, xterm_modifier_digit(m), 0x7eu8],
        ),
        key_bytes(key_event(KeyCode::PageDown, m, kind)) == Some(
            seq![0x1bu8, 0x5bu8, 0x36u8, 0x3bu8, xterm_modifier_digit(m), 0x7eu8],
        ),
        key_bytes(key_event(KeyCode::Insert, m, kind)) == Some(
            seq![0x1bu8, 0x5bu8, 0x32u8, 0x3bu8, xterm_modifier_digit(m), 0x7eu8],
        ),
        key_bytes(key_event(KeyCode::Delete, m, kind)) == Some(
            seq![0x1bu8, 0x5bu8, 0x33u8, 0x3bu8, xterm_modifier_digit(m), 0x7eu8],
        ),
        key_bytes(key_event(KeyCode::Up, m, kind)) == Some(
            seq![0x1bu8, 0x5bu8, 0x31u8, 0x3bu8, xterm_modifier_digit(m), 0x41u8],
        ),
        key_bytes(key_event(KeyCode::Down, m, kind)) == Some(
            seq![0x1bu8, 0x5bu8, 0x31u8, 0x3bu8, xterm_modifier_digit(m), 0x42u8],
        ),
        key_bytes(key_event(KeyCode::Right, m, kind)) == Some(
            seq![0x1bu8, 0x5bu8, 0x31u8, 0x3bu8, xterm_modifier_digit(m), 0x43u8],
        ),
        key_bytes(key_event(KeyCode::Left, m, kind)) == Some(
            seq![0x1bu8, 0x5bu8, 0x31u8, 0x3bu8, xterm_modifier_digit(m), 0x44u8],
        ),
        key_bytes(key_event(KeyCode::Home, m, kind)) == Some(
            seq![0x1bu8, 0x5bu8, 0x31u8, 0x3bu8, xterm_modifier_digit(m), 0x48u8],
        ),
        key_bytes(key_event(KeyCode::End, m, kind)) == Some(
            seq![0x1bu8, 0x5bu8, 0x31u8, 0x3bu8, xterm_modifier_digit(m), 0x46u8],
        ),
        key_bytes(key_event(KeyCode::F(1), m, kind)) == Some(
            seq![0x1bu8, 0x5bu8, 0x31u8, 0x3bu8, xterm_modifier_digit(m), 0x50u8],
        ),
        key_bytes(key_event(KeyCode::F(4), m, kind)) == Some(
            seq![0x1bu8, 0x5bu8, 0x31u8, 0x3bu8, xterm_modifier_digit(m), 0x53u8],
        ),
        key_bytes(key_event(KeyCode::F(5), m, kind)) == Some(
            seq![0x1bu8, 0x5bu8, 0x31u8, 0x35u8, 0x3bu8, xterm_modifier_digit(m), 0x7eu8],
        ),
        key_bytes(key_event(KeyCode::F(12), m, kind)) == Some(
            seq![0x1bu8, 0x5bu8, 0x32u8, 0x34u8, 0x3bu8, xterm_modifier_digit(m), 0x7eu8],
        ),
{
    let d = xterm_modifier_digit(m);
    let ctrl = m.contains(KeyModifiers::control());
    let alt = m.contains(KeyModifiers::alt());
    let shift = m.contains(KeyModifiers::shift());
    assert(csi_modifier_param(ctrl, alt, shift) == Some((d - 0x30) as u8));
    assert(key_bytes(key_event(KeyCode::PageUp, m, kind)).unwrap() =~= seq![0x1bu8, 0x5bu8, 0x35u8, 0x3bu8, d, 0x7eu8]);
    assert(key_bytes(key_event(KeyCode::PageDown, m, kind)).unwrap() =~= seq![0x1bu8, 0x5bu8, 0x36u8, 0x3bu8, d, 0x7eu8]);
    assert(key_bytes(key_event(KeyCode::Insert, m, kind)).unwrap() =~= seq![0x1bu8, 0x5bu8, 0x32u8, 0x3bu8, d, 0x7eu8]);
    assert(key_bytes(key_event(KeyCode::Delete, m, kind)).unwrap() =~= seq![0x1bu8, 0x5bu8, 0x33u8, 0x3bu8, d, 0x7eu8]);
    assert(key_bytes(key_event(KeyCode::F(5), m, kind)).unwrap() =~= seq![0x1bu8, 0x5bu8, 0x31u8, 0x35u8, 0x3bu8, d, 0x7eu8]);
    assert(key_bytes(key_event(KeyCode::F(12), m, kind)).unwrap() =~= seq![0x1bu8, 0x5bu8, 0x32u8, 0x34u8, 0x3bu8, d, 0x7eu8]);
}

/// Tracks whether the user just pressed the prefix key and is now mid-chord,
/// and whether the focused pane is in scroll mode.
#[derive(Debug, Default)]
pub struct InputState {
    prefix_armed: bool,
    scroll_mode: bool,
}

impl View for InputState {
    /// (prefix armed, scroll mode)
    type V = (bool, bool);

    closed spec fn view(&self) -> (bool, bool) {
        (self.prefix_armed, self.scroll_mode)
    }
}

impl InputState {
    /// Neither armed nor scrolling.
    pub fn new() -> (state: Self)
        ensures
            state@ == (false, false),
    {
        InputState { prefix_armed: false, scroll_mode: false }
    }

    /// Whether the prefix key was pressed and the next key is a command.
    pub fn prefix_armed(&self) -> (armed: bool)
        ensures
            armed == self@.0,
    {
        self.prefix_armed
    }

    /// Whether scroll mode is on.
    pub fn scroll_mode(&self) -> (on: bool)
        ensures
            on == self@.1,
    {
        self.scroll_mode
    }

    /// Turns scroll mode on or off; turning it on disarms the prefix.
    pub fn set_scroll_mode(&mut self, on: bool)
        ensures
            final(self)@ == scroll_mode_set(old(self)@, on),
    {
        self.scroll_mode = on;
        if on {
            self.prefix_armed = false;
        }
    }

    /// Translates a key event into the next action, respecting prefix and
    /// scroll-mode state. Returns `None` when the key has no effect.
    pub fn handle(&mut self, key: KeyEvent) -> (action: Option<InputAction>)
        ensures
            input_step(old(self)@, final(self)@, key, action),
    {
        if key.kind != KeyEventKind::Press && key.kind != KeyEventKind::Repeat {
            return None;
        }
        if self.scroll_mode {
            let action = scroll_mode_action(key);
            if action.is_none() {
                // Any unrecognised key exits scroll mode.
                self.scroll_mode = false;
            }
            return action;
        }
        if self.prefix_armed {
            self.prefix_armed = false;
            return prefix_action(key);
        }
        if is_prefix(key) {
            self.prefix_armed = true;
            return None;
        }
        // Otherwise the key is destined for the focused pane's PTY.
        match key_to_bytes(key) {
            Some(bytes) => Some(InputAction::Send(bytes)),
            None => None,
        }
    }
}

/// Ctrl+B is the prefix. Chosen because tmux uses it by default and it's not
/// a common shell shortcut.
fn is_prefix(key: KeyEvent) -> (r: bool)
    ensures
        r == is_prefix_key(key),
{
    key.modifiers.contains(KeyModifiers::control()) && match key.code {
        KeyCode::Char('b') | KeyCode::Char('B') => true,
        _ => false,
    }
}

/// Action triggered by the key that follows the prefix.
fn prefix_action(key: KeyEvent) -> (r: Option<InputAction>)
    ensures
        r == prefix_binding(key.code),
{
    match key.code {
        KeyCode::Char('q') | KeyCode::Char('Q') => Some(InputAction::Quit),
        KeyCode::Char('h') | KeyCode::Char('H') | KeyCode::Left => Some(
            InputAction::Focus(FocusDirection::Left),
        ),
        KeyCode::Char('j') | KeyCode::Char('J') | KeyCode::Down => Some(
            InputAction::Focus(FocusDirection::Down),
        ),
        KeyCode::Char('k') | KeyCode::Char('K') | KeyCode::Up => Some(
            InputAction::Focus(FocusDirection::Up),
        ),
        KeyCode::Char('l') | KeyCode::Char('L') | KeyCode::Right => Some(
            InputAction::Focus(FocusDirection::Right),
        ),
        KeyCode::Char('|') | KeyCode::Char('\\') => Some(
            InputAction::Split(SplitDirection::Vertical),
        ),
        KeyCode::Char('-') | KeyCode::Char('_') => Some(
            InputAction::Split(SplitDirection::Horizontal),
        ),
        KeyCode::Char('w') | KeyCode::Char('W') | KeyCode::Char('x') | KeyCode::Char('X') => Some(
            InputAction::ClosePane,
        ),
        KeyCode::Char('s') | KeyCode::Char('S') => Some(InputAction::ToggleSystem),
        KeyCode::Char('n') | KeyCode::Char('N') | KeyCode::Char('c') | KeyCode::Char('C') => Some(
            InputAction::NewPane,
        ),
        KeyCode::Char('[') | KeyCode::PageUp => Some(InputAction::EnterScrollMode),
        _ => None,
    }
}

/// Key handling while scroll mode is active.
fn scroll_mode_action(key: KeyEvent) -> (r: Option<InputAction>)
    ensures
        r == scroll_binding(key.code),
{
    match key.code {
        KeyCode::Char('q') | KeyCode::Char('Q') | KeyCode::Esc => Some(InputAction::ExitScrollMode),
        KeyCode::Up | KeyCode::Char('k') | KeyCode::Char('K') => Some(
            InputAction::Scroll(ScrollAction::LineUp),
        ),
        KeyCode::Down | KeyCode::Char('j') | KeyCode::Char('J') => Some(
            InputAction::Scroll(ScrollAction::LineDown),
        ),
        KeyCode::PageUp | KeyCode::Char('b') | KeyCode::Char('B') => Some(
            InputAction::Scroll(ScrollAction::PageUp),
        ),
        KeyCode::PageDown | KeyCode::Char('f') | KeyCode::Char('F') | KeyCode::Char(' ') => Some(
            InputAction::Scroll(ScrollAction::PageDown),
        ),
        KeyCode::Home | KeyCode::Char('g') => Some(InputAction::Scroll(ScrollAction::Top)),
        KeyCode::End | KeyCode::Char('G') => Some(InputAction::Scroll(ScrollAction::Bottom)),
        _ => None,
    }
}

// ---------------------------------------------------------------------------
// Forwarding keys to the shell

/// Whether the key's bytes are a plain key (Alt adds a leading ESC) or a
/// navigation sequence (the modifier is already inside).
enum KeyBytes {
    Literal(Vec<u8>),
    Navigation(Vec<u8>),
}

fn key_to_bytes(key: KeyEvent) -> (r: Option<Vec<u8>>)
    ensures
        match key_bytes(key) {
            None => r is None,
            Some(b) => r matches Some(v) && v@ == b,
        },
{
    let ctrl = key.modifiers.contains(KeyModifiers::control());
    let alt = key.modifiers.contains(KeyModifiers::alt());
    let shift = key.modifiers.contains(KeyModifiers::shift());
    let csi_mod = csi_modifier(ctrl, alt, shift);

    let kind = match key.code {
        KeyCode::Char(c) => {
            if ctrl {
                match control_char_bytes(c) {
                    Some(b) => KeyBytes::Literal(b),
                    None => return None,
                }
            } else {
                KeyBytes::Literal(encode_char(c))
            }
        },
        KeyCode::Enter => KeyBytes::Literal(vec![0x0d]),
        KeyCode::Backspace => KeyBytes::Literal(vec![0x7f]),
        KeyCode::Tab => KeyBytes::Literal(vec![0x09]),
        KeyCode::BackTab => KeyBytes::Navigation(vec![0x1b, 0x5b, 0x5a]),
        KeyCode::Esc => KeyBytes::Literal(vec![0x1b]),
        KeyCode::Left => KeyBytes::Navigation(arrow_bytes(0x44, csi_mod)),
        KeyCode::Right => KeyBytes::Navigation(arrow_bytes(0x43, csi_mod)),
        KeyCode::Up => KeyBytes::Navigation(arrow_bytes(0x41, csi_mod)),
        KeyCode::Down => KeyBytes::Navigation(arrow_bytes(0x42, csi_mod)),
        KeyCode::Home => KeyBytes::Navigation(arrow_bytes(0x48, csi_mod)),
        KeyCode::End => KeyBytes::Navigation(arrow_bytes(0x46, csi_mod)),
        KeyCode::Delete => KeyBytes::Navigation(tilde_bytes(3, csi_mod)),
        KeyCode::Insert => KeyBytes::Navigation(tilde_bytes(2, csi_mod)),
        KeyCode::PageUp => KeyBytes::Navigation(tilde_bytes(5, csi_mod)),
        KeyCode::PageDown => KeyBytes::Navigation(tilde_bytes(6, csi_mod)),
        KeyCode::F(n) => match function_key_bytes(n, csi_mod) {
            Some(b) => KeyBytes::Navigation(b),
            None => return None,
        },
        _ => return None,
    };

    match kind {
        KeyBytes::Literal(bytes) => {
            if alt {
                let mut prefixed = Vec::new();
                prefixed.push(0x1b);
                let mut i: usize = 0;
                while i < bytes.len()
                    invariant
                        i <= bytes.len(),
                        prefixed@ == seq![0x1bu8] + bytes@.take(i as int),
                    decreases bytes.len() - i,
                {
                    prefixed.push(bytes[i]);
                    i += 1;
                    assert(bytes@.take(i as int) =~= bytes@.take(i - 1) + seq![bytes@[i - 1]]);
                }
                assert(bytes@.take(bytes.len() as int) =~= bytes@);
                Some(prefixed)
            } else {
                Some(bytes)
            }
        },
        KeyBytes::Navigation(bytes) => Some(bytes),
    }
}

fn csi_modifier(ctrl: bool, alt: bool, shift: bool) -> (r: Option<u8>)
    ensures
        r == csi_modifier_param(ctrl, alt, shift),
        r matches Some(m) ==> 2 <= m <= 8,
{
    let mut mask: u8 = 0;
    if shift {
        mask += 1;
    }
    if alt {
        mask += 2;
    }
    if ctrl {
        mask += 4;
    }
    if mask == 0 {
        None
    } else {
        Some(mask + 1)
    }
}

fn arrow_bytes(letter: u8, modifier: Option<u8>) -> (r: Vec<u8>)
    requires
        modifier matches Some(m) ==> m <= 9,
    ensures
        r@ == arrow_sequence(letter, modifier),
{
    match modifier {
        None => vec![0x1b, 0x5b, letter],
        Some(m) => vec![0x1b, 0x5b, 0x31, 0x3b, 0x30 + m, letter],
    }
}

fn tilde_bytes(number: u8, modifier: Option<u8>) -> (r: Vec<u8>)
    requires
        number <= 9,
        modifier matches Some(m) ==> m <= 9,
    ensures
        r@ == tilde_sequence(number, modifier),
{
    match modifier {
        None => vec![0x1b, 0x5b, 0x30 + number, 0x7e],
        Some(m) => vec![0x1b, 0x5b, 0x30 + number, 0x3b, 0x30 + m, 0x7e],
    }
}

fn function_key_bytes(n: u8, modifier: Option<u8>) -> (r: Option<Vec<u8>>)
    requires
        modifier matches Some(m) ==> m <= 9,
    ensures
        match function_key_sequence(n, modifier) {
            None => r is None,
            Some(b) => r matches Some(v) && v@ == b,
        },
{
    // F1-F4 use SS3 (ESC O P..S), F5+ use CSI with parameter codes per xterm.
    let plain: Vec<u8> = match n {
        1 => vec![0x1b, 0x4f, 0x50],
        2 => vec![0x1b, 0x4f, 0x51],
        3 => vec![0x1b, 0x4f, 0x52],
        4 => vec![0x1b, 0x4f, 0x53],
        5 => vec![0x1b, 0x5b, 0x31, 0x35, 0x7e],
        6 => vec![0x1b, 0x5b, 0x31, 0x37, 0x7e],
        7 => vec![0x1b, 0x5b, 0x31, 0x38, 0x7e],
        8 => vec![0x1b, 0x5b, 0x31, 0x39, 0x7e],
        9 => vec![0x1b, 0x5b, 0x32, 0x30, 0x7e],
        10 => vec![0x1b, 0x5b, 0x32, 0x31, 0x7e],
        11 => vec![0x1b, 0x5b, 0x32, 0x33, 0x7e],
        12 => vec![0x1b, 0x5b, 0x32, 0x34, 0x7e],
        _ => return None,
    };
    let m = match modifier {
        None => {
            proof {
                assert(plain@ =~= function_key_sequence(n, modifier).unwrap());
            }
            return Some(plain);
        },
        Some(m) => m,
    };
    // With a modifier, F1-F4 use the CSI 1;m form (P/Q/R/S as the final
    // byte); tilde-form keys take a parameter slot.
    let r = match n {
        1 => vec![0x1b, 0x5b, 0x31, 0x3b, 0x30 + m, 0x50],
        2 => vec![0x1b, 0x5b, 0x31, 0x3b, 0x30 + m, 0x51],
        3 => vec![0x1b, 0x5b, 0x31, 0x3b, 0x30 + m, 0x52],
        4 => vec![0x1b, 0x5b, 0x31, 0x3b, 0x30 + m, 0x53],
        5 => with_modifier(0x31, 0x35, m),
        6 => with_modifier(0x31, 0x37, m),
        7 => with_modifier(0x31, 0x38, m),
        8 => with_modifier(0x31, 0x39, m),
        9 => with_modifier(0x32, 0x30, m),
        10 => with_modifier(0x32, 0x31, m),
        11 => with_modifier(0x32, 0x33, m),
        _ => with_modifier(0x32, 0x34, m),
    };
    proof {
        assert(r@ =~= function_key_sequence(n, modifier).unwrap());
    }
    Some(r)
}

/// ESC [ d1 d2 ; m ~
fn with_modifier(digit1: u8, digit2: u8, modifier: u8) -> (r: Vec<u8>)
    requires
        modifier <= 9,
    ensures
        r@ == seq![0x1bu8, 0x5bu8] + seq![digit1, digit2] + seq![0x3bu8, (0x30 + modifier) as u8, 0x7eu8],
{
    let r = vec![0x1b, 0x5b, digit1, digit2, 0x3b, 0x30 + modifier, 0x7e];
    assert(r@ =~= seq![0x1bu8, 0x5bu8] + seq![digit1, digit2] + seq![0x3bu8, (0x30 + modifier) as u8, 0x7eu8]);
    r
}

fn control_char_bytes(c: char) -> (r: Option<Vec<u8>>)
    ensures
        match control_char_sequence(c) {
            None => r is None,
            Some(b) => r matches Some(v) && v@ == b,
        },
{
    if c == ' ' {
        return Some(vec![0]);
    }
    let v = c as u32;
    if v < 128 {
        let b = (v as u8) & 0x1f;
        assert(b == (v % 32) as u8) by (bit_vector)
            requires
                v < 128,
                b == (v as u8) & 0x1f,
        ;
        Some(vec![b])
    } else {
        None
    }
}


// ---------------------------------------------------------------------------
// Labels of the on-screen keyboard

/// The on-screen keyboard key that shows a key code: the named keys, the
/// digit and punctuation keys (a shifted symbol shows its unshifted key),
/// and the letters in either case.
pub open spec fn code_label(code: KeyCode) -> Option<Seq<char>> {
    match code {
        KeyCode::Esc => Some("ESC"@),
        KeyCode::Backspace => Some("BACK"@),
        KeyCode::Enter => Some("ENTER"@),
        KeyCode::Tab | KeyCode::BackTab => Some("TAB"@),
        KeyCode::Left => Some("LEFT"@),
        KeyCode::Right => Some("RIGHT"@),
        KeyCode::Up => Some("UP"@),
        KeyCode::Down => Some("DOWN"@),
        KeyCode::Char(' ') => Some("SPACE"@),
        KeyCode::Char('`') | KeyCode::Char('~') => Some("~"@),
        KeyCode::Char('1') | KeyCode::Char('!') => Some("1"@),
        KeyCode::Char('2') | KeyCode::Char('@') => Some("2"@),
        KeyCode::Char('3') | KeyCode::Char('#') => Some("3"@),
        KeyCode::Char('4') | KeyCode::Char('$') => Some("4"@),
        KeyCode::Char('5') | KeyCode::Char('%') => Some("5"@),
        KeyCode::Char('6') | KeyCode::Char('^') => Some("6"@),
        KeyCode::Char('7') | KeyCode::Char('&') => Some("7"@),
        KeyCode::Char('8') | KeyCode::Char('*') => Some("8"@),
        KeyCode::Char('9') | KeyCode::Char('(') => Some("9"@),
        KeyCode::Char('0') | KeyCode::Char(')') => Some("0"@),
        KeyCode::Char('-') | KeyCode::Char('_') => Some("-"@),
        KeyCode::Char('=') | KeyCode::Char('+') => Some("="@),
        KeyCode::Char('[') | KeyCode::Char('{') => Some("{"@),
        KeyCode::Char(']') | KeyCode::Char('}') => Some("}"@),
        KeyCode::Char('\\') | KeyCode::Char('|') => Some("\\"@),
        KeyCode::Char(';') | KeyCode::Char(':') => Some(";"@),
        KeyCode::Char('\'') | KeyCode::Char('"') => Some("'"@),
        KeyCode::Char(',') | KeyCode::Char('<') => Some(","@),
        KeyCode::Char('.') | KeyCode::Char('>') => Some("."@),
        KeyCode::Char('/') | KeyCode::Char('?') => Some("/"@),
        KeyCode::Char('a') | KeyCode::Char('A') => Some("A"@),
        KeyCode::Char('b') | KeyCode::Char('B') => Some("B"@),
        KeyCode::Char('c') | KeyCode::Char('C') => Some("C"@),
        KeyCode::Char('d') | KeyCode::Char('D') => Some("D"@),
        KeyCode::Char('e') | KeyCode::Char('E') => Some("E"@),
        KeyCode::Char('f') | KeyCode::Char('F') => Some("F"@),
        KeyCode::Char('g') | KeyCode::Char('G') => Some("G"@),
        KeyCode::Char('h') | KeyCode::Char('H') => Some("H"@),
        KeyCode::Char('i') | KeyCode::Char('I') => Some("I"@),
        KeyCode::Char('j') | KeyCode::Char('J') => Some("J"@),
        KeyCode::Char('k') | KeyCode::Char('K') => Some("K"@),
        KeyCode::Char('l') | KeyCode::Char('L') => Some("L"@),
        KeyCode::Char('m') | KeyCode::Char('M') => Some("M"@),
        KeyCode::Char('n') | KeyCode::Char('N') => Some("N"@),
        KeyCode::Char('o') | KeyCode::Char('O') => Some("O"@),
        KeyCode::Char('p') | KeyCode::Char('P') => Some("P"@),
        KeyCode::Char('q') | KeyCode::Char('Q') => Some("Q"@),
        KeyCode::Char('r') | KeyCode::Char('R') => Some("R"@),
        KeyCode::Char('s') | KeyCode::Char('S') => Some("S"@),
        KeyCode::Char('t') | KeyCode::Char('T') => Some("T"@),
        KeyCode::Char('u') | KeyCode::Char('U') => Some("U"@),
        KeyCode::Char('v') | KeyCode::Char('V') => Some("V"@),
        KeyCode::Char('w') | KeyCode::Char('W') => Some("W"@),
        KeyCode::Char('x') | KeyCode::Char('X') => Some("X"@),
        KeyCode::Char('y') | KeyCode::Char('Y') => Some("Y"@),
        KeyCode::Char('z') | KeyCode::Char('Z') => Some("Z"@),
        _ => None,
    }
}

/// CTRL, ALT and SHIFT, in that order, for the modifiers held.
pub open spec fn modifier_labels(m: KeyModifiers) -> Seq<Seq<char>> {
    let ctrl: Seq<Seq<char>> = if m.contains(KeyModifiers::control()) {
        seq!["CTRL"@]
    } else {
        seq![]
    };
    let alt: Seq<Seq<char>> = if m.contains(KeyModifiers::alt()) {
        seq!["ALT"@]
    } else {
        seq![]
    };
    let shift: Seq<Seq<char>> = if m.contains(KeyModifiers::shift()) {
        seq!["SHIFT"@]
    } else {
        seq![]
    };
    ctrl + alt + shift
}

/// The keyboard labels a key event lights up: its modifiers, then its key
/// unless that label is already among them.
pub open spec fn key_label_seq(key: KeyEvent) -> Seq<Seq<char>> {
    let mods = modifier_labels(key.modifiers);
    match code_label(key.code) {
        Some(l) => if mods.contains(l) {
            mods
        } else {
            mods.push(l)
        },
        None => mods,
    }
}

/// The on-screen keyboard labels that `key` lights up.
pub fn key_labels(key: KeyEvent) -> (labels: Vec<&'static str>)
    ensures
        labels@.map_values(|l: &str| l@) == key_label_seq(key),
{
    let mut labels: Vec<&'static str> = Vec::new();
    if key.modifiers.contains(KeyModifiers::control()) {
        labels.push("CTRL");
    }
    if key.modifiers.contains(KeyModifiers::alt()) {
        labels.push("ALT");
    }
    if key.modifiers.contains(KeyModifiers::shift()) {
        labels.push("SHIFT");
    }
    let ghost mods = modifier_labels(key.modifiers);
    assert(labels@.map_values(|l: &str| l@) =~= mods);
    if let Some(label) = key_code_label(key.code) {
        if !contains_label(&labels, label) {
            labels.push(label);
            assert(labels@.map_values(|l: &str| l@) =~= mods.push(label@));
        }
    }
    labels
}

/// Whether `label` is among `labels`.
fn contains_label(labels: &Vec<&'static str>, label: &str) -> (found: bool)
    ensures
        found == labels@.map_values(|l: &str| l@).contains(label@),
{
    let ghost views = labels@.map_values(|l: &str| l@);
    let mut i: usize = 0;
    while i < labels.len()
        invariant
            i <= labels.len(),
            views == labels@.map_values(|l: &str| l@),
            forall|j: int| 0 <= j < i ==> views[j] != label@,
        decreases labels.len() - i,
    {
        if str_eq(labels[i], label) {
            assert(views[i as int] == label@);
            return true;
        }
        i += 1;
    }
    false
}

fn key_code_label(code: KeyCode) -> (label: Option<&'static str>)
    ensures
        match code_label(code) {
            None => label is None,
            Some(l) => label matches Some(s) && s@ == l,
        },
{
    match code {
        KeyCode::Esc => Some("ESC"),
        KeyCode::Backspace => Some("BACK"),
        KeyCode::Enter => Some("ENTER"),
        KeyCode::Tab | KeyCode::BackTab => Some("TAB"),
        KeyCode::Left => Some("LEFT"),
        KeyCode::Right => Some("RIGHT"),
        KeyCode::Up => Some("UP"),
        KeyCode::Down => Some("DOWN"),
        KeyCode::Char(' ') => Some("SPACE"),
        KeyCode::Char('`') | KeyCode::Char('~') => Some("~"),
        KeyCode::Char('1') | KeyCode::Char('!') => Some("1"),
        KeyCode::Char('2') | KeyCode::Char('@') => Some("2"),
        KeyCode::Char('3') | KeyCode::Char('#') => Some("3"),
        KeyCode::Char('4') | KeyCode::Char('$') => Some("4"),
        KeyCode::Char('5') | KeyCode::Char('%') => Some("5"),
        KeyCode::Char('6') | KeyCode::Char('^') => Some("6"),
        KeyCode::Char('7') | KeyCode::Char('&') => Some("7"),
        KeyCode::Char('8') | KeyCode::Char('*') => Some("8"),
        KeyCode::Char('9') | KeyCode::Char('(') => Some("9"),
        KeyCode::Char('0') | KeyCode::Char(')') => Some("0"),
        KeyCode::Char('-') | KeyCode::Char('_') => Some("-"),
        KeyCode::Char('=') | KeyCode::Char('+') => Some("="),
        KeyCode::Char('[') | KeyCode::Char('{') => Some("{"),
        KeyCode::Char(']') | KeyCode::Char('}') => Some("}"),
        KeyCode::Char('\\') | KeyCode::Char('|') => Some("\\"),
        KeyCode::Char(';') | KeyCode::Char(':') => Some(";"),
        KeyCode::Char('\'') | KeyCode::Char('"') => Some("'"),
        KeyCode::Char(',') | KeyCode::Char('<') => Some(","),
        KeyCode::Char('.') | KeyCode::Char('>') => Some("."),
        KeyCode::Char('/') | KeyCode::Char('?') => Some("/"),
        KeyCode::Char('a') | KeyCode::Char('A') => Some("A"),
        KeyCode::Char('b') | KeyCode::Char('B') => Some("B"),
        KeyCode::Char('c') | KeyCode::Char('C') => Some("C"),
        KeyCode::Char('d') | KeyCode::Char('D') => Some("D"),
        KeyCode::Char('e') | KeyCode::Char('E') => Some("E"),
        KeyCode::Char('f') | KeyCode::Char('F') => Some("F"),
        KeyCode::Char('g') | KeyCode::Char('G') => Some("G"),
        KeyCode::Char('h') | KeyCode::Char('H') => Some("H"),
        KeyCode::Char('i') | KeyCode::Char('I') => Some("I"),
        KeyCode::Char('j') | KeyCode::Char('J') => Some("J"),
        KeyCode::Char('k') | KeyCode::Char('K') => Some("K"),
        KeyCode::Char('l') | KeyCode::Char('L') => Some("L"),
        KeyCode::Char('m') | KeyCode::Char('M') => Some("M"),
        KeyCode::Char('n') | KeyCode::Char('N') => Some("N"),
        KeyCode::Char('o') | KeyCode::Char('O') => Some("O"),
        KeyCode::Char('p') | KeyCode::Char('P') => Some("P"),
        KeyCode::Char('q') | KeyCode::Char('Q') => Some("Q"),
        KeyCode::Char('r') | KeyCode::Char('R') => Some("R"),
        KeyCode::Char('s') | KeyCode::Char('S') => Some("S"),
        KeyCode::Char('t') | KeyCode::Char('T') => Some("T"),
        KeyCode::Char('u') | KeyCode::Char('U') => Some("U"),
        KeyCode::Char('v') | KeyCode::Char('V') => Some("V"),
        KeyCode::Char('w') | KeyCode::Char('W') => Some("W"),
        KeyCode::Char('x') | KeyCode::Char('X') => Some("X"),
        KeyCode::Char('y') | KeyCode::Char('Y') => Some("Y"),
        KeyCode::Char('z') | KeyCode::Char('Z') => Some("Z"),
        _ => None,
    }
}

} // verus!
