//! String formatters (truncation, mount names, compact counts) and the
//! small animation generators used by the dashboard.

use vstd::prelude::*;
use vstd::string::StringExecFns;
use vstd::string::StrSliceExecFns;

use crate::system::{as_double, nearest_double, pow_two, round_half_even};
use crate::text::{decimal, digit_char, push_char, push_decimal, push_decimal_wide, push_str, str_eq};

verus! {

// ---------------------------------------------------------------------------
// Truncation

/// At most `max` characters of `v`; when characters were cut and there is
/// room for more than one, the last kept character becomes `~`.
pub open spec fn truncated(v: Seq<char>, max: nat) -> Seq<char> {
    if max == 0 {
        seq![]
    } else if v.len() <= max {
        v
    } else if max > 1 {
        v.take(max - 1).push('~')
    } else {
        v.take(1)
    }
}

/// Truncates `value` to at most `max_chars` characters, appending `~` if
/// truncation occurred and `max_chars > 1`.
pub fn truncate(value: &str, max_chars: usize) -> (r: String)
    ensures
        r@ == truncated(value@, max_chars as nat),
        r@.len() <= max_chars,
{
    if max_chars == 0 {
        return String::new();
    }
    let n = value.unicode_len();
    if n <= max_chars {
        return String::from_str(value);
    }
    if max_chars > 1 {
        let mut out = String::from_str(value.substring_char(0, max_chars - 1));
        push_char(&mut out, '~');
        proof {
            assert(value@.subrange(0, max_chars - 1) =~= value@.take(max_chars - 1));
        }
        out
    } else {
        let out = String::from_str(value.substring_char(0, 1));
        proof {
            assert(value@.subrange(0, 1) =~= value@.take(1));
        }
        out
    }
}

// ---------------------------------------------------------------------------
// Mount points

/// `s` without the `/` characters at its end.
pub open spec fn trim_trailing_slashes(s: Seq<char>) -> Seq<char>
    decreases s.len(),
{
    if s.len() > 0 && s.last() == '/' {
        trim_trailing_slashes(s.drop_last())
    } else {
        s
    }
}

/// The part of `s` after its last `/` (all of `s` without one).
pub open spec fn last_segment(s: Seq<char>) -> Seq<char>
    decreases s.len(),
{
    if s.len() == 0 {
        s
    } else if s.last() == '/' {
        seq![]
    } else {
        last_segment(s.drop_last()).push(s.last())
    }
}

/// The name shown for a mount point: `/` stays `/`; otherwise the last path
/// component, ignoring trailing slashes, or the whole mount when that
/// component is empty.
pub open spec fn mount_name(m: Seq<char>) -> Seq<char> {
    if m == seq!['/'] {
        m
    } else {
        let seg = last_segment(trim_trailing_slashes(m));
        if seg.len() > 0 {
            seg
        } else {
            m
        }
    }
}

/// The character range of the last `/`-separated segment of `text`, after
/// the `/` characters at its end are dropped.
pub fn last_segment_range(text: &str) -> (r: (usize, usize))
    ensures
        r.0 <= r.1 <= text@.len(),
        text@.subrange(r.0 as int, r.1 as int) == last_segment(trim_trailing_slashes(text@)),
{
    let ghost m = text@;
    // Strip trailing slashes.
    let mut end = text.unicode_len();
    assert(m.take(end as int) =~= m);
    while end > 0 && text.get_char(end - 1) == '/'
        invariant
            end <= m.len(),
            m == text@,
            trim_trailing_slashes(m.take(end as int)) == trim_trailing_slashes(m),
        decreases end,
    {
        assert(m.take(end - 1) =~= m.take(end as int).drop_last());
        end -= 1;
    }
    let ghost trimmed = m.take(end as int);
    assert(trim_trailing_slashes(trimmed) == trimmed);
    // Find the start of the last segment.
    let mut start = end;
    while start > 0 && text.get_char(start - 1) != '/'
        invariant
            start <= end,
            end <= m.len(),
            m == text@,
            trimmed == m.take(end as int),
            last_segment(trimmed) == last_segment(m.take(start as int)) + m.subrange(
                start as int,
                end as int,
            ),
        decreases start,
    {
        assert(m.take(start - 1) =~= m.take(start as int).drop_last());
        assert(m.subrange(start - 1, end as int) =~= seq![m[start - 1]] + m.subrange(
            start as int,
            end as int,
        ));
        assert(last_segment(m.take(start as int)) == last_segment(m.take(start - 1)).push(
            m[start - 1],
        ));
        assert(last_segment(m.take(start - 1)).push(m[start - 1]) + m.subrange(
            start as int,
            end as int,
        ) =~= last_segment(m.take(start - 1)) + m.subrange(start - 1, end as int));
        start -= 1;
    }
    assert(last_segment(m.take(start as int)) =~= seq![]);
    assert(last_segment(trimmed) =~= m.subrange(start as int, end as int));
    (start, end)
}

/// The short name of a mount point.
pub fn short_mount(mount: &str) -> (r: String)
    ensures
        r@ == mount_name(mount@),
{
    proof {
        reveal_strlit("/");
    }
    if str_eq(mount, "/") {
        assert(mount@ =~= seq!['/']);
        return String::from_str("/");
    }
    let (start, end) = last_segment_range(mount);
    if start < end {
        String::from_str(mount.substring_char(start, end))
    } else {
        String::from_str(mount)
    }
}

// ---------------------------------------------------------------------------
// Counts

/// How far `a` is shifted left, at most `budget` places, before it reaches
/// `2^52 * d`: the first shift at which `a / d` has 53 significant bits.
pub open spec fn shift_within(a: nat, d: nat, budget: nat) -> nat
    decreases budget,
{
    if budget == 0 || a >= 0x10_0000_0000_0000 * d {
        0
    } else {
        1 + shift_within(2 * a, d, (budget - 1) as nat)
    }
}

/// The binary exponent that puts the 53-bit significand of `a / d` in
/// front of the point (for `a >= d`).
pub open spec fn quotient_shift(a: nat, d: nat) -> nat {
    shift_within(a, d, 64)
}

/// `a / d` with one decimal, as `{:.1}` prints the `f64` nearest to it:
/// the quotient rounded to 53 significant bits (ties to even), then to a
/// tenth (ties to even).
pub open spec fn tenths_text(a: nat, d: nat) -> Seq<char> {
    let s = quotient_shift(a, d);
    let significand = round_half_even(a * pow_two(s), d);
    let tenths = round_half_even(10 * significand, pow_two(s));
    decimal(tenths / 10) + "."@ + seq![digit_char(tenths % 10)]
}

/// A count in thousands (`K`), millions (`M`) or billions (`B`) with one
/// decimal, as the `f64` quotient prints; below a thousand the count
/// itself.
pub open spec fn compact_text(value: nat) -> Seq<char> {
    if value >= 1_000_000_000 {
        tenths_text(as_double(value), 1_000_000_000) + "B"@
    } else if value >= 1_000_000 {
        tenths_text(value, 1_000_000) + "M"@
    } else if value >= 1_000 {
        tenths_text(value, 1_000) + "K"@
    } else {
        decimal(value)
    }
}

/// Appends `a / d` with one decimal (see `tenths_text`).
fn push_tenths(text: &mut String, a: u128, d: u128)
    requires
        1 <= d <= 1_000_000_000,
        d <= a,
        a <= 0x2_0000_0000_0000_0000,
    ensures
        final(text)@ == old(text)@ + tenths_text(a as nat, d as nat),
{
    let mut x: u128 = a;
    let mut p: u128 = 1;
    let mut s: u32 = 0;
    let limit: u128 = 0x10_0000_0000_0000 * d;
    while s < 64 && x < limit
        invariant
            1 <= d <= 1_000_000_000,
            d <= a,
            a <= 0x2_0000_0000_0000_0000,
            limit == 0x10_0000_0000_0000 * d,
            s <= 64,
            p == pow_two(s as nat),
            p >= 1,
            x == a * p,
            (s == 0 && x == a) || x < 2 * limit,
            s + shift_within(x as nat, d as nat, (64 - s) as nat) == quotient_shift(a as nat, d as nat),
        decreases 64 - s,
    {
        proof {
            assert(p <= x) by (nonlinear_arith)
                requires
                    x == a * p,
                    a >= 1,
                    p >= 1,
            ;
        }
        let ghost old_p = p;
        let ghost old_x = x;
        x = 2 * x;
        p = 2 * p;
        s = s + 1;
        proof {
            assert(x == a * p) by (nonlinear_arith)
                requires
                    x == 2 * old_x,
                    old_x == a * old_p,
                    p == 2 * old_p,
            ;
            assert(pow_two(s as nat) == 2 * pow_two((s - 1) as nat));
        }
    }
    let q = x / d;
    let r = x % d;
    let m = if 2 * r > d || (2 * r == d && q % 2 == 1) {
        q + 1
    } else {
        q
    };
    proof {
        assert(p <= x) by (nonlinear_arith)
            requires
                x == a * p,
                a >= 1,
                p >= 1,
        ;
    }
    let y = 10 * m;
    let q2 = y / p;
    let r2 = y % p;
    let t = if 2 * r2 > p || (2 * r2 == p && q2 % 2 == 1) {
        q2 + 1
    } else {
        q2
    };
    proof {
        assert(quotient_shift(a as nat, d as nat) == s);
        assert(m == round_half_even(a as nat * pow_two(s as nat), d as nat));
        assert(t == round_half_even(10 * m as nat, pow_two(s as nat)));
        reveal_strlit(".");
    }
    push_decimal_wide(text, t / 10);
    push_char(text, '.');
    push_char(text, digit_of(t % 10));
    assert(final(text)@ =~= old(text)@ + tenths_text(a as nat, d as nat));
}

fn digit_of(d: u128) -> (c: char)
    requires
        d < 10,
    ensures
        c == digit_char(d as nat),
{
    match d {
        0 => '0',
        1 => '1',
        2 => '2',
        3 => '3',
        4 => '4',
        5 => '5',
        6 => '6',
        7 => '7',
        8 => '8',
        _ => '9',
    }
}

/// Formats a count compactly (see `compact_text`).
pub fn compact_count(value: u64) -> (text: String)
    ensures
        text@ == compact_text(value as nat),
{
    let mut text = String::new();
    if value >= 1_000_000_000 {
        let a = nearest_double(value);
        push_tenths(&mut text, a, 1_000_000_000);
        push_str(&mut text, "B");
    } else if value >= 1_000_000 {
        push_tenths(&mut text, value as u128, 1_000_000);
        push_str(&mut text, "M");
    } else if value >= 1_000 {
        push_tenths(&mut text, value as u128, 1_000);
        push_str(&mut text, "K");
    } else {
        push_decimal(&mut text, value);
    }
    text
}

// ---------------------------------------------------------------------------
// Animations

/// The moving pulse of the scanline.
pub open spec fn pulse_char(i: int) -> char {
    if i == 2 || i == 4 {
        '>'
    } else if i == 3 {
        '*'
    } else {
        '='
    }
}

/// The first `k` pulse characters drawn over a line of `-` of length
/// `width`, the `k`-th at `pos + k`, clamped to the last column.
pub open spec fn pulse_drawn(width: nat, pos: int, k: nat) -> Seq<char>
    decreases k,
{
    if k == 0 {
        Seq::new(width, |i: int| '-')
    } else {
        let index = if pos + k - 1 < width - 1 {
            pos + k - 1
        } else {
            width - 1
        };
        pulse_drawn(width, pos, (k - 1) as nat).update(index, pulse_char(k - 1))
    }
}

/// A line of `width` dashes with the pulse `==>*>==` starting at column
/// `(tick / 2) mod width`, its end piling up in the last column.
pub open spec fn scanline_text(width: nat, tick: u64) -> Seq<char> {
    if width == 0 {
        seq![]
    } else {
        pulse_drawn(width, (((tick / 2) as usize) as nat % width) as int, 7)
    }
}

/// The scanline for a line of `width` cells at animation step `tick`.
pub fn scanline(width: usize, tick: u64) -> (r: String)
    ensures
        r@ == scanline_text(width as nat, tick),
{
    if width == 0 {
        return String::new();
    }
    let mut chars: Vec<char> = Vec::new();
    let mut i: usize = 0;
    while i < width
        invariant
            i <= width,
            chars@ == Seq::new(i as nat, |j: int| '-'),
        decreases width - i,
    {
        chars.push('-');
        i += 1;
        assert(chars@ =~= Seq::new(i as nat, |j: int| '-'));
    }
    let pos = ((tick / 2) as usize) % width;
    let pulse: [char; 7] = ['=', '=', '>', '*', '>', '=', '='];
    let mut offset: usize = 0;
    while offset < 7
        invariant
            offset <= 7,
            pos < width,
            pulse@ == seq!['=', '=', '>', '*', '>', '=', '='],
            chars@ == pulse_drawn(width as nat, pos as int, offset as nat),
            chars@.len() == width,
        decreases 7 - offset,
    {
        let index = if offset < width - 1 - pos {
            pos + offset
        } else {
            width - 1
        };
        assert(pulse@[offset as int] == pulse_char(offset as int));
        chars.set(index, pulse[offset]);
        offset += 1;
    }
    let mut out = String::new();
    let mut k: usize = 0;
    while k < width
        invariant
            k <= width,
            chars@.len() == width,
            out@ == chars@.take(k as int),
        decreases width - k,
    {
        push_char(&mut out, chars[k]);
        k += 1;
        assert(out@ =~= chars@.take(k as int));
    }
    assert(chars@.take(width as int) =~= chars@);
    out
}

/// The spinner frame at animation step `tick`: `|`, `/`, `-`, `\`, each for
/// eight steps.
pub open spec fn spinner_frame(tick: u64) -> Seq<char> {
    let phase = (tick / 8) % 4;
    if phase == 0 {
        "|"@
    } else if phase == 1 {
        "/"@
    } else if phase == 2 {
        "-"@
    } else {
        "\\"@
    }
}

/// The spinner frame at animation step `tick`.
pub fn activity_indicator(tick: u64) -> (r: &'static str)
    ensures
        r@ == spinner_frame(tick),
{
    match (tick / 8) % 4 {
        0 => "|",
        1 => "/",
        2 => "-",
        _ => "\\",
    }
}

/// `base` with the character at `index` replaced by `*`.
fn mark(base: &str, index: usize) -> (r: String)
    requires
        index < base@.len(),
    ensures
        r@ == base@.update(index as int, '*'),
{
    let n = base.unicode_len();
    let mut out = String::new();
    let mut i: usize = 0;
    while i < n
        invariant
            i <= n,
            n == base@.len(),
            index < n,
            out@ == base@.update(index as int, '*').take(i as int),
        decreases n - i,
    {
        if i == index {
            push_char(&mut out, '*');
        } else {
            push_char(&mut out, base.get_char(i));
        }
        i += 1;
        assert(out@ =~= base@.update(index as int, '*').take(i as int));
    }
    assert(base@.update(index as int, '*').take(n as int) =~= base@.update(index as int, '*'));
    out
}

/// The host-to-disk route with a marker moving along its links every ten
/// steps.
pub open spec fn route_text(tick: u64) -> Seq<char> {
    let path = seq![7int, 8, 14, 15];
    "[host]--[net]--[disk]"@.update(path[((tick / 10) as usize) as int % 4], '*')
}

/// The animated host-to-disk route at animation step `tick`.
pub fn animated_route(tick: u64) -> (r: String)
    ensures
        r@ == route_text(tick),
{
    proof {
        reveal_strlit("[host]--[net]--[disk]");
    }
    let path: [usize; 4] = [7, 8, 14, 15];
    let index = path[((tick / 10) as usize) % 4];
    mark("[host]--[net]--[disk]", index)
}

/// The pane-to-network flow with a marker moving along its arrows every
/// seven steps.
pub open spec fn flow_text(tick: u64) -> Seq<char> {
    let path = seq![7int, 8, 16, 17];
    "[pane]=>[iface]=>[lan]"@.update(path[((tick / 7) as usize) as int % 4], '*')
}

/// The animated pane-to-network flow at animation step `tick`.
pub fn animated_flow(tick: u64) -> (r: String)
    ensures
        r@ == flow_text(tick),
{
    proof {
        reveal_strlit("[pane]=>[iface]=>[lan]");
    }
    let path: [usize; 4] = [7, 8, 16, 17];
    let index = path[((tick / 7) as usize) % 4];
    mark("[pane]=>[iface]=>[lan]", index)
}

} // verus!
