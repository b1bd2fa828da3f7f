//! Formatting of system figures (byte counts, uptimes), the bounded sample
//! histories behind the charts, and the merging of network interface
//! records into one sorted list.

use std::collections::VecDeque;

use vstd::prelude::*;
use vstd::string::StringExecFns;

use crate::text::{decimal, digit_char, push_char, push_decimal, push_str};

verus! {

// ---------------------------------------------------------------------------
// Durations

/// An uptime as days, hours and minutes: `"{d}d {h}h {m}m"` when there is a
/// whole day, `"{h}h {m}m"` when there is a whole hour, `"{m}m"` otherwise.
pub open spec fn duration_text(secs: nat) -> Seq<char> {
    let days = secs / 86400;
    let hours = (secs % 86400) / 3600;
    let minutes = (secs % 3600) / 60;
    if days > 0 {
        decimal(days) + "d "@ + decimal(hours) + "h "@ + decimal(minutes) + "m"@
    } else if hours > 0 {
        decimal(hours) + "h "@ + decimal(minutes) + "m"@
    } else {
        decimal(minutes) + "m"@
    }
}

/// Formats an uptime in seconds.
pub fn format_duration(secs: u64) -> (text: String)
    ensures
        text@ == duration_text(secs as nat),
{
    let days = secs / 86_400;
    let hours = (secs % 86_400) / 3_600;
    let minutes = (secs % 3_600) / 60;
    let mut text = String::new();
    if days > 0 {
        push_decimal(&mut text, days);
        push_str(&mut text, "d ");
        push_decimal(&mut text, hours);
        push_str(&mut text, "h ");
        push_decimal(&mut text, minutes);
        push_str(&mut text, "m");
    } else if hours > 0 {
        push_decimal(&mut text, hours);
        push_str(&mut text, "h ");
        push_decimal(&mut text, minutes);
        push_str(&mut text, "m");
    } else {
        push_decimal(&mut text, minutes);
        push_str(&mut text, "m");
    }
    assert(text@ =~= duration_text(secs as nat));
    text
}

// ---------------------------------------------------------------------------
// Byte counts

/// 2 to the power `e`.
pub open spec fn pow_two(e: nat) -> nat
    decreases e,
{
    if e == 0 {
        1
    } else {
        2 * pow_two((e - 1) as nat)
    }
}

/// 1024 to the power `u`.
pub open spec fn pow1024(u: nat) -> nat
    decreases u,
{
    if u == 0 {
        1
    } else {
        1024 * pow1024((u - 1) as nat)
    }
}

/// How many low bits of `n` do not fit in the 53-bit significand of an
/// `f64`.
pub open spec fn dropped_bits(n: nat) -> nat
    decreases n,
{
    if n < 0x20_0000_0000_0000 {
        0
    } else {
        1 + dropped_bits(n / 2)
    }
}

/// `a / d` rounded to the nearest integer, ties to the even one.
pub open spec fn round_half_even(a: nat, d: nat) -> nat {
    let q = a / d;
    let r = a % d;
    if 2 * r > d || (2 * r == d && q % 2 == 1) {
        q + 1
    } else {
        q
    }
}

/// The value of `n` as an `f64`: rounded to 53 significant bits, ties to
/// even.
pub open spec fn as_double(n: nat) -> nat {
    let p = pow_two(dropped_bits(n));
    round_half_even(n, p) * p
}

/// The largest unit, from `u` up to TiB, whose size `value` reaches.
pub open spec fn byte_unit_from(value: nat, u: nat) -> nat
    decreases 4 - u,
{
    if u < 4 && value >= pow1024(u + 1) {
        byte_unit_from(value, u + 1)
    } else {
        u
    }
}

/// The name of binary unit `u`.
pub open spec fn unit_name(u: nat) -> Seq<char> {
    if u == 0 {
        "B"@
    } else if u == 1 {
        "KiB"@
    } else if u == 2 {
        "MiB"@
    } else if u == 3 {
        "GiB"@
    } else {
        "TiB"@
    }
}

/// A byte count in binary units: below 1 KiB the exact count and `B`;
/// otherwise the value (taken as an `f64`) in the largest unit it reaches,
/// up to TiB, rounded to one decimal place (ties to even).
pub open spec fn bytes_text(bytes: nat) -> Seq<char> {
    let value = as_double(bytes);
    let u = byte_unit_from(value, 0);
    if u == 0 {
        decimal(bytes) + " B"@
    } else {
        let tenths = round_half_even(10 * value, pow1024(u));
        decimal(tenths / 10) + "."@ + seq![digit_char(tenths % 10)] + " "@ + unit_name(u)
    }
}

/// `n` as the nearest `f64` would hold it.
pub(crate) fn nearest_double(n: u64) -> (d: u128)
    ensures
        d == as_double(n as nat),
        d <= 0x2_0000_0000_0000_0000,
        n < 0x20_0000_0000_0000 ==> d == n,
        n >= 0x20_0000_0000_0000 ==> d >= 0x10_0000_0000_0000,
{
    let n128 = n as u128;
    let mut q: u128 = n128;
    let mut p: u128 = 1;
    let ghost mut s: nat = 0;
    while q >= 0x20_0000_0000_0000
        invariant
            p == pow_two(s),
            p >= 1,
            q == n128 / p,
            q * p <= n128,
            p == 1 || p <= n128,
            p == 1 || q >= 0x10_0000_0000_0000,
            p == 1 ==> q == n128,
            dropped_bits(n as nat) == s + dropped_bits(q as nat),
            n128 == n as nat,
            n128 < 0x1_0000_0000_0000_0000,
        decreases q,
    {
        proof {
            vstd::arithmetic::div_mod::lemma_div_denominator(n128 as int, p as int, 2);
            assert(p <= n128) by (nonlinear_arith)
                requires
                    q * p <= n128,
                    q >= 1,
                    p >= 1,
            ;
        }
        q = q / 2;
        p = p * 2;
        proof {
            s = s + 1;
            assert(q * p <= n128) by (nonlinear_arith)
                requires
                    q == n128 / p,
                    p >= 1,
            ;
            assert(p <= n128) by (nonlinear_arith)
                requires
                    q * p <= n128,
                    q >= 1,
                    p >= 1,
            ;
        }
    }
    proof {
        vstd::arithmetic::div_mod::lemma_fundamental_div_mod(n128 as int, p as int);
    }
    let r = n128 - q * p;
    proof {
        if p != 1 {
            assert(q * p >= 0x20_0000_0000_0000) by (nonlinear_arith)
                requires
                    q >= 0x10_0000_0000_0000,
                    p >= 2,
            ;
        }
        assert(q * p >= q) by (nonlinear_arith)
            requires
                p >= 1,
        ;
    }
    let t = if 2 * r > p || (2 * r == p && q % 2 == 1) {
        q + 1
    } else {
        q
    };
    proof {
        assert(r == n128 % p);
        assert(t * p >= q * p) by (nonlinear_arith)
            requires
                t >= q,
                p >= 1,
        ;
        assert(t * p <= 0x2_0000_0000_0000_0000) by (nonlinear_arith)
            requires
                t <= q + 1,
                q * p <= n128,
                p == 1 || p <= n128,
                n128 < 0x1_0000_0000_0000_0000,
                p >= 1,
        ;
    }
    t * p
}

/// Counts below 1 KiB are shown exactly, in bytes.
pub proof fn law_small_counts_exact(bytes: nat)
    requires
        bytes < 1024,
    ensures
        bytes_text(bytes) == decimal(bytes) + " B"@,
{
    assert(dropped_bits(bytes) == 0);
    assert(pow_two(0) == 1);
    assert(as_double(bytes) == bytes);
    assert(pow1024(1) == 1024) by {
        reveal_with_fuel(pow1024, 2);
    }
    assert(byte_unit_from(bytes, 0) == 0);
}

/// Counts below 2^53 are taken as they are: an `f64` holds them exactly.
pub proof fn law_counts_below_2_53_held_exactly(bytes: nat)
    requires
        bytes < 0x20_0000_0000_0000,
    ensures
        as_double(bytes) == bytes,
{
    assert(dropped_bits(bytes) == 0);
    assert(pow_two(0) == 1);
}

/// Formats a byte count in binary units (see `bytes_text`).
pub fn format_bytes(bytes: u64) -> (text: String)
    ensures
        text@ == bytes_text(bytes as nat),
{
    let value = nearest_double(bytes);
    let mut unit: usize = 0;
    let mut size: u128 = 1;
    while unit < 4 && value >= size * 1024
        invariant
            unit <= 4,
            size == pow1024(unit as nat),
            size >= 1,
            size <= 0x100_0000_0000,
            value <= 0x2_0000_0000_0000_0000,
            byte_unit_from(value as nat, 0) == byte_unit_from(value as nat, unit as nat),
        decreases 4 - unit,
    {
        proof {
            reveal_with_fuel(pow1024, 5);
        }
        size = size * 1024;
        unit += 1;
    }
    proof {
        assert(pow1024(unit as nat + 1) == size * 1024);
        assert(byte_unit_from(value as nat, unit as nat) == unit);
    }
    let mut text = String::new();
    if unit == 0 {
        assert(byte_unit_from(as_double(bytes as nat), 0) == 0);
        push_decimal(&mut text, bytes);
        push_str(&mut text, " B");
    } else {
        let a = 10 * value;
        let q = a / size;
        let r = a % size;
        let t = if 2 * r > size || (2 * r == size && q % 2 == 1) {
            q + 1
        } else {
            q
        };
        assert(q <= a / 1024) by (nonlinear_arith)
            requires
                q == a / size,
                size >= 1024,
        ;
        proof {
            reveal_strlit(".");
            reveal_strlit(" ");
        }
        let whole = (t / 10) as u64;
        let tenth = (t % 10) as u64;
        push_decimal(&mut text, whole);
        push_char(&mut text, '.');
        push_decimal(&mut text, tenth);
        push_char(&mut text, ' ');
        push_str(
            &mut text,
            if unit == 1 {
                "KiB"
            } else if unit == 2 {
                "MiB"
            } else if unit == 3 {
                "GiB"
            } else {
                "TiB"
            },
        );
        proof {
            assert(decimal(tenth as nat) == seq![digit_char(tenth as nat)]);
            assert(t == round_half_even(10 * value as nat, pow1024(unit as nat)));
            assert(text@ =~= decimal(t as nat / 10) + "."@ + seq![digit_char(t as nat % 10)] + " "@
                + unit_name(unit as nat));
        }
    }
    assert(text@ =~= bytes_text(bytes as nat));
    text
}

// ---------------------------------------------------------------------------
// Refresh cadence

/// How often the system figures are sampled, in milliseconds.
pub const REFRESH_INTERVAL_MS: u64 = 1000;

/// Whether a new sample is due `elapsed_ms` after the last one.
pub fn refresh_due(elapsed_ms: u64) -> (due: bool)
    ensures
        due == (elapsed_ms >= REFRESH_INTERVAL_MS),
{
    elapsed_ms >= REFRESH_INTERVAL_MS
}

// ---------------------------------------------------------------------------
// Sample histories

/// How many samples a history keeps.
pub const HISTORY_LIMIT: usize = 60;

/// The history `h` after recording `value`: the oldest sample leaves when
/// the history is full.
pub open spec fn history_after(h: Seq<u64>, value: u64) -> Seq<u64> {
    if h.len() == HISTORY_LIMIT {
        h.drop_first().push(value)
    } else {
        h.push(value)
    }
}

/// Records `value` as the newest sample of `history`.
pub fn push_history(history: &mut VecDeque<u64>, value: u64)
    ensures
        final(history)@ == history_after(old(history)@, value),
{
    if history.len() == HISTORY_LIMIT {
        history.pop_front();
    }
    history.push_back(value);
}

/// The samples of `history`, oldest first.
pub fn history_values(history: &VecDeque<u64>) -> (values: Vec<u64>)
    ensures
        values@ == history@,
{
    let mut values: Vec<u64> = Vec::new();
    let mut i: usize = 0;
    while i < history.len()
        invariant
            i <= history@.len(),
            values@ == history@.take(i as int),
        decreases history@.len() - i,
    {
        values.push(history[i]);
        i += 1;
        assert(values@ =~= history@.take(i as int));
    }
    assert(history@.take(i as int) =~= history@);
    values
}

/// A history that holds at most `HISTORY_LIMIT` samples keeps doing so,
/// and its newest sample is the one just recorded.
pub proof fn law_history_bounded(h: Seq<u64>, value: u64)
    requires
        h.len() <= HISTORY_LIMIT,
    ensures
        history_after(h, value).len() <= HISTORY_LIMIT,
        history_after(h, value).last() == value,
        history_after(h, value).len() == if h.len() == HISTORY_LIMIT { h.len() } else { h.len() + 1 },
{
}

// ---------------------------------------------------------------------------
// Network interfaces

/// Lexicographic order of names by character code: a proper prefix comes
/// first. This is the order of `String`'s `<`.
pub open spec fn name_less(a: Seq<char>, b: Seq<char>) -> bool
    decreases a.len(),
{
    if a.len() == 0 {
        b.len() > 0
    } else if b.len() == 0 {
        false
    } else if a[0] != b[0] {
        (a[0] as int) < (b[0] as int)
    } else {
        name_less(a.drop_first(), b.drop_first())
    }
}

/// Two different names are ordered one way or the other.
pub proof fn lemma_name_order_total(a: Seq<char>, b: Seq<char>)
    requires
        a != b,
    ensures
        name_less(a, b) || name_less(b, a),
    decreases a.len(),
{
    if a.len() > 0 && b.len() > 0 && a[0] == b[0] {
        if a.drop_first() == b.drop_first() {
            assert(a =~= seq![a[0]] + a.drop_first());
            assert(b =~= seq![b[0]] + b.drop_first());
        }
        lemma_name_order_total(a.drop_first(), b.drop_first());
    } else if a.len() == 0 && b.len() == 0 {
        assert(a =~= b);
    } else if a.len() > 0 && b.len() > 0 {
        assert((a[0] as int) != (b[0] as int));
    }
}

/// No name sorts both before and after another.
pub proof fn lemma_name_order_asymmetric(a: Seq<char>, b: Seq<char>)
    ensures
        name_less(a, b) ==> !name_less(b, a),
    decreases a.len(),
{
    if a.len() > 0 && b.len() > 0 && a[0] == b[0] {
        lemma_name_order_asymmetric(a.drop_first(), b.drop_first());
    }
}

/// Whether `a` sorts before `b`.
pub fn str_less(a: &str, b: &str) -> (less: bool)
    ensures
        less == name_less(a@, b@),
{
    let n = a.unicode_len();
    let m = b.unicode_len();
    let mut i: usize = 0;
    assert(a@.skip(0) =~= a@);
    assert(b@.skip(0) =~= b@);
    while i < n && i < m
        invariant
            n == a@.len(),
            m == b@.len(),
            i <= n,
            i <= m,
            name_less(a@, b@) == name_less(a@.skip(i as int), b@.skip(i as int)),
        decreases n - i,
    {
        let x = a.get_char(i);
        let y = b.get_char(i);
        if x != y {
            return (x as u32) < (y as u32);
        }
        assert(a@.skip(i as int).drop_first() =~= a@.skip(i + 1));
        assert(b@.skip(i as int).drop_first() =~= b@.skip(i + 1));
        i += 1;
    }
    i == n && i < m
}

/// One address of a network interface, as the system reports it.
pub struct InterfaceAddress {
    pub name: String,
    pub ip: String,
    pub is_up: bool,
}

impl View for InterfaceAddress {
    type V = (Seq<char>, Seq<char>, bool);

    open spec fn view(&self) -> (Seq<char>, Seq<char>, bool) {
        (self.name@, self.ip@, self.is_up)
    }
}

/// A network interface: its name, its addresses (each once, in the order
/// first seen) and whether it is up (`None` when no address told).
pub struct InterfaceSnapshot {
    pub name: String,
    pub ips: Vec<String>,
    pub is_up: Option<bool>,
}

impl View for InterfaceSnapshot {
    type V = (Seq<char>, Seq<Seq<char>>, Option<bool>);

    open spec fn view(&self) -> (Seq<char>, Seq<Seq<char>>, Option<bool>) {
        (self.name@, self.ips@.map_values(|ip: String| ip@), self.is_up)
    }
}

/// The addresses of interface `name` in `addrs`, each once, in the order
/// first seen.
pub open spec fn ips_of(addrs: Seq<(Seq<char>, Seq<char>, bool)>, name: Seq<char>) -> Seq<Seq<char>>
    decreases addrs.len(),
{
    if addrs.len() == 0 {
        seq![]
    } else {
        let before = ips_of(addrs.drop_last(), name);
        let a = addrs.last();
        if a.0 == name && !before.contains(a.1) {
            before.push(a.1)
        } else {
            before
        }
    }
}

/// Whether interface `name` is up by the last of its addresses in `addrs`;
/// `None` when it has none.
pub open spec fn last_up(addrs: Seq<(Seq<char>, Seq<char>, bool)>, name: Seq<char>) -> Option<bool>
    decreases addrs.len(),
{
    if addrs.len() == 0 {
        None
    } else if addrs.last().0 == name {
        Some(addrs.last().2)
    } else {
        last_up(addrs.drop_last(), name)
    }
}

/// Whether some address in `addrs` belongs to interface `name`.
pub open spec fn has_name(addrs: Seq<(Seq<char>, Seq<char>, bool)>, name: Seq<char>) -> bool {
    exists|i: int| 0 <= i < addrs.len() && (#[trigger] addrs[i]).0 == name
}

/// An entry of the interface list is what `addrs` say of its name.
pub open spec fn entry_matches(
    e: (Seq<char>, Seq<Seq<char>>, Option<bool>),
    addrs: Seq<(Seq<char>, Seq<char>, bool)>,
) -> bool {
    e.1 == ips_of(addrs, e.0) && e.2 == last_up(addrs, e.0)
}

/// The names in an interface list.
pub open spec fn names_in(list: Seq<(Seq<char>, Seq<Seq<char>>, Option<bool>)>) -> Seq<Seq<char>> {
    list.map_values(|e: (Seq<char>, Seq<Seq<char>>, Option<bool>)| e.0)
}

/// An interface list sorted by name, each name once, each entry what
/// `addrs` say of it.
pub open spec fn interface_list_ok(
    list: Seq<(Seq<char>, Seq<Seq<char>>, Option<bool>)>,
    addrs: Seq<(Seq<char>, Seq<char>, bool)>,
) -> bool {
    &&& forall|i: int| 0 <= i < list.len() - 1 ==> name_less(#[trigger] list[i].0, list[i + 1].0)
    &&& forall|i: int, j: int|
        0 <= i < list.len() && 0 <= j < list.len() && i != j ==> #[trigger] list[i].0 != #[trigger] list[j].0
    &&& forall|i: int| 0 <= i < list.len() ==> entry_matches(#[trigger] list[i], addrs)
}

/// The interface list built from `addrs` and the interface names `names`:
/// one entry per name among both, sorted by name, each with the addresses
/// and the state `addrs` give it.
pub open spec fn interfaces_from(
    list: Seq<(Seq<char>, Seq<Seq<char>>, Option<bool>)>,
    addrs: Seq<(Seq<char>, Seq<char>, bool)>,
    names: Seq<Seq<char>>,
) -> bool {
    &&& interface_list_ok(list, addrs)
    &&& forall|n: Seq<char>| #[trigger] names_in(list).contains(n) <==> (has_name(addrs, n) || names.contains(n))
}

proof fn lemma_no_name(addrs: Seq<(Seq<char>, Seq<char>, bool)>, name: Seq<char>)
    requires
        !has_name(addrs, name),
    ensures
        ips_of(addrs, name) == Seq::<Seq<char>>::empty(),
        last_up(addrs, name) is None,
    decreases addrs.len(),
{
    if addrs.len() > 0 {
        let d = addrs.drop_last();
        assert(!has_name(d, name)) by {
            if has_name(d, name) {
                let i = choose|i: int| 0 <= i < d.len() && (#[trigger] d[i]).0 == name;
                assert(addrs[i].0 == name);
            }
        }
        assert(addrs[addrs.len() - 1].0 != name);
        lemma_no_name(d, name);
    }
}

fn contains_str(list: &Vec<String>, s: &str) -> (found: bool)
    ensures
        found == list@.map_values(|x: String| x@).contains(s@),
{
    let ghost view = list@.map_values(|x: String| x@);
    let mut i: usize = 0;
    while i < list.len()
        invariant
            i <= list@.len(),
            view == list@.map_values(|x: String| x@),
            forall|j: int| 0 <= j < i ==> view[j] != s@,
        decreases list.len() - i,
    {
        if crate::text::str_eq(list[i].as_str(), s) {
            assert(view[i as int] == s@);
            return true;
        }
        i += 1;
    }
    false
}

/// Where `name` stands in a sorted interface list: `Ok` with its index,
/// or `Err` with the index at which it would be inserted.
fn locate(list: &Vec<InterfaceSnapshot>, name: &str) -> (r: Result<usize, usize>)
    requires
        forall|i: int, j: int|
            0 <= i < list@.len() && 0 <= j < list@.len() && i != j ==> #[trigger] list@[i].name@
                != #[trigger] list@[j].name@,
    ensures
        r matches Ok(j) ==> j < list@.len() && list@[j as int].name@ == name@,
        r is Err <==> forall|i: int| 0 <= i < list@.len() ==> (#[trigger] list@[i]).name@ != name@,
        r matches Err(k) ==> {
            &&& k <= list@.len()
            &&& forall|i: int| 0 <= i < k ==> name_less((#[trigger] list@[i]).name@, name@)
            &&& k < list@.len() ==> name_less(name@, list@[k as int].name@)
        },
{
    let mut i: usize = 0;
    while i < list.len()
        invariant
            i <= list@.len(),
            forall|j: int| 0 <= j < i ==> (#[trigger] list@[j]).name@ != name@,
        decreases list.len() - i,
    {
        if crate::text::str_eq(list[i].name.as_str(), name) {
            return Ok(i);
        }
        i += 1;
    }
    let mut k: usize = 0;
    while k < list.len()
        invariant
            k <= list@.len(),
            forall|j: int| 0 <= j < list@.len() ==> (#[trigger] list@[j]).name@ != name@,
            forall|j: int| 0 <= j < k ==> name_less((#[trigger] list@[j]).name@, name@),
        decreases list.len() - k,
    {
        if str_less(name, list[k].name.as_str()) {
            return Err(k);
        }
        proof {
            lemma_name_order_total(list@[k as int].name@, name@);
        }
        k += 1;
    }
    Err(k)
}

/// The views of the entries of an interface list.
pub open spec fn list_view(list: Seq<InterfaceSnapshot>) -> Seq<(Seq<char>, Seq<Seq<char>>, Option<bool>)> {
    list.map_values(|e: InterfaceSnapshot| e@)
}

/// The views of a list of addresses.
pub open spec fn addrs_view(addrs: Seq<InterfaceAddress>) -> Seq<(Seq<char>, Seq<char>, bool)> {
    addrs.map_values(|a: InterfaceAddress| a@)
}

proof fn lemma_step(addrs: Seq<(Seq<char>, Seq<char>, bool)>, i: int, n: Seq<char>)
    requires
        0 <= i < addrs.len(),
    ensures
        n != addrs[i].0 ==> ips_of(addrs.take(i + 1), n) == ips_of(addrs.take(i), n),
        n != addrs[i].0 ==> last_up(addrs.take(i + 1), n) == last_up(addrs.take(i), n),
        n == addrs[i].0 ==> ips_of(addrs.take(i + 1), n) == (if ips_of(addrs.take(i), n).contains(
            addrs[i].1,
        ) {
            ips_of(addrs.take(i), n)
        } else {
            ips_of(addrs.take(i), n).push(addrs[i].1)
        }),
        n == addrs[i].0 ==> last_up(addrs.take(i + 1), n) == Some(addrs[i].2),
        has_name(addrs.take(i + 1), n) <==> (has_name(addrs.take(i), n) || n == addrs[i].0),
{
    let t = addrs.take(i + 1);
    assert(t.drop_last() =~= addrs.take(i));
    assert(t.last() == addrs[i]);
    if has_name(t, n) {
        let j = choose|j: int| 0 <= j < t.len() && (#[trigger] t[j]).0 == n;
        if j < i {
            assert(addrs.take(i)[j] == t[j]);
        }
    }
    if has_name(addrs.take(i), n) {
        let j = choose|j: int| 0 <= j < i && (#[trigger] addrs.take(i)[j]).0 == n;
        assert(t[j] == addrs.take(i)[j]);
    }
    if n == addrs[i].0 {
        assert(t[i].0 == n);
    }
}

proof fn lemma_insert_ok(
    v: Seq<(Seq<char>, Seq<Seq<char>>, Option<bool>)>,
    addrs: Seq<(Seq<char>, Seq<char>, bool)>,
    k: int,
    e: (Seq<char>, Seq<Seq<char>>, Option<bool>),
)
    requires
        interface_list_ok(v, addrs),
        0 <= k <= v.len(),
        forall|i: int| 0 <= i < k ==> name_less((#[trigger] v[i]).0, e.0),
        k < v.len() ==> name_less(e.0, v[k].0),
        forall|i: int| 0 <= i < v.len() ==> (#[trigger] v[i]).0 != e.0,
        entry_matches(e, addrs),
    ensures
        interface_list_ok(v.insert(k, e), addrs),
        forall|n: Seq<char>| #[trigger] names_in(v.insert(k, e)).contains(n) <==> (names_in(v).contains(n) || n == e.0),
{
    let w = v.insert(k, e);
    assert forall|i: int| 0 <= i < w.len() - 1 implies name_less(#[trigger] w[i].0, w[i + 1].0) by {
        if i < k - 1 {
            assert(w[i] == v[i] && w[i + 1] == v[i + 1]);
        } else if i == k - 1 {
            assert(w[i] == v[i] && w[i + 1] == e);
        } else if i == k {
            assert(w[i] == e && w[i + 1] == v[i]);
        } else {
            assert(w[i] == v[i - 1] && w[i + 1] == v[i]);
        }
    }
    assert forall|i: int, j: int|
        0 <= i < w.len() && 0 <= j < w.len() && i != j implies #[trigger] w[i].0 != #[trigger] w[j].0 by {
        let a = if i < k { i } else { i - 1 };
        let b = if j < k { j } else { j - 1 };
        if i != k && j != k {
            assert(w[i] == v[a] && w[j] == v[b]);
        } else if i == k {
            assert(w[j] == v[b]);
        } else {
            assert(w[i] == v[a]);
        }
    }
    assert forall|i: int| 0 <= i < w.len() implies entry_matches(#[trigger] w[i], addrs) by {
        if i < k {
            assert(w[i] == v[i]);
        } else if i > k {
            assert(w[i] == v[i - 1]);
        }
    }
    let f = |x: (Seq<char>, Seq<Seq<char>>, Option<bool>)| x.0;
    assert(names_in(w) =~= names_in(v).insert(k, e.0));
    assert forall|n: Seq<char>| #[trigger] names_in(w).contains(n) <==> (names_in(v).contains(n) || n == e.0) by {
        let nv = names_in(v);
        let nw = names_in(w);
        if nw.contains(n) {
            let j = choose|j: int| 0 <= j < nw.len() && nw[j] == n;
            if j < k {
                assert(nv[j] == n);
            } else if j > k {
                assert(nv[j - 1] == n);
            }
        }
        if nv.contains(n) {
            let j = choose|j: int| 0 <= j < nv.len() && nv[j] == n;
            if j < k {
                assert(nw[j] == n);
            } else {
                assert(nw[j + 1] == n);
            }
        }
        if n == e.0 {
            assert(nw[k] == n);
        }
    }
}

/// Merges the addresses reported per interface with the names of the
/// interfaces that carry traffic into one list sorted by name (see
/// `interfaces_from`). The list is a vector kept sorted by name with each
/// name once (its invariant), standing for a map ordered by name: over
/// string keys an ordered map's contract gives too little to prove with.
pub fn collect_interfaces(addrs: &Vec<InterfaceAddress>, names: &Vec<String>) -> (list: Vec<InterfaceSnapshot>)
    ensures
        interfaces_from(list_view(list@), addrs_view(addrs@), names@.map_values(|n: String| n@)),
{
    let ghost av = addrs_view(addrs@);
    let ghost nv = names@.map_values(|n: String| n@);
    let mut list: Vec<InterfaceSnapshot> = Vec::new();
    let mut i: usize = 0;
    assert(av.take(0) =~= Seq::<(Seq<char>, Seq<char>, bool)>::empty());
    assert(list_view(list@) =~= Seq::<(Seq<char>, Seq<Seq<char>>, Option<bool>)>::empty());
    while i < addrs.len()
        invariant
            i <= addrs@.len(),
            av == addrs_view(addrs@),
            interface_list_ok(list_view(list@), av.take(i as int)),
            forall|n: Seq<char>|
                #[trigger] names_in(list_view(list@)).contains(n) <==> has_name(av.take(i as int), n),
        decreases addrs.len() - i,
    {
        let ghost v = list_view(list@);
        let ghost a = av[i as int];
        proof {
            assert(a == addrs@[i as int]@);
            assert forall|p: int, q: int|
                0 <= p < list@.len() && 0 <= q < list@.len() && p != q implies #[trigger] list@[p].name@
                    != #[trigger] list@[q].name@ by {
                assert(v[p].0 != v[q].0);
            }
        }
        match locate(&list, addrs[i].name.as_str()) {
            Ok(j) => {
                let mut e = list.remove(j);
                let seen = contains_str(&e.ips, addrs[i].ip.as_str());
                if !seen {
                    e.ips.push(String::from_str(addrs[i].ip.as_str()));
                }
                e.is_up = Some(addrs[i].is_up);
                proof {
                    assert(v[j as int].0 == a.0);
                    lemma_step(av, i as int, a.0);
                    assert(e@.1 =~= ips_of(av.take(i + 1), a.0));
                }
                list.insert(j, e);
                proof {
                    let w = list_view(list@);
                    assert(w =~= v.update(j as int, e@));
                    assert forall|p: int| 0 <= p < w.len() implies entry_matches(#[trigger] w[p], av.take(i + 1)) by {
                        if p != j {
                            assert(w[p] == v[p]);
                            assert(v[p].0 != v[j as int].0);
                            lemma_step(av, i as int, v[p].0);
                        }
                    }
                    assert forall|p: int| 0 <= p < w.len() - 1 implies name_less(#[trigger] w[p].0, w[p + 1].0) by {
                        assert(w[p].0 == v[p].0 && w[p + 1].0 == v[p + 1].0);
                    }
                    assert forall|p: int, q: int|
                        0 <= p < w.len() && 0 <= q < w.len() && p != q implies #[trigger] w[p].0
                            != #[trigger] w[q].0 by {
                        assert(w[p].0 == v[p].0 && w[q].0 == v[q].0);
                    }
                    assert(names_in(w) =~= names_in(v));
                    assert forall|n: Seq<char>| #[trigger] names_in(w).contains(n) <==> has_name(av.take(i + 1), n) by {
                        lemma_step(av, i as int, n);
                        if n == a.0 {
                            assert(names_in(v)[j as int] == n);
                        }
                    }
                }
            },
            Err(k) => {
                let mut ips: Vec<String> = Vec::new();
                ips.push(String::from_str(addrs[i].ip.as_str()));
                let e = InterfaceSnapshot {
                    name: String::from_str(addrs[i].name.as_str()),
                    ips,
                    is_up: Some(addrs[i].is_up),
                };
                proof {
                    assert forall|p: int| 0 <= p < v.len() implies (#[trigger] v[p]).0 != a.0 by {
                        assert(list@[p].name@ != a.0);
                    }
                    assert(!names_in(v).contains(a.0)) by {
                        if names_in(v).contains(a.0) {
                            let p = choose|p: int| 0 <= p < names_in(v).len() && names_in(v)[p] == a.0;
                            assert(v[p].0 == a.0);
                        }
                    }
                    lemma_no_name(av.take(i as int), a.0);
                    lemma_step(av, i as int, a.0);
                    assert(e@.1 =~= seq![a.1]);
                    assert(ips_of(av.take(i + 1), a.0) =~= seq![a.1]);
                    assert forall|p: int| 0 <= p < v.len() implies entry_matches(#[trigger] v[p], av.take(i + 1)) by {
                        lemma_step(av, i as int, v[p].0);
                    }
                    assert forall|p: int| 0 <= p < k implies name_less((#[trigger] v[p]).0, e@.0) by {
                        assert(list@[p].name@ == v[p].0);
                    }
                    lemma_insert_ok(v, av.take(i + 1), k as int, e@);
                }
                list.insert(k, e);
                proof {
                    let w = list_view(list@);
                    assert(w =~= v.insert(k as int, e@));
                    assert forall|n: Seq<char>| #[trigger] names_in(w).contains(n) <==> has_name(av.take(i + 1), n) by {
                        lemma_step(av, i as int, n);
                    }
                }
            },
        }
        i += 1;
    }
    assert(av.take(addrs@.len() as int) =~= av);
    let mut j: usize = 0;
    while j < names.len()
        invariant
            j <= names@.len(),
            av == addrs_view(addrs@),
            nv == names@.map_values(|n: String| n@),
            interface_list_ok(list_view(list@), av),
            forall|n: Seq<char>|
                #[trigger] names_in(list_view(list@)).contains(n) <==> (has_name(av, n) || nv.take(
                    j as int,
                ).contains(n)),
        decreases names.len() - j,
    {
        let ghost v = list_view(list@);
        let ghost name = nv[j as int];
        proof {
            assert(name == names@[j as int]@);
            assert forall|p: int, q: int|
                0 <= p < list@.len() && 0 <= q < list@.len() && p != q implies #[trigger] list@[p].name@
                    != #[trigger] list@[q].name@ by {
                assert(v[p].0 != v[q].0);
            }
            assert forall|n: Seq<char>| #[trigger] nv.take(j + 1).contains(n) <==> (nv.take(j as int).contains(n) || n == name) by {
                let t = nv.take(j + 1);
                let u = nv.take(j as int);
                if t.contains(n) {
                    let p = choose|p: int| 0 <= p < t.len() && t[p] == n;
                    if p < j {
                        assert(u[p] == n);
                    }
                }
                if u.contains(n) {
                    let p = choose|p: int| 0 <= p < u.len() && u[p] == n;
                    assert(t[p] == n);
                }
                if n == name {
                    assert(t[j as int] == n);
                }
            }
        }
        match locate(&list, names[j].as_str()) {
            Ok(p) => {
                proof {
                    assert(names_in(v)[p as int] == name);
                }
            },
            Err(k) => {
                let e = InterfaceSnapshot {
                    name: String::from_str(names[j].as_str()),
                    ips: Vec::new(),
                    is_up: None,
                };
                proof {
                    assert forall|p: int| 0 <= p < v.len() implies (#[trigger] v[p]).0 != name by {
                        assert(list@[p].name@ != name);
                    }
                    assert(!names_in(v).contains(name)) by {
                        if names_in(v).contains(name) {
                            let p = choose|p: int| 0 <= p < names_in(v).len() && names_in(v)[p] == name;
                            assert(v[p].0 == name);
                        }
                    }
                    lemma_no_name(av, name);
                    assert(e@.1 =~= Seq::<Seq<char>>::empty());
                    assert forall|p: int| 0 <= p < k implies name_less((#[trigger] v[p]).0, e@.0) by {
                        assert(list@[p].name@ == v[p].0);
                    }
                    lemma_insert_ok(v, av, k as int, e@);
                }
                list.insert(k, e);
                proof {
                    assert(list_view(list@) =~= v.insert(k as int, e@));
                }
            },
        }
        j += 1;
    }
    assert(nv.take(names@.len() as int) =~= nv);
    list
}

} // verus!
