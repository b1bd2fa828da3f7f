//! The working-directory listing of the filesystem panel: how entries are
//! labelled and ordered, when the listing is due for a rescan, and how it
//! is laid out in columns.

use vstd::prelude::*;
use vstd::string::StringExecFns;

use crate::fmt::{truncate, truncated};
use crate::system::{lemma_name_order_asymmetric, name_less};
use crate::text::{push_char, push_str};

verus! {

/// How long a listing stays fresh, in milliseconds.
pub const DIR_REFRESH_INTERVAL_MS: u64 = 1000;

/// What a directory entry is.
#[derive(Debug, Clone, Copy, PartialEq, Eq, Structural)]
pub enum EntryKind {
    Dir,
    File,
    /// Its type could not be read.
    Unknown,
}

/// The label of an entry: `[d]`, `[f]` or `[?]`, a space, and its name.
pub open spec fn entry_text(name: Seq<char>, kind: EntryKind) -> Seq<char> {
    let prefix = match kind {
        EntryKind::Dir => "[d] "@,
        EntryKind::File => "[f] "@,
        EntryKind::Unknown => "[?] "@,
    };
    prefix + name
}

/// `c` with ASCII upper-case letters made lower-case.
pub open spec fn ascii_lower(c: char) -> char {
    if 'A' <= c <= 'Z' {
        ((c as u32) + 32) as char
    } else {
        c
    }
}

/// The sort key of an entry: its label with ASCII letters lower-cased.
pub open spec fn sort_key(s: Seq<char>) -> Seq<char> {
    s.map_values(|c: char| ascii_lower(c))
}

/// Where `x` goes in `s`: before the first element whose key is greater,
/// after all whose key is not.
pub open spec fn insert_position(s: Seq<Seq<char>>, x: Seq<char>) -> nat
    decreases s.len(),
{
    if s.len() == 0 {
        0
    } else if name_less(sort_key(x), sort_key(s[0])) {
        0
    } else {
        1 + insert_position(s.drop_first(), x)
    }
}

/// The stable sort of `s` by `sort_key`: each element in turn goes after
/// the ones before it whose key is not greater.
pub open spec fn sorted_by_key(s: Seq<Seq<char>>) -> Seq<Seq<char>>
    decreases s.len(),
{
    if s.len() == 0 {
        s
    } else {
        let rest = sorted_by_key(s.drop_last());
        rest.insert(insert_position(rest, s.last()) as int, s.last())
    }
}

/// The listing of a directory: the labels of its entries sorted by key.
pub open spec fn listing_of(entries: Seq<(Seq<char>, EntryKind)>) -> Seq<Seq<char>> {
    sorted_by_key(entries.map_values(|e: (Seq<char>, EntryKind)| entry_text(e.0, e.1)))
}

proof fn lemma_insert_position_bounds(s: Seq<Seq<char>>, x: Seq<char>)
    ensures
        insert_position(s, x) <= s.len(),
        forall|i: int| 0 <= i < insert_position(s, x) ==> !name_less(sort_key(x), sort_key(#[trigger] s[i])),
        insert_position(s, x) < s.len() ==> name_less(sort_key(x), sort_key(s[insert_position(s, x) as int])),
    decreases s.len(),
{
    if s.len() > 0 && !name_less(sort_key(x), sort_key(s[0])) {
        let t = s.drop_first();
        lemma_insert_position_bounds(t, x);
        assert forall|i: int| 0 <= i < insert_position(s, x) implies !name_less(sort_key(x), sort_key(#[trigger] s[i])) by {
            if i > 0 {
                assert(s[i] == t[i - 1]);
            }
        }
        if insert_position(s, x) < s.len() {
            assert(s[insert_position(s, x) as int] == t[insert_position(t, x) as int]);
        }
    }
}

/// The listing holds exactly the labels it was given, each once per
/// entry, ordered by key: no label sorts before the one preceding it.
pub proof fn law_listing_sorted_permutation(labels: Seq<Seq<char>>)
    ensures
        sorted_by_key(labels).len() == labels.len(),
        sorted_by_key(labels).to_multiset() == labels.to_multiset(),
        forall|i: int|
            0 <= i < sorted_by_key(labels).len() - 1 ==> !name_less(
                sort_key(sorted_by_key(labels)[i + 1]),
                sort_key(#[trigger] sorted_by_key(labels)[i]),
            ),
    decreases labels.len(),
{
    broadcast use vstd::seq_lib::to_multiset_insert, vstd::seq_lib::to_multiset_build;

    if labels.len() > 0 {
        let d = labels.drop_last();
        let x = labels.last();
        law_listing_sorted_permutation(d);
        let rest = sorted_by_key(d);
        lemma_insert_position_bounds(rest, x);
        let k = insert_position(rest, x) as int;
        let r = sorted_by_key(labels);
        assert(r == rest.insert(k, x));
        assert(labels =~= d.push(x));
        assert forall|i: int| 0 <= i < r.len() - 1 implies !name_less(sort_key(r[i + 1]), sort_key(#[trigger] r[i])) by {
            if i + 1 < k {
                assert(r[i] == rest[i] && r[i + 1] == rest[i + 1]);
            } else if i + 1 == k {
                assert(r[i] == rest[k - 1] && r[i + 1] == x);
            } else if i == k {
                assert(r[i] == x && r[i + 1] == rest[k]);
                lemma_name_order_asymmetric(sort_key(x), sort_key(rest[k]));
            } else {
                assert(r[i] == rest[i - 1] && r[i + 1] == rest[i]);
            }
        }
    }
}

fn lower_char(c: char) -> (r: char)
    ensures
        r == ascii_lower(c),
{
    if 'A' <= c && c <= 'Z' {
        ((c as u8) + 32) as char
    } else {
        c
    }
}

/// Whether `a` sorts before `b` by key.
fn key_less(a: &str, b: &str) -> (less: bool)
    ensures
        less == name_less(sort_key(a@), sort_key(b@)),
{
    let ghost ka = sort_key(a@);
    let ghost kb = sort_key(b@);
    let n = a.unicode_len();
    let m = b.unicode_len();
    let mut i: usize = 0;
    assert(ka.skip(0) =~= ka);
    assert(kb.skip(0) =~= kb);
    while i < n && i < m
        invariant
            n == a@.len(),
            m == b@.len(),
            ka == sort_key(a@),
            kb == sort_key(b@),
            i <= n,
            i <= m,
            name_less(ka, kb) == name_less(ka.skip(i as int), kb.skip(i as int)),
        decreases n - i,
    {
        let x = lower_char(a.get_char(i));
        let y = lower_char(b.get_char(i));
        assert(ka.skip(i as int)[0] == x);
        assert(kb.skip(i as int)[0] == y);
        if x != y {
            return (x as u32) < (y as u32);
        }
        assert(ka.skip(i as int).drop_first() =~= ka.skip(i + 1));
        assert(kb.skip(i as int).drop_first() =~= kb.skip(i + 1));
        i += 1;
    }
    i == n && i < m
}

fn entry_label(name: &str, kind: EntryKind) -> (label: String)
    ensures
        label@ == entry_text(name@, kind),
{
    let mut label = String::from_str(
        match kind {
            EntryKind::Dir => "[d] ",
            EntryKind::File => "[f] ",
            EntryKind::Unknown => "[?] ",
        },
    );
    push_str(&mut label, name);
    label
}

proof fn lemma_insert_position_step(s: Seq<Seq<char>>, x: Seq<char>, k: int)
    requires
        0 <= k < s.len(),
        insert_position(s, x) == k + insert_position(s.skip(k), x),
        !name_less(sort_key(x), sort_key(s[k])),
    ensures
        insert_position(s, x) == k + 1 + insert_position(s.skip(k + 1), x),
{
    assert(s.skip(k).drop_first() =~= s.skip(k + 1));
    assert(s.skip(k)[0] == s[k]);
}

/// The labels of the entries of a directory, sorted by key (see
/// `listing_of`).
pub fn listing_entries(entries: &Vec<(String, EntryKind)>) -> (labels: Vec<String>)
    ensures
        labels@.map_values(|l: String| l@) == listing_of(
            entries@.map_values(|e: (String, EntryKind)| (e.0@, e.1)),
        ),
{
    let ghost ev = entries@.map_values(|e: (String, EntryKind)| (e.0@, e.1));
    let ghost texts = ev.map_values(|e: (Seq<char>, EntryKind)| entry_text(e.0, e.1));
    let mut labels: Vec<String> = Vec::new();
    let mut i: usize = 0;
    assert(texts.take(0) =~= Seq::<Seq<char>>::empty());
    assert(labels@.map_values(|l: String| l@) =~= Seq::<Seq<char>>::empty());
    while i < entries.len()
        invariant
            i <= entries@.len(),
            ev == entries@.map_values(|e: (String, EntryKind)| (e.0@, e.1)),
            texts == ev.map_values(|e: (Seq<char>, EntryKind)| entry_text(e.0, e.1)),
            labels@.map_values(|l: String| l@) == sorted_by_key(texts.take(i as int)),
        decreases entries.len() - i,
    {
        let ghost current = labels@.map_values(|l: String| l@);
        let label = entry_label(entries[i].0.as_str(), entries[i].1);
        assert(label@ == texts[i as int]);
        let mut k: usize = 0;
        assert(current.skip(0) =~= current);
        while k < labels.len() && !key_less(label.as_str(), labels[k].as_str())
            invariant
                k <= labels@.len(),
                current == labels@.map_values(|l: String| l@),
                insert_position(current, label@) == k + insert_position(current.skip(k as int), label@),
            decreases labels.len() - k,
        {
            proof {
                lemma_insert_position_step(current, label@, k as int);
            }
            k += 1;
        }
        proof {
            if k < labels.len() {
                assert(current.skip(k as int)[0] == current[k as int]);
            } else {
                assert(current.skip(k as int).len() == 0);
            }
        }
        labels.insert(k, label);
        proof {
            let t = texts.take(i + 1);
            assert(t.drop_last() =~= texts.take(i as int));
            assert(t.last() == label@);
            assert(labels@.map_values(|l: String| l@) =~= current.insert(k as int, label@));
        }
        i += 1;
    }
    assert(texts.take(entries@.len() as int) =~= texts);
    labels
}

/// The listing shown in the filesystem panel, and when it was last read.
pub struct DirListing {
    pub path: String,
    pub entries: Vec<String>,
    /// When the listing was last read (milliseconds on the caller's clock).
    pub refreshed_at: Option<u64>,
}

impl DirListing {
    /// An empty listing, never read.
    pub fn new() -> (listing: DirListing)
        ensures
            listing.path@ == Seq::<char>::empty(),
            listing.entries@.len() == 0,
            listing.refreshed_at is None,
    {
        DirListing { path: String::new(), entries: Vec::new(), refreshed_at: None }
    }

    /// Whether the listing is due for a rescan at `now`: never read, or
    /// read at least `DIR_REFRESH_INTERVAL_MS` ago.
    pub fn is_due(&self, now: u64) -> (due: bool)
        ensures
            due == match self.refreshed_at {
                None => true,
                Some(at) => now >= at && now - at >= DIR_REFRESH_INTERVAL_MS,
            },
    {
        match self.refreshed_at {
            None => true,
            Some(at) => now >= at && now - at >= DIR_REFRESH_INTERVAL_MS,
        }
    }

    /// Records a rescan at `now` of directory `path`: its entries when it
    /// could be read, else the single line `N/A`.
    pub fn refresh(&mut self, now: u64, path: String, entries: Option<Vec<(String, EntryKind)>>)
        ensures
            final(self).path@ == path@,
            final(self).refreshed_at == Some(now),
            match entries {
                Some(list) => final(self).entries@.map_values(|l: String| l@) == listing_of(
                    list@.map_values(|e: (String, EntryKind)| (e.0@, e.1)),
                ),
                None => final(self).entries@.map_values(|l: String| l@) == seq!["N/A"@],
            },
    {
        self.path = path;
        match entries {
            Some(list) => {
                self.entries = listing_entries(&list);
            },
            None => {
                let mut na: Vec<String> = Vec::new();
                na.push(String::from_str("N/A"));
                assert(na@.map_values(|l: String| l@) =~= seq!["N/A"@]);
                self.entries = na;
            },
        }
        self.refreshed_at = Some(now);
    }
}

// ---------------------------------------------------------------------------
// Columns

/// `s` followed by spaces up to `width` characters (unchanged when longer).
pub open spec fn padded(s: Seq<char>, width: nat) -> Seq<char> {
    if s.len() >= width {
        s
    } else {
        s + Seq::new((width - s.len()) as nat, |i: int| ' ')
    }
}

/// How many columns the panel uses at `width` cells.
pub open spec fn column_count(width: nat) -> nat {
    if width >= 30 {
        2
    } else {
        1
    }
}

/// The width of a column.
pub open spec fn column_width(width: nat) -> nat {
    let w = width / column_count(width);
    if w >= 1 {
        w
    } else {
        1
    }
}

/// The cell of entry `index` in a column `cw` wide: the entry cut to leave
/// a space, padded to the column; nothing past the last entry.
pub open spec fn column_cell(entries: Seq<Seq<char>>, index: nat, cw: nat) -> Seq<char> {
    if index < entries.len() {
        padded(truncated(entries[index as int], (cw - 1) as nat), cw)
    } else {
        seq![]
    }
}

/// Row `row` of the entries laid out top to bottom in columns of `rows`
/// rows, in a panel `width` cells wide.
pub open spec fn column_row(entries: Seq<Seq<char>>, rows: nat, width: nat, row: nat) -> Seq<char> {
    let cw = column_width(width);
    if column_count(width) == 2 {
        column_cell(entries, row, cw) + column_cell(entries, row + rows, cw)
    } else {
        column_cell(entries, row, cw)
    }
}

fn push_padded(line: &mut String, cell: &str, width: usize)
    ensures
        final(line)@ == old(line)@ + padded(cell@, width as nat),
{
    push_str(line, cell);
    let n = cell.unicode_len();
    let mut k = n;
    while k < width
        invariant
            n == cell@.len(),
            n <= k,
            k <= width || n >= width,
            n >= width ==> k == n,
            line@ == old(line)@ + cell@ + Seq::new((k - n) as nat, |i: int| ' '),
        decreases width - k,
    {
        push_char(line, ' ');
        k += 1;
        assert(line@ =~= old(line)@ + cell@ + Seq::new((k - n) as nat, |i: int| ' '));
    }
    if n >= width {
        assert(k == n);
        assert(line@ =~= old(line)@ + cell@);
    } else {
        assert(k == width);
    }
    assert(line@ =~= old(line)@ + padded(cell@, width as nat));
}

/// The rows of the filesystem panel under its path line: `rows` lines of
/// the entries in columns (see `column_row`).
pub fn column_lines(entries: &Vec<String>, rows: usize, width: u16) -> (lines: Vec<String>)
    requires
        rows <= u16::MAX,
    ensures
        lines@.len() == rows,
        forall|r: int|
            0 <= r < rows ==> #[trigger] lines@[r]@ == column_row(
                entries@.map_values(|e: String| e@),
                rows as nat,
                width as nat,
                r as nat,
            ),
{
    let ghost ev = entries@.map_values(|e: String| e@);
    let columns: usize = if width >= 30 { 2 } else { 1 };
    let w = (width as usize) / columns;
    let cw: usize = if w >= 1 { w } else { 1 };
    let mut lines: Vec<String> = Vec::new();
    let mut row: usize = 0;
    while row < rows
        invariant
            row <= rows,
            rows <= u16::MAX,
            ev == entries@.map_values(|e: String| e@),
            columns == column_count(width as nat),
            cw == column_width(width as nat),
            lines@.len() == row,
            forall|r: int|
                0 <= r < row ==> #[trigger] lines@[r]@ == column_row(ev, rows as nat, width as nat, r as nat),
        decreases rows - row,
    {
        let mut line = String::new();
        let mut column: usize = 0;
        while column < columns
            invariant
                column <= columns,
                columns <= 2,
                row < rows,
                rows <= u16::MAX,
                ev == entries@.map_values(|e: String| e@),
                cw == column_width(width as nat),
                cw >= 1,
                line@ == if column == 0 {
                    Seq::<char>::empty()
                } else if column == 1 {
                    column_cell(ev, row as nat, cw as nat)
                } else {
                    column_cell(ev, row as nat, cw as nat) + column_cell(ev, (row + rows) as nat, cw as nat)
                },
            decreases columns - column,
        {
            let index = row + column * rows;
            let ghost before = line@;
            if index < entries.len() {
                let cell = truncate(entries[index].as_str(), cw - 1);
                push_padded(&mut line, cell.as_str(), cw);
            }
            column += 1;
            proof {
                if column == 1 {
                    assert(line@ =~= column_cell(ev, row as nat, cw as nat));
                } else {
                    assert(index == row + rows);
                    assert(line@ =~= before + column_cell(ev, (row + rows) as nat, cw as nat));
                }
            }
        }
        proof {
            if columns == 1 {
                assert(line@ == column_row(ev, rows as nat, width as nat, row as nat));
            }
        }
        lines.push(line);
        row += 1;
    }
    lines
}

} // verus!
