//! Arithmetic and text of the small drawing primitives: column splits,
//! row cursors, charts, the memory grid and keyboard key caps.

use vstd::prelude::*;
use vstd::string::StringExecFns;
use vstd::utf8::encode_utf8;

use crate::fmt::{truncate, truncated};
use crate::rect::{clipped_rect, Rect};
use crate::text::{push_char, push_str};

verus! {

/// Splits `area` into three columns: the first two take the given
/// percentages of the width (rounded down), the third the rest.
pub open spec fn columns_spec(area: Rect, first_percent: u16, second_percent: u16) -> Seq<Rect> {
    let first_width = ((area.width as int * first_percent as int) / 100) as u16;
    let second_width = ((area.width as int * second_percent as int) / 100) as u16;
    let third_width = area.width.saturating_sub(first_width).saturating_sub(second_width);
    seq![
        clipped_rect(area.x, area.y, first_width, area.height),
        clipped_rect(area.x.saturating_add(first_width), area.y, second_width, area.height),
        clipped_rect(
            area.x.saturating_add(first_width).saturating_add(second_width),
            area.y,
            third_width,
            area.height,
        ),
    ]
}

/// Three columns of `area` (see `columns_spec`).
pub fn split_columns(area: Rect, first_percent: u16, second_percent: u16) -> (r: [Rect; 3])
    ensures
        r@ == columns_spec(area, first_percent, second_percent),
{
    let w = area.width as u32;
    let p1 = first_percent as u32;
    let p2 = second_percent as u32;
    assert(w * p1 <= u32::MAX) by (nonlinear_arith)
        requires
            w <= 65535,
            p1 <= 65535,
    ;
    assert(w * p2 <= u32::MAX) by (nonlinear_arith)
        requires
            w <= 65535,
            p2 <= 65535,
    ;
    let first_width = ((w * p1) / 100) as u16;
    let second_width = ((w * p2) / 100) as u16;
    let third_width = area.width.saturating_sub(first_width).saturating_sub(second_width);
    let r = [
        Rect::new(area.x, area.y, first_width, area.height),
        Rect::new(area.x.saturating_add(first_width), area.y, second_width, area.height),
        Rect::new(
            area.x.saturating_add(first_width).saturating_add(second_width),
            area.y,
            third_width,
            area.height,
        ),
    ];
    assert(r@ =~= columns_spec(area, first_percent, second_percent));
    r
}

/// The rows a chart gets from row `y` down: what is left of `area`, at
/// most `preferred`.
pub fn chart_height(area: Rect, y: u16, preferred: u16) -> (h: u16)
    ensures
        h == if area.bottom().saturating_sub(y) <= preferred {
            area.bottom().saturating_sub(y)
        } else {
            preferred
        },
{
    let left = area.bottom().saturating_sub(y);
    if left <= preferred {
        left
    } else {
        preferred
    }
}

/// Moves the row cursor `y` down one row, unless that reaches `bottom`.
pub fn draw_gap(y: &mut u16, bottom: u16)
    ensures
        *final(y) == if old(y).saturating_add(1) < bottom {
            old(y).saturating_add(1)
        } else {
            *old(y)
        },
{
    if y.saturating_add(1) < bottom {
        *y = y.saturating_add(1);
    }
}

// ---------------------------------------------------------------------------
// Keyboard key caps

/// A key of the on-screen keyboard and its width in cells.
#[derive(Debug, Clone, Copy)]
pub struct KeySpec {
    pub label: &'static str,
    pub width: u16,
}

/// A key cap.
pub fn key(label: &'static str, width: u16) -> (k: KeySpec)
    ensures
        k.label == label,
        k.width == width,
{
    KeySpec { label, width }
}

/// The length in bytes that `str::len` reports for a string with the
/// characters `s` (its UTF-8 length).
pub open spec fn byte_len(s: Seq<char>) -> nat {
    (encode_utf8(s).len() as usize) as nat
}

/// `n` spaces.
pub open spec fn spaces(n: nat) -> Seq<char> {
    Seq::new(n, |i: int| ' ')
}

/// The label with a space on each side, centred in `width` cells (the
/// extra space going right); cut to `width` characters when its UTF-8
/// length does not leave room.
pub open spec fn key_cap_text(label: Seq<char>, width: nat) -> Seq<char> {
    let value = seq![' '] + label + seq![' '];
    let len = byte_len(value);
    if len >= width {
        truncated(value, width)
    } else {
        let left = ((width - len) / 2) as nat;
        let right = (width - len - left) as nat;
        spaces(left) + value + spaces(right)
    }
}

fn push_spaces(s: &mut String, n: usize)
    ensures
        final(s)@ == old(s)@ + spaces(n as nat),
{
    let mut i: usize = 0;
    while i < n
        invariant
            i <= n,
            s@ == old(s)@ + spaces(i as nat),
        decreases n - i,
    {
        push_char(s, ' ');
        i += 1;
        assert(s@ =~= old(s)@ + spaces(i as nat));
    }
}

/// The text of a key cap `width` cells wide.
pub fn centered_key_text(label: &str, width: usize) -> (r: String)
    ensures
        r@ == key_cap_text(label@, width as nat),
{
    let mut value = String::from_str(" ");
    push_str(&mut value, label);
    push_str(&mut value, " ");
    proof {
        reveal_strlit(" ");
        assert(value@ =~= seq![' '] + label@ + seq![' ']);
    }
    let len = value.as_str().len();
    assert(len == byte_len(value@));
    if len >= width {
        return truncate(value.as_str(), width);
    }
    let left = (width - len) / 2;
    let right = width - len - left;
    let mut out = String::new();
    push_spaces(&mut out, left);
    push_str(&mut out, value.as_str());
    push_spaces(&mut out, right);
    assert(left == ((width - byte_len(value@)) / 2) as nat);
    assert(right == (width - byte_len(value@) - left) as nat);
    assert(out@ =~= spaces(left as nat) + value@ + spaces(right as nat));
    assert(out@ =~= key_cap_text(label@, width as nat));
    out
}

/// The width a row of keys asks for: the indent, the key widths and one
/// cell between neighbouring keys, each sum saturating at `u16::MAX`.
pub open spec fn key_row_width_of(indent: u16, widths: Seq<u16>) -> u16
    decreases widths.len(),
{
    if widths.len() == 0 {
        indent
    } else {
        let before = key_row_width_of(indent, widths.drop_last());
        let with_gap = if widths.len() > 1 { before.saturating_add(1) } else { before };
        with_gap.saturating_add(widths.last())
    }
}

/// The width a row of keys asks for (see `key_row_width_of`).
pub fn key_row_width(indent: u16, specs: &[KeySpec]) -> (total: u16)
    ensures
        total == key_row_width_of(indent, specs@.map_values(|k: KeySpec| k.width)),
{
    let ghost ws = specs@.map_values(|k: KeySpec| k.width);
    let mut total = indent;
    let mut i: usize = 0;
    assert(ws.take(0) =~= Seq::<u16>::empty());
    while i < specs.len()
        invariant
            i <= specs@.len(),
            ws == specs@.map_values(|k: KeySpec| k.width),
            total == key_row_width_of(indent, ws.take(i as int)),
        decreases specs.len() - i,
    {
        if i > 0 {
            total = total.saturating_add(1);
        }
        total = total.saturating_add(specs[i].width);
        proof {
            assert(ws.take(i + 1).drop_last() =~= ws.take(i as int));
            assert(ws.take(i + 1).last() == specs@[i as int].width);
        }
        i += 1;
    }
    assert(ws.take(specs@.len() as int) =~= ws);
    total
}

/// The arrow keys in the lower right corner of a full keyboard in `area`:
/// `UP` on the row under the five key rows, `LEFT`, `DOWN` and `RIGHT` on
/// the row below it when there is one; each key five cells wide.
pub open spec fn arrow_cluster_spec(area: Rect) -> Seq<(Rect, Seq<char>)> {
    if area.height <= 5 {
        seq![]
    } else {
        let y = area.y.saturating_add(5);
        let cluster = if area.width <= 17 { area.width } else { 17 };
        let x = area.x.saturating_add(area.width.saturating_sub(cluster));
        let up = seq![(clipped_rect(x.saturating_add(6), y, 5, 1), "UP"@)];
        if y.saturating_add(1) < area.y.saturating_add(area.height) {
            let y2 = y.saturating_add(1);
            up + seq![
                (clipped_rect(x, y2, 5, 1), "LEFT"@),
                (clipped_rect(x.saturating_add(6), y2, 5, 1), "DOWN"@),
                (clipped_rect(x.saturating_add(12), y2, 5, 1), "RIGHT"@),
            ]
        } else {
            up
        }
    }
}

/// The arrow keys of a full keyboard (see `arrow_cluster_spec`).
pub fn arrow_cluster(area: Rect) -> (keys: Vec<(Rect, &'static str)>)
    ensures
        keys@.map_values(|k: (Rect, &'static str)| (k.0, k.1@)) == arrow_cluster_spec(area),
{
    let mut keys: Vec<(Rect, &'static str)> = Vec::new();
    if area.height > 5 {
        let y = area.y.saturating_add(5);
        let cluster = if area.width <= 17 { area.width } else { 17 };
        let x = area.x.saturating_add(area.width.saturating_sub(cluster));
        keys.push((Rect::new(x.saturating_add(6), y, 5, 1), "UP"));
        if y.saturating_add(1) < area.bottom() {
            let y2 = y.saturating_add(1);
            keys.push((Rect::new(x, y2, 5, 1), "LEFT"));
            keys.push((Rect::new(x.saturating_add(6), y2, 5, 1), "DOWN"));
            keys.push((Rect::new(x.saturating_add(12), y2, 5, 1), "RIGHT"));
        }
    }
    assert(keys@.map_values(|k: (Rect, &'static str)| (k.0, k.1@)) =~= arrow_cluster_spec(area));
    keys
}

// ---------------------------------------------------------------------------
// Charts

/// The largest sample, at least 1.
pub open spec fn chart_max(samples: Seq<u64>) -> u64
    decreases samples.len(),
{
    if samples.len() == 0 {
        1
    } else {
        let rest = chart_max(samples.drop_last());
        if samples.last() > rest {
            samples.last()
        } else {
            rest
        }
    }
}

proof fn lemma_chart_max_positive(s: Seq<u64>)
    ensures
        chart_max(s) >= 1,
    decreases s.len(),
{
    if s.len() > 0 {
        lemma_chart_max_positive(s.drop_last());
    }
}

/// The cell at `row`, `column` of a bar chart of `samples` (right-aligned)
/// that is `width` by `height`: `#` where the sample reaches the row's
/// threshold, a sparse grid of `.` elsewhere, blank left of the data.
pub open spec fn chart_cell(samples: Seq<u64>, width: nat, height: nat, row: nat, column: nat) -> char {
    let left_padding = if width >= samples.len() { width - samples.len() } else { 0 };
    let max_value = chart_max(samples);
    let threshold = ((height - row) * max_value + height - 1) / (height as int);
    if column < left_padding {
        ' '
    } else if samples[column - left_padding] >= threshold {
        '#'
    } else if (row + column) % 6 == 0 {
        '.'
    } else {
        ' '
    }
}

/// The last `width` samples of `data`.
pub open spec fn chart_samples(data: Seq<u64>, width: nat) -> Seq<u64> {
    if data.len() > width {
        data.skip(data.len() - width)
    } else {
        data
    }
}

/// The largest of the last `width` values of `data`, at least 1: the value
/// a chart of them is scaled to.
pub fn chart_peak(data: &[u64], width: usize) -> (peak: u64)
    ensures
        peak == chart_max(chart_samples(data@, width as nat)),
{
    let n = data.len();
    let start = if n > width { n - width } else { 0 };
    let ghost samples = chart_samples(data@, width as nat);
    let count = n - start;
    assert(samples.len() == count);
    let mut max_value: u64 = 1;
    let mut i: usize = 0;
    while i < count
        invariant
            i <= count,
            start + count == n,
            n == data@.len(),
            samples == data@.skip(start as int),
            max_value == chart_max(samples.take(i as int)),
        decreases count - i,
    {
        assert(samples.take(i + 1).drop_last() =~= samples.take(i as int));
        let v = data[start + i];
        if v > max_value {
            max_value = v;
        }
        i += 1;
    }
    assert(samples.take(count as int) =~= samples);
    max_value
}

fn chart_row(
    data: &[u64],
    start: usize,
    count: usize,
    width: usize,
    height: usize,
    row: usize,
    threshold: u64,
    Ghost(samples): Ghost<Seq<u64>>,
) -> (line: String)
    requires
        row < height,
        start + count == data@.len(),
        samples == data@.skip(start as int),
        samples.len() == count,
        threshold == ((height - row) * chart_max(samples) + height - 1) / (height as int),
    ensures
        line@ == Seq::new(
            width as nat,
            |c: int| chart_cell(samples, width as nat, height as nat, row as nat, c as nat),
        ),
{
    let n = data.len();
    let left_padding = if width >= count { width - count } else { 0 };
    let mut line = String::new();
    let mut column: usize = 0;
    while column < width
        invariant
            column <= width,
            row < height,
            n == data@.len(),
            start + count == data@.len(),
            samples == data@.skip(start as int),
            samples.len() == count,
            left_padding == if width >= count { width - count } else { 0 },
            threshold == ((height - row) * chart_max(samples) + height - 1) / (height as int),
            line@ == Seq::new(
                column as nat,
                |c: int| chart_cell(samples, width as nat, height as nat, row as nat, c as nat),
            ),
        decreases width - column,
    {
        let ch = if column < left_padding {
            ' '
        } else if data[start + (column - left_padding)] >= threshold {
            '#'
        } else if (row % 6 + column % 6) % 6 == 0 {
            '.'
        } else {
            ' '
        };
        assert((row % 6 + column % 6) % 6 == (row + column) % 6) by (nonlinear_arith);
        push_char(&mut line, ch);
        column += 1;
        assert(line@ =~= Seq::new(
            column as nat,
            |c: int| chart_cell(samples, width as nat, height as nat, row as nat, c as nat),
        ));
    }
    line
}

/// The rows of a `width` by `height` bar chart of the last `width` values
/// of `data`, scaled to the largest of them.
pub fn series_chart_rows(data: &[u64], width: usize, height: usize) -> (rows: Vec<String>)
    requires
        height * chart_max(chart_samples(data@, width as nat)) <= u64::MAX,
    ensures
        rows@.len() == height,
        forall|r: int|
            0 <= r < height ==> #[trigger] rows@[r]@ == Seq::new(
                width as nat,
                |c: int| chart_cell(chart_samples(data@, width as nat), width as nat, height as nat, r as nat, c as nat),
            ),
{
    let n = data.len();
    let start = if n > width { n - width } else { 0 };
    let ghost samples = chart_samples(data@, width as nat);
    let count = n - start;
    assert(samples.len() == count);
    let max_value = chart_peak(data, width);
    proof {
        lemma_chart_max_positive(samples);
    }
    let left_padding = if width >= count { width - count } else { 0 };
    let mut rows: Vec<String> = Vec::new();
    let mut row: usize = 0;
    while row < height
        invariant
            row <= height,
            start + count == n,
            n == data@.len(),
            samples == data@.skip(start as int),
            samples.len() == count,
            max_value == chart_max(samples),
            max_value >= 1,
            height * max_value <= u64::MAX,
            left_padding == if width >= count { width - count } else { 0 },
            rows@.len() == row,
            forall|r: int|
                0 <= r < row ==> #[trigger] rows@[r]@ == Seq::new(
                    width as nat,
                    |c: int| chart_cell(samples, width as nat, height as nat, r as nat, c as nat),
                ),
        decreases height - row,
    {
        let h = height as u64;
        let k = (height - row) as u64;
        assert(k * max_value <= h * max_value) by (nonlinear_arith)
            requires
                k <= h,
                max_value >= 1,
        ;
        let scaled = k * max_value;
        let q = scaled / h;
        assert(scaled % h != 0 ==> q < u64::MAX) by (nonlinear_arith)
            requires
                q == scaled / h,
                h > 0,
                scaled <= u64::MAX,
        ;
        let threshold = if scaled % h == 0 { q } else { q + 1 };
        assert(threshold == ((height - row) * max_value + height - 1) / (height as int)) by (nonlinear_arith)
            requires
                scaled == k * max_value,
                k == height - row,
                h == height,
                h > 0,
                q == scaled / h,
                threshold == if scaled % h == 0 { q as int } else { q + 1 },
        ;
        let line = chart_row(data, start, count, width, height, row, threshold, Ghost(samples));
        rows.push(line);
        row += 1;
    }
    rows
}

/// The rows of the memory grid: `height` rows of `width` cells, the first
/// `filled` cells (row by row) `#`, the rest `.`.
pub fn memory_grid_rows(width: u16, height: u16, filled: usize) -> (rows: Vec<String>)
    ensures
        rows@.len() == height,
        forall|r: int|
            0 <= r < height ==> #[trigger] rows@[r]@ == Seq::new(
                width as nat,
                |c: int| if r * width + c < filled { '#' } else { '.' },
            ),
{
    let mut rows: Vec<String> = Vec::new();
    let mut row: u16 = 0;
    while row < height
        invariant
            row <= height,
            rows@.len() == row,
            forall|r: int|
                0 <= r < row ==> #[trigger] rows@[r]@ == Seq::new(
                    width as nat,
                    |c: int| if r * width + c < filled { '#' } else { '.' },
                ),
        decreases height - row,
    {
        let mut line = String::new();
        let mut column: u16 = 0;
        while column < width
            invariant
                column <= width,
                row < height,
                line@ == Seq::new(
                    column as nat,
                    |c: int| if row * width + c < filled { '#' } else { '.' },
                ),
            decreases width - column,
        {
            let r64 = row as u64;
            let w64 = width as u64;
            assert(r64 * w64 <= 65535 * 65535) by (nonlinear_arith)
                requires
                    r64 <= 65535,
                    w64 <= 65535,
            ;
            let index = r64 * w64 + column as u64;
            push_char(&mut line, if index < filled as u64 { '#' } else { '.' });
            column += 1;
            assert(line@ =~= Seq::new(
                column as nat,
                |c: int| if row * width + c < filled { '#' } else { '.' },
            ));
        }
        rows.push(line);
        row += 1;
    }
    rows
}

} // verus!
