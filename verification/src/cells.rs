//! Terminal screen cells as the panes show them: the colour and attributes
//! of each cell (the cursor drawn as an inverted block), and a row of
//! cells cut into runs of one style.

use vstd::prelude::*;
use vstd::string::StringExecFns;

use crate::text::push_char;

verus! {

/// A colour as the terminal emulator reports it.
#[derive(Debug, Clone, Copy, PartialEq, Eq, Structural)]
pub enum TermColor {
    /// The terminal's default colour.
    Default,
    /// A colour of the 256-colour palette.
    Indexed(u8),
    Rgb(u8, u8, u8),
}

/// A colour to paint with: the sixteen named colours, the rest of the
/// palette by index, or red, green and blue.
#[derive(Debug, Clone, Copy, PartialEq, Eq, Structural)]
pub enum Color {
    Black,
    Red,
    Green,
    Yellow,
    Blue,
    Magenta,
    Cyan,
    Gray,
    DarkGray,
    LightRed,
    LightGreen,
    LightYellow,
    LightBlue,
    LightMagenta,
    LightCyan,
    White,
    Indexed(u8),
    Rgb(u8, u8, u8),
}

/// The colour of text.
pub open spec fn text_color() -> Color {
    Color::LightGreen
}

/// The colour of the background.
pub open spec fn background_color() -> Color {
    Color::Black
}

/// The colour of the character under the cursor.
pub open spec fn cursor_text_color() -> Color {
    Color::Black
}

/// The cursor block in the focused pane, and in the others.
pub open spec fn cursor_block_color(focused: bool) -> Color {
    if focused {
        Color::LightGreen
    } else {
        Color::DarkGray
    }
}

/// Palette entry `index`: its name for the first sixteen.
pub open spec fn palette_color(index: u8) -> Color {
    if index == 0 {
        Color::Black
    } else if index == 1 {
        Color::Red
    } else if index == 2 {
        Color::Green
    } else if index == 3 {
        Color::Yellow
    } else if index == 4 {
        Color::Blue
    } else if index == 5 {
        Color::Magenta
    } else if index == 6 {
        Color::Cyan
    } else if index == 7 {
        Color::Gray
    } else if index == 8 {
        Color::DarkGray
    } else if index == 9 {
        Color::LightRed
    } else if index == 10 {
        Color::LightGreen
    } else if index == 11 {
        Color::LightYellow
    } else if index == 12 {
        Color::LightBlue
    } else if index == 13 {
        Color::LightMagenta
    } else if index == 14 {
        Color::LightCyan
    } else if index == 15 {
        Color::White
    } else {
        Color::Indexed(index)
    }
}

/// The colour painted for a terminal colour; `default` for the default.
pub open spec fn paint_of(color: TermColor, default: Color) -> Color {
    match color {
        TermColor::Default => default,
        TermColor::Indexed(i) => palette_color(i),
        TermColor::Rgb(r, g, b) => Color::Rgb(r, g, b),
    }
}

/// Palette entry `index` (see `palette_color`).
pub fn palette(index: u8) -> (c: Color)
    ensures
        c == palette_color(index),
{
    match index {
        0 => Color::Black,
        1 => Color::Red,
        2 => Color::Green,
        3 => Color::Yellow,
        4 => Color::Blue,
        5 => Color::Magenta,
        6 => Color::Cyan,
        7 => Color::Gray,
        8 => Color::DarkGray,
        9 => Color::LightRed,
        10 => Color::LightGreen,
        11 => Color::LightYellow,
        12 => Color::LightBlue,
        13 => Color::LightMagenta,
        14 => Color::LightCyan,
        15 => Color::White,
        n => Color::Indexed(n),
    }
}

fn paint(color: TermColor, default: Color) -> (c: Color)
    ensures
        c == paint_of(color, default),
{
    match color {
        TermColor::Default => default,
        TermColor::Indexed(i) => palette(i),
        TermColor::Rgb(r, g, b) => Color::Rgb(r, g, b),
    }
}

/// A cell of the terminal screen, as the emulator reports it.
pub struct TermCell {
    /// The characters written to the cell (empty when blank).
    pub contents: String,
    /// The cell is the second half of a wide character.
    pub wide_continuation: bool,
    pub fg: TermColor,
    pub bg: TermColor,
    pub bold: bool,
    /// Faint (dim) text.
    pub dim: bool,
    pub italic: bool,
    pub underline: bool,
    pub inverse: bool,
}

/// How a cell is painted. `None` colours leave the surrounding colour.
#[derive(Debug, Clone, Copy, PartialEq, Eq, Structural)]
pub struct CellStyle {
    pub fg: Option<Color>,
    pub bg: Option<Color>,
    pub bold: bool,
    pub dim: bool,
    pub italic: bool,
    pub underline: bool,
}

/// The style of a cell: its colours (swapped when inverse) and its
/// attributes; no style for a missing cell; the cursor block over either.
pub open spec fn cell_style_of(cell: Option<(TermColor, TermColor, bool, bool, bool, bool, bool)>, cursor: bool, focused: bool) -> CellStyle {
    let base = match cell {
        Some((fg, bg, bold, dim, italic, underline, inverse)) => {
            let f = paint_of(fg, text_color());
            let b = paint_of(bg, background_color());
            CellStyle {
                fg: Some(if inverse { b } else { f }),
                bg: Some(if inverse { f } else { b }),
                bold,
                dim,
                italic,
                underline,
            }
        },
        None => CellStyle { fg: None, bg: None, bold: false, dim: false, italic: false, underline: false },
    };
    if cursor {
        CellStyle { fg: Some(cursor_text_color()), bg: Some(cursor_block_color(focused)), ..base }
    } else {
        base
    }
}

/// The character shown for a cell: blank for a missing cell, the second
/// half of a wide character or an empty cell; else its first character.
pub open spec fn cell_char_of(cell: Option<(Seq<char>, bool)>) -> char {
    match cell {
        Some((contents, wide_continuation)) => if wide_continuation || contents.len() == 0 {
            ' '
        } else {
            contents[0]
        },
        None => ' ',
    }
}

/// What the style of a cell depends on.
pub open spec fn look_of(cell: Option<TermCell>) -> Option<(TermColor, TermColor, bool, bool, bool, bool, bool)> {
    match cell {
        Some(c) => Some((c.fg, c.bg, c.bold, c.dim, c.italic, c.underline, c.inverse)),
        None => None,
    }
}

/// What the character of a cell depends on.
pub open spec fn glyph_of(cell: Option<TermCell>) -> Option<(Seq<char>, bool)> {
    match cell {
        Some(c) => Some((c.contents@, c.wide_continuation)),
        None => None,
    }
}

/// Maximal runs of one style: each run holds the characters of
/// neighbouring cells of that style, in order.
pub open spec fn runs_of(cells: Seq<(char, CellStyle)>) -> Seq<(Seq<char>, CellStyle)>
    decreases cells.len(),
{
    if cells.len() == 0 {
        seq![]
    } else {
        let before = runs_of(cells.drop_last());
        let (c, s) = cells.last();
        if before.len() > 0 && before.last().1 == s {
            before.update(before.len() - 1, (before.last().0.push(c), s))
        } else {
            before.push((seq![c], s))
        }
    }
}

/// The texts of the runs one after another.
pub open spec fn joined_text(runs: Seq<(Seq<char>, CellStyle)>) -> Seq<char>
    decreases runs.len(),
{
    if runs.len() == 0 {
        seq![]
    } else {
        joined_text(runs.drop_last()) + runs.last().0
    }
}

/// Cutting a row into runs keeps its characters in order, leaves no run
/// empty, and gives neighbouring runs different styles; each run has the
/// style of the cells it came from.
pub proof fn law_runs_partition_row(cells: Seq<(char, CellStyle)>)
    ensures
        joined_text(runs_of(cells)) == cells.map_values(|c: (char, CellStyle)| c.0),
        forall|i: int| 0 <= i < runs_of(cells).len() ==> (#[trigger] runs_of(cells)[i]).0.len() > 0,
        forall|i: int|
            0 <= i < runs_of(cells).len() - 1 ==> (#[trigger] runs_of(cells)[i]).1 != runs_of(cells)[i + 1].1,
        cells.len() > 0 ==> runs_of(cells).len() > 0 && runs_of(cells).last().1 == cells.last().1,
    decreases cells.len(),
{
    if cells.len() > 0 {
        let d = cells.drop_last();
        law_runs_partition_row(d);
        let before = runs_of(d);
        let (c, s) = cells.last();
        let f = |x: (char, CellStyle)| x.0;
        assert(cells.map_values(f) =~= d.map_values(f).push(c));
        let r = runs_of(cells);
        if before.len() > 0 && before.last().1 == s {
            let k = before.len() - 1;
            assert(r.drop_last() =~= before.drop_last());
            assert(joined_text(before) == joined_text(before.drop_last()) + before.last().0);
            assert(joined_text(r) =~= joined_text(before).push(c));
            assert forall|i: int| 0 <= i < r.len() - 1 implies (#[trigger] r[i]).1 != r[i + 1].1 by {
                assert(r[i] == before[i]);
                if i + 1 < k {
                    assert(r[i + 1] == before[i + 1]);
                } else {
                    assert(r[i + 1].1 == before[i + 1].1);
                }
            }
            assert forall|i: int| 0 <= i < r.len() implies (#[trigger] r[i]).0.len() > 0 by {
                if i < k {
                    assert(r[i] == before[i]);
                }
            }
        } else {
            assert(r.drop_last() =~= before);
            assert(joined_text(r) =~= joined_text(before) + seq![c]);
            assert forall|i: int| 0 <= i < r.len() - 1 implies (#[trigger] r[i]).1 != r[i + 1].1 by {
                assert(r[i] == before[i]);
                if i + 1 < before.len() {
                    assert(r[i + 1] == before[i + 1]);
                }
            }
            assert forall|i: int| 0 <= i < r.len() implies (#[trigger] r[i]).0.len() > 0 by {
                if i < before.len() {
                    assert(r[i] == before[i]);
                }
            }
        }
    } else {
        assert(cells.map_values(|c: (char, CellStyle)| c.0) =~= Seq::<char>::empty());
    }
}

/// The cells of a row with their characters and styles; `cursor` is the
/// column of the cursor block, if it is on this row.
pub open spec fn styled_cells(cells: Seq<Option<TermCell>>, cursor: Option<nat>, focused: bool) -> Seq<(char, CellStyle)> {
    Seq::new(
        cells.len(),
        |i: int|
            (
                cell_char_of(glyph_of(cells[i])),
                cell_style_of(look_of(cells[i]), cursor == Some(i as nat), focused),
            ),
    )
}

/// The column of the cursor block on screen row `row`: the cursor at
/// `(cursor_row, cursor_col)` shows when visible and the screen is live.
pub open spec fn cursor_column_of(row: u16, cursor_row: u16, cursor_col: u16, visible: bool, scrollback: usize) -> Option<nat> {
    if visible && scrollback == 0 && row == cursor_row {
        Some(cursor_col as nat)
    } else {
        None
    }
}

/// The column of the cursor block on a row (see `cursor_column_of`).
pub fn cursor_column(row: u16, cursor_row: u16, cursor_col: u16, visible: bool, scrollback: usize) -> (col: Option<u16>)
    ensures
        match col {
            Some(c) => cursor_column_of(row, cursor_row, cursor_col, visible, scrollback) == Some(c as nat),
            None => cursor_column_of(row, cursor_row, cursor_col, visible, scrollback) is None,
        },
{
    if visible && scrollback == 0 && row == cursor_row {
        Some(cursor_col)
    } else {
        None
    }
}

fn cell_char(cell: &Option<TermCell>) -> (c: char)
    ensures
        c == cell_char_of(glyph_of(*cell)),
{
    match cell {
        Some(t) => {
            if t.wide_continuation || t.contents.as_str().unicode_len() == 0 {
                ' '
            } else {
                t.contents.as_str().get_char(0)
            }
        },
        None => ' ',
    }
}

fn cell_style(cell: &Option<TermCell>, cursor: bool, focused: bool) -> (s: CellStyle)
    ensures
        s == cell_style_of(look_of(*cell), cursor, focused),
{
    let base = match cell {
        Some(t) => {
            let f = paint(t.fg, Color::LightGreen);
            let b = paint(t.bg, Color::Black);
            CellStyle {
                fg: Some(if t.inverse { b } else { f }),
                bg: Some(if t.inverse { f } else { b }),
                bold: t.bold,
                dim: t.dim,
                italic: t.italic,
                underline: t.underline,
            }
        },
        None => CellStyle { fg: None, bg: None, bold: false, dim: false, italic: false, underline: false },
    };
    if cursor {
        CellStyle {
            fg: Some(Color::Black),
            bg: Some(if focused { Color::LightGreen } else { Color::DarkGray }),
            bold: base.bold,
            dim: base.dim,
            italic: base.italic,
            underline: base.underline,
        }
    } else {
        base
    }
}

/// The view of a row of runs.
pub open spec fn runs_view(runs: Seq<(String, CellStyle)>) -> Seq<(Seq<char>, CellStyle)> {
    runs.map_values(|r: (String, CellStyle)| (r.0@, r.1))
}

/// A row of screen cells as runs of one style (see `runs_of` and
/// `styled_cells`); `cursor` is the cursor block's column on this row.
pub fn styled_runs(cells: &Vec<Option<TermCell>>, cursor: Option<u16>, focused: bool) -> (runs: Vec<(String, CellStyle)>)
    ensures
        runs_view(runs@) == runs_of(
            styled_cells(
                cells@,
                match cursor {
                    Some(c) => Some(c as nat),
                    None => None,
                },
                focused,
            ),
        ),
{
    let ghost cur = match cursor {
        Some(c) => Some(c as nat),
        None => None,
    };
    let ghost all = styled_cells(cells@, cur, focused);
    let mut runs: Vec<(String, CellStyle)> = Vec::new();
    let mut text = String::new();
    let mut style = CellStyle { fg: None, bg: None, bold: false, dim: false, italic: false, underline: false };
    let mut i: usize = 0;
    assert(all.take(0) =~= Seq::<(char, CellStyle)>::empty());
    while i < cells.len()
        invariant
            i <= cells@.len(),
            all == styled_cells(cells@, cur, focused),
            cur == match cursor {
                Some(c) => Some(c as nat),
                None => None,
            },
            text@.len() == 0 ==> i == 0,
            runs_of(all.take(i as int)) == if text@.len() == 0 {
                runs_view(runs@)
            } else {
                runs_view(runs@).push((text@, style))
            },
        decreases cells.len() - i,
    {
        let at_cursor = match cursor {
            Some(c) => c as usize == i,
            None => false,
        };
        let s = cell_style(&cells[i], at_cursor, focused);
        let ch = cell_char(&cells[i]);
        proof {
            assert(all[i as int] == (ch, s));
            assert(all.take(i + 1).drop_last() =~= all.take(i as int));
            assert(all.take(i + 1).last() == (ch, s));
        }
        let ghost before = runs_of(all.take(i as int));
        let ghost old_runs = runs_view(runs@);
        let ghost old_text = text@;
        let ghost old_style = style;
        let ghost after = runs_of(all.take(i + 1));
        assert(after == if before.len() > 0 && before.last().1 == s {
            before.update(before.len() - 1, (before.last().0.push(ch), s))
        } else {
            before.push((seq![ch], s))
        });
        if s != style && text.as_str().unicode_len() > 0 {
            let mut done = String::new();
            std::mem::swap(&mut done, &mut text);
            runs.push((done, style));
            proof {
                assert(runs_view(runs@) =~= old_runs.push((old_text, old_style)));
            }
        }
        style = s;
        push_char(&mut text, ch);
        i += 1;
        proof {
            if old_text.len() == 0 {
                assert(all.take(0) =~= Seq::<(char, CellStyle)>::empty());
                assert(before.len() == 0);
                assert(text@ =~= seq![ch]);
                assert(after =~= runs_view(runs@).push((text@, style)));
            } else if s != old_style {
                assert(before.last().1 == old_style);
                assert(text@ =~= seq![ch]);
                assert(after =~= runs_view(runs@).push((text@, style)));
            } else {
                assert(runs_view(runs@) == old_runs);
                assert(text@ =~= old_text.push(ch));
                assert(after =~= runs_view(runs@).push((text@, style)));
            }
        }
    }
    if text.as_str().unicode_len() > 0 {
        let ghost old_runs = runs_view(runs@);
        runs.push((text, style));
        proof {
            assert(runs_view(runs@) =~= old_runs.push((runs@.last().0@, style)));
        }
    }
    assert(all.take(cells@.len() as int) =~= all);
    runs
}

} // verus!
