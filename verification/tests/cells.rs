use paneview::cells::{cursor_column, palette, styled_runs, CellStyle, Color, TermCell, TermColor};

fn cell(text: &str, fg: TermColor, bold: bool) -> Option<TermCell> {
    Some(TermCell {
        contents: text.to_string(),
        wide_continuation: false,
        fg,
        bg: TermColor::Default,
        bold,
        dim: false,
        italic: false,
        underline: false,
        inverse: false,
    })
}

fn plain(fg: Color, bold: bool) -> CellStyle {
    CellStyle { fg: Some(fg), bg: Some(Color::Black), bold, dim: false, italic: false, underline: false }
}

#[test]
fn runs_group_cells_of_one_style() {
    let cells = vec![
        cell("a", TermColor::Default, false),
        cell("b", TermColor::Default, false),
        cell("", TermColor::Indexed(1), false),
        cell("c", TermColor::Indexed(1), false),
        None,
    ];
    let runs = styled_runs(&cells, None, true);
    assert_eq!(
        runs,
        vec![
            ("ab".to_string(), plain(Color::LightGreen, false)),
            (" c".to_string(), plain(Color::Red, false)),
            (" ".to_string(), CellStyle { fg: None, bg: None, bold: false, dim: false, italic: false, underline: false }),
        ]
    );
}

#[test]
fn cursor_cell_is_drawn_as_a_block() {
    let cells = vec![cell("x", TermColor::Default, true), cell("y", TermColor::Default, true)];
    let runs = styled_runs(&cells, Some(1), false);
    assert_eq!(runs[0], ("x".to_string(), plain(Color::LightGreen, true)));
    assert_eq!(
        runs[1],
        (
            "y".to_string(),
            CellStyle { fg: Some(Color::Black), bg: Some(Color::DarkGray), bold: true, dim: false, italic: false, underline: false }
        )
    );
}

#[test]
fn inverse_swaps_colours_and_wide_halves_are_blank() {
    let mut c = cell("W", TermColor::Rgb(1, 2, 3), false).unwrap();
    c.inverse = true;
    let mut half = cell("W", TermColor::Rgb(1, 2, 3), false).unwrap();
    half.inverse = true;
    half.wide_continuation = true;
    let runs = styled_runs(&vec![Some(c), Some(half)], None, true);
    assert_eq!(
        runs,
        vec![(
            "W ".to_string(),
            CellStyle { fg: Some(Color::Black), bg: Some(Color::Rgb(1, 2, 3)), bold: false, dim: false, italic: false, underline: false }
        )]
    );
}

#[test]
fn cursor_shows_only_when_visible_and_live() {
    assert_eq!(cursor_column(3, 3, 7, true, 0), Some(7));
    assert_eq!(cursor_column(2, 3, 7, true, 0), None);
    assert_eq!(cursor_column(3, 3, 7, false, 0), None);
    assert_eq!(cursor_column(3, 3, 7, true, 5), None);
}

#[test]
fn palette_names_the_first_sixteen() {
    assert_eq!(palette(0), Color::Black);
    assert_eq!(palette(9), Color::LightRed);
    assert_eq!(palette(15), Color::White);
    assert_eq!(palette(16), Color::Indexed(16));
    assert_eq!(palette(255), Color::Indexed(255));
}

#[test]
fn dim_cells_stay_dim_under_the_cursor() {
    let mut faint = cell("d", TermColor::Default, false).unwrap();
    faint.dim = true;
    let runs = styled_runs(&vec![Some(faint)], Some(0), true);
    assert_eq!(
        runs,
        vec![(
            "d".to_string(),
            CellStyle {
                fg: Some(Color::Black),
                bg: Some(Color::LightGreen),
                bold: false,
                dim: true,
                italic: false,
                underline: false
            }
        )]
    );
}
