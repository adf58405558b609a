use tpane::layout::PaneId;
use tpane::selection::Selection;
use tpane::style::{
    ansi_color_to_ratatui, cell_in_selection, cell_to_span, display_cell, group_spans, has_visible_content,
    hyperlink_annotations, hyperlink_footer, pane_title, ratatui_color_to_ansi_code, selection_range_for,
    spinner_frame, style_to_sgr, CellStyle, Color, HyperlinkCell, NamedColor, Rgb, TermCell, TermColor,
};

fn plain() -> CellStyle {
    CellStyle::plain()
}

#[test]
fn ansi_color_mapping_covers_named_spec_index_and_default_none() {
    assert_eq!(ansi_color_to_ratatui(TermColor::Named(NamedColor::Blue)), Some(Color::Blue));
    assert_eq!(ansi_color_to_ratatui(TermColor::Spec(Rgb { r: 10, g: 20, b: 30 })), Some(Color::Rgb(10, 20, 30)));
    assert_eq!(ansi_color_to_ratatui(TermColor::Indexed(42)), Some(Color::Indexed(42)));
    assert_eq!(ansi_color_to_ratatui(TermColor::Named(NamedColor::Foreground)), None);
}

#[test]
fn bright_colors_map_to_light_palette() {
    assert_eq!(ansi_color_to_ratatui(TermColor::Named(NamedColor::BrightBlack)), Some(Color::DarkGray));
    assert_eq!(ansi_color_to_ratatui(TermColor::Named(NamedColor::BrightWhite)), Some(Color::White));
    assert_eq!(ansi_color_to_ratatui(TermColor::Named(NamedColor::DimRed)), None);
}

#[test]
fn color_codes_for_fg_and_bg() {
    assert_eq!(ratatui_color_to_ansi_code(Color::Red, true).as_deref(), Some("31"));
    assert_eq!(ratatui_color_to_ansi_code(Color::Red, false).as_deref(), Some("41"));
    assert_eq!(ratatui_color_to_ansi_code(Color::LightCyan, false).as_deref(), Some("106"));
    assert_eq!(ratatui_color_to_ansi_code(Color::Indexed(200), true).as_deref(), Some("38;5;200"));
    assert_eq!(ratatui_color_to_ansi_code(Color::Rgb(1, 22, 255), false).as_deref(), Some("48;2;1;22;255"));
    assert_eq!(ratatui_color_to_ansi_code(Color::Reset, true), None);
    assert_eq!(ratatui_color_to_ansi_code(Color::Gray, true), None);
}

#[test]
fn sgr_starts_with_reset_and_lists_attributes() {
    assert_eq!(style_to_sgr(&plain()), "\x1b[0m");
    let st = CellStyle { fg: Some(Color::Green), bg: Some(Color::Black), bold: true, italic: false, underlined: true };
    assert_eq!(style_to_sgr(&st), "\x1b[0;32;40;1;4m");
    let st = CellStyle { fg: Some(Color::Reset), bg: None, bold: false, italic: true, underlined: false };
    assert_eq!(style_to_sgr(&st), "\x1b[0;3m");
}

#[test]
fn empty_cell_shows_space_with_its_colors() {
    let cell = TermCell {
        c: '\0',
        fg: TermColor::Named(NamedColor::Red),
        bg: TermColor::Named(NamedColor::Background),
        bold: true,
        italic: false,
        underline: false,
    };
    let (ch, st) = cell_to_span(&cell);
    assert_eq!(ch, ' ');
    assert_eq!(st, CellStyle { fg: Some(Color::Red), bg: None, bold: true, italic: false, underlined: false });
}

#[test]
fn selection_covers_running_text() {
    let range = ((5, 1), (2, 3));
    assert!(!cell_in_selection(1, 4, range));
    assert!(cell_in_selection(1, 5, range));
    assert!(cell_in_selection(2, 0, range));
    assert!(cell_in_selection(3, 2, range));
    assert!(!cell_in_selection(3, 3, range));
    assert!(cell_in_selection(0, 0, ((0, 0), (0, 0))));
}

#[test]
fn selected_cell_is_inverted_and_cursor_inverts_again() {
    let cell = TermCell {
        c: 'x',
        fg: TermColor::Named(NamedColor::Foreground),
        bg: TermColor::Named(NamedColor::Background),
        bold: false,
        italic: false,
        underline: false,
    };
    let (_, st) = display_cell(&cell, 0, 0, Some(((0, 0), (3, 0))), false);
    assert_eq!(st.fg, Some(Color::Black));
    assert_eq!(st.bg, Some(Color::White));
    let (_, st) = display_cell(&cell, 0, 0, Some(((0, 0), (3, 0))), true);
    assert_eq!(st.fg, Some(Color::White));
    assert_eq!(st.bg, Some(Color::Black));
    let (_, st) = display_cell(&cell, 1, 0, Some(((0, 0), (3, 0))), false);
    assert_eq!(st, plain());
}

#[test]
fn spans_group_runs_of_one_style() {
    let red = CellStyle { fg: Some(Color::Red), ..plain() };
    let cells = vec![('a', plain()), ('b', plain()), ('c', red), ('d', red), ('e', plain())];
    let spans = group_spans(&cells);
    assert_eq!(spans, vec![("ab".to_string(), plain()), ("cd".to_string(), red), ("e".to_string(), plain())]);
    assert!(group_spans(&Vec::new()).is_empty());
    let spans = group_spans(&vec![('z', red)]);
    assert_eq!(spans, vec![("z".to_string(), red)]);
}

#[test]
fn visible_content_means_a_non_space() {
    assert!(!has_visible_content(&vec![(' ', plain()), (' ', plain())]));
    assert!(has_visible_content(&vec![(' ', plain()), ('x', plain())]));
}

fn link(row: u16, col: u16, ch: char, uri: &str) -> HyperlinkCell {
    HyperlinkCell { row, col, ch, style: plain(), uri: uri.to_string(), id: String::new() }
}

#[test]
fn hyperlink_runs_are_coalesced() {
    let cells = vec![link(0, 2, 'h', "u"), link(0, 3, 'i', "u"), link(1, 0, 'x', "v")];
    let out = hyperlink_annotations(&cells, 1, 1);
    assert_eq!(
        out,
        "\x1b[2;4H\x1b]8;;u\x1b\\\x1b[0mhi\x1b]8;;\x1b\\\x1b[3;2H\x1b]8;;v\x1b\\\x1b[0mx\x1b]8;;\x1b\\"
    );
    assert_eq!(hyperlink_annotations(&Vec::new(), 0, 0), "");
}

#[test]
fn hyperlink_footer_restores_cursor() {
    assert_eq!(hyperlink_footer(None), "\x1b[0m");
    assert_eq!(hyperlink_footer(Some(((1, 1), (4, 2)))), "\x1b[0m\x1b[4;6H");
}

#[test]
fn pane_titles() {
    assert_eq!(pane_title("", true), " tpane [active] ");
    assert_eq!(pane_title("", false), " tpane ");
    assert_eq!(pane_title("vim", true), " vim [active] ");
    assert_eq!(pane_title("vim", false), " vim ");
}

#[test]
fn highlight_only_in_own_pane_and_not_for_clicks() {
    let sel = Selection { pane_id: PaneId(1), start: (4, 2), end: (1, 0), display_offset: 0 };
    assert_eq!(selection_range_for(Some(sel), PaneId(1)), Some(((1, 0), (4, 2))));
    assert_eq!(selection_range_for(Some(sel), PaneId(0)), None);
    let click = Selection { end: (4, 2), ..sel };
    assert_eq!(selection_range_for(Some(click), PaneId(1)), None);
    assert_eq!(selection_range_for(None, PaneId(1)), None);
}

#[test]
fn spinner_advances_every_80ms() {
    assert_eq!(spinner_frame(0), '⠋');
    assert_eq!(spinner_frame(79), '⠋');
    assert_eq!(spinner_frame(80), '⠙');
    assert_eq!(spinner_frame(800), '⠋');
}
