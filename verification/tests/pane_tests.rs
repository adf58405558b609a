use tpane::pane::{default_color_for_query, extract_selection_text, pack_size, selected_columns, unpack_size, SelectedRow};
use tpane::style::Rgb;

#[test]
fn pack_size_puts_columns_high() {
    assert_eq!(pack_size(80, 24), (80 << 16) | 24);
    assert_eq!(unpack_size(pack_size(80, 24)), (80, 24));
    assert_eq!(unpack_size(pack_size(65535, 0)), (65535, 0));
}

#[test]
fn colour_queries_answer_xterm_defaults() {
    assert_eq!(default_color_for_query(1), Rgb { r: 0xcd, g: 0, b: 0 });
    assert_eq!(default_color_for_query(12), Rgb { r: 0x5c, g: 0x5c, b: 0xff });
    assert_eq!(default_color_for_query(256), Rgb { r: 0xd0, g: 0xd0, b: 0xd0 });
    assert_eq!(default_color_for_query(257), Rgb { r: 0x1e, g: 0x1e, b: 0x1e });
    assert_eq!(default_color_for_query(258), Rgb { r: 0xff, g: 0xff, b: 0xff });
    assert_eq!(default_color_for_query(100), Rgb { r: 0xd0, g: 0xd0, b: 0xd0 });
}

fn row(s: &str, wrapped: bool) -> SelectedRow {
    SelectedRow { chars: s.chars().collect(), wrapped }
}

#[test]
fn selection_text_trims_and_joins_rows() {
    let rows = vec![row("ab  ", false), row("c\0d\t", true), row("ef", false)];
    assert_eq!(extract_selection_text(&rows), "ab\ncdef");
    assert_eq!(extract_selection_text(&Vec::new()), "");
    assert_eq!(extract_selection_text(&vec![row("   ", false)]), "");
}

#[test]
fn selected_columns_per_row() {
    assert_eq!(selected_columns(2, (5, 2), (3, 4), 80), (5, 79));
    assert_eq!(selected_columns(3, (5, 2), (3, 4), 80), (0, 79));
    assert_eq!(selected_columns(4, (5, 2), (3, 4), 80), (0, 3));
    assert_eq!(selected_columns(2, (5, 2), (9, 2), 80), (5, 9));
    assert_eq!(selected_columns(3, (5, 2), (3, 4), 0), (0, 0));
}

#[test]
fn cursor_in_view_follows_scrollback() {
    assert_eq!(tpane::pane::cursor_in_view(3, 5, 0, 24, 80), Some((5, 3)));
    assert_eq!(tpane::pane::cursor_in_view(20, 5, 10, 24, 80), None);
    assert_eq!(tpane::pane::cursor_in_view(-2, 0, 5, 24, 80), Some((0, 3)));
    assert_eq!(tpane::pane::cursor_in_view(-6, 0, 5, 24, 80), None);
    assert_eq!(tpane::pane::cursor_in_view(0, 80, 0, 24, 80), None);
}
