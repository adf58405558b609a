use tpane::cheatsheet::{
    cheatsheet_bar_height, cheatsheet_bindings, cheatsheet_entry_width_chars, compute_cheatsheet_grid_layout,
    display_key_for, key_chord_to_display,
};
use tpane::commands::Command;
use tpane::keymap::{KeyChord, KeyMap};

#[test]
fn cheatsheet_includes_default_resize_hotkeys() {
    let km = KeyMap::default();
    let entries = cheatsheet_bindings(&km);
    assert!(entries.iter().any(|(k, d)| k == "Alt+Shift+←" && *d == "Resize Left"));
    assert!(entries.iter().any(|(k, d)| k == "Alt+Shift+→" && *d == "Resize Right"));
    assert!(entries.iter().any(|(k, d)| k == "Alt+Shift+↑" && *d == "Resize Up"));
    assert!(entries.iter().any(|(k, d)| k == "Alt+Shift+↓" && *d == "Resize Down"));
}

#[test]
fn cheatsheet_uses_configured_hotkeys() {
    let mut km = KeyMap::new();
    km.bind(KeyChord::parse("x").unwrap(), Command::ClosePane);
    km.bind_direct(KeyChord::parse("alt+h").unwrap(), Command::ResizeLeft);
    let entries = cheatsheet_bindings(&km);
    assert!(entries.iter().any(|(k, d)| k == "x" && *d == "Close Pane"));
    assert!(entries.iter().any(|(k, d)| k == "Alt+h" && *d == "Resize Left"));
}

#[test]
fn cheatsheet_grid_uses_multiple_columns_when_wide() {
    let entries = vec![
        ("A".to_string(), "One"),
        ("B".to_string(), "Two"),
        ("C".to_string(), "Three"),
        ("D".to_string(), "Four"),
    ];
    let layout = compute_cheatsheet_grid_layout(&entries, 80);
    assert!(layout.cols > 1);
    assert_eq!(layout.rows, entries.len().div_ceil(layout.cols));
}

#[test]
fn cheatsheet_grid_falls_back_to_single_column_when_narrow() {
    let entries = vec![
        ("Ctrl+Shift+Left".to_string(), "Resize Left"),
        ("Ctrl+Shift+Right".to_string(), "Resize Right"),
    ];
    let layout = compute_cheatsheet_grid_layout(&entries, 20);
    assert_eq!(layout.cols, 1);
    assert_eq!(layout.rows, entries.len());
}

#[test]
fn cheatsheet_grid_for_empty_entries_returns_single_empty_row() {
    let entries: Vec<(String, &'static str)> = Vec::new();
    let layout = compute_cheatsheet_grid_layout(&entries, 10);
    assert_eq!(layout.cols, 1);
    assert_eq!(layout.rows, 1);
    assert_eq!(layout.col_widths, vec![0]);
}

#[test]
fn key_chord_display_formats_special_keys_and_picks_sorted_first() {
    let left = KeyChord::parse("ctrl+left").unwrap();
    let f5 = KeyChord::parse("f5").unwrap();
    let space = KeyChord::parse("space").unwrap();

    assert_eq!(key_chord_to_display(&left), "Ctrl+←");
    assert_eq!(key_chord_to_display(&f5), "F5");
    assert_eq!(key_chord_to_display(&space), "Space");

    let first = display_key_for(vec![KeyChord::parse("z").unwrap(), KeyChord::parse("a").unwrap()]);
    assert_eq!(first.as_deref(), Some("a"));
}

#[test]
fn default_cheatsheet_lists_all_entries_in_order() {
    let entries = cheatsheet_bindings(&KeyMap::default());
    let descs: Vec<&str> = entries.iter().map(|(_, d)| *d).collect();
    assert_eq!(
        descs,
        vec![
            "Split Left", "Split Right", "Split Up", "Split Down", "Focus Left", "Focus Right", "Focus Up",
            "Focus Down", "Close Pane", "Quit", "Resize Left", "Resize Right", "Resize Up", "Resize Down", "Copy",
            "Paste", "Copy",
        ]
    );
    assert_eq!(entries[0].0, "Ctrl+←");
    assert_eq!(entries[8].0, "w");
    assert_eq!(entries[14].0, "Ctrl+Shift+C");
}

#[test]
fn unbound_commands_are_left_out_of_the_cheatsheet() {
    let entries = cheatsheet_bindings(&KeyMap::new());
    assert_eq!(entries.len(), 3);
}

#[test]
fn entry_width_counts_characters_not_bytes() {
    assert_eq!(cheatsheet_entry_width_chars(("Ctrl+←", "Split Left")), 6 + 1 + 10);
}

#[test]
fn bar_height_is_rows_plus_border() {
    let km = KeyMap::default();
    let wide = cheatsheet_bar_height(200, &km);
    let narrow = cheatsheet_bar_height(10, &km);
    assert_eq!(narrow, 17 + 2);
    assert!(wide < narrow);
}
