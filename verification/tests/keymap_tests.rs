use tpane::commands::Command;
use tpane::keymap::{KeyChord, KeyMap};
use tpane::keys::{KeyCode, KeyEvent, KeyModifiers};

fn ctrl() -> KeyModifiers {
    KeyModifiers::control()
}

fn shift() -> KeyModifiers {
    KeyModifiers::shift()
}

fn alt() -> KeyModifiers {
    KeyModifiers::alt()
}

#[test]
fn parse_ctrl_shift_t() {
    let chord = KeyChord::parse("ctrl+shift+t").unwrap();
    assert!(chord.modifiers.contains(ctrl()));
    assert!(chord.modifiers.contains(shift()));
    assert_eq!(chord.code, KeyCode::Char('t'));
}

#[test]
fn parse_uppercase_input_normalized() {
    let chord = KeyChord::parse("CTRL+SHIFT+T").unwrap();
    assert!(chord.modifiers.contains(ctrl()));
    assert_eq!(chord.code, KeyCode::Char('t'));
}

#[test]
fn parse_alt_modifier() {
    let chord = KeyChord::parse("alt+f4").unwrap();
    assert!(chord.modifiers.contains(alt()));
    assert_eq!(chord.code, KeyCode::F(4));
}

#[test]
fn parse_meta_alias() {
    let chord = KeyChord::parse("meta+x").unwrap();
    assert!(chord.modifiers.contains(alt()));
    assert_eq!(chord.code, KeyCode::Char('x'));
}

#[test]
fn parse_control_alias() {
    let chord = KeyChord::parse("control+c").unwrap();
    assert!(chord.modifiers.contains(ctrl()));
    assert_eq!(chord.code, KeyCode::Char('c'));
}

#[test]
fn parse_function_key() {
    let chord = KeyChord::parse("ctrl+f5").unwrap();
    assert_eq!(chord.code, KeyCode::F(5));
}

#[test]
fn parse_all_function_keys_f1_f12() {
    for n in 1u8..=12 {
        let s = format!("f{}", n);
        let chord = KeyChord::parse(&s).unwrap();
        assert_eq!(chord.code, KeyCode::F(n), "f{n} failed");
    }
}

#[test]
fn parse_special_keys() {
    let cases = [
        ("enter", KeyCode::Enter),
        ("return", KeyCode::Enter),
        ("space", KeyCode::Char(' ')),
        ("tab", KeyCode::Tab),
        ("backspace", KeyCode::Backspace),
        ("bs", KeyCode::Backspace),
        ("delete", KeyCode::Delete),
        ("del", KeyCode::Delete),
        ("escape", KeyCode::Esc),
        ("esc", KeyCode::Esc),
        ("up", KeyCode::Up),
        ("down", KeyCode::Down),
        ("left", KeyCode::Left),
        ("right", KeyCode::Right),
        ("home", KeyCode::Home),
        ("end", KeyCode::End),
        ("pageup", KeyCode::PageUp),
        ("pgup", KeyCode::PageUp),
        ("pagedown", KeyCode::PageDown),
        ("pgdn", KeyCode::PageDown),
        ("pgdown", KeyCode::PageDown),
    ];
    for (input, expected_code) in cases {
        let chord = KeyChord::parse(input).unwrap_or_else(|| panic!("failed to parse '{input}'"));
        assert_eq!(chord.code, expected_code);
    }
}

#[test]
fn parse_unknown_returns_none() {
    assert!(KeyChord::parse("ctrl+shift+blorp").is_none());
    assert!(KeyChord::parse("badmodifier+t").is_none());
}

#[test]
fn parse_empty_string_returns_none() {
    assert!(KeyChord::parse("").is_none());
}

#[test]
fn parse_no_modifier() {
    let chord = KeyChord::parse("enter").unwrap();
    assert!(chord.modifiers.is_empty());
    assert_eq!(chord.code, KeyCode::Enter);
}

#[test]
fn from_event_normalizes_uppercase_char() {
    let event = KeyEvent::new(KeyCode::Char('T'), ctrl().union(shift()));
    let chord = KeyChord::from_event(&event);
    assert_eq!(chord.code, KeyCode::Char('t'));
    assert!(chord.modifiers.contains(ctrl()));
}

#[test]
fn from_event_non_char_unchanged() {
    let event = KeyEvent::new(KeyCode::Enter, ctrl());
    let chord = KeyChord::from_event(&event);
    assert_eq!(chord.code, KeyCode::Enter);
}

#[test]
fn prefix_key_is_ctrl_b_by_default() {
    let km = KeyMap::default();
    let event = KeyEvent::new(KeyCode::Char('b'), ctrl());
    assert!(km.is_prefix(&event));
}

#[test]
fn non_prefix_key_is_not_prefix() {
    let km = KeyMap::default();
    let event = KeyEvent::new(KeyCode::Char('a'), KeyModifiers::empty());
    assert!(!km.is_prefix(&event));
}

#[test]
fn lookup_all_default_prefix_bindings() {
    let km = KeyMap::default();
    let cases: &[(KeyCode, KeyModifiers, Command)] = &[
        (KeyCode::Left, ctrl(), Command::SplitLeft),
        (KeyCode::Right, ctrl(), Command::SplitRight),
        (KeyCode::Up, ctrl(), Command::SplitUp),
        (KeyCode::Down, ctrl(), Command::SplitDown),
        (KeyCode::Left, KeyModifiers::empty(), Command::FocusLeft),
        (KeyCode::Right, KeyModifiers::empty(), Command::FocusRight),
        (KeyCode::Up, KeyModifiers::empty(), Command::FocusUp),
        (KeyCode::Down, KeyModifiers::empty(), Command::FocusDown),
        (KeyCode::Char('w'), KeyModifiers::empty(), Command::ClosePane),
        (KeyCode::Char('q'), KeyModifiers::empty(), Command::Quit),
    ];
    for (code, mods, expected) in cases {
        let event = KeyEvent::new(*code, *mods);
        assert_eq!(km.lookup_prefix(&event), Some(expected), "failed for {code:?}+{mods:?}");
    }
}

#[test]
fn lookup_miss() {
    let km = KeyMap::default();
    let event = KeyEvent::new(KeyCode::Char('z'), KeyModifiers::empty());
    assert!(km.lookup_prefix(&event).is_none());
}

#[test]
fn keymap_custom_bind_overrides_default() {
    let mut km = KeyMap::default();
    let chord = KeyChord::parse("w").unwrap();
    km.bind(chord, Command::Quit);
    let event = KeyEvent::new(KeyCode::Char('w'), KeyModifiers::empty());
    assert_eq!(km.lookup_prefix(&event), Some(&Command::Quit));
}

#[test]
fn default_direct_bindings_include_resize() {
    let km = KeyMap::default();
    let alt_shift = alt().union(shift());
    let cases: &[(KeyCode, Command)] = &[
        (KeyCode::Left, Command::ResizeLeft),
        (KeyCode::Right, Command::ResizeRight),
        (KeyCode::Up, Command::ResizeUp),
        (KeyCode::Down, Command::ResizeDown),
    ];
    for (code, expected) in cases {
        let event = KeyEvent::new(*code, alt_shift);
        assert_eq!(km.lookup_direct(&event), Some(expected), "missing direct binding for {code:?}");
    }
}

#[test]
fn direct_binding_does_not_appear_in_prefix_bindings() {
    let km = KeyMap::default();
    let event = KeyEvent::new(KeyCode::Left, alt().union(shift()));
    assert!(km.lookup_prefix(&event).is_none());
}

#[test]
fn bind_direct_adds_custom_direct_binding() {
    let mut km = KeyMap::new();
    let chord = KeyChord::parse("alt+r").unwrap();
    km.bind_direct(chord, Command::ResizeRight);
    let event = KeyEvent::new(KeyCode::Char('r'), alt());
    assert_eq!(km.lookup_direct(&event), Some(&Command::ResizeRight));
}

#[test]
fn prefix_chords_for_command_returns_all_matches() {
    let mut km = KeyMap::new();
    km.bind(KeyChord::parse("w").unwrap(), Command::ClosePane);
    km.bind(KeyChord::parse("x").unwrap(), Command::ClosePane);
    let mut chords = km.prefix_chords_for_command(Command::ClosePane);
    chords.sort_by_key(|ch| format!("{:?}+{:?}", ch.modifiers, ch.code));
    assert_eq!(chords.len(), 2);
}

#[test]
fn direct_chords_for_command_returns_all_matches() {
    let mut km = KeyMap::new();
    km.bind_direct(KeyChord::parse("alt+h").unwrap(), Command::ResizeLeft);
    km.bind_direct(KeyChord::parse("alt+left").unwrap(), Command::ResizeLeft);
    let mut chords = km.direct_chords_for_command(Command::ResizeLeft);
    chords.sort_by_key(|ch| format!("{:?}+{:?}", ch.modifiers, ch.code));
    assert_eq!(chords.len(), 2);
}

#[test]
fn rebinding_a_chord_keeps_one_binding() {
    let mut km = KeyMap::new();
    let chord = KeyChord::parse("d").unwrap();
    km.bind(chord, Command::FocusNext);
    km.bind(chord, Command::FocusPrev);
    assert_eq!(km.prefix_chords_for_command(Command::FocusNext).len(), 0);
    assert_eq!(km.prefix_chords_for_command(Command::FocusPrev), vec![chord]);
}

#[test]
fn shifted_letter_event_matches_lowercase_binding() {
    let mut km = KeyMap::new();
    km.bind(KeyChord::parse("shift+t").unwrap(), Command::Quit);
    let event = KeyEvent::new(KeyCode::Char('T'), shift());
    assert_eq!(km.lookup(&event), Some(&Command::Quit));
}

#[test]
fn parse_rejects_trailing_plus_and_modifier_only() {
    assert!(KeyChord::parse("ctrl+").is_none());
    assert!(KeyChord::parse("ctrl").is_none());
    assert_eq!(KeyChord::parse("f13").map(|c| c.code), Some(KeyCode::F(13)));
    assert!(KeyChord::parse("f256").is_none());
}
