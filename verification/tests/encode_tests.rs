use tpane::encode::{
    csi_with_modifier, encode_mouse_scroll, f_key_bytes, key_event_to_bytes, modifier_param, tilde_with_modifier,
};
use tpane::keys::{KeyCode, KeyEvent, KeyEventKind, KeyModifiers};

fn press(code: KeyCode, mods: KeyModifiers) -> KeyEvent {
    KeyEvent { code, modifiers: mods, kind: KeyEventKind::Press }
}

fn release(code: KeyCode) -> KeyEvent {
    KeyEvent { code, modifiers: KeyModifiers::empty(), kind: KeyEventKind::Release }
}

fn repeat(code: KeyCode) -> KeyEvent {
    KeyEvent { code, modifiers: KeyModifiers::empty(), kind: KeyEventKind::Repeat }
}

fn shift() -> KeyModifiers {
    KeyModifiers::shift()
}

fn ctrl() -> KeyModifiers {
    KeyModifiers::control()
}

fn alt() -> KeyModifiers {
    KeyModifiers::alt()
}

#[test]
fn key_release_returns_none() {
    assert!(key_event_to_bytes(&release(KeyCode::Char('a'))).is_none());
}

#[test]
fn key_repeat_returns_none() {
    assert!(key_event_to_bytes(&repeat(KeyCode::Char('a'))).is_none());
}

#[test]
fn ascii_char_roundtrip() {
    let event = press(KeyCode::Char('a'), KeyModifiers::empty());
    assert_eq!(key_event_to_bytes(&event), Some(vec![b'a']));
}

#[test]
fn unicode_char_encoded_as_utf8() {
    let event = press(KeyCode::Char('é'), KeyModifiers::empty());
    let bytes = key_event_to_bytes(&event).unwrap();
    assert_eq!(bytes, vec![0xC3, 0xA9]);
}

#[test]
fn ctrl_alpha_sends_control_byte() {
    for (ch, expected) in [('a', 1u8), ('c', 3), ('z', 26)] {
        let event = press(KeyCode::Char(ch), ctrl());
        assert_eq!(key_event_to_bytes(&event), Some(vec![expected]), "ctrl+{ch}");
    }
}

#[test]
fn ctrl_non_alpha_returns_none() {
    let event = press(KeyCode::Char('1'), ctrl());
    assert!(key_event_to_bytes(&event).is_none());
}

#[test]
fn special_keys() {
    let cases = [
        (KeyCode::Enter, vec![b'\r']),
        (KeyCode::Backspace, vec![0x7f]),
        (KeyCode::Tab, vec![b'\t']),
        (KeyCode::Esc, vec![0x1b]),
        (KeyCode::Up, vec![0x1b, b'[', b'A']),
        (KeyCode::Down, vec![0x1b, b'[', b'B']),
        (KeyCode::Right, vec![0x1b, b'[', b'C']),
        (KeyCode::Left, vec![0x1b, b'[', b'D']),
        (KeyCode::Home, vec![0x1b, b'[', b'H']),
        (KeyCode::End, vec![0x1b, b'[', b'F']),
        (KeyCode::Delete, vec![0x1b, b'[', b'3', b'~']),
        (KeyCode::PageUp, vec![0x1b, b'[', b'5', b'~']),
        (KeyCode::PageDown, vec![0x1b, b'[', b'6', b'~']),
    ];
    for (code, expected) in cases {
        let event = press(code, KeyModifiers::empty());
        assert_eq!(key_event_to_bytes(&event), Some(expected), "{code:?}");
    }
}

#[test]
fn function_keys_f1_f12_produce_bytes() {
    for n in 1u8..=12 {
        let event = press(KeyCode::F(n), KeyModifiers::empty());
        let result = key_event_to_bytes(&event);
        assert!(result.is_some(), "F{n} returned None");
        assert!(!result.unwrap().is_empty(), "F{n} returned empty bytes");
    }
}

#[test]
fn function_keys_f13_plus_return_none() {
    for n in [13u8, 20, 99] {
        let event = press(KeyCode::F(n), KeyModifiers::empty());
        assert!(key_event_to_bytes(&event).is_none(), "F{n} should return None");
    }
}

#[test]
fn insert_key_returns_bytes() {
    let event = press(KeyCode::Insert, KeyModifiers::empty());
    assert_eq!(key_event_to_bytes(&event), Some(vec![0x1b, b'[', b'2', b'~']));
}

#[test]
fn f_key_bytes_boundaries() {
    assert!(!f_key_bytes(1).is_empty());
    assert!(!f_key_bytes(12).is_empty());
    assert!(f_key_bytes(0).is_empty());
    assert!(f_key_bytes(13).is_empty());
}

#[test]
fn backtab_returns_csi_z() {
    let event = press(KeyCode::BackTab, shift());
    assert_eq!(key_event_to_bytes(&event), Some(vec![0x1b, b'[', b'Z']));
}

#[test]
fn shift_tab_returns_csi_z() {
    let event = press(KeyCode::Tab, shift());
    assert_eq!(key_event_to_bytes(&event), Some(vec![0x1b, b'[', b'Z']));
}

#[test]
fn shift_up_returns_modified_csi() {
    let event = press(KeyCode::Up, shift());
    assert_eq!(key_event_to_bytes(&event), Some(vec![0x1b, b'[', b'1', b';', b'2', b'A']));
}

#[test]
fn ctrl_right_returns_modified_csi() {
    let event = press(KeyCode::Right, ctrl());
    assert_eq!(key_event_to_bytes(&event), Some(vec![0x1b, b'[', b'1', b';', b'5', b'C']));
}

#[test]
fn plain_arrow_no_modifier() {
    let event = press(KeyCode::Left, KeyModifiers::empty());
    assert_eq!(key_event_to_bytes(&event), Some(vec![0x1b, b'[', b'D']));
}

#[test]
fn modifier_param_combines_shift_alt_ctrl() {
    assert_eq!(modifier_param(KeyModifiers::empty()), 1);
    assert_eq!(modifier_param(shift()), 2);
    assert_eq!(modifier_param(alt().union(ctrl())), 7);
    assert_eq!(modifier_param(shift().union(alt()).union(ctrl())), 8);
}

#[test]
fn csi_and_tilde_helpers_encode_modifiers() {
    assert_eq!(csi_with_modifier(b'A', KeyModifiers::empty()), vec![0x1b, b'[', b'A']);
    assert_eq!(csi_with_modifier(b'D', alt().union(ctrl())), vec![0x1b, b'[', b'1', b';', b'7', b'D']);
    assert_eq!(tilde_with_modifier(3, KeyModifiers::empty()), vec![0x1b, b'[', b'3', b'~']);
    assert_eq!(tilde_with_modifier(6, shift()), vec![0x1b, b'[', b'6', b';', b'2', b'~']);
}

#[test]
fn encode_mouse_scroll_sgr_up() {
    let bytes = encode_mouse_scroll(3, 5, true, true);
    assert_eq!(bytes, b"\x1b[<64;4;6M");
}

#[test]
fn encode_mouse_scroll_sgr_down() {
    let bytes = encode_mouse_scroll(0, 0, false, true);
    assert_eq!(bytes, b"\x1b[<65;1;1M");
}

#[test]
fn encode_mouse_scroll_x10_up_in_range() {
    let bytes = encode_mouse_scroll(0, 0, true, false);
    assert_eq!(bytes, vec![0x1b, b'[', b'M', 64 + 32, 33, 33]);
}

#[test]
fn encode_mouse_scroll_x10_out_of_range_returns_empty() {
    let bytes = encode_mouse_scroll(223, 0, true, false);
    assert!(bytes.is_empty(), "coords > 222 must return empty in X10 mode");
}

#[test]
fn mouse_scroll_sgr_uses_multi_digit_coordinates() {
    assert_eq!(encode_mouse_scroll(122, 9, false, true), b"\x1b[<65;123;10M".to_vec());
}

#[test]
fn mouse_scroll_x10_at_limit() {
    assert_eq!(encode_mouse_scroll(222, 222, false, false), vec![0x1b, b'[', b'M', 65 + 32, 255, 255]);
}

#[test]
fn f_key_sequences_match_xterm() {
    assert_eq!(f_key_bytes(1), b"\x1bOP".to_vec());
    assert_eq!(f_key_bytes(4), b"\x1bOS".to_vec());
    assert_eq!(f_key_bytes(5), b"\x1b[15~".to_vec());
    assert_eq!(f_key_bytes(12), b"\x1b[24~".to_vec());
}

#[test]
fn alt_and_ctrl_home_use_modifier_parameter() {
    let event = press(KeyCode::Home, alt().union(ctrl()));
    assert_eq!(key_event_to_bytes(&event), Some(b"\x1b[1;7H".to_vec()));
    let event = press(KeyCode::PageDown, ctrl());
    assert_eq!(key_event_to_bytes(&event), Some(b"\x1b[6;5~".to_vec()));
}

#[test]
fn characters_of_every_utf8_width_encode_as_std_does() {
    for c in ['a', 'é', '€', '😀', '\u{80}', '\u{7ff}', '\u{800}', '\u{ffff}', '\u{10000}', '\u{10ffff}'] {
        let event = press(KeyCode::Char(c), KeyModifiers::empty());
        let mut buf = [0u8; 4];
        assert_eq!(key_event_to_bytes(&event).unwrap(), c.encode_utf8(&mut buf).as_bytes().to_vec());
    }
}
