//! Translation of key and mouse input into the byte sequences a shell
//! expects on its terminal.

use vstd::prelude::*;
use vstd::utf8::encode_scalar;
use crate::keys::{ascii_lower, to_ascii_lower, KeyCode, KeyEvent, KeyEventKind, KeyModifiers};

verus! {

/// The ASCII decimal digits of `n`, most significant first.
pub open spec fn ascii_decimal(n: nat) -> Seq<u8>
    decreases n,
{
    if n < 10 {
        seq![(0x30 + n) as u8]
    } else {
        ascii_decimal(n / 10).push((0x30 + n % 10) as u8)
    }
}

/// Appends the ASCII decimal digits of `n`.
pub fn push_ascii_decimal(v: &mut Vec<u8>, n: u32)
    ensures
        final(v)@ == old(v)@ + ascii_decimal(n as nat),
    decreases n,
{
    if n < 10 {
        v.push(0x30u8 + (n as u8));
        assert(v@ =~= old(v)@ + ascii_decimal(n as nat));
    } else {
        push_ascii_decimal(v, n / 10);
        v.push(0x30u8 + ((n % 10) as u8));
        assert(v@ =~= old(v)@ + ascii_decimal(n as nat));
    }
}

/// xterm modifier parameter: 1 + (shift ? 1) + (alt ? 2) + (control ? 4).
pub open spec fn modifier_param_of(m: KeyModifiers) -> u8 {
    (1 + (if m.shift { 1int } else { 0 }) + (if m.alt { 2int } else { 0 }) + (if m.control { 4int } else { 0 })) as u8
}

/// CSI sequence for `code` with the xterm modifier parameter when it is
/// above one (e.g. `ESC [ 1 ; 2 A` for Shift+Up), plain `ESC [ code` otherwise.
pub open spec fn csi_bytes(code: u8, m: KeyModifiers) -> Seq<u8> {
    let p = modifier_param_of(m);
    if p > 1 {
        seq![0x1bu8, 0x5bu8, 0x31u8, 0x3bu8] + ascii_decimal(p as nat) + seq![code]
    } else {
        seq![0x1bu8, 0x5bu8, code]
    }
}

/// Tilde sequence for key number `n` (e.g. `ESC [ 3 ; 2 ~` for Shift+Delete).
pub open spec fn tilde_bytes(n: u8, m: KeyModifiers) -> Seq<u8> {
    let p = modifier_param_of(m);
    if p > 1 {
        seq![0x1bu8, 0x5bu8, (0x30 + n) as u8, 0x3bu8] + ascii_decimal(p as nat) + seq![0x7eu8]
    } else {
        seq![0x1bu8, 0x5bu8, (0x30 + n) as u8, 0x7eu8]
    }
}

/// The sequence of function key `F(n)`; empty outside F1..F12.
pub open spec fn f_key_seq(n: u8) -> Seq<u8> {
    if n == 1 { seq![0x1bu8, 0x4fu8, 0x50u8] }
    else if n == 2 { seq![0x1bu8, 0x4fu8, 0x51u8] }
    else if n == 3 { seq![0x1bu8, 0x4fu8, 0x52u8] }
    else if n == 4 { seq![0x1bu8, 0x4fu8, 0x53u8] }
    else if n == 5 { seq![0x1bu8, 0x5bu8, 0x31u8, 0x35u8, 0x7eu8] }
    else if n == 6 { seq![0x1bu8, 0x5bu8, 0x31u8, 0x37u8, 0x7eu8] }
    else if n == 7 { seq![0x1bu8, 0x5bu8, 0x31u8, 0x38u8, 0x7eu8] }
    else if n == 8 { seq![0x1bu8, 0x5bu8, 0x31u8, 0x39u8, 0x7eu8] }
    else if n == 9 { seq![0x1bu8, 0x5bu8, 0x32u8, 0x30u8, 0x7eu8] }
    else if n == 10 { seq![0x1bu8, 0x5bu8, 0x32u8, 0x31u8, 0x7eu8] }
    else if n == 11 { seq![0x1bu8, 0x5bu8, 0x32u8, 0x33u8, 0x7eu8] }
    else if n == 12 { seq![0x1bu8, 0x5bu8, 0x32u8, 0x34u8, 0x7eu8] }
    else { Seq::empty() }
}

/// The xterm number of function key `F(n)` for n in 5..=12: counting on
/// from 15, skipping 16 and 22.
pub open spec fn xterm_f_number(n: u8) -> nat {
    if n == 5 { 15 } else if n <= 10 { (n + 11) as nat } else { (n + 12) as nat }
}

/// Function keys send xterm's sequences: F1..F4 send `ESC O` and then
/// `P`, `Q`, `R`, `S` in turn; F5..F12 send `ESC [`, the two decimal
/// digits of their xterm number and `~`. So two different function keys
/// never send the same bytes, and other numbers send nothing.
pub proof fn law_f_keys(n: u8, m: u8)
    ensures
        1 <= n <= 4 ==> f_key_seq(n) == seq![0x1bu8, 0x4fu8, (0x4f + n) as u8],
        5 <= n <= 12 ==> f_key_seq(n) == seq![0x1bu8, 0x5bu8,
            (0x30 + xterm_f_number(n) / 10) as u8, (0x30 + xterm_f_number(n) % 10) as u8, 0x7eu8],
        1 <= n <= 12 && 1 <= m <= 12 && n != m ==> f_key_seq(n) != f_key_seq(m),
        n == 0 || n > 12 ==> f_key_seq(n).len() == 0,
{
    if 1 <= n <= 12 && 1 <= m <= 12 && n != m {
        if n <= 4 && m <= 4 {
            assert(f_key_seq(n)[2] != f_key_seq(m)[2]);
        } else if n <= 4 || m <= 4 {
            assert(f_key_seq(n).len() != f_key_seq(m).len());
        } else {
            assert(xterm_f_number(n) != xterm_f_number(m));
            assert(f_key_seq(n)[2] != f_key_seq(m)[2] || f_key_seq(n)[3] != f_key_seq(m)[3]);
        }
    }
}

/// The bytes a key press sends to the shell; `None` for releases, repeats
/// and keys without an encoding. Control with a character whose ASCII
/// lowercase, taken modulo 256, is a letter sends that letter's control
/// byte (Ctrl+A = 1; so does Ctrl+U+0161, whose low byte is `a`); Control
/// with any other character sends nothing.
pub open spec fn key_bytes(event: KeyEvent) -> Option<Seq<u8>> {
    if event.kind != KeyEventKind::Press {
        None
    } else {
        let m = event.modifiers;
        match event.code {
            KeyCode::Char(c) => if m.control {
                let b = (ascii_lower(c) as u32) % 256;
                if 0x61 <= b <= 0x7a { Some(seq![(b - 0x60) as u8]) } else { None }
            } else {
                Some(encode_scalar(c as u32))
            },
            KeyCode::Enter => Some(seq![0x0du8]),
            KeyCode::Backspace => Some(seq![0x7fu8]),
            KeyCode::Tab => if m.shift { Some(seq![0x1bu8, 0x5bu8, 0x5au8]) } else { Some(seq![0x09u8]) },
            KeyCode::BackTab => Some(seq![0x1bu8, 0x5bu8, 0x5au8]),
            KeyCode::Esc => Some(seq![0x1bu8]),
            KeyCode::Up => Some(csi_bytes(0x41, m)),
            KeyCode::Down => Some(csi_bytes(0x42, m)),
            KeyCode::Right => Some(csi_bytes(0x43, m)),
            KeyCode::Left => Some(csi_bytes(0x44, m)),
            KeyCode::Home => Some(csi_bytes(0x48, m)),
            KeyCode::End => Some(csi_bytes(0x46, m)),
            KeyCode::Insert => Some(seq![0x1bu8, 0x5bu8, 0x32u8, 0x7eu8]),
            KeyCode::Delete => Some(tilde_bytes(3, m)),
            KeyCode::PageUp => Some(tilde_bytes(5, m)),
            KeyCode::PageDown => Some(tilde_bytes(6, m)),
            KeyCode::F(n) => if f_key_seq(n).len() == 0 { None } else { Some(f_key_seq(n)) },
            _ => None,
        }
    }
}

/// UTF-8 encoding of one character: one to four bytes by the size of its
/// scalar value.
fn utf8_bytes(c: char) -> (r: Vec<u8>)
    ensures
        r@ == encode_scalar(c as u32),
{
    let v: u32 = c as u32;
    if v <= 0x7F {
        vec![(v & 0x7F) as u8]
    } else if v <= 0x7FF {
        vec![0xC0 | ((v >> 6) & 0x1F) as u8, 0x80 | (v & 0x3F) as u8]
    } else if v <= 0xFFFF {
        vec![0xE0 | ((v >> 12) & 0x0F) as u8, 0x80 | ((v >> 6) & 0x3F) as u8, 0x80 | (v & 0x3F) as u8]
    } else {
        vec![
            0xF0 | ((v >> 18) & 0x7) as u8,
            0x80 | ((v >> 12) & 0x3F) as u8,
            0x80 | ((v >> 6) & 0x3F) as u8,
            0x80 | (v & 0x3F) as u8,
        ]
    }
}

/// xterm modifier parameter of a modifier set.
pub fn modifier_param(mods: KeyModifiers) -> (r: u8)
    ensures
        r == modifier_param_of(mods),
        1 <= r <= 8,
{
    let mut m: u8 = 1;
    if mods.shift {
        m = m + 1;
    }
    if mods.alt {
        m = m + 2;
    }
    if mods.control {
        m = m + 4;
    }
    m
}

/// CSI sequence with the modifier parameter.
pub fn csi_with_modifier(code: u8, mods: KeyModifiers) -> (r: Vec<u8>)
    ensures
        r@ == csi_bytes(code, mods),
{
    let m = modifier_param(mods);
    if m > 1 {
        let mut v: Vec<u8> = Vec::new();
        v.push(0x1b);
        v.push(0x5b);
        v.push(0x31);
        v.push(0x3b);
        push_ascii_decimal(&mut v, m as u32);
        v.push(code);
        assert(v@ =~= csi_bytes(code, mods));
        v
    } else {
        let mut v: Vec<u8> = Vec::new();
        v.push(0x1b);
        v.push(0x5b);
        v.push(code);
        assert(v@ =~= csi_bytes(code, mods));
        v
    }
}

/// Tilde sequence with the modifier parameter.
pub fn tilde_with_modifier(n: u8, mods: KeyModifiers) -> (r: Vec<u8>)
    requires
        n <= 9,
    ensures
        r@ == tilde_bytes(n, mods),
{
    let m = modifier_param(mods);
    let mut v: Vec<u8> = Vec::new();
    v.push(0x1b);
    v.push(0x5b);
    v.push(0x30 + n);
    if m > 1 {
        v.push(0x3b);
        push_ascii_decimal(&mut v, m as u32);
        v.push(0x7e);
    } else {
        v.push(0x7e);
    }
    assert(v@ =~= tilde_bytes(n, mods));
    v
}

/// The sequence of function key `F(n)`; empty outside F1..F12.
pub fn f_key_bytes(n: u8) -> (r: Vec<u8>)
    ensures
        r@ == f_key_seq(n),
{
    let mut v: Vec<u8> = Vec::new();
    if n >= 1 && n <= 4 {
        v.push(0x1b);
        v.push(0x4f);
        v.push(0x4f + n);
    } else if n >= 5 && n <= 12 {
        v.push(0x1b);
        v.push(0x5b);
        let (a, b): (u8, u8) = if n == 5 { (0x31, 0x35) }
            else if n == 6 { (0x31, 0x37) }
            else if n == 7 { (0x31, 0x38) }
            else if n == 8 { (0x31, 0x39) }
            else if n == 9 { (0x32, 0x30) }
            else if n == 10 { (0x32, 0x31) }
            else if n == 11 { (0x32, 0x33) }
            else { (0x32, 0x34) };
        v.push(a);
        v.push(b);
        v.push(0x7e);
    }
    assert(v@ =~= f_key_seq(n));
    v
}

/// Translates a key event into the bytes for the shell.
pub fn key_event_to_bytes(event: &KeyEvent) -> (r: Option<Vec<u8>>)
    ensures
        match r {
            Some(v) => key_bytes(*event) == Some(v@),
            None => key_bytes(*event) is None,
        },
{
    if event.kind != KeyEventKind::Press {
        return None;
    }
    let mods = event.modifiers;
    let bytes = match event.code {
        KeyCode::Char(c) => {
            if mods.control {
                let lc = to_ascii_lower(c);
                let b: u32 = (lc as u32) % 256;
                if b >= 0x61 && b <= 0x7a {
                    let mut v: Vec<u8> = Vec::new();
                    v.push((b - 0x60) as u8);
                    assert(v@ =~= seq![(b - 0x60) as u8]);
                    v
                } else {
                    return None;
                }
            } else {
                utf8_bytes(c)
            }
        },
        KeyCode::Enter => { let mut v = Vec::new(); v.push(0x0du8); assert(v@ =~= seq![0x0du8]); v },
        KeyCode::Backspace => { let mut v = Vec::new(); v.push(0x7fu8); assert(v@ =~= seq![0x7fu8]); v },
        KeyCode::Tab => {
            let mut v = Vec::new();
            if mods.shift {
                v.push(0x1bu8); v.push(0x5bu8); v.push(0x5au8);
                assert(v@ =~= seq![0x1bu8, 0x5bu8, 0x5au8]);
            } else {
                v.push(0x09u8);
                assert(v@ =~= seq![0x09u8]);
            }
            v
        },
        KeyCode::BackTab => {
            let mut v = Vec::new();
            v.push(0x1bu8); v.push(0x5bu8); v.push(0x5au8);
            assert(v@ =~= seq![0x1bu8, 0x5bu8, 0x5au8]);
            v
        },
        KeyCode::Esc => { let mut v = Vec::new(); v.push(0x1bu8); assert(v@ =~= seq![0x1bu8]); v },
        KeyCode::Up => csi_with_modifier(0x41, mods),
        KeyCode::Down => csi_with_modifier(0x42, mods),
        KeyCode::Right => csi_with_modifier(0x43, mods),
        KeyCode::Left => csi_with_modifier(0x44, mods),
        KeyCode::Home => csi_with_modifier(0x48, mods),
        KeyCode::End => csi_with_modifier(0x46, mods),
        KeyCode::Insert => {
            let mut v = Vec::new();
            v.push(0x1bu8); v.push(0x5bu8); v.push(0x32u8); v.push(0x7eu8);
            assert(v@ =~= seq![0x1bu8, 0x5bu8, 0x32u8, 0x7eu8]);
            v
        },
        KeyCode::Delete => tilde_with_modifier(3, mods),
        KeyCode::PageUp => tilde_with_modifier(5, mods),
        KeyCode::PageDown => tilde_with_modifier(6, mods),
        KeyCode::F(n) => {
            let bytes = f_key_bytes(n);
            if bytes.len() == 0 {
                return None;
            }
            bytes
        },
        _ => {
            return None;
        },
    };
    Some(bytes)
}

/// Mouse scroll report: in SGR encoding `ESC [ < button ; col+1 ; row+1 M`;
/// otherwise the X10 encoding `ESC [ M` with each value offset by 32
/// (columns and rows by 33), or nothing when a coordinate is above 222.
/// Button 64 scrolls up, 65 down; `col` and `row` are zero-based.
pub open spec fn mouse_scroll_bytes(col: u16, row: u16, up: bool, sgr: bool) -> Seq<u8> {
    let button: nat = if up { 64 } else { 65 };
    if sgr {
        seq![0x1bu8, 0x5bu8, 0x3cu8] + ascii_decimal(button) + seq![0x3bu8] + ascii_decimal((col + 1) as nat)
            + seq![0x3bu8] + ascii_decimal((row + 1) as nat) + seq![0x4du8]
    } else if col > 222 || row > 222 {
        Seq::empty()
    } else {
        seq![0x1bu8, 0x5bu8, 0x4du8, (button + 32) as u8, (col + 33) as u8, (row + 33) as u8]
    }
}

/// Encodes a mouse scroll event for the shell.
pub fn encode_mouse_scroll(col: u16, row: u16, up: bool, sgr: bool) -> (r: Vec<u8>)
    requires
        sgr ==> col < u16::MAX && row < u16::MAX,
    ensures
        r@ == mouse_scroll_bytes(col, row, up, sgr),
{
    let button: u32 = if up { 64 } else { 65 };
    let mut v: Vec<u8> = Vec::new();
    if sgr {
        v.push(0x1b);
        v.push(0x5b);
        v.push(0x3c);
        push_ascii_decimal(&mut v, button);
        v.push(0x3b);
        push_ascii_decimal(&mut v, col as u32 + 1);
        v.push(0x3b);
        push_ascii_decimal(&mut v, row as u32 + 1);
        v.push(0x4d);
    } else {
        if col > 222 || row > 222 {
            assert(v@ =~= mouse_scroll_bytes(col, row, up, sgr));
            return v;
        }
        v.push(0x1b);
        v.push(0x5b);
        v.push(0x4d);
        v.push((button + 32) as u8);
        v.push((col + 33) as u8);
        v.push((row + 33) as u8);
    }
    assert(v@ =~= mouse_scroll_bytes(col, row, up, sgr));
    v
}

} // verus!
