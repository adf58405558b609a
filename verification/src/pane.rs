//! Pane-side rules: the packed pane size shared with the terminal
//! emulator, the colours answered to colour queries, and the text of a
//! selection read from the grid.

use vstd::prelude::*;
use crate::style::Rgb;
use crate::text::push_char;

verus! {

// ── packed size ────────────────────────────────────────────────────────────

/// `(cols, rows)` packed into one word: columns in the high half, rows in
/// the low half.
pub open spec fn packed(cols: u16, rows: u16) -> u32 {
    ((cols as u32) * 0x10000 + rows as u32) as u32
}

/// Packs a pane size into one word.
pub fn pack_size(cols: u16, rows: u16) -> (r: u32)
    ensures
        r == packed(cols, rows),
{
    let r = ((cols as u32) << 16u32) | (rows as u32);
    assert(((cols as u32) << 16u32) | (rows as u32) == (cols as u32) * 0x10000 + rows as u32) by (bit_vector);
    r
}

/// Reads `(cols, rows)` back from a packed size.
pub fn unpack_size(p: u32) -> (r: (u16, u16))
    ensures
        r == ((p / 0x10000) as u16, (p % 0x10000) as u16),
{
    let cols = (p >> 16u32) as u16;
    let rows = (p & 0xffffu32) as u16;
    assert((p >> 16u32) as u16 == (p / 0x10000) as u16) by (bit_vector);
    assert((p & 0xffffu32) as u16 == (p % 0x10000) as u16) by (bit_vector);
    (cols, rows)
}

/// Reading a packed size gives back the size that was packed.
pub proof fn law_pack_round_trip(cols: u16, rows: u16)
    ensures
        ((packed(cols, rows) / 0x10000) as u16, (packed(cols, rows) % 0x10000) as u16) == (cols, rows),
{
    assert(((cols as u32) * 0x10000 + rows as u32) / 0x10000 == cols as u32) by (nonlinear_arith);
    assert(((cols as u32) * 0x10000 + rows as u32) % 0x10000 == rows as u32) by (nonlinear_arith);
}

// ── colour queries ─────────────────────────────────────────────────────────

/// The colour reported for palette entry `index`: xterm's defaults for the
/// sixteen ANSI colours, light grey text on a near-black background, a
/// white cursor and bright foreground, and light grey for anything else.
pub open spec fn query_color(index: usize) -> Rgb {
    let c = |r: u8, g: u8, b: u8| Rgb { r, g, b };
    if index == 0 { c(0x00, 0x00, 0x00) }
    else if index == 1 { c(0xcd, 0x00, 0x00) }
    else if index == 2 { c(0x00, 0xcd, 0x00) }
    else if index == 3 { c(0xcd, 0xcd, 0x00) }
    else if index == 4 { c(0x00, 0x00, 0xee) }
    else if index == 5 { c(0xcd, 0x00, 0xcd) }
    else if index == 6 { c(0x00, 0xcd, 0xcd) }
    else if index == 7 { c(0xe5, 0xe5, 0xe5) }
    else if index == 8 { c(0x7f, 0x7f, 0x7f) }
    else if index == 9 { c(0xff, 0x00, 0x00) }
    else if index == 10 { c(0x00, 0xff, 0x00) }
    else if index == 11 { c(0xff, 0xff, 0x00) }
    else if index == 12 { c(0x5c, 0x5c, 0xff) }
    else if index == 13 { c(0xff, 0x00, 0xff) }
    else if index == 14 { c(0x00, 0xff, 0xff) }
    else if index == 15 { c(0xff, 0xff, 0xff) }
    else if index == 256 { c(0xd0, 0xd0, 0xd0) }
    else if index == 257 { c(0x1e, 0x1e, 0x1e) }
    else if index == 258 { c(0xff, 0xff, 0xff) }
    else if index == 267 { c(0xff, 0xff, 0xff) }
    else if index == 268 { c(0x1e, 0x1e, 0x1e) }
    else { c(0xd0, 0xd0, 0xd0) }
}

fn rgb(r: u8, g: u8, b: u8) -> (c: Rgb)
    ensures
        c == (Rgb { r, g, b }),
{
    Rgb { r, g, b }
}

/// The colour answered to a colour query for palette entry `index`.
pub fn default_color_for_query(index: usize) -> (r: Rgb)
    ensures
        r == query_color(index),
{
    if index == 0 { rgb(0x00, 0x00, 0x00) }
    else if index == 1 { rgb(0xcd, 0x00, 0x00) }
    else if index == 2 { rgb(0x00, 0xcd, 0x00) }
    else if index == 3 { rgb(0xcd, 0xcd, 0x00) }
    else if index == 4 { rgb(0x00, 0x00, 0xee) }
    else if index == 5 { rgb(0xcd, 0x00, 0xcd) }
    else if index == 6 { rgb(0x00, 0xcd, 0xcd) }
    else if index == 7 { rgb(0xe5, 0xe5, 0xe5) }
    else if index == 8 { rgb(0x7f, 0x7f, 0x7f) }
    else if index == 9 { rgb(0xff, 0x00, 0x00) }
    else if index == 10 { rgb(0x00, 0xff, 0x00) }
    else if index == 11 { rgb(0xff, 0xff, 0x00) }
    else if index == 12 { rgb(0x5c, 0x5c, 0xff) }
    else if index == 13 { rgb(0xff, 0x00, 0xff) }
    else if index == 14 { rgb(0x00, 0xff, 0xff) }
    else if index == 15 { rgb(0xff, 0xff, 0xff) }
    else if index == 256 { rgb(0xd0, 0xd0, 0xd0) }
    else if index == 257 { rgb(0x1e, 0x1e, 0x1e) }
    else if index == 258 { rgb(0xff, 0xff, 0xff) }
    else if index == 267 { rgb(0xff, 0xff, 0xff) }
    else if index == 268 { rgb(0x1e, 0x1e, 0x1e) }
    else { rgb(0xd0, 0xd0, 0xd0) }
}

// ── selection text ─────────────────────────────────────────────────────────

/// Unicode white space (the `White_Space` property).
pub open spec fn is_white_space(c: char) -> bool {
    ('\u{9}' <= c <= '\u{d}') || c == ' ' || c == '\u{85}' || c == '\u{a0}' || c == '\u{1680}'
        || ('\u{2000}' <= c <= '\u{200a}') || c == '\u{2028}' || c == '\u{2029}' || c == '\u{202f}'
        || c == '\u{205f}' || c == '\u{3000}'
}

fn white_space(c: char) -> (r: bool)
    ensures
        r == is_white_space(c),
{
    ('\u{9}' <= c && c <= '\u{d}') || c == ' ' || c == '\u{85}' || c == '\u{a0}' || c == '\u{1680}'
        || ('\u{2000}' <= c && c <= '\u{200a}') || c == '\u{2028}' || c == '\u{2029}' || c == '\u{202f}'
        || c == '\u{205f}' || c == '\u{3000}'
}

/// `s` without its NUL characters (spacer cells of wide characters).
pub open spec fn drop_nuls(s: Seq<char>) -> Seq<char>
    decreases s.len(),
{
    if s.len() == 0 {
        s
    } else if s.last() == '\0' {
        drop_nuls(s.drop_last())
    } else {
        drop_nuls(s.drop_last()).push(s.last())
    }
}

/// `s` without trailing white space.
pub open spec fn trim_end(s: Seq<char>) -> Seq<char>
    decreases s.len(),
{
    if s.len() > 0 && is_white_space(s.last()) { trim_end(s.drop_last()) } else { s }
}

/// A row of a selection as read from the grid: the characters of the
/// selected columns, and whether the row wraps into the next one.
pub struct SelectedRow {
    pub chars: Vec<char>,
    pub wrapped: bool,
}

/// Plain-value view of selected rows.
pub open spec fn row_views(rows: Seq<SelectedRow>) -> Seq<(Seq<char>, bool)> {
    Seq::new(rows.len(), |i: int| (rows[i].chars@, rows[i].wrapped))
}

/// Text of selected rows: each row without NULs and trailing white space;
/// rows are joined by a newline unless the earlier one wraps.
pub open spec fn selection_text(rows: Seq<(Seq<char>, bool)>) -> Seq<char>
    decreases rows.len(),
{
    if rows.len() == 0 {
        Seq::empty()
    } else {
        let k = rows.len() - 1;
        selection_text(rows.drop_last())
            + (if k >= 1 && !rows[k - 1].1 { seq!['\n'] } else { Seq::empty() })
            + trim_end(drop_nuls(rows[k].0))
    }
}

fn row_text(chars: &Vec<char>) -> (r: Vec<char>)
    ensures
        r@ == trim_end(drop_nuls(chars@)),
{
    let mut kept: Vec<char> = Vec::new();
    let mut i: usize = 0;
    assert(chars@.take(0) =~= Seq::<char>::empty());
    while i < chars.len()
        invariant
            i <= chars@.len(),
            kept@ == drop_nuls(chars@.take(i as int)),
        decreases chars.len() - i,
    {
        let c = chars[i];
        proof {
            let t = chars@.take(i as int + 1);
            assert(t.drop_last() =~= chars@.take(i as int));
            assert(t.last() == c);
        }
        if c != '\0' {
            kept.push(c);
        }
        i = i + 1;
    }
    assert(chars@.take(chars@.len() as int) =~= chars@);
    let ghost full = kept@;
    while kept.len() > 0 && white_space(kept[kept.len() - 1])
        invariant
            trim_end(kept@) == trim_end(full),
        decreases kept.len(),
    {
        let ghost before = kept@;
        kept.pop();
        assert(kept@ =~= before.drop_last());
    }
    kept
}

/// Assembles the text of a selection from its rows.
pub fn extract_selection_text(rows: &Vec<SelectedRow>) -> (r: String)
    ensures
        r@ == selection_text(row_views(rows@)),
{
    let ghost rv = row_views(rows@);
    let mut out = String::new();
    let mut i: usize = 0;
    assert(rv.take(0) =~= Seq::<(Seq<char>, bool)>::empty());
    assert(out@ =~= Seq::<char>::empty());
    while i < rows.len()
        invariant
            rv == row_views(rows@),
            i <= rows@.len(),
            out@ == selection_text(rv.take(i as int)),
        decreases rows.len() - i,
    {
        let ghost before = out@;
        if i > 0 && !rows[i - 1].wrapped {
            push_char(&mut out, '\n');
        }
        let text = row_text(&rows[i].chars);
        let ghost mid = out@;
        let mut k: usize = 0;
        while k < text.len()
            invariant
                k <= text@.len(),
                out@ == mid + text@.take(k as int),
            decreases text.len() - k,
        {
            push_char(&mut out, text[k]);
            k = k + 1;
            assert(out@ =~= mid + text@.take(k as int));
        }
        proof {
            let t = rv.take(i as int + 1);
            assert(t.drop_last() =~= rv.take(i as int));
            assert(t[i as int] == rv[i as int]);
            if i >= 1 { assert(t[i as int - 1] == rv[i as int - 1]); }
            assert(text@.take(text@.len() as int) =~= text@);
            assert(out@ =~= selection_text(t));
        }
        i = i + 1;
    }
    assert(rv.take(rows@.len() as int) =~= rv);
    out
}

/// Columns `(first, last)` of grid row `row` that a selection from `start`
/// to `end` (ordered, `(col, row)` each) covers in a pane `cols` wide.
pub open spec fn row_columns(row: u16, start: (u16, u16), end: (u16, u16), cols: u16) -> (u16, u16) {
    (
        if row == start.1 { start.0 } else { 0 },
        if row == end.1 { end.0 } else if cols >= 1 { (cols - 1) as u16 } else { 0 },
    )
}

/// The selected columns of a grid row.
pub fn selected_columns(row: u16, start: (u16, u16), end: (u16, u16), cols: u16) -> (r: (u16, u16))
    ensures
        r == row_columns(row, start, end, cols),
{
    (
        if row == start.1 { start.0 } else { 0 },
        if row == end.1 { end.0 } else if cols >= 1 { cols - 1 } else { 0 },
    )
}

/// The view cell `(column, row)` of grid point `(line, column)` when the
/// view is scrolled back `display_offset` lines (lines above the screen are
/// negative), if it lies inside a view of `cols` by `rows` cells.
pub fn cursor_in_view(line: i32, column: usize, display_offset: usize, rows: usize, cols: usize)
    -> (r: Option<(usize, usize)>)
    requires
        line + display_offset <= i32::MAX,
    ensures
        r == (if 0 <= line + display_offset < rows && column < cols {
            Some((column, (line + display_offset) as usize))
        } else {
            None
        }),
{
    let view_line: i64 = line as i64 + display_offset as i64;
    if view_line < 0 || column >= cols {
        return None;
    }
    let row = view_line as usize;
    if row < rows { Some((column, row)) } else { None }
}

} // verus!
