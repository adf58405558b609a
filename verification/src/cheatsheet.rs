//! Keybinding cheatsheet: chord display names, the entry list and the grid
//! that lays the entries out in the available width.

use vstd::prelude::*;
use crate::commands::Command;
use crate::keymap::{KeyChord, KeyMap};
use crate::keys::KeyCode;
use crate::text::{decimal, owned, push_char, push_decimal, push_str};

verus! {

/// Display name of a key.
pub open spec fn key_label(code: KeyCode) -> Seq<char> {
    match code {
        KeyCode::Left => seq!['\u{2190}'],
        KeyCode::Right => seq!['\u{2192}'],
        KeyCode::Up => seq!['\u{2191}'],
        KeyCode::Down => seq!['\u{2193}'],
        KeyCode::Enter => "Enter"@,
        KeyCode::Tab => "Tab"@,
        KeyCode::Backspace => "Backspace"@,
        KeyCode::Delete => "Delete"@,
        KeyCode::Esc => "Esc"@,
        KeyCode::Home => "Home"@,
        KeyCode::End => "End"@,
        KeyCode::PageUp => "PageUp"@,
        KeyCode::PageDown => "PageDown"@,
        KeyCode::Char(c) => if c == ' ' { "Space"@ } else { seq![c] },
        KeyCode::F(n) => seq!['F'] + decimal(n as nat),
        KeyCode::BackTab => "BackTab"@,
        KeyCode::Insert => "Insert"@,
        KeyCode::Null => "Null"@,
        KeyCode::CapsLock => "CapsLock"@,
        KeyCode::ScrollLock => "ScrollLock"@,
        KeyCode::NumLock => "NumLock"@,
        KeyCode::PrintScreen => "PrintScreen"@,
        KeyCode::Pause => "Pause"@,
        KeyCode::Menu => "Menu"@,
        KeyCode::KeypadBegin => "KeypadBegin"@,
        KeyCode::Other => "Other"@,
    }
}

/// Display name of a chord: `Ctrl`, `Alt`, `Shift` (those held, in that
/// order) and the key, joined with `+`.
pub open spec fn chord_label(ch: KeyChord) -> Seq<char> {
    (if ch.modifiers.control { "Ctrl+"@ } else { Seq::empty() })
        + (if ch.modifiers.alt { "Alt+"@ } else { Seq::empty() })
        + (if ch.modifiers.shift { "Shift+"@ } else { Seq::empty() })
        + key_label(ch.code)
}

fn push_key_label(s: &mut String, code: KeyCode)
    ensures
        final(s)@ == old(s)@ + key_label(code),
{
    match code {
        KeyCode::Left => push_char(s, '\u{2190}'),
        KeyCode::Right => push_char(s, '\u{2192}'),
        KeyCode::Up => push_char(s, '\u{2191}'),
        KeyCode::Down => push_char(s, '\u{2193}'),
        KeyCode::Enter => push_str(s, "Enter"),
        KeyCode::Tab => push_str(s, "Tab"),
        KeyCode::Backspace => push_str(s, "Backspace"),
        KeyCode::Delete => push_str(s, "Delete"),
        KeyCode::Esc => push_str(s, "Esc"),
        KeyCode::Home => push_str(s, "Home"),
        KeyCode::End => push_str(s, "End"),
        KeyCode::PageUp => push_str(s, "PageUp"),
        KeyCode::PageDown => push_str(s, "PageDown"),
        KeyCode::Char(c) => {
            if c == ' ' {
                push_str(s, "Space");
            } else {
                push_char(s, c);
            }
        },
        KeyCode::F(n) => {
            push_char(s, 'F');
            push_decimal(s, n as u32);
        },
        KeyCode::BackTab => push_str(s, "BackTab"),
        KeyCode::Insert => push_str(s, "Insert"),
        KeyCode::Null => push_str(s, "Null"),
        KeyCode::CapsLock => push_str(s, "CapsLock"),
        KeyCode::ScrollLock => push_str(s, "ScrollLock"),
        KeyCode::NumLock => push_str(s, "NumLock"),
        KeyCode::PrintScreen => push_str(s, "PrintScreen"),
        KeyCode::Pause => push_str(s, "Pause"),
        KeyCode::Menu => push_str(s, "Menu"),
        KeyCode::KeypadBegin => push_str(s, "KeypadBegin"),
        KeyCode::Other => push_str(s, "Other"),
    }
    assert(s@ =~= old(s)@ + key_label(code));
}

/// The display name of a chord, e.g. `Ctrl+\u{2190}` or `Alt+Shift+F5`.
pub fn key_chord_to_display(chord: &KeyChord) -> (r: String)
    ensures
        r@ == chord_label(*chord),
{
    let mut s = String::new();
    if chord.modifiers.control {
        push_str(&mut s, "Ctrl+");
    }
    if chord.modifiers.alt {
        push_str(&mut s, "Alt+");
    }
    if chord.modifiers.shift {
        push_str(&mut s, "Shift+");
    }
    push_key_label(&mut s, chord.code);
    assert(s@ =~= chord_label(*chord));
    s
}

/// Lexicographic order on character sequences by code point (the order of
/// their UTF-8 encodings).
pub open spec fn lex_le(a: Seq<char>, b: Seq<char>) -> bool
    decreases a.len(),
{
    if a.len() == 0 {
        true
    } else if b.len() == 0 {
        false
    } else if a[0] < b[0] {
        true
    } else if a[0] > b[0] {
        false
    } else {
        lex_le(a.drop_first(), b.drop_first())
    }
}

proof fn lemma_lex_total(a: Seq<char>, b: Seq<char>)
    ensures
        lex_le(a, b) || lex_le(b, a),
        lex_le(a, b) && lex_le(b, a) ==> a == b,
    decreases a.len(),
{
    if a.len() > 0 && b.len() > 0 && a[0] == b[0] {
        lemma_lex_total(a.drop_first(), b.drop_first());
        if a.drop_first() == b.drop_first() {
            assert(a =~= seq![a[0]] + a.drop_first());
            assert(b =~= seq![b[0]] + b.drop_first());
        }
    }
    if a.len() == 0 && b.len() == 0 {
        assert(a =~= b);
    }
}

proof fn lemma_lex_trans(a: Seq<char>, b: Seq<char>, c: Seq<char>)
    requires
        lex_le(a, b),
        lex_le(b, c),
    ensures
        lex_le(a, c),
    decreases a.len(),
{
    if a.len() > 0 && b.len() > 0 && c.len() > 0 && a[0] == b[0] && b[0] == c[0] {
        lemma_lex_trans(a.drop_first(), b.drop_first(), c.drop_first());
    }
}

fn lex_le_exec(a: &Vec<char>, b: &Vec<char>) -> (r: bool)
    ensures
        r == lex_le(a@, b@),
{
    let mut i: usize = 0;
    assert(a@.skip(0) =~= a@ && b@.skip(0) =~= b@);
    while i < a.len() && i < b.len()
        invariant
            i <= a.len(),
            i <= b.len(),
            lex_le(a@, b@) == lex_le(a@.skip(i as int), b@.skip(i as int)),
        decreases a.len() - i,
    {
        let x = a[i];
        let y = b[i];
        proof {
            assert(a@.skip(i as int)[0] == a@[i as int]);
            assert(b@.skip(i as int)[0] == b@[i as int]);
            assert(a@.skip(i as int).drop_first() =~= a@.skip(i as int + 1));
            assert(b@.skip(i as int).drop_first() =~= b@.skip(i as int + 1));
        }
        if x < y {
            return true;
        }
        if x > y {
            return false;
        }
        i = i + 1;
    }
    i == a.len()
}

/// `d` is the display name of one of `chords` and no other name sorts
/// before it.
pub open spec fn is_least_label(chords: Set<KeyChord>, d: Seq<char>) -> bool {
    (exists|k: KeyChord| chords.contains(k) && d == chord_label(k))
        && forall|k: KeyChord| chords.contains(k) ==> lex_le(d, chord_label(k))
}

/// The least display name among some chords.
pub open spec fn least_label(chords: Set<KeyChord>) -> Option<Seq<char>> {
    if exists|k: KeyChord| chords.contains(k) {
        Some(choose|d: Seq<char>| #[trigger] is_least_label(chords, d))
    } else {
        None
    }
}

/// The display name of the first of `chords` in sorted order.
pub fn display_key_for(chords: Vec<KeyChord>) -> (r: Option<String>)
    ensures
        match r {
            Some(s) => least_label(chords@.to_set()) == Some(s@) && is_least_label(chords@.to_set(), s@),
            None => least_label(chords@.to_set()) is None,
        },
{
    let ghost set = chords@.to_set();
    if chords.len() == 0 {
        proof {
            assert(!exists|k: KeyChord| set.contains(k));
        }
        return None;
    }
    let mut best = key_chord_to_display(&chords[0]);
    let mut best_chars = crate::text::chars_of(best.as_str());
    proof { lemma_lex_total(best@, best@); }
    let mut i: usize = 1;
    while i < chords.len()
        invariant
            1 <= i <= chords.len(),
            best_chars@ == best@,
            exists|j: int| 0 <= j < i && best@ == chord_label(chords@[j]),
            forall|j: int| 0 <= j < i ==> lex_le(best@, chord_label(#[trigger] chords@[j])),
        decreases chords.len() - i,
    {
        let cand = key_chord_to_display(&chords[i]);
        let cand_chars = crate::text::chars_of(cand.as_str());
        if !lex_le_exec(&best_chars, &cand_chars) {
            proof {
                lemma_lex_total(best@, cand@);
                assert forall|j: int| 0 <= j < i + 1 implies lex_le(cand@, chord_label(#[trigger] chords@[j])) by {
                    if j < i {
                        lemma_lex_trans(cand@, best@, chord_label(chords@[j]));
                    } else {
                        lemma_lex_total(cand@, cand@);
                    }
                }
            }
            best = cand;
            best_chars = cand_chars;
        } else {
            proof {
                assert(lex_le(best@, chord_label(chords@[i as int])));
            }
        }
        i = i + 1;
    }
    proof {
        let d = best@;
        assert(exists|k: KeyChord| set.contains(k) && d == chord_label(k)) by {
            let j = choose|j: int| 0 <= j < chords@.len() && best@ == chord_label(chords@[j]);
            assert(set.contains(chords@[j]));
        }
        assert(forall|k: KeyChord| set.contains(k) ==> lex_le(d, chord_label(k))) by {
            assert forall|k: KeyChord| set.contains(k) implies lex_le(d, chord_label(k)) by {
                let j = choose|j: int| 0 <= j < chords@.len() && chords@[j] == k;
            }
        }
        assert(set.contains(chords@[0]));
        assert(is_least_label(set, d));
        let e = choose|e: Seq<char>| #[trigger] is_least_label(set, e);
        let ke = choose|k: KeyChord| set.contains(k) && e == chord_label(k);
        let kd = choose|k: KeyChord| set.contains(k) && d == chord_label(k);
        assert(lex_le(d, e));
        assert(lex_le(e, d));
        lemma_lex_total(d, e);
    }
    Some(best)
}

/// Layout of the cheatsheet grid.
#[derive(Debug, Clone)]
pub struct CheatsheetGridLayout {
    pub cols: usize,
    pub rows: usize,
    pub col_widths: Vec<usize>,
}

/// Width of the separator between columns (" | ").
pub const CHEATSHEET_COL_SEPARATOR_WIDTH: usize = 3;
/// Narrowest column worth offering.
pub const CHEATSHEET_MIN_COLUMN_WIDTH: usize = 18;
/// Most columns the grid uses.
pub const CHEATSHEET_MAX_COLUMNS: usize = 3;

/// Width of an entry: key, one space, description (in characters).
pub open spec fn entry_width(e: (Seq<char>, Seq<char>)) -> int {
    (e.0.len() + 1 + e.1.len()) as int
}

/// Widest entry among the first `n` whose index is `c` modulo `cols`.
pub open spec fn col_width(ws: Seq<int>, cols: int, c: int, n: int) -> int
    decreases n,
{
    if n <= 0 {
        0
    } else {
        let p = col_width(ws, cols, c, n - 1);
        if (n - 1) % cols == c && ws[n - 1] > p { ws[n - 1] } else { p }
    }
}

/// Column widths for `cols` columns.
pub open spec fn col_widths_for(ws: Seq<int>, cols: int) -> Seq<int> {
    Seq::new(cols as nat, |c: int| col_width(ws, cols, c, ws.len() as int))
}

/// Sum of a sequence.
pub open spec fn seq_sum(s: Seq<int>) -> int
    decreases s.len(),
{
    if s.len() == 0 { 0 } else { seq_sum(s.drop_last()) + s.last() }
}

/// Largest element of a sequence (zero when empty).
pub open spec fn seq_max(s: Seq<int>) -> int
    decreases s.len(),
{
    if s.len() == 0 { 0 } else {
        let p = seq_max(s.drop_last());
        if s.last() > p { s.last() } else { p }
    }
}

/// Total width of a grid with `cols` columns, separators included.
pub open spec fn grid_width(ws: Seq<int>, cols: int) -> int {
    seq_sum(col_widths_for(ws, cols)) + 3 * (cols - 1)
}

/// The most columns, from `cols` down to one, whose grid fits in `inner_w`;
/// zero when none fits.
pub open spec fn fitting_cols(ws: Seq<int>, inner_w: int, cols: int) -> int
    decreases cols,
{
    if cols < 1 { 0 } else if grid_width(ws, cols) <= inner_w { cols } else { fitting_cols(ws, inner_w, cols - 1) }
}

/// Columns worth trying: at most three, at most one per entry, and at most
/// one per 18 cells of width (but at least one).
pub open spec fn max_grid_cols(n: int, inner_w: int) -> int {
    let by_width = if inner_w / 18 < 1 { 1 } else { inner_w / 18 };
    let a = if n < 3 { n } else { 3 };
    if a < by_width { a } else { by_width }
}

/// The cheatsheet grid for entries of widths `ws` in `inner_w` cells: the
/// widest arrangement that fits, or a single column clipped to the width.
pub open spec fn grid_layout(ws: Seq<int>, inner_w: int) -> (int, int, Seq<int>) {
    if ws.len() == 0 {
        (1, 1, seq![0])
    } else {
        let k = fitting_cols(ws, inner_w, max_grid_cols(ws.len() as int, inner_w));
        if k >= 1 {
            (k, (ws.len() + k - 1) / k, col_widths_for(ws, k))
        } else {
            let m = seq_max(ws);
            let cap = if inner_w < 1 { 1 } else { inner_w };
            (1, ws.len() as int, seq![if m < cap { m } else { cap }])
        }
    }
}

/// The values of a `usize` sequence as integers.
pub open spec fn as_ints(v: Seq<usize>) -> Seq<int> {
    Seq::new(v.len(), |i: int| v[i] as int)
}

/// Entry widths of a list of entries.
pub open spec fn widths_of(entries: Seq<(String, &'static str)>) -> Seq<int> {
    Seq::new(entries.len(), |i: int| entry_width((entries[i].0@, entries[i].1@)))
}

/// Every entry is narrow enough that sums of a few widths stay in `usize`.
pub open spec fn entries_bounded(entries: Seq<(String, &'static str)>) -> bool {
    entries.len() <= 0x1000_0000
        && forall|i: int| 0 <= i < entries.len() ==> entry_width((#[trigger] entries[i].0@, entries[i].1@)) <= 0x1000_0000
}

/// Width of an entry in characters.
pub fn cheatsheet_entry_width_chars(entry: (&str, &str)) -> (r: usize)
    requires
        entry.0@.len() + 1 + entry.1@.len() <= usize::MAX,
    ensures
        r == entry.0@.len() + 1 + entry.1@.len(),
{
    entry.0.unicode_len() + 1 + entry.1.unicode_len()
}

fn widths_vec(entries: &Vec<(String, &'static str)>) -> (r: Vec<usize>)
    requires
        entries_bounded(entries@),
    ensures
        r@.len() == entries@.len(),
        forall|i: int| 0 <= i < r@.len() ==> r@[i] as int == widths_of(entries@)[i],
        forall|i: int| 0 <= i < r@.len() ==> r@[i] <= 0x1000_0000,
{
    let mut out: Vec<usize> = Vec::new();
    let mut i: usize = 0;
    while i < entries.len()
        invariant
            i <= entries.len(),
            entries_bounded(entries@),
            out@.len() == i,
            forall|j: int| 0 <= j < i ==> out@[j] as int == widths_of(entries@)[j],
            forall|j: int| 0 <= j < i ==> out@[j] <= 0x1000_0000,
        decreases entries.len() - i,
    {
        proof { assert(entry_width((entries@[i as int].0@, entries@[i as int].1@)) <= 0x1000_0000); }
        let w = cheatsheet_entry_width_chars((entries[i].0.as_str(), entries[i].1));
        out.push(w);
        i = i + 1;
    }
    out
}

proof fn lemma_col_width_bounds(ws: Seq<int>, cols: int, c: int, n: int, bound: int)
    requires
        0 <= n <= ws.len(),
        forall|i: int| 0 <= i < ws.len() ==> 0 <= #[trigger] ws[i] <= bound,
        bound >= 0,
    ensures
        0 <= col_width(ws, cols, c, n) <= bound,
    decreases n,
{
    if n > 0 {
        lemma_col_width_bounds(ws, cols, c, n - 1, bound);
    }
}

proof fn lemma_seq_max_bounds(ws: Seq<int>, bound: int)
    requires
        forall|i: int| 0 <= i < ws.len() ==> 0 <= #[trigger] ws[i] <= bound,
        bound >= 0,
    ensures
        0 <= seq_max(ws) <= bound,
    decreases ws.len(),
{
    if ws.len() > 0 {
        lemma_seq_max_bounds(ws.drop_last(), bound);
    }
}

fn col_widths_exec(ws: &Vec<usize>, cols: usize) -> (r: Vec<usize>)
    requires
        1 <= cols <= 3,
        forall|i: int| 0 <= i < ws@.len() ==> ws@[i] <= 0x1000_0000,
    ensures
        r@.len() == cols,
        forall|c: int| 0 <= c < cols ==> r@[c] as int == col_width(as_ints(ws@), cols as int, c, ws@.len() as int),
{
    let ghost wi = as_ints(ws@);
    let mut out: Vec<usize> = Vec::new();
    let mut c: usize = 0;
    while c < cols
        invariant
            c <= cols,
            out@.len() == c,
            forall|k: int| 0 <= k < c ==> out@[k] == 0,
        decreases cols - c,
    {
        out.push(0);
        c = c + 1;
    }
    let mut idx: usize = 0;
    while idx < ws.len()
        invariant
            1 <= cols <= 3,
            idx <= ws.len(),
            out@.len() == cols,
            wi == as_ints(ws@),
            forall|k: int| 0 <= k < cols ==> out@[k] as int == col_width(wi, cols as int, k, idx as int),
        decreases ws.len() - idx,
    {
        let col = idx % cols;
        let w = ws[idx];
        if w > out[col] {
            out.set(col, w);
        }
        proof {
            assert forall|k: int| 0 <= k < cols implies out@[k] as int == col_width(wi, cols as int, k, idx as int + 1) by {
                assert(wi[idx as int] == w as int);
            }
        }
        idx = idx + 1;
    }
    out
}

fn sum_exec(v: &Vec<usize>) -> (r: usize)
    requires
        v@.len() <= 3,
        forall|i: int| 0 <= i < v@.len() ==> v@[i] <= 0x1000_0000,
    ensures
        r as int == seq_sum(as_ints(v@)),
        r <= 3 * 0x1000_0000,
{
    let ghost vi = as_ints(v@);
    let mut total: usize = 0;
    let mut i: usize = 0;
    while i < v.len()
        invariant
            i <= v.len(),
            v@.len() <= 3,
            vi == as_ints(v@),
            forall|j: int| 0 <= j < v@.len() ==> v@[j] <= 0x1000_0000,
            total as int == seq_sum(vi.take(i as int)),
            total <= i * 0x1000_0000,
        decreases v.len() - i,
    {
        proof {
            assert(vi.take(i as int + 1).drop_last() =~= vi.take(i as int));
        }
        total = total + v[i];
        i = i + 1;
    }
    proof { assert(vi.take(v@.len() as int) =~= vi); }
    total
}

/// Lays the cheatsheet entries out in a grid of at most three columns that
/// fits in `inner_w` cells.
pub fn compute_cheatsheet_grid_layout(entries: &Vec<(String, &'static str)>, inner_w: usize) -> (r: CheatsheetGridLayout)
    requires
        entries_bounded(entries@),
    ensures
        grid_layout(widths_of(entries@), inner_w as int) == (r.cols as int, r.rows as int,
            as_ints(r.col_widths@)),
{
    let ghost wsi = widths_of(entries@);
    if entries.len() == 0 {
        let mut cw: Vec<usize> = Vec::new();
        cw.push(0);
        let r = CheatsheetGridLayout { cols: 1, rows: 1, col_widths: cw };
        assert(as_ints(r.col_widths@) =~= seq![0int]);
        return r;
    }
    let ws = widths_vec(entries);
    proof { assert(as_ints(ws@) =~= wsi); }
    let by_width = if inner_w / CHEATSHEET_MIN_COLUMN_WIDTH < 1 { 1 } else { inner_w / CHEATSHEET_MIN_COLUMN_WIDTH };
    let a = if entries.len() < CHEATSHEET_MAX_COLUMNS { entries.len() } else { CHEATSHEET_MAX_COLUMNS };
    let max_cols = if a < by_width { a } else { by_width };
    let mut cols = max_cols;
    assert(max_cols as int == max_grid_cols(entries@.len() as int, inner_w as int));
    while cols >= 1
        invariant
            1 <= max_cols <= 3,
            max_cols as int == max_grid_cols(entries@.len() as int, inner_w as int),
            cols <= max_cols,
            entries@.len() >= 1,
            entries@.len() <= 0x1000_0000,
            wsi == as_ints(ws@),
            wsi == widths_of(entries@),
            wsi.len() == entries@.len(),
            forall|i: int| 0 <= i < ws@.len() ==> ws@[i] <= 0x1000_0000,
            fitting_cols(wsi, inner_w as int, max_cols as int) == fitting_cols(wsi, inner_w as int, cols as int),
        decreases cols,
    {
        let cw = col_widths_exec(&ws, cols);
        proof {
            assert forall|i: int| 0 <= i < cw@.len() implies cw@[i] <= 0x1000_0000 by {
                lemma_col_width_bounds(wsi, cols as int, i, wsi.len() as int, (0x1000_0000) as int);
            }
            assert(as_ints(cw@) =~= col_widths_for(wsi, cols as int));
        }
        let total = sum_exec(&cw) + CHEATSHEET_COL_SEPARATOR_WIDTH * (cols - 1);
        if total <= inner_w {
            proof {
                assert(total as int == grid_width(wsi, cols as int));
                assert(fitting_cols(wsi, inner_w as int, cols as int) == cols as int);
                assert(max_grid_cols(entries@.len() as int, inner_w as int) == max_cols as int);
            }
            let rows = (entries.len() + cols - 1) / cols;
            proof {
                assert(wsi.len() == entries@.len());
                assert(grid_layout(wsi, inner_w as int).0 == cols as int);
                assert(grid_layout(wsi, inner_w as int).1 == rows as int);
                assert(grid_layout(wsi, inner_w as int).2 == col_widths_for(wsi, cols as int));
            }
            let ghost cwv = cw@;
            let r = CheatsheetGridLayout { cols, rows, col_widths: cw };
            proof {
                assert(r.col_widths@ == cwv);
                assert(as_ints(r.col_widths@) == col_widths_for(wsi, cols as int));
                assert(grid_layout(wsi, inner_w as int) == (r.cols as int, r.rows as int, as_ints(r.col_widths@)));
            }
            return r;
        }
        cols = cols - 1;
    }
    let mut width: usize = 0;
    let mut i: usize = 0;
    while i < ws.len()
        invariant
            i <= ws.len(),
            wsi == as_ints(ws@),
            width as int == seq_max(wsi.take(i as int)),
        decreases ws.len() - i,
    {
        proof { assert(wsi.take(i as int + 1).drop_last() =~= wsi.take(i as int)); }
        if ws[i] > width {
            width = ws[i];
        }
        i = i + 1;
    }
    proof { assert(wsi.take(ws@.len() as int) =~= wsi); }
    let cap = if inner_w < 1 { 1 } else { inner_w };
    if width > cap {
        width = cap;
    }
    let mut cw: Vec<usize> = Vec::new();
    cw.push(width);
    let r = CheatsheetGridLayout { cols: 1, rows: entries.len(), col_widths: cw };
    assert(as_ints(r.col_widths@) =~= seq![width as int]);
    r
}


// ── cheatsheet entries ─────────────────────────────────────────────────────

/// Key labels and descriptions of a list of entries.
pub open spec fn entries_view(v: Seq<(String, &'static str)>) -> Seq<(Seq<char>, Seq<char>)> {
    Seq::new(v.len(), |i: int| (v[i].0@, v[i].1@))
}

/// The chords of a binding map that are bound to `cmd`.
pub open spec fn chords_bound(m: Map<KeyChord, Command>, cmd: Command) -> Set<KeyChord> {
    Set::new(|k: KeyChord| m.contains_key(k) && m[k] == cmd)
}

/// The entry for `cmd` when some chord is bound to it: the least label.
pub open spec fn entry_for(m: Map<KeyChord, Command>, cmd: Command, desc: Seq<char>) -> Seq<(Seq<char>, Seq<char>)> {
    match least_label(chords_bound(m, cmd)) {
        Some(l) => seq![(l, desc)],
        None => Seq::empty(),
    }
}

/// The cheatsheet: prefix commands (splits, focus, close, quit), direct
/// resize commands, then the copy and paste shortcuts.
pub open spec fn cheatsheet_entries(km: KeyMap) -> Seq<(Seq<char>, Seq<char>)> {
    let p = km.prefix_map();
    let d = km.direct_map();
    entry_for(p, Command::SplitLeft, "Split Left"@)
        + entry_for(p, Command::SplitRight, "Split Right"@)
        + entry_for(p, Command::SplitUp, "Split Up"@)
        + entry_for(p, Command::SplitDown, "Split Down"@)
        + entry_for(p, Command::FocusLeft, "Focus Left"@)
        + entry_for(p, Command::FocusRight, "Focus Right"@)
        + entry_for(p, Command::FocusUp, "Focus Up"@)
        + entry_for(p, Command::FocusDown, "Focus Down"@)
        + entry_for(p, Command::ClosePane, "Close Pane"@)
        + entry_for(p, Command::Quit, "Quit"@)
        + entry_for(d, Command::ResizeLeft, "Resize Left"@)
        + entry_for(d, Command::ResizeRight, "Resize Right"@)
        + entry_for(d, Command::ResizeUp, "Resize Up"@)
        + entry_for(d, Command::ResizeDown, "Resize Down"@)
        + seq![("Ctrl+Shift+C"@, "Copy"@), ("Ctrl+Shift+V"@, "Paste"@), ("Right-Click"@, "Copy"@)]
}

proof fn lemma_label_short(k: KeyChord)
    ensures
        chord_label(k).len() <= 40,
{
    reveal_strlit("Ctrl+");
    reveal_strlit("Alt+");
    reveal_strlit("Shift+");
    reveal_strlit("Enter");
    reveal_strlit("Tab");
    reveal_strlit("Backspace");
    reveal_strlit("Delete");
    reveal_strlit("Esc");
    reveal_strlit("Home");
    reveal_strlit("End");
    reveal_strlit("PageUp");
    reveal_strlit("PageDown");
    reveal_strlit("Space");
    reveal_strlit("BackTab");
    reveal_strlit("Insert");
    reveal_strlit("Null");
    reveal_strlit("CapsLock");
    reveal_strlit("ScrollLock");
    reveal_strlit("NumLock");
    reveal_strlit("PrintScreen");
    reveal_strlit("Pause");
    reveal_strlit("Menu");
    reveal_strlit("KeypadBegin");
    reveal_strlit("Other");
    match k.code {
        KeyCode::F(n) => { crate::text::lemma_decimal_short(n as nat); },
        _ => {},
    }
}

fn push_entry(entries: &mut Vec<(String, &'static str)>, m_chords: Vec<KeyChord>, desc: &'static str,
    Ghost(m): Ghost<Map<KeyChord, Command>>, Ghost(cmd): Ghost<Command>)
    requires
        forall|k: KeyChord| #[trigger] m_chords@.contains(k) <==> (m.contains_key(k) && m[k] == cmd),
        desc@.len() <= 20,
        forall|i: int| 0 <= i < old(entries)@.len() ==> entry_small(#[trigger] old(entries)@[i]),
    ensures
        entries_view(final(entries)@) == entries_view(old(entries)@) + entry_for(m, cmd, desc@),
        final(entries)@.len() <= old(entries)@.len() + 1,
        forall|i: int| 0 <= i < final(entries)@.len() ==> entry_small(#[trigger] final(entries)@[i]),
{
    proof {
        assert forall|k: KeyChord| m_chords@.to_set().contains(k) <==> chords_bound(m, cmd).contains(k) by {
            assert(m_chords@.contains(k) <==> (m.contains_key(k) && m[k] == cmd));
        }
        assert(m_chords@.to_set() =~= chords_bound(m, cmd));
    }
    match display_key_for(m_chords) {
        Some(key) => {
            proof {
                let l = key@;
                assert(is_least_label(chords_bound(m, cmd), l));
                let k = choose|k: KeyChord| chords_bound(m, cmd).contains(k) && l == chord_label(k);
                lemma_label_short(k);
            }
            let ghost before = entries@;
            entries.push((key, desc));
            proof {
                assert forall|i: int| 0 <= i < entries@.len() implies entry_small(#[trigger] entries@[i]) by {
                    if i < before.len() {
                        assert(entries@[i] == before[i]);
                    }
                }
            }
        },
        None => {},
    }
    assert(entries_view(entries@) =~= entries_view(old(entries)@) + entry_for(m, cmd, desc@));
}

/// An entry with a short key label and description.
pub open spec fn entry_small(e: (String, &'static str)) -> bool {
    e.0@.len() <= 40 && e.1@.len() <= 20
}

/// The cheatsheet entries for a key map.
pub fn cheatsheet_bindings(keymap: &KeyMap) -> (r: Vec<(String, &'static str)>)
    requires
        keymap.wf(),
    ensures
        entries_view(r@) == cheatsheet_entries(*keymap),
        entries_bounded(r@),
        r@.len() <= 17,
{
    let mut entries: Vec<(String, &'static str)> = Vec::new();
    let ghost p = keymap.prefix_map();
    proof { lemma_small_init(entries@); }
    let ghost d = keymap.direct_map();
    proof { reveal_strlit("Split Left"); }
    push_entry(&mut entries, keymap.prefix_chords_for_command(Command::SplitLeft), "Split Left", Ghost(p), Ghost(Command::SplitLeft));
    proof { reveal_strlit("Split Right"); }
    push_entry(&mut entries, keymap.prefix_chords_for_command(Command::SplitRight), "Split Right", Ghost(p), Ghost(Command::SplitRight));
    proof { reveal_strlit("Split Up"); }
    push_entry(&mut entries, keymap.prefix_chords_for_command(Command::SplitUp), "Split Up", Ghost(p), Ghost(Command::SplitUp));
    proof { reveal_strlit("Split Down"); }
    push_entry(&mut entries, keymap.prefix_chords_for_command(Command::SplitDown), "Split Down", Ghost(p), Ghost(Command::SplitDown));
    proof { reveal_strlit("Focus Left"); }
    push_entry(&mut entries, keymap.prefix_chords_for_command(Command::FocusLeft), "Focus Left", Ghost(p), Ghost(Command::FocusLeft));
    proof { reveal_strlit("Focus Right"); }
    push_entry(&mut entries, keymap.prefix_chords_for_command(Command::FocusRight), "Focus Right", Ghost(p), Ghost(Command::FocusRight));
    proof { reveal_strlit("Focus Up"); }
    push_entry(&mut entries, keymap.prefix_chords_for_command(Command::FocusUp), "Focus Up", Ghost(p), Ghost(Command::FocusUp));
    proof { reveal_strlit("Focus Down"); }
    push_entry(&mut entries, keymap.prefix_chords_for_command(Command::FocusDown), "Focus Down", Ghost(p), Ghost(Command::FocusDown));
    proof { reveal_strlit("Close Pane"); }
    push_entry(&mut entries, keymap.prefix_chords_for_command(Command::ClosePane), "Close Pane", Ghost(p), Ghost(Command::ClosePane));
    proof { reveal_strlit("Quit"); }
    push_entry(&mut entries, keymap.prefix_chords_for_command(Command::Quit), "Quit", Ghost(p), Ghost(Command::Quit));
    proof { reveal_strlit("Resize Left"); }
    push_entry(&mut entries, keymap.direct_chords_for_command(Command::ResizeLeft), "Resize Left", Ghost(d), Ghost(Command::ResizeLeft));
    proof { reveal_strlit("Resize Right"); }
    push_entry(&mut entries, keymap.direct_chords_for_command(Command::ResizeRight), "Resize Right", Ghost(d), Ghost(Command::ResizeRight));
    proof { reveal_strlit("Resize Up"); }
    push_entry(&mut entries, keymap.direct_chords_for_command(Command::ResizeUp), "Resize Up", Ghost(d), Ghost(Command::ResizeUp));
    proof { reveal_strlit("Resize Down"); }
    push_entry(&mut entries, keymap.direct_chords_for_command(Command::ResizeDown), "Resize Down", Ghost(d), Ghost(Command::ResizeDown));
    let ghost before = entries@;
    proof {
        reveal_strlit("Ctrl+Shift+C");
        reveal_strlit("Ctrl+Shift+V");
        reveal_strlit("Right-Click");
        reveal_strlit("Copy");
        reveal_strlit("Paste");
    }
    entries.push((owned("Ctrl+Shift+C"), "Copy"));
    entries.push((owned("Ctrl+Shift+V"), "Paste"));
    entries.push((owned("Right-Click"), "Copy"));
    proof {
        assert(entries_view(entries@) =~= entries_view(before)
            + seq![("Ctrl+Shift+C"@, "Copy"@), ("Ctrl+Shift+V"@, "Paste"@), ("Right-Click"@, "Copy"@)]);
        assert forall|i: int| 0 <= i < entries@.len() implies entry_width((#[trigger] entries@[i].0@, entries@[i].1@)) <= 0x1000_0000 by {
            if i < before.len() {
                assert(entry_small(before[i]));
                assert(entries@[i] == before[i]);
            }
        }
    }
    entries
}

proof fn lemma_small_init(v: Seq<(String, &'static str)>)
    requires
        v.len() == 0,
    ensures
        forall|i: int| 0 <= i < v.len() ==> entry_small(#[trigger] v[i]),
{
}

proof fn lemma_rows_bound(ws: Seq<int>, inner_w: int)
    ensures
        grid_layout(ws, inner_w).1 <= if ws.len() == 0 { 1 } else { ws.len() as int },
{
    if ws.len() > 0 {
        let k = fitting_cols(ws, inner_w, max_grid_cols(ws.len() as int, inner_w));
        if k >= 1 {
            assert((ws.len() + k - 1) / k <= ws.len()) by (nonlinear_arith)
                requires k >= 1, ws.len() >= 1;
        }
    }
}

/// Height of the cheatsheet bar for a terminal `w` cells wide: the grid's
/// rows plus the top and bottom border.
pub open spec fn bar_height(km: KeyMap, w: u16) -> u16 {
    let inner = if w >= 2 { w - 2 } else { 0 };
    (grid_layout(cheatsheet_entries(km).map_values(|e: (Seq<char>, Seq<char>)| entry_width(e)), inner as int).1 + 2) as u16
}

/// Height of the cheatsheet bar for a terminal `w` cells wide.
pub fn cheatsheet_bar_height(w: u16, keymap: &KeyMap) -> (r: u16)
    requires
        keymap.wf(),
    ensures
        r == bar_height(*keymap, w),
        r <= 19,
{
    let entries = cheatsheet_bindings(keymap);
    let inner_w: usize = if w >= 2 { (w - 2) as usize } else { 0 };
    let layout = compute_cheatsheet_grid_layout(&entries, inner_w);
    proof {
        assert(widths_of(entries@) =~= cheatsheet_entries(*keymap).map_values(|e: (Seq<char>, Seq<char>)| entry_width(e)));
        lemma_rows_bound(widths_of(entries@), inner_w as int);
    }
    (layout.rows as u16) + 2
}


/// Grid cell `(row, c)` of the cheatsheet: the entry drawn there, and the
/// spaces that pad it to its column's width.
pub open spec fn grid_cell(ws: Seq<int>, cols: int, col_widths: Seq<int>, row: int, c: int) -> Option<(int, int)> {
    let idx = row * cols + c;
    if idx < ws.len() {
        Some((idx, if col_widths[c] > ws[idx] { col_widths[c] - ws[idx] } else { 0 }))
    } else {
        None
    }
}

/// The cells of row `row` of the cheatsheet grid, one per column: the
/// index of the entry shown and its padding, or nothing past the last entry.
pub fn cheatsheet_row_cells(entries: &Vec<(String, &'static str)>, layout: &CheatsheetGridLayout, row: usize)
    -> (r: Vec<Option<(usize, usize)>>)
    requires
        entries_bounded(entries@),
        layout.col_widths@.len() == layout.cols,
        row * layout.cols + layout.cols <= usize::MAX,
    ensures
        r@.len() == layout.cols,
        forall|c: int| 0 <= c < layout.cols ==> match #[trigger] r@[c] {
            Some(p) => grid_cell(widths_of(entries@), layout.cols as int, as_ints(layout.col_widths@), row as int, c)
                == Some((p.0 as int, p.1 as int)),
            None => grid_cell(widths_of(entries@), layout.cols as int, as_ints(layout.col_widths@), row as int, c)
                is None,
        },
{
    let cols = layout.cols;
    let mut out: Vec<Option<(usize, usize)>> = Vec::new();
    let mut c: usize = 0;
    assert(row * cols <= usize::MAX) by (nonlinear_arith)
        requires row * cols + cols <= usize::MAX, cols >= 0;
    let base = row * cols;
    while c < cols
        invariant
            c <= cols,
            cols == layout.cols,
            base == row * cols,
            base + cols <= usize::MAX,
            layout.col_widths@.len() == cols,
            entries_bounded(entries@),
            out@.len() == c,
            forall|k: int| 0 <= k < c ==> match #[trigger] out@[k] {
                Some(p) => grid_cell(widths_of(entries@), cols as int, as_ints(layout.col_widths@), row as int, k)
                    == Some((p.0 as int, p.1 as int)),
                None => grid_cell(widths_of(entries@), cols as int, as_ints(layout.col_widths@), row as int, k)
                    is None,
            },
        decreases cols - c,
    {
        let idx = base + c;
        if idx < entries.len() {
            let (key, desc) = &entries[idx];
            let w = cheatsheet_entry_width_chars((key.as_str(), *desc));
            let cw = layout.col_widths[c];
            let pad = if cw > w { cw - w } else { 0 };
            out.push(Some((idx, pad)));
        } else {
            out.push(None);
        }
        c = c + 1;
    }
    out
}

/// Where the cheatsheet bar goes in a `w` by `h` terminal for a grid of
/// `rows` rows: the bottom `rows + 2` lines (all of them when fewer), or
/// nowhere when that leaves less than two cells either way.
pub open spec fn bar_rect(w: u16, h: u16, rows: usize) -> Option<(u16, u16, u16, u16)> {
    let bh: int = if rows + 2 < h { rows + 2 } else { h as int };
    if w < 2 || bh < 2 { None } else { Some((0u16, (h - bh) as u16, w, bh as u16)) }
}

/// The rectangle `(x, y, width, height)` of the cheatsheet bar.
pub fn cheatsheet_bar_rect(w: u16, h: u16, rows: usize) -> (r: Option<(u16, u16, u16, u16)>)
    ensures
        r == bar_rect(w, h, rows),
{
    let bh: u16 = if rows < (h as usize) && rows + 2 < (h as usize) { (rows + 2) as u16 } else { h };
    if w < 2 || bh < 2 { None } else { Some((0, h - bh, w, bh)) }
}

} // verus!
