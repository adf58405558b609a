//! Cell colours and styles: terminal-emulator colours to display colours,
//! ANSI SGR sequences, selection and cursor highlighting, and grouping a
//! row of cells into runs of one style.

use vstd::prelude::*;
use crate::text::{decimal, push_char, push_decimal, push_str};

verus! {

/// A 24-bit colour.
#[derive(Debug, Clone, Copy, PartialEq, Eq, Structural)]
pub struct Rgb {
    pub r: u8,
    pub g: u8,
    pub b: u8,
}

/// A named colour of the terminal emulator's palette.
#[derive(Debug, Clone, Copy, PartialEq, Eq, Structural)]
pub enum NamedColor {
    Black,
    Red,
    Green,
    Yellow,
    Blue,
    Magenta,
    Cyan,
    White,
    BrightBlack,
    BrightRed,
    BrightGreen,
    BrightYellow,
    BrightBlue,
    BrightMagenta,
    BrightCyan,
    BrightWhite,
    Foreground,
    Background,
    Cursor,
    DimBlack,
    DimRed,
    DimGreen,
    DimYellow,
    DimBlue,
    DimMagenta,
    DimCyan,
    DimWhite,
    BrightForeground,
    DimForeground,
}

/// A colour as the terminal emulator stores it in a cell.
#[derive(Debug, Clone, Copy, PartialEq, Eq, Structural)]
pub enum TermColor {
    Named(NamedColor),
    Spec(Rgb),
    Indexed(u8),
}

/// A display colour.
#[derive(Debug, Clone, Copy, PartialEq, Eq, Structural)]
pub enum Color {
    Reset,
    Black,
    Red,
    Green,
    Yellow,
    Blue,
    Magenta,
    Cyan,
    Gray,
    DarkGray,
    LightRed,
    LightGreen,
    LightYellow,
    LightBlue,
    LightMagenta,
    LightCyan,
    White,
    Rgb(u8, u8, u8),
    Indexed(u8),
}

/// Colours and attributes of a displayed cell; `None` keeps the terminal's
/// default colour.
#[derive(Debug, Clone, Copy, PartialEq, Eq, Structural)]
pub struct CellStyle {
    pub fg: Option<Color>,
    pub bg: Option<Color>,
    pub bold: bool,
    pub italic: bool,
    pub underlined: bool,
}

/// A cell of the terminal emulator's grid.
#[derive(Debug, Clone, Copy, PartialEq, Eq, Structural)]
pub struct TermCell {
    pub c: char,
    pub fg: TermColor,
    pub bg: TermColor,
    pub bold: bool,
    pub italic: bool,
    pub underline: bool,
}

/// The default style: default colours, no attributes.
pub open spec fn plain_style() -> CellStyle {
    CellStyle { fg: None, bg: None, bold: false, italic: false, underlined: false }
}

impl CellStyle {
    /// The default style.
    pub fn plain() -> (r: CellStyle)
        ensures
            r == plain_style(),
    {
        CellStyle { fg: None, bg: None, bold: false, italic: false, underlined: false }
    }
}

/// Display colour of a cell colour: the sixteen named colours map to the
/// display palette (bright black is dark grey and bright white is white),
/// explicit and indexed colours carry over, and the emulator's dynamic
/// colours keep the default.
pub open spec fn display_color(c: TermColor) -> Option<Color> {
    match c {
        TermColor::Named(n) => match n {
            NamedColor::Black => Some(Color::Black),
            NamedColor::Red => Some(Color::Red),
            NamedColor::Green => Some(Color::Green),
            NamedColor::Yellow => Some(Color::Yellow),
            NamedColor::Blue => Some(Color::Blue),
            NamedColor::Magenta => Some(Color::Magenta),
            NamedColor::Cyan => Some(Color::Cyan),
            NamedColor::White => Some(Color::White),
            NamedColor::BrightBlack => Some(Color::DarkGray),
            NamedColor::BrightRed => Some(Color::LightRed),
            NamedColor::BrightGreen => Some(Color::LightGreen),
            NamedColor::BrightYellow => Some(Color::LightYellow),
            NamedColor::BrightBlue => Some(Color::LightBlue),
            NamedColor::BrightMagenta => Some(Color::LightMagenta),
            NamedColor::BrightCyan => Some(Color::LightCyan),
            NamedColor::BrightWhite => Some(Color::White),
            _ => None,
        },
        TermColor::Spec(rgb) => Some(Color::Rgb(rgb.r, rgb.g, rgb.b)),
        TermColor::Indexed(i) => Some(Color::Indexed(i)),
    }
}

/// The number ANSI gives each of the eight normal colours (black 0, red
/// 1, green 2, yellow 3, blue 4, magenta 5, cyan 6, white 7), which SGR
/// codes 30 to 37 select.
pub open spec fn ansi_number(n: NamedColor) -> Option<nat> {
    match n {
        NamedColor::Black => Some(0),
        NamedColor::Red => Some(1),
        NamedColor::Green => Some(2),
        NamedColor::Yellow => Some(3),
        NamedColor::Blue => Some(4),
        NamedColor::Magenta => Some(5),
        NamedColor::Cyan => Some(6),
        NamedColor::White => Some(7),
        _ => None,
    }
}

/// The ANSI number of the bright colours black to cyan, which SGR codes
/// 90 to 96 select (bright white is shown as white).
pub open spec fn bright_number(n: NamedColor) -> Option<nat> {
    match n {
        NamedColor::BrightBlack => Some(0),
        NamedColor::BrightRed => Some(1),
        NamedColor::BrightGreen => Some(2),
        NamedColor::BrightYellow => Some(3),
        NamedColor::BrightBlue => Some(4),
        NamedColor::BrightMagenta => Some(5),
        NamedColor::BrightCyan => Some(6),
        _ => None,
    }
}

/// Colours keep their identity on screen: the display colour of normal
/// ANSI colour `k` is the one that SGR code `30 + k` (foreground) and
/// `40 + k` (background) select again, that of bright colour `k` the one
/// that `90 + k` and `100 + k` select, and different colours among these
/// are displayed differently.
pub proof fn law_normal_colors_kept(n: NamedColor, m: NamedColor)
    ensures
        ansi_number(n) matches Some(k) ==> display_color(TermColor::Named(n)) matches Some(c)
            && color_code(c, true) == Some(decimal(30 + k))
            && color_code(c, false) == Some(decimal(40 + k)),
        bright_number(n) matches Some(k) ==> display_color(TermColor::Named(n)) matches Some(c)
            && color_code(c, true) == Some(decimal(90 + k))
            && color_code(c, false) == Some(decimal(100 + k)),
        (ansi_number(n) is Some || bright_number(n) is Some) && (ansi_number(m) is Some || bright_number(m) is Some)
            && n != m ==> display_color(TermColor::Named(n)) != display_color(TermColor::Named(m)),
{
}

/// Maps a cell colour to a display colour.
pub fn ansi_color_to_ratatui(color: TermColor) -> (r: Option<Color>)
    ensures
        r == display_color(color),
{
    match color {
        TermColor::Named(n) => match n {
            NamedColor::Black => Some(Color::Black),
            NamedColor::Red => Some(Color::Red),
            NamedColor::Green => Some(Color::Green),
            NamedColor::Yellow => Some(Color::Yellow),
            NamedColor::Blue => Some(Color::Blue),
            NamedColor::Magenta => Some(Color::Magenta),
            NamedColor::Cyan => Some(Color::Cyan),
            NamedColor::White => Some(Color::White),
            NamedColor::BrightBlack => Some(Color::DarkGray),
            NamedColor::BrightRed => Some(Color::LightRed),
            NamedColor::BrightGreen => Some(Color::LightGreen),
            NamedColor::BrightYellow => Some(Color::LightYellow),
            NamedColor::BrightBlue => Some(Color::LightBlue),
            NamedColor::BrightMagenta => Some(Color::LightMagenta),
            NamedColor::BrightCyan => Some(Color::LightCyan),
            NamedColor::BrightWhite => Some(Color::White),
            _ => None,
        },
        TermColor::Spec(rgb) => Some(Color::Rgb(rgb.r, rgb.g, rgb.b)),
        TermColor::Indexed(i) => Some(Color::Indexed(i)),
    }
}

/// Character and style a grid cell is displayed with: an empty cell shows
/// a space.
pub open spec fn cell_display(cell: TermCell) -> (char, CellStyle) {
    (
        if cell.c == '\0' { ' ' } else { cell.c },
        CellStyle {
            fg: display_color(cell.fg),
            bg: display_color(cell.bg),
            bold: cell.bold,
            italic: cell.italic,
            underlined: cell.underline,
        },
    )
}

/// Converts a grid cell to a character and style.
pub fn cell_to_span(cell: &TermCell) -> (r: (char, CellStyle))
    ensures
        r == cell_display(*cell),
{
    let ch = if cell.c == '\0' { ' ' } else { cell.c };
    (ch, CellStyle {
        fg: ansi_color_to_ratatui(cell.fg),
        bg: ansi_color_to_ratatui(cell.bg),
        bold: cell.bold,
        italic: cell.italic,
        underlined: cell.underline,
    })
}

/// The style with foreground and background swapped; a default background
/// becomes black text and a default foreground a white background.
pub open spec fn inverted(s: CellStyle) -> CellStyle {
    CellStyle {
        fg: Some(match s.bg { Some(c) => c, None => Color::Black }),
        bg: Some(match s.fg { Some(c) => c, None => Color::White }),
        ..s
    }
}

/// Swaps foreground and background.
pub fn invert(s: CellStyle) -> (r: CellStyle)
    ensures
        r == inverted(s),
{
    let fg = match s.bg { Some(c) => c, None => Color::Black };
    let bg = match s.fg { Some(c) => c, None => Color::White };
    CellStyle { fg: Some(fg), bg: Some(bg), ..s }
}

/// Whether the cell at `(col, row)` lies in the selection from `start` to
/// `end` (ordered, `(col, row)` each), read as running text.
pub open spec fn in_selection(row: u16, col: u16, start: (u16, u16), end: (u16, u16)) -> bool {
    let (sc, sr) = start;
    let (ec, er) = end;
    if sr == er {
        row == sr && sc <= col && col <= ec
    } else if row == sr {
        col >= sc
    } else if row == er {
        col <= ec
    } else {
        sr < row && row < er
    }
}

/// Whether a cell lies in a selection.
pub fn cell_in_selection(row: u16, col: u16, range: ((u16, u16), (u16, u16))) -> (r: bool)
    ensures
        r == in_selection(row, col, range.0, range.1),
{
    let ((sc, sr), (ec, er)) = range;
    if sr == er {
        row == sr && col >= sc && col <= ec
    } else if row == sr {
        col >= sc
    } else if row == er {
        col <= ec
    } else {
        row > sr && row < er
    }
}

/// How the cell at `(col, row)` is shown: its own character and style,
/// inverted when selected and inverted (again) under a software cursor.
pub open spec fn shown_cell(cell: TermCell, row: u16, col: u16, sel: Option<((u16, u16), (u16, u16))>, cursor: bool)
    -> (char, CellStyle) {
    let (ch, st) = cell_display(cell);
    let st1 = if sel matches Some(r) && in_selection(row, col, r.0, r.1) { inverted(st) } else { st };
    (ch, if cursor { inverted(st1) } else { st1 })
}

/// The character and style a grid cell is drawn with.
pub fn display_cell(cell: &TermCell, row: u16, col: u16, sel: Option<((u16, u16), (u16, u16))>, cursor: bool)
    -> (r: (char, CellStyle))
    ensures
        r == shown_cell(*cell, row, col, sel, cursor),
{
    let (ch, mut st) = cell_to_span(cell);
    match sel {
        Some(range) => {
            if cell_in_selection(row, col, range) {
                st = invert(st);
            }
        },
        None => {},
    }
    if cursor {
        st = invert(st);
    }
    (ch, st)
}

// ── SGR ────────────────────────────────────────────────────────────────────

/// The SGR parameter for a display colour as foreground (`is_fg`) or
/// background; none for the default colour and for grey.
pub open spec fn color_code(c: Color, is_fg: bool) -> Option<Seq<char>> {
    let base: nat = if is_fg { 30 } else { 40 };
    let bright: nat = if is_fg { 90 } else { 100 };
    let ext: Seq<char> = if is_fg { seq!['3', '8'] } else { seq!['4', '8'] };
    match c {
        Color::Reset => None,
        Color::Black => Some(decimal(base)),
        Color::Red => Some(decimal(base + 1)),
        Color::Green => Some(decimal(base + 2)),
        Color::Yellow => Some(decimal(base + 3)),
        Color::Blue => Some(decimal(base + 4)),
        Color::Magenta => Some(decimal(base + 5)),
        Color::Cyan => Some(decimal(base + 6)),
        Color::White => Some(decimal(base + 7)),
        Color::DarkGray => Some(decimal(bright)),
        Color::LightRed => Some(decimal(bright + 1)),
        Color::LightGreen => Some(decimal(bright + 2)),
        Color::LightYellow => Some(decimal(bright + 3)),
        Color::LightBlue => Some(decimal(bright + 4)),
        Color::LightMagenta => Some(decimal(bright + 5)),
        Color::LightCyan => Some(decimal(bright + 6)),
        Color::Indexed(i) => Some(ext + seq![';', '5', ';'] + decimal(i as nat)),
        Color::Rgb(r, g, b) => Some(ext + seq![';', '2', ';'] + decimal(r as nat) + seq![';'] + decimal(g as nat)
            + seq![';'] + decimal(b as nat)),
        Color::Gray => None,
    }
}

/// The SGR parameter of a display colour.
pub fn ratatui_color_to_ansi_code(color: Color, is_fg: bool) -> (r: Option<String>)
    ensures
        match r {
            Some(s) => color_code(color, is_fg) == Some(s@),
            None => color_code(color, is_fg) is None,
        },
{
    let base: u32 = if is_fg { 30 } else { 40 };
    let bright: u32 = if is_fg { 90 } else { 100 };
    let mut s = String::new();
    let ghost empty = s@;
    proof { assert(empty =~= Seq::<char>::empty()); }
    match color {
        Color::Reset => { return None; },
        Color::Gray => { return None; },
        Color::Black => push_decimal(&mut s, base),
        Color::Red => push_decimal(&mut s, base + 1),
        Color::Green => push_decimal(&mut s, base + 2),
        Color::Yellow => push_decimal(&mut s, base + 3),
        Color::Blue => push_decimal(&mut s, base + 4),
        Color::Magenta => push_decimal(&mut s, base + 5),
        Color::Cyan => push_decimal(&mut s, base + 6),
        Color::White => push_decimal(&mut s, base + 7),
        Color::DarkGray => push_decimal(&mut s, bright),
        Color::LightRed => push_decimal(&mut s, bright + 1),
        Color::LightGreen => push_decimal(&mut s, bright + 2),
        Color::LightYellow => push_decimal(&mut s, bright + 3),
        Color::LightBlue => push_decimal(&mut s, bright + 4),
        Color::LightMagenta => push_decimal(&mut s, bright + 5),
        Color::LightCyan => push_decimal(&mut s, bright + 6),
        Color::Indexed(i) => {
            push_char(&mut s, if is_fg { '3' } else { '4' });
            push_char(&mut s, '8');
            push_char(&mut s, ';');
            push_char(&mut s, '5');
            push_char(&mut s, ';');
            push_decimal(&mut s, i as u32);
        },
        Color::Rgb(r, g, b) => {
            push_char(&mut s, if is_fg { '3' } else { '4' });
            push_char(&mut s, '8');
            push_char(&mut s, ';');
            push_char(&mut s, '2');
            push_char(&mut s, ';');
            push_decimal(&mut s, r as u32);
            push_char(&mut s, ';');
            push_decimal(&mut s, g as u32);
            push_char(&mut s, ';');
            push_decimal(&mut s, b as u32);
        },
    }
    proof {
        let ext: Seq<char> = if is_fg { seq!['3', '8'] } else { seq!['4', '8'] };
        match color {
            Color::Indexed(i) => {
                assert(s@ =~= ext + seq![';', '5', ';'] + decimal(i as nat));
            },
            Color::Rgb(r, g, b) => {
                assert(s@ =~= ext + seq![';', '2', ';'] + decimal(r as nat) + seq![';'] + decimal(g as nat)
                    + seq![';'] + decimal(b as nat));
            },
            _ => {
                assert(s@ =~= color_code(color, is_fg)->0);
            },
        }
    }
    Some(s)
}

/// SGR parameters of a style: a reset, the colours, then bold (1), italic
/// (3) and underline (4).
pub open spec fn sgr_params(st: CellStyle) -> Seq<Seq<char>> {
    let fg: Seq<Seq<char>> = match st.fg {
        Some(c) => match color_code(c, true) { Some(p) => seq![p], None => Seq::empty() },
        None => Seq::empty(),
    };
    let bg: Seq<Seq<char>> = match st.bg {
        Some(c) => match color_code(c, false) { Some(p) => seq![p], None => Seq::empty() },
        None => Seq::empty(),
    };
    seq![seq!['0']] + fg + bg
        + (if st.bold { seq![seq!['1']] } else { Seq::empty() })
        + (if st.italic { seq![seq!['3']] } else { Seq::empty() })
        + (if st.underlined { seq![seq!['4']] } else { Seq::empty() })
}

/// Parameters joined with `;`.
pub open spec fn join_params(ps: Seq<Seq<char>>) -> Seq<char>
    decreases ps.len(),
{
    if ps.len() == 0 {
        Seq::empty()
    } else if ps.len() == 1 {
        ps[0]
    } else {
        join_params(ps.drop_last()) + seq![';'] + ps.last()
    }
}

/// The SGR escape sequence of a style: `ESC [`, the parameters, `m`. It
/// starts with a reset so no earlier attribute carries over.
pub open spec fn sgr(st: CellStyle) -> Seq<char> {
    seq!['\x1b', '['] + join_params(sgr_params(st)) + seq!['m']
}

/// The character sequences of a list of strings.
pub open spec fn views(v: Seq<String>) -> Seq<Seq<char>> {
    Seq::new(v.len(), |i: int| v[i]@)
}

fn push_param(params: &mut Vec<String>, p: String)
    ensures
        views(final(params)@) == views(old(params)@).push(p@),
{
    params.push(p);
    assert(views(params@) =~= views(old(params)@).push(p@));
}

/// Builds the SGR escape sequence of a style.
pub fn style_to_sgr(style: &CellStyle) -> (r: String)
    ensures
        r@ == sgr(*style),
{
    let mut params: Vec<String> = Vec::new();
    assert(views(params@) =~= Seq::<Seq<char>>::empty());
    proof {
        reveal_strlit("0");
        reveal_strlit("1");
        reveal_strlit("3");
        reveal_strlit("4");
        assert("0"@ =~= seq!['0']);
        assert("1"@ =~= seq!['1']);
        assert("3"@ =~= seq!['3']);
        assert("4"@ =~= seq!['4']);
    }
    push_param(&mut params, crate::text::owned("0"));
    let ghost p0 = views(params@);
    match style.fg {
        Some(c) => match ratatui_color_to_ansi_code(c, true) {
            Some(p) => push_param(&mut params, p),
            None => {},
        },
        None => {},
    }
    let ghost p1 = views(params@);
    match style.bg {
        Some(c) => match ratatui_color_to_ansi_code(c, false) {
            Some(p) => push_param(&mut params, p),
            None => {},
        },
        None => {},
    }
    let ghost p2 = views(params@);
    if style.bold {
        push_param(&mut params, crate::text::owned("1"));
    }
    let ghost p3 = views(params@);
    if style.italic {
        push_param(&mut params, crate::text::owned("3"));
    }
    let ghost p4 = views(params@);
    if style.underlined {
        push_param(&mut params, crate::text::owned("4"));
    }
    proof {
        let st = *style;
        let fg: Seq<Seq<char>> = match st.fg {
            Some(c) => match color_code(c, true) { Some(p) => seq![p], None => Seq::empty() },
            None => Seq::empty(),
        };
        let bg: Seq<Seq<char>> = match st.bg {
            Some(c) => match color_code(c, false) { Some(p) => seq![p], None => Seq::empty() },
            None => Seq::empty(),
        };
        assert(p0 =~= seq![seq!['0']]);
        assert(p1 =~= p0 + fg);
        assert(p2 =~= p1 + bg);
        assert(p3 =~= p2 + (if st.bold { seq![seq!['1']] } else { Seq::empty() }));
        assert(p4 =~= p3 + (if st.italic { seq![seq!['3']] } else { Seq::empty() }));
        assert(views(params@) =~= p4 + (if st.underlined { seq![seq!['4']] } else { Seq::empty() }));
        assert(views(params@) =~= sgr_params(st));
    }
    assert(params@.len() >= 1) by {
        assert(views(params@).len() == params@.len());
        assert(sgr_params(*style)[0] == seq!['0']);
    }
    let mut out = crate::text::owned("\x1b[");
    let n = params.len();
    let mut i: usize = 0;
    proof { reveal_strlit("\x1b["); }
    while i < n
        invariant
            n == params@.len(),
            i <= n,
            n >= 1,
            out@ == seq!['\x1b', '['] + join_params(views(params@).take(i as int)),
        decreases n - i,
    {
        let ghost ps = views(params@);
        if i > 0 {
            push_char(&mut out, ';');
        }
        push_str(&mut out, params[i].as_str());
        proof {
            let t = ps.take(i as int + 1);
            assert(t.drop_last() =~= ps.take(i as int));
            assert(t.last() == params@[i as int]@);
            if i == 0 {
                assert(ps.take(0) =~= Seq::<Seq<char>>::empty());
                assert(t.len() == 1);
                assert(join_params(t) == t[0]);
                assert(out@ =~= seq!['\x1b', '['] + join_params(t));
            } else {
                assert(join_params(t) == join_params(t.drop_last()) + seq![';'] + t.last());
                assert(out@ =~= seq!['\x1b', '['] + join_params(t));
            }
        }
        i = i + 1;
    }
    push_char(&mut out, 'm');
    proof {
        assert(views(params@).take(n as int) =~= views(params@));
    }
    out
}


// ── runs of one style ──────────────────────────────────────────────────────

/// A row of displayed cells grouped into maximal runs of one style, left
/// to right.
pub open spec fn spans_of(cells: Seq<(char, CellStyle)>) -> Seq<(Seq<char>, CellStyle)>
    decreases cells.len(),
{
    if cells.len() == 0 {
        Seq::empty()
    } else {
        let prev = spans_of(cells.drop_last());
        let c = cells.last().0;
        let st = cells.last().1;
        if prev.len() > 0 && prev.last().1 == st {
            prev.drop_last().push((prev.last().0.push(c), st))
        } else {
            prev.push((seq![c], st))
        }
    }
}

/// Plain-value view of a list of spans.
pub open spec fn span_views(v: Seq<(String, CellStyle)>) -> Seq<(Seq<char>, CellStyle)> {
    Seq::new(v.len(), |i: int| (v[i].0@, v[i].1))
}

/// Groups a row of displayed cells into runs of one style.
pub fn group_spans(cells: &Vec<(char, CellStyle)>) -> (r: Vec<(String, CellStyle)>)
    ensures
        span_views(r@) == spans_of(cells@),
{
    let mut spans: Vec<(String, CellStyle)> = Vec::new();
    let mut current_text = String::new();
    let mut current_style = CellStyle::plain();
    let n = cells.len();
    let mut i: usize = 0;
    proof {
        assert(span_views(spans@) =~= Seq::<(Seq<char>, CellStyle)>::empty());
        assert(current_text@ =~= Seq::<char>::empty());
        assert(cells@.take(0) =~= Seq::<(char, CellStyle)>::empty());
    }
    while i < n
        invariant
            n == cells@.len(),
            i <= n,
            i == 0 ==> current_text@.len() == 0 && spans@.len() == 0,
            i > 0 ==> current_text@.len() > 0,
            spans_of(cells@.take(i as int)) == (if i == 0 { span_views(spans@) } else {
                span_views(spans@).push((current_text@, current_style)) }),
        decreases n - i,
    {
        let (ch, st) = cells[i];
        let ghost prev = spans_of(cells@.take(i as int));
        let ghost old_spans = span_views(spans@);
        let ghost old_text = current_text@;
        let ghost old_style = current_style;
        proof {
            let t = cells@.take(i as int + 1);
            assert(t.drop_last() =~= cells@.take(i as int));
            assert(t.last() == (ch, st));
        }
        if st == current_style {
            push_char(&mut current_text, ch);
            proof {
                if i == 0 {
                    assert(spans_of(cells@.take(1)) =~= seq![(seq![ch], st)]);
                    assert(current_text@ =~= seq![ch]);
                    assert(span_views(spans@).push((current_text@, current_style)) =~= seq![(seq![ch], st)]);
                } else {
                    assert(prev.last() == (old_text, old_style));
                    assert(prev.drop_last() =~= old_spans);
                }
            }
        } else {
            if current_text.as_str().unicode_len() > 0 {
                let text = current_text;
                spans.push((text, current_style));
                proof {
                    assert(span_views(spans@) =~= old_spans.push((old_text, old_style)));
                }
            } else {
                proof { assert(i == 0); }
            }
            current_text = String::new();
            push_char(&mut current_text, ch);
            current_style = st;
            proof {
                assert(current_text@ =~= seq![ch]);
                if i == 0 {
                    assert(spans_of(cells@.take(1)) =~= seq![(seq![ch], st)]);
                    assert(span_views(spans@).push((current_text@, current_style)) =~= seq![(seq![ch], st)]);
                } else {
                    assert(prev.last().1 != st);
                    assert(span_views(spans@) == prev);
                }
            }
        }
        i = i + 1;
    }
    if current_text.as_str().unicode_len() > 0 {
        let ghost old_spans = span_views(spans@);
        spans.push((current_text, current_style));
        proof { assert(span_views(spans@) =~= old_spans.push((current_text@, current_style))); }
    }
    proof { assert(cells@.take(n as int) =~= cells@); }
    spans
}

/// Whether any displayed character is not a space.
pub fn has_visible_content(cells: &Vec<(char, CellStyle)>) -> (r: bool)
    ensures
        r == exists|i: int| 0 <= i < cells@.len() && (#[trigger] cells@[i]).0 != ' ',
{
    let mut i: usize = 0;
    while i < cells.len()
        invariant
            i <= cells@.len(),
            forall|j: int| 0 <= j < i ==> (#[trigger] cells@[j]).0 == ' ',
        decreases cells.len() - i,
    {
        if cells[i].0 != ' ' {
            return true;
        }
        i = i + 1;
    }
    false
}


// ── hyperlinks ─────────────────────────────────────────────────────────────

/// A displayed cell that carries an OSC 8 hyperlink; `row` and `col` are
/// relative to the pane's inner area, `style` is the style it is drawn with.
#[derive(Debug)]
pub struct HyperlinkCell {
    pub row: u16,
    pub col: u16,
    pub ch: char,
    pub style: CellStyle,
    pub uri: String,
    pub id: String,
}

/// Plain-value view of a hyperlink cell.
pub struct LinkView {
    pub row: u16,
    pub col: u16,
    pub ch: char,
    pub style: CellStyle,
    pub uri: Seq<char>,
    pub id: Seq<char>,
}

impl View for HyperlinkCell {
    type V = LinkView;

    open spec fn view(&self) -> LinkView {
        LinkView { row: self.row, col: self.col, ch: self.ch, style: self.style, uri: self.uri@, id: self.id@ }
    }
}

/// Plain-value views of hyperlink cells.
pub open spec fn link_views(v: Seq<HyperlinkCell>) -> Seq<LinkView> {
    Seq::new(v.len(), |i: int| v[i]@)
}

/// Cell `j` continues the run that starts at cell `i`: same link, same
/// row, next column after cell `j - 1`.
pub open spec fn continues_run(cells: Seq<LinkView>, i: int, j: int) -> bool {
    &&& cells[j].uri == cells[i].uri
    &&& cells[j].id == cells[i].id
    &&& cells[j].row == cells[j - 1].row
    &&& cells[j].col == cells[j - 1].col + 1
}

/// End (exclusive) of the run starting at `i`, looking from `j` on.
pub open spec fn run_end(cells: Seq<LinkView>, i: int, j: int) -> int
    decreases cells.len() - j,
{
    if 0 <= i < j < cells.len() && continues_run(cells, i, j) { run_end(cells, i, j + 1) } else { j }
}

pub proof fn lemma_run_end(cells: Seq<LinkView>, i: int, j: int)
    requires
        0 <= i < j <= cells.len(),
    ensures
        j <= run_end(cells, i, j) <= cells.len(),
        forall|k: int| j <= k < run_end(cells, i, j) ==> continues_run(cells, i, k),
        run_end(cells, i, j) < cells.len() ==> !continues_run(cells, i, run_end(cells, i, j)),
    decreases cells.len() - j,
{
    if j < cells.len() && continues_run(cells, i, j) {
        lemma_run_end(cells, i, j + 1);
    }
}

/// The cells `k..j` with an SGR sequence before each change of style;
/// `cur` is the style in force before cell `k`.
pub open spec fn styled_chars(cells: Seq<LinkView>, k: int, j: int, cur: Option<CellStyle>) -> Seq<char>
    decreases j - k,
{
    if k >= j || k < 0 || j > cells.len() {
        Seq::empty()
    } else {
        let st = cells[k].style;
        (if cur != Some(st) { sgr(st) } else { Seq::empty() }) + seq![cells[k].ch]
            + styled_chars(cells, k + 1, j, Some(st))
    }
}

/// `ESC [ row ; col H`: move the cursor to a 1-based screen position.
pub open spec fn cursor_to(row: nat, col: nat) -> Seq<char> {
    seq!['\x1b', '['] + decimal(row) + seq![';'] + decimal(col) + seq!['H']
}

/// `ESC ] 8 ; ; uri ESC \`: open a hyperlink.
pub open spec fn osc8_open(uri: Seq<char>) -> Seq<char> {
    seq!['\x1b', ']', '8', ';', ';'] + uri + seq!['\x1b', '\\']
}

/// Close a hyperlink.
pub open spec fn osc8_close() -> Seq<char> {
    osc8_open(Seq::empty())
}

/// The annotation of the run `i..j` of a pane whose inner area starts at
/// `(ix, iy)`: move to its first cell, open the link, redraw the cells
/// with their styles, close the link.
pub open spec fn run_text(cells: Seq<LinkView>, i: int, j: int, ix: u16, iy: u16) -> Seq<char> {
    cursor_to((iy + cells[i].row + 1) as nat, (ix + cells[i].col + 1) as nat) + osc8_open(cells[i].uri)
        + styled_chars(cells, i, j, None) + osc8_close()
}

/// The annotations of the runs from cell `i` on.
pub open spec fn runs_text(cells: Seq<LinkView>, i: int, ix: u16, iy: u16) -> Seq<char>
    decreases cells.len() - i,
{
    if i < 0 || i >= cells.len() {
        Seq::empty()
    } else {
        let j = run_end(cells, i, i + 1);
        proof { lemma_run_end(cells, i, i + 1); }
        run_text(cells, i, j, ix, iy) + runs_text(cells, j, ix, iy)
    }
}

fn push_cursor_to(out: &mut String, row: u32, col: u32)
    ensures
        final(out)@ == old(out)@ + cursor_to(row as nat, col as nat),
{
    push_char(out, '\x1b');
    push_char(out, '[');
    push_decimal(out, row);
    push_char(out, ';');
    push_decimal(out, col);
    push_char(out, 'H');
    assert(out@ =~= old(out)@ + cursor_to(row as nat, col as nat));
}

fn push_osc8(out: &mut String, uri: &str)
    ensures
        final(out)@ == old(out)@ + osc8_open(uri@),
{
    push_char(out, '\x1b');
    push_char(out, ']');
    push_char(out, '8');
    push_char(out, ';');
    push_char(out, ';');
    push_str(out, uri);
    push_char(out, '\x1b');
    push_char(out, '\\');
    assert(out@ =~= old(out)@ + osc8_open(uri@));
}

/// Whether cell `j` continues the run starting at cell `i`.
fn continues(cells: &Vec<HyperlinkCell>, i: usize, j: usize) -> (r: bool)
    requires
        i < j < cells@.len(),
    ensures
        r == continues_run(link_views(cells@), i as int, j as int),
{
    let a = &cells[i];
    let b = &cells[j];
    let p = &cells[j - 1];
    crate::text::str_eq(b.uri.as_str(), a.uri.as_str()) && crate::text::str_eq(b.id.as_str(), a.id.as_str())
        && b.row == p.row && (b.col as u32) == (p.col as u32) + 1
}

/// OSC 8 annotations for the hyperlink cells of one pane whose inner area
/// starts at column `inner_x`, row `inner_y`: consecutive cells of one
/// link on one row become a single run.
pub fn hyperlink_annotations(cells: &Vec<HyperlinkCell>, inner_x: u16, inner_y: u16) -> (r: String)
    ensures
        r@ == runs_text(link_views(cells@), 0, inner_x, inner_y),
{
    let ghost cv = link_views(cells@);
    let mut out = String::new();
    let n = cells.len();
    let mut i: usize = 0;
    assert(out@ =~= Seq::<char>::empty());
    while i < n
        invariant
            n == cells@.len(),
            cv == link_views(cells@),
            i <= n,
            out@ + runs_text(cv, i as int, inner_x, inner_y) == runs_text(cv, 0, inner_x, inner_y),
        decreases n - i,
    {
        let mut j = i + 1;
        while j < n && continues(cells, i, j)
            invariant
                n == cells@.len(),
                cv == link_views(cells@),
                i < j <= n,
                run_end(cv, i as int, i as int + 1) == run_end(cv, i as int, j as int),
            decreases n - j,
        {
            j = j + 1;
        }
        proof {
            lemma_run_end(cv, i as int, i as int + 1);
            assert(run_end(cv, i as int, j as int) == j);
        }
        let ghost before = out@;
        let start = &cells[i];
        push_cursor_to(&mut out, inner_y as u32 + start.row as u32 + 1, inner_x as u32 + start.col as u32 + 1);
        push_osc8(&mut out, start.uri.as_str());
        let mut cur: Option<CellStyle> = None;
        let mut k = i;
        let ghost mid = out@;
        while k < j
            invariant
                n == cells@.len(),
                cv == link_views(cells@),
                i <= k <= j <= n,
                out@ + styled_chars(cv, k as int, j as int, cur) == mid + styled_chars(cv, i as int, j as int, None),
            decreases j - k,
        {
            let cell = &cells[k];
            let ghost o = out@;
            let ghost old_cur = cur;
            if cur != Some(cell.style) {
                let code = style_to_sgr(&cell.style);
                push_str(&mut out, code.as_str());
                cur = Some(cell.style);
            }
            push_char(&mut out, cell.ch);
            proof {
                assert(cv[k as int] == cells@[k as int]@);
                let st = cell.style;
                assert(styled_chars(cv, k as int, j as int, old_cur) == (if old_cur != Some(st) { sgr(st) } else {
                    Seq::<char>::empty() }) + seq![cell.ch] + styled_chars(cv, k + 1, j as int, Some(st)));
                assert(out@ + styled_chars(cv, k + 1, j as int, cur) =~= o + styled_chars(cv, k as int, j as int, old_cur));
            }
            k = k + 1;
        }
        push_osc8(&mut out, "");
        proof {
            reveal_strlit("");
            assert(""@ =~= Seq::<char>::empty());
            assert(cv[i as int] == cells@[i as int]@);
            assert(out@ =~= before + run_text(cv, i as int, j as int, inner_x, inner_y));
            assert(runs_text(cv, i as int, inner_x, inner_y)
                == run_text(cv, i as int, j as int, inner_x, inner_y) + runs_text(cv, j as int, inner_x, inner_y));
        }
        i = j;
    }
    out
}


/// What follows the annotations: reset the SGR state, then put the cursor
/// back at `pos` inside the pane whose inner area starts at `origin`
/// (both `(col, row)`), when there is such a cursor.
pub open spec fn annotation_footer(cursor: Option<((u16, u16), (u16, u16))>) -> Seq<char> {
    seq!['\x1b', '[', '0', 'm'] + match cursor {
        Some(c) => cursor_to((c.0.1 + c.1.1 + 1) as nat, (c.0.0 + c.1.0 + 1) as nat),
        None => Seq::empty(),
    }
}

/// Builds the text that ends the hyperlink annotations.
pub fn hyperlink_footer(cursor: Option<((u16, u16), (u16, u16))>) -> (r: String)
    ensures
        r@ == annotation_footer(cursor),
{
    let mut out = String::new();
    push_char(&mut out, '\x1b');
    push_char(&mut out, '[');
    push_char(&mut out, '0');
    push_char(&mut out, 'm');
    match cursor {
        Some(((ix, iy), (col, row))) => push_cursor_to(&mut out, iy as u32 + row as u32 + 1, ix as u32 + col as u32 + 1),
        None => {},
    }
    assert(out@ =~= annotation_footer(cursor));
    out
}

// ── pane chrome ────────────────────────────────────────────────────────────

/// Border title of a pane: the terminal's title when it set one, else
/// `tpane`, marked when the pane is active.
pub open spec fn title_text(title: Seq<char>, active: bool) -> Seq<char> {
    let name: Seq<char> = if title.len() == 0 { seq!['t', 'p', 'a', 'n', 'e'] } else { title };
    seq![' '] + name + (if active { seq![' ', '[', 'a', 'c', 't', 'i', 'v', 'e', ']', ' '] } else { seq![' '] })
}

/// Builds a pane's border title.
pub fn pane_title(title: &str, active: bool) -> (r: String)
    ensures
        r@ == title_text(title@, active),
{
    let mut out = String::new();
    push_char(&mut out, ' ');
    if title.unicode_len() == 0 {
        proof { reveal_strlit("tpane"); }
        push_str(&mut out, "tpane");
    } else {
        push_str(&mut out, title);
    }
    if active {
        proof { reveal_strlit(" [active] "); }
        push_str(&mut out, " [active] ");
    } else {
        push_char(&mut out, ' ');
    }
    assert(out@ =~= title_text(title@, active));
    out
}

/// Ordered selection range to highlight in pane `pane_id`: the selection
/// when it is in that pane and not click-sized.
pub open spec fn highlight_range(sel: Option<crate::selection::Selection>, pane_id: crate::layout::PaneId)
    -> Option<((u16, u16), (u16, u16))> {
    match sel {
        Some(s) => if s.pane_id == pane_id && s.start != s.end {
            Some(if crate::selection::cell_le(s.start, s.end) { (s.start, s.end) } else { (s.end, s.start) })
        } else {
            None
        },
        None => None,
    }
}

/// The selection range to highlight in a pane.
pub fn selection_range_for(sel: Option<crate::selection::Selection>, pane_id: crate::layout::PaneId)
    -> (r: Option<((u16, u16), (u16, u16))>)
    ensures
        r == highlight_range(sel, pane_id),
{
    match sel {
        Some(s) => if s.pane_id == pane_id && !s.is_empty() { Some(s.ordered()) } else { None },
        None => None,
    }
}

/// Frame of the loading spinner after `elapsed_ms` milliseconds: one of
/// ten braille frames, advancing every 80 ms.
pub open spec fn spinner_at(elapsed_ms: u64) -> char {
    let f = (elapsed_ms / 80) % 10;
    if f == 0 { '⠋' } else if f == 1 { '⠙' } else if f == 2 { '⠹' } else if f == 3 { '⠸' }
    else if f == 4 { '⠼' } else if f == 5 { '⠴' } else if f == 6 { '⠦' } else if f == 7 { '⠧' }
    else if f == 8 { '⠇' } else { '⠏' }
}

/// The loading spinner frame.
pub fn spinner_frame(elapsed_ms: u64) -> (r: char)
    ensures
        r == spinner_at(elapsed_ms),
{
    let f = (elapsed_ms / 80) % 10;
    if f == 0 { '⠋' } else if f == 1 { '⠙' } else if f == 2 { '⠹' } else if f == 3 { '⠸' }
    else if f == 4 { '⠼' } else if f == 5 { '⠴' } else if f == 6 { '⠦' } else if f == 7 { '⠧' }
    else if f == 8 { '⠇' } else { '⠏' }
}

} // verus!
