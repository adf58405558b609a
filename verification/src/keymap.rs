//! Key chord parsing and key-to-command mapping.

use vstd::prelude::*;
use crate::commands::Command;
use crate::keys::{ascii_lower, to_ascii_lower, KeyCode, KeyEvent, KeyModifiers};
use crate::text::chars_of;

verus! {

/// A normalized key chord, e.g. Ctrl+Shift+T.
#[derive(Debug, Clone, Copy, PartialEq, Eq, Structural)]
pub struct KeyChord {
    pub modifiers: KeyModifiers,
    pub code: KeyCode,
}

/// Unicode lower-casing of a string (`str::to_lowercase`).
pub uninterp spec fn unicode_lowercase(s: Seq<char>) -> Seq<char>;

/// Calls `str::to_lowercase`; the result is named by `unicode_lowercase`.
#[verifier::external_body]
fn to_lowercase(s: &str) -> (r: String)
    ensures
        r@ == unicode_lowercase(s@),
{
    s.to_lowercase()
}

/// The chord a key event stands for: character keys are ASCII lower-cased
/// so that `Char('T')` with Shift matches a binding written as `shift+t`.
pub open spec fn chord_of_event(event: KeyEvent) -> KeyChord {
    KeyChord {
        modifiers: event.modifiers,
        code: match event.code {
            KeyCode::Char(c) => KeyCode::Char(ascii_lower(c)),
            other => other,
        },
    }
}

/// The pieces of `s` between `+` separators (as `str::split('+')`).
pub open spec fn split_plus(s: Seq<char>) -> Seq<Seq<char>>
    decreases s.len(),
{
    if s.len() == 0 {
        seq![Seq::empty()]
    } else {
        let p = split_plus(s.drop_last());
        if s.last() == '+' {
            p.push(Seq::empty())
        } else {
            p.update(p.len() - 1, p.last().push(s.last()))
        }
    }
}

/// The modifier a configuration word names.
pub open spec fn modifier_named(w: Seq<char>) -> Option<KeyModifiers> {
    if w == "ctrl"@ || w == "control"@ {
        Some(KeyModifiers { shift: false, control: true, alt: false, super_key: false, hyper: false, meta: false })
    } else if w == "shift"@ {
        Some(KeyModifiers { shift: true, control: false, alt: false, super_key: false, hyper: false, meta: false })
    } else if w == "alt"@ || w == "meta"@ {
        Some(KeyModifiers { shift: false, control: false, alt: true, super_key: false, hyper: false, meta: false })
    } else {
        None
    }
}

/// The union of the modifiers that `ws` name; `None` if a word is unknown.
pub open spec fn modifiers_named(ws: Seq<Seq<char>>) -> Option<KeyModifiers>
    decreases ws.len(),
{
    if ws.len() == 0 {
        Some(KeyModifiers::spec_empty())
    } else {
        match modifiers_named(ws.drop_last()) {
            Some(a) => match modifier_named(ws.last()) {
                Some(b) => Some(a.spec_union(b)),
                None => None,
            },
            None => None,
        }
    }
}

/// ASCII decimal digit.
pub open spec fn is_digit(c: char) -> bool {
    '0' <= c <= '9'
}

/// Value of a string of decimal digits.
pub open spec fn digits_value(s: Seq<char>) -> int
    decreases s.len(),
{
    if s.len() == 0 { 0 } else { digits_value(s.drop_last()) * 10 + (s.last() as int - '0' as int) }
}

/// The `u8` a string denotes (as `u8::from_str` on a string without `+`):
/// one or more decimal digits with a value of at most 255.
pub open spec fn u8_named(s: Seq<char>) -> Option<u8> {
    if s.len() >= 1 && (forall|i: int| 0 <= i < s.len() ==> is_digit(#[trigger] s[i])) && digits_value(s) <= 255 {
        Some(digits_value(s) as u8)
    } else {
        None
    }
}

/// The key a configuration word names: a key name, a single ASCII
/// character, or `f` followed by a number.
pub open spec fn key_code_named(s: Seq<char>) -> Option<KeyCode> {
    if s == "enter"@ || s == "return"@ { Some(KeyCode::Enter) }
    else if s == "space"@ { Some(KeyCode::Char(' ')) }
    else if s == "tab"@ { Some(KeyCode::Tab) }
    else if s == "backspace"@ || s == "bs"@ { Some(KeyCode::Backspace) }
    else if s == "delete"@ || s == "del"@ { Some(KeyCode::Delete) }
    else if s == "escape"@ || s == "esc"@ { Some(KeyCode::Esc) }
    else if s == "up"@ { Some(KeyCode::Up) }
    else if s == "down"@ { Some(KeyCode::Down) }
    else if s == "left"@ { Some(KeyCode::Left) }
    else if s == "right"@ { Some(KeyCode::Right) }
    else if s == "home"@ { Some(KeyCode::Home) }
    else if s == "end"@ { Some(KeyCode::End) }
    else if s == "pageup"@ || s == "pgup"@ { Some(KeyCode::PageUp) }
    else if s == "pagedown"@ || s == "pgdn"@ || s == "pgdown"@ { Some(KeyCode::PageDown) }
    else if s.len() == 1 && (s[0] as u32) < 128 { Some(KeyCode::Char(s[0])) }
    else if s.len() >= 1 && s[0] == 'f' {
        match u8_named(s.drop_first()) {
            Some(n) => Some(KeyCode::F(n)),
            None => None,
        }
    }
    else { None }
}

/// The chord an already lower-cased chord string describes: modifier words
/// joined with `+`, then a key word.
pub open spec fn chord_named(s: Seq<char>) -> Option<KeyChord> {
    let parts = split_plus(s);
    match modifiers_named(parts.drop_last()) {
        Some(m) => match key_code_named(parts.last()) {
            Some(c) => Some(KeyChord { modifiers: m, code: c }),
            None => None,
        },
        None => None,
    }
}

proof fn lemma_split_plus_nonempty(s: Seq<char>)
    ensures
        split_plus(s).len() >= 1,
    decreases s.len(),
{
    if s.len() > 0 {
        lemma_split_plus_nonempty(s.drop_last());
    }
}

fn chars_eq(v: &Vec<char>, lit: &str) -> (r: bool)
    ensures
        r == (v@ == lit@),
{
    let n = lit.unicode_len();
    if v.len() != n {
        return false;
    }
    let mut i: usize = 0;
    while i < n
        invariant
            n == lit@.len(),
            n == v@.len(),
            i <= n,
            forall|j: int| 0 <= j < i ==> v@[j] == lit@[j],
        decreases n - i,
    {
        if v[i] != lit.get_char(i) {
            return false;
        }
        i = i + 1;
    }
    assert(v@ =~= lit@);
    true
}

fn split_on_plus(s: &Vec<char>) -> (r: Vec<Vec<char>>)
    ensures
        r@.len() == split_plus(s@).len(),
        forall|i: int| 0 <= i < r@.len() ==> (#[trigger] r@[i])@ == split_plus(s@)[i],
{
    let mut parts: Vec<Vec<char>> = Vec::new();
    let mut cur: Vec<char> = Vec::new();
    let mut i: usize = 0;
    while i < s.len()
        invariant
            i <= s.len(),
            parts@.len() + 1 == split_plus(s@.take(i as int)).len(),
            forall|k: int| 0 <= k < parts@.len() ==> (#[trigger] parts@[k])@ == split_plus(s@.take(i as int))[k],
            cur@ == split_plus(s@.take(i as int)).last(),
        decreases s.len() - i,
    {
        let ghost t = s@.take(i as int);
        let ghost t1 = s@.take(i as int + 1);
        proof {
            assert(t1.drop_last() =~= t);
            assert(t1.last() == s@[i as int]);
            lemma_split_plus_nonempty(t);
        }
        let c = s[i];
        if c == '+' {
            let done = cur;
            parts.push(done);
            cur = Vec::new();
            proof {
                assert(split_plus(t1) == split_plus(t).push(Seq::empty()));
                assert(cur@ =~= Seq::<char>::empty());
                assert forall|k: int| 0 <= k < parts@.len() implies (#[trigger] parts@[k])@ == split_plus(t1)[k] by {
                    if k < parts@.len() - 1 {
                    } else {
                        assert(parts@[k] == done);
                    }
                }
            }
        } else {
            cur.push(c);
            proof {
                assert(split_plus(t1) == split_plus(t).update(split_plus(t).len() - 1, split_plus(t).last().push(c)));
            }
        }
        i = i + 1;
    }
    proof {
        assert(s@.take(s@.len() as int) =~= s@);
    }
    let ghost final_parts = parts@;
    parts.push(cur);
    proof {
        assert forall|k: int| 0 <= k < parts@.len() implies (#[trigger] parts@[k])@ == split_plus(s@)[k] by {
            if k < final_parts.len() {
                assert(parts@[k] == final_parts[k]);
            }
        }
    }
    parts
}

fn modifier_from_word(w: &Vec<char>) -> (r: Option<KeyModifiers>)
    ensures
        r == modifier_named(w@),
{
    if chars_eq(w, "ctrl") || chars_eq(w, "control") {
        Some(KeyModifiers::control())
    } else if chars_eq(w, "shift") {
        Some(KeyModifiers::shift())
    } else if chars_eq(w, "alt") || chars_eq(w, "meta") {
        Some(KeyModifiers::alt())
    } else {
        None
    }
}

fn parse_u8(s: &Vec<char>, from: usize) -> (r: Option<u8>)
    requires
        from <= s.len(),
    ensures
        r == u8_named(s@.skip(from as int)),
{
    let ghost t = s@.skip(from as int);
    if from == s.len() {
        return None;
    }
    let mut value: u32 = 0;
    let mut i: usize = from;
    while i < s.len()
        invariant
            from <= i <= s.len(),
            t == s@.skip(from as int),
            value as int == digits_value(t.take(i - from)),
            value <= 255,
            forall|j: int| 0 <= j < i - from ==> is_digit(#[trigger] t[j]),
        decreases s.len() - i,
    {
        let c = s[i];
        let ghost pre = t.take(i - from);
        let ghost pre1 = t.take(i - from + 1);
        proof {
            assert(pre1.drop_last() =~= pre);
            assert(pre1.last() == c);
        }
        if !('0' <= c && c <= '9') {
            proof {
                assert(t[i - from] == c);
            }
            return None;
        }
        let d: u32 = (c as u32) - ('0' as u32);
        let next: u32 = value * 10 + d;
        if next > 255 {
            proof {
                assert(digits_value(pre1) == next);
                if forall|j: int| 0 <= j < t.len() ==> is_digit(#[trigger] t[j]) {
                    lemma_digits_prefix_monotone(t, i - from + 1);
                }
            }
            return None;
        }
        value = next;
        i = i + 1;
    }
    proof {
        assert(t.take(t.len() as int) =~= t);
    }
    Some(value as u8)
}

proof fn lemma_digits_prefix_monotone(t: Seq<char>, k: int)
    requires
        0 <= k <= t.len(),
        forall|j: int| 0 <= j < t.len() ==> is_digit(#[trigger] t[j]),
    ensures
        digits_value(t.take(k)) <= digits_value(t),
    decreases t.len() - k,
{
    if k < t.len() {
        lemma_digits_prefix_monotone(t, k + 1);
        let a = t.take(k + 1);
        assert(a.drop_last() =~= t.take(k));
        assert(a.last() == t[k]);
        assert(is_digit(t[k]));
        lemma_digits_nonneg(t.take(k));
    } else {
        assert(t.take(k) =~= t);
    }
}

proof fn lemma_digits_nonneg(t: Seq<char>)
    requires
        forall|j: int| 0 <= j < t.len() ==> is_digit(#[trigger] t[j]),
    ensures
        digits_value(t) >= 0,
    decreases t.len(),
{
    if t.len() > 0 {
        assert(is_digit(t[t.len() - 1]));
        lemma_digits_nonneg(t.drop_last());
    }
}

fn key_code_from_word(s: &Vec<char>) -> (r: Option<KeyCode>)
    ensures
        r == key_code_named(s@),
{
    if chars_eq(s, "enter") || chars_eq(s, "return") { Some(KeyCode::Enter) }
    else if chars_eq(s, "space") { Some(KeyCode::Char(' ')) }
    else if chars_eq(s, "tab") { Some(KeyCode::Tab) }
    else if chars_eq(s, "backspace") || chars_eq(s, "bs") { Some(KeyCode::Backspace) }
    else if chars_eq(s, "delete") || chars_eq(s, "del") { Some(KeyCode::Delete) }
    else if chars_eq(s, "escape") || chars_eq(s, "esc") { Some(KeyCode::Esc) }
    else if chars_eq(s, "up") { Some(KeyCode::Up) }
    else if chars_eq(s, "down") { Some(KeyCode::Down) }
    else if chars_eq(s, "left") { Some(KeyCode::Left) }
    else if chars_eq(s, "right") { Some(KeyCode::Right) }
    else if chars_eq(s, "home") { Some(KeyCode::Home) }
    else if chars_eq(s, "end") { Some(KeyCode::End) }
    else if chars_eq(s, "pageup") || chars_eq(s, "pgup") { Some(KeyCode::PageUp) }
    else if chars_eq(s, "pagedown") || chars_eq(s, "pgdn") || chars_eq(s, "pgdown") { Some(KeyCode::PageDown) }
    else if s.len() == 1 && (s[0] as u32) < 128 { Some(KeyCode::Char(s[0])) }
    else if s.len() >= 1 && s[0] == 'f' {
        proof { assert(s@.drop_first() =~= s@.skip(1)); }
        match parse_u8(s, 1) {
            Some(n) => Some(KeyCode::F(n)),
            None => None,
        }
    }
    else { None }
}

impl KeyChord {
    /// The chord of a key event (character keys ASCII lower-cased).
    pub fn from_event(event: &KeyEvent) -> (r: KeyChord)
        ensures
            r == chord_of_event(*event),
    {
        let code = match event.code {
            KeyCode::Char(c) => KeyCode::Char(to_ascii_lower(c)),
            other => other,
        };
        KeyChord { modifiers: event.modifiers, code }
    }

    /// Parses a human-readable chord such as `ctrl+shift+t`: the string is
    /// lower-cased, split at `+`, every piece but the last must name a
    /// modifier (`ctrl`/`control`, `shift`, `alt`/`meta`) and the last must
    /// name a key. Anything else gives `None`.
    pub fn parse(s: &str) -> (r: Option<KeyChord>)
        ensures
            r == chord_named(unicode_lowercase(s@)),
    {
        let lowered = to_lowercase(s);
        KeyChord::parse_lowered(lowered.as_str())
    }

    /// Parses a chord string that is already lower-cased.
    pub fn parse_lowered(s: &str) -> (r: Option<KeyChord>)
        ensures
            r == chord_named(s@),
    {
        let cs = chars_of(s);
        let parts = split_on_plus(&cs);
        proof { lemma_split_plus_nonempty(s@); }
        let ghost ps = split_plus(s@);
        let n = parts.len();
        let mut mods = KeyModifiers::empty();
        let mut i: usize = 0;
        while i + 1 < n
            invariant
                n == parts@.len(),
                n == ps.len(),
                ps == split_plus(s@),
                n >= 1,
                i + 1 <= n,
                forall|k: int| 0 <= k < parts@.len() ==> (#[trigger] parts@[k])@ == ps[k],
                modifiers_named(ps.take(i as int)) == Some(mods),
            decreases n - i,
        {
            let ghost pre1 = ps.take(i as int + 1);
            proof {
                assert(pre1.drop_last() =~= ps.take(i as int));
                assert(pre1.last() == ps[i as int]);
                assert(parts@[i as int]@ == ps[i as int]);
            }
            match modifier_from_word(&parts[i]) {
                Some(m) => {
                    mods = mods.union(m);
                },
                None => {
                    proof {
                        assert(ps.drop_last().take(i as int + 1) =~= pre1);
                        assert(modifiers_named(pre1) is None);
                        lemma_modifiers_none_extends(ps.drop_last(), i as int + 1);
                        assert(modifiers_named(ps.drop_last()) is None);
                        assert(chord_named(s@) is None);
                    }
                    return None;
                },
            }
            i = i + 1;
        }
        proof {
            assert(ps.take(i as int) =~= ps.drop_last());
            assert(parts@[n - 1]@ == ps.last());
        }
        match key_code_from_word(&parts[n - 1]) {
            Some(code) => Some(KeyChord { modifiers: mods, code }),
            None => None,
        }
    }
}

proof fn lemma_modifiers_none_extends(ws: Seq<Seq<char>>, k: int)
    requires
        0 <= k <= ws.len(),
        modifiers_named(ws.take(k)) is None,
    ensures
        modifiers_named(ws) is None,
    decreases ws.len() - k,
{
    if k < ws.len() {
        let a = ws.take(k + 1);
        assert(a.drop_last() =~= ws.take(k));
        lemma_modifiers_none_extends(ws, k + 1);
    } else {
        assert(ws.take(k) =~= ws);
    }
}


// ── key map ────────────────────────────────────────────────────────────────

/// The command bound to `k` in a binding list (the first entry for `k`).
pub open spec fn bound_in(s: Seq<(KeyChord, Command)>, k: KeyChord) -> Option<Command>
    decreases s.len(),
{
    if s.len() == 0 {
        None
    } else if s[0].0 == k {
        Some(s[0].1)
    } else {
        bound_in(s.drop_first(), k)
    }
}

/// No chord occurs twice in a binding list.
pub open spec fn keys_unique(s: Seq<(KeyChord, Command)>) -> bool {
    forall|i: int, j: int| 0 <= i < s.len() && 0 <= j < s.len() && i != j ==> s[i].0 != s[j].0
}

/// The map a binding list stands for.
pub open spec fn map_of(s: Seq<(KeyChord, Command)>) -> Map<KeyChord, Command> {
    Map::new(|k: KeyChord| bound_in(s, k) is Some, |k: KeyChord| bound_in(s, k)->0)
}

/// The chords bound to `c`, in list order.
pub open spec fn chords_bound_to(s: Seq<(KeyChord, Command)>, c: Command) -> Seq<KeyChord>
    decreases s.len(),
{
    if s.len() == 0 {
        Seq::empty()
    } else if s.last().1 == c {
        chords_bound_to(s.drop_last(), c).push(s.last().0)
    } else {
        chords_bound_to(s.drop_last(), c)
    }
}

proof fn lemma_bound_in_index(s: Seq<(KeyChord, Command)>, k: KeyChord)
    ensures
        bound_in(s, k) is Some <==> exists|i: int| 0 <= i < s.len() && s[i].0 == k,
        keys_unique(s) ==> forall|i: int| 0 <= i < s.len() && s[i].0 == k ==> bound_in(s, k) == Some(s[i].1),
    decreases s.len(),
{
    if s.len() > 0 {
        lemma_bound_in_index(s.drop_first(), k);
        let t = s.drop_first();
        if s[0].0 != k {
            assert forall|i: int| 0 <= i < s.len() && s[i].0 == k implies (0 <= i - 1 < t.len() && t[i - 1].0 == k) by {}
            if exists|i: int| 0 <= i < t.len() && t[i].0 == k {
                let i = choose|i: int| 0 <= i < t.len() && t[i].0 == k;
                assert(s[i + 1].0 == k);
            }
        }
        if keys_unique(s) {
            assert(keys_unique(t)) by {
                assert forall|i: int, j: int| 0 <= i < t.len() && 0 <= j < t.len() && i != j implies t[i].0 != t[j].0 by {
                    assert(t[i] == s[i + 1] && t[j] == s[j + 1]);
                }
            }
        }
    }
}

proof fn lemma_chords_bound_to(s: Seq<(KeyChord, Command)>, c: Command)
    requires
        keys_unique(s),
    ensures
        chords_bound_to(s, c).no_duplicates(),
        forall|k: KeyChord| chords_bound_to(s, c).contains(k) <==> (exists|i: int| 0 <= i < s.len() && s[i].0 == k && s[i].1 == c),
    decreases s.len(),
{
    if s.len() > 0 {
        let t = s.drop_last();
        assert(keys_unique(t)) by {
            assert forall|i: int, j: int| 0 <= i < t.len() && 0 <= j < t.len() && i != j implies t[i].0 != t[j].0 by {
                assert(t[i] == s[i] && t[j] == s[j]);
            }
        }
        lemma_chords_bound_to(t, c);
        let r = chords_bound_to(t, c);
        assert forall|k: KeyChord| chords_bound_to(s, c).contains(k) <==> (exists|i: int| 0 <= i < s.len() && s[i].0 == k && s[i].1 == c) by {
            if chords_bound_to(s, c).contains(k) {
                if s.last().1 == c && k == s.last().0 {
                    assert(s[s.len() - 1].0 == k);
                } else {
                    if s.last().1 == c {
                        let m = choose|m: int| 0 <= m < r.push(s.last().0).len() && r.push(s.last().0)[m] == k;
                        assert(m < r.len());
                        assert(r[m] == k);
                    }
                    assert(r.contains(k));
                    let i = choose|i: int| 0 <= i < t.len() && t[i].0 == k && t[i].1 == c;
                    assert(s[i] == t[i]);
                }
            }
            if exists|i: int| 0 <= i < s.len() && s[i].0 == k && s[i].1 == c {
                let i = choose|i: int| 0 <= i < s.len() && s[i].0 == k && s[i].1 == c;
                if i == s.len() - 1 {
                    assert(chords_bound_to(s, c) == r.push(k));
                    assert(r.push(k)[r.len() as int] == k);
                } else {
                    assert(t[i] == s[i]);
                    assert(r.contains(k));
                    let m = choose|m: int| 0 <= m < r.len() && r[m] == k;
                    if s.last().1 == c {
                        assert(r.push(s.last().0)[m] == k);
                    }
                }
            }
        }
        if s.last().1 == c {
            assert(!r.contains(s.last().0)) by {
                if r.contains(s.last().0) {
                    let i = choose|i: int| 0 <= i < t.len() && t[i].0 == s.last().0 && t[i].1 == c;
                    assert(s[i].0 == s[s.len() - 1].0);
                }
            }
            let rr = r.push(s.last().0);
            assert forall|i: int, j: int| 0 <= i < rr.len() && 0 <= j < rr.len() && i != j implies rr[i] != rr[j] by {
                if i < r.len() && j < r.len() {
                } else if i == r.len() {
                    assert(rr[i] == s.last().0);
                    assert(rr[j] == r[j]);
                } else {
                    assert(rr[j] == s.last().0);
                    assert(rr[i] == r[i]);
                }
            }
        }
    }
}

/// Maps key chords to commands, with a prefix key.
pub struct KeyMap {
    /// The prefix key (Ctrl+B by default). After it, the next key is looked
    /// up in the prefix bindings instead of going to the active pane.
    pub prefix_key: KeyChord,
    prefix_bindings: Vec<(KeyChord, Command)>,
    direct_bindings: Vec<(KeyChord, Command)>,
}

fn lookup_in(v: &Vec<(KeyChord, Command)>, k: KeyChord) -> (r: Option<usize>)
    ensures
        match r {
            Some(i) => i < v@.len() && v@[i as int].0 == k && bound_in(v@, k) == Some(v@[i as int].1),
            None => bound_in(v@, k) is None,
        },
{
    let mut i: usize = 0;
    assert(v@.skip(0) =~= v@);
    while i < v.len()
        invariant
            i <= v.len(),
            bound_in(v@, k) == bound_in(v@.skip(i as int), k),
        decreases v.len() - i,
    {
        proof {
            assert(v@.skip(i as int).drop_first() =~= v@.skip(i as int + 1));
            assert(v@.skip(i as int)[0] == v@[i as int]);
        }
        if v[i].0 == k {
            return Some(i);
        }
        i = i + 1;
    }
    None
}

fn bind_in(v: &mut Vec<(KeyChord, Command)>, k: KeyChord, c: Command)
    requires
        keys_unique(old(v)@),
    ensures
        keys_unique(final(v)@),
        map_of(final(v)@) == map_of(old(v)@).insert(k, c),
{
    proof { lemma_bound_in_index(v@, k); }
    let ghost before = v@;
    match lookup_in(v, k) {
        Some(i) => {
            v.set(i, (k, c));
            proof {
                assert forall|x: KeyChord| #[trigger] bound_in(v@, x) == (if x == k { Some(c) } else { bound_in(before, x) }) by {
                    lemma_bound_in_index(v@, x);
                    lemma_bound_in_index(before, x);
                    assert(keys_unique(v@)) by {
                        assert forall|a: int, b: int| 0 <= a < v@.len() && 0 <= b < v@.len() && a != b implies v@[a].0 != v@[b].0 by {
                            assert(v@[a].0 == before[a].0 && v@[b].0 == before[b].0);
                        }
                    }
                    if x == k {
                        assert(v@[i as int].0 == k);
                    } else {
                        if exists|j: int| 0 <= j < v@.len() && v@[j].0 == x {
                            let j = choose|j: int| 0 <= j < v@.len() && v@[j].0 == x;
                            assert(before[j].0 == x);
                            assert(j != i);
                            assert(v@[j] == before[j]);
                        }
                        if exists|j: int| 0 <= j < before.len() && before[j].0 == x {
                            let j = choose|j: int| 0 <= j < before.len() && before[j].0 == x;
                            assert(j != i);
                            assert(v@[j] == before[j]);
                        }
                    }
                }
                assert(keys_unique(v@)) by {
                    assert forall|a: int, b: int| 0 <= a < v@.len() && 0 <= b < v@.len() && a != b implies v@[a].0 != v@[b].0 by {
                        assert(v@[a].0 == before[a].0 && v@[b].0 == before[b].0);
                    }
                }
                assert(map_of(v@) =~= map_of(before).insert(k, c));
            }
        },
        None => {
            v.push((k, c));
            proof {
                assert(keys_unique(v@)) by {
                    assert forall|a: int, b: int| 0 <= a < v@.len() && 0 <= b < v@.len() && a != b implies v@[a].0 != v@[b].0 by {
                        if a == before.len() {
                            assert(before[b].0 != k);
                        } else if b == before.len() {
                            assert(before[a].0 != k);
                        } else {
                            assert(v@[a] == before[a] && v@[b] == before[b]);
                        }
                    }
                }
                assert forall|x: KeyChord| #[trigger] bound_in(v@, x) == (if x == k { Some(c) } else { bound_in(before, x) }) by {
                    lemma_bound_in_index(v@, x);
                    lemma_bound_in_index(before, x);
                    if x == k {
                        assert(v@[before.len() as int].0 == k);
                    } else {
                        if exists|j: int| 0 <= j < v@.len() && v@[j].0 == x {
                            let j = choose|j: int| 0 <= j < v@.len() && v@[j].0 == x;
                            assert(j != before.len());
                            assert(v@[j] == before[j]);
                        }
                        if exists|j: int| 0 <= j < before.len() && before[j].0 == x {
                            let j = choose|j: int| 0 <= j < before.len() && before[j].0 == x;
                            assert(v@[j] == before[j]);
                        }
                    }
                }
                assert(map_of(v@) =~= map_of(before).insert(k, c));
            }
        },
    }
}

fn chords_for(v: &Vec<(KeyChord, Command)>, c: Command) -> (r: Vec<KeyChord>)
    ensures
        r@ == chords_bound_to(v@, c),
{
    let mut out: Vec<KeyChord> = Vec::new();
    let mut i: usize = 0;
    while i < v.len()
        invariant
            i <= v.len(),
            out@ == chords_bound_to(v@.take(i as int), c),
        decreases v.len() - i,
    {
        proof {
            let t1 = v@.take(i as int + 1);
            assert(t1.drop_last() =~= v@.take(i as int));
            assert(t1.last() == v@[i as int]);
        }
        if v[i].1 == c {
            out.push(v[i].0);
        }
        i = i + 1;
    }
    proof { assert(v@.take(v@.len() as int) =~= v@); }
    out
}

/// The default prefix key, Ctrl+B.
pub open spec fn ctrl_b() -> KeyChord {
    KeyChord { modifiers: KeyModifiers { shift: false, control: true, alt: false, super_key: false, hyper: false, meta: false }, code: KeyCode::Char('b') }
}

impl KeyMap {
    /// Distinct chords in each binding list.
    pub closed spec fn wf(&self) -> bool {
        keys_unique(self.prefix_bindings@) && keys_unique(self.direct_bindings@)
    }

    /// The prefix key.
    pub closed spec fn prefix(&self) -> KeyChord {
        self.prefix_key
    }

    /// Bindings that apply after the prefix key.
    pub closed spec fn prefix_map(&self) -> Map<KeyChord, Command> {
        map_of(self.prefix_bindings@)
    }

    /// Bindings that apply without the prefix key.
    pub closed spec fn direct_map(&self) -> Map<KeyChord, Command> {
        map_of(self.direct_bindings@)
    }

    /// An empty key map with the prefix key Ctrl+B.
    pub fn new() -> (r: KeyMap)
        ensures
            r.wf(),
            r.prefix() == ctrl_b(),
            r.prefix_map() == Map::<KeyChord, Command>::empty(),
            r.direct_map() == Map::<KeyChord, Command>::empty(),
    {
        let r = KeyMap {
            prefix_key: KeyChord { modifiers: KeyModifiers::control(), code: KeyCode::Char('b') },
            prefix_bindings: Vec::new(),
            direct_bindings: Vec::new(),
        };
        assert(map_of(r.prefix_bindings@) =~= Map::<KeyChord, Command>::empty());
        assert(map_of(r.direct_bindings@) =~= Map::<KeyChord, Command>::empty());
        r
    }

    /// Binds `chord` after the prefix key; a later binding replaces an
    /// earlier one for the same chord.
    pub fn bind(&mut self, chord: KeyChord, command: Command)
        requires
            old(self).wf(),
        ensures
            final(self).wf(),
            final(self).prefix() == old(self).prefix(),
            final(self).prefix_map() == old(self).prefix_map().insert(chord, command),
            final(self).direct_map() == old(self).direct_map(),
    {
        bind_in(&mut self.prefix_bindings, chord, command);
    }

    /// Binds `chord` directly (no prefix key needed).
    pub fn bind_direct(&mut self, chord: KeyChord, command: Command)
        requires
            old(self).wf(),
        ensures
            final(self).wf(),
            final(self).prefix() == old(self).prefix(),
            final(self).prefix_map() == old(self).prefix_map(),
            final(self).direct_map() == old(self).direct_map().insert(chord, command),
    {
        bind_in(&mut self.direct_bindings, chord, command);
    }

    /// Whether a key event is the prefix key.
    pub fn is_prefix(&self, event: &KeyEvent) -> (r: bool)
        ensures
            r == (chord_of_event(*event) == self.prefix()),
    {
        KeyChord::from_event(event) == self.prefix_key
    }

    /// The prefix binding of a key event.
    pub fn lookup_prefix(&self, event: &KeyEvent) -> (r: Option<&Command>)
        requires
            self.wf(),
        ensures
            r matches Some(c) ==> self.prefix_map().contains_key(chord_of_event(*event))
                && *c == self.prefix_map()[chord_of_event(*event)],
            r is None ==> !self.prefix_map().contains_key(chord_of_event(*event)),
    {
        let chord = KeyChord::from_event(event);
        match lookup_in(&self.prefix_bindings, chord) {
            Some(i) => Some(&self.prefix_bindings[i].1),
            None => None,
        }
    }

    /// The direct binding of a key event.
    pub fn lookup_direct(&self, event: &KeyEvent) -> (r: Option<&Command>)
        requires
            self.wf(),
        ensures
            r matches Some(c) ==> self.direct_map().contains_key(chord_of_event(*event))
                && *c == self.direct_map()[chord_of_event(*event)],
            r is None ==> !self.direct_map().contains_key(chord_of_event(*event)),
    {
        let chord = KeyChord::from_event(event);
        match lookup_in(&self.direct_bindings, chord) {
            Some(i) => Some(&self.direct_bindings[i].1),
            None => None,
        }
    }

    /// Every prefix chord bound to `command`, each once.
    pub fn prefix_chords_for_command(&self, command: Command) -> (r: Vec<KeyChord>)
        requires
            self.wf(),
        ensures
            r@.no_duplicates(),
            forall|k: KeyChord| r@.contains(k) <==> (self.prefix_map().contains_key(k) && self.prefix_map()[k] == command),
    {
        let r = chords_for(&self.prefix_bindings, command);
        proof { self.lemma_chords_exact(self.prefix_bindings@, command); }
        r
    }

    /// Every direct chord bound to `command`, each once.
    pub fn direct_chords_for_command(&self, command: Command) -> (r: Vec<KeyChord>)
        requires
            self.wf(),
        ensures
            r@.no_duplicates(),
            forall|k: KeyChord| r@.contains(k) <==> (self.direct_map().contains_key(k) && self.direct_map()[k] == command),
    {
        let r = chords_for(&self.direct_bindings, command);
        proof { self.lemma_chords_exact(self.direct_bindings@, command); }
        r
    }

    proof fn lemma_chords_exact(&self, s: Seq<(KeyChord, Command)>, command: Command)
        requires
            keys_unique(s),
        ensures
            chords_bound_to(s, command).no_duplicates(),
            forall|k: KeyChord| chords_bound_to(s, command).contains(k)
                <==> (map_of(s).contains_key(k) && map_of(s)[k] == command),
    {
        lemma_chords_bound_to(s, command);
        assert forall|k: KeyChord| chords_bound_to(s, command).contains(k)
            <==> (map_of(s).contains_key(k) && map_of(s)[k] == command) by {
            lemma_bound_in_index(s, k);
        }
    }

    /// Looks a key event up in the prefix bindings.
    pub fn lookup(&self, event: &KeyEvent) -> (r: Option<&Command>)
        requires
            self.wf(),
        ensures
            r matches Some(c) ==> self.prefix_map().contains_key(chord_of_event(*event))
                && *c == self.prefix_map()[chord_of_event(*event)],
            r is None ==> !self.prefix_map().contains_key(chord_of_event(*event)),
    {
        self.lookup_prefix(event)
    }
}

/// A chord with the given modifiers and key.
pub open spec fn chord(m: KeyModifiers, c: KeyCode) -> KeyChord {
    KeyChord { modifiers: m, code: c }
}

/// The default prefix bindings.
pub open spec fn default_prefix_map() -> Map<KeyChord, Command> {
    let ctrl = KeyModifiers { shift: false, control: true, alt: false, super_key: false, hyper: false, meta: false };
    let none = KeyModifiers::spec_empty();
    map![
        chord(ctrl, KeyCode::Left) => Command::SplitLeft,
        chord(ctrl, KeyCode::Right) => Command::SplitRight,
        chord(ctrl, KeyCode::Up) => Command::SplitUp,
        chord(ctrl, KeyCode::Down) => Command::SplitDown,
        chord(none, KeyCode::Left) => Command::FocusLeft,
        chord(none, KeyCode::Right) => Command::FocusRight,
        chord(none, KeyCode::Up) => Command::FocusUp,
        chord(none, KeyCode::Down) => Command::FocusDown,
        chord(none, KeyCode::Char('w')) => Command::ClosePane,
        chord(none, KeyCode::Char('q')) => Command::Quit
    ]
}

/// The default direct bindings: Alt+Shift+Arrow resizes.
pub open spec fn default_direct_map() -> Map<KeyChord, Command> {
    let alt_shift = KeyModifiers { shift: true, control: false, alt: true, super_key: false, hyper: false, meta: false };
    map![
        chord(alt_shift, KeyCode::Left) => Command::ResizeLeft,
        chord(alt_shift, KeyCode::Right) => Command::ResizeRight,
        chord(alt_shift, KeyCode::Up) => Command::ResizeUp,
        chord(alt_shift, KeyCode::Down) => Command::ResizeDown
    ]
}

impl Default for KeyMap {
    /// The default bindings: Ctrl+Arrow splits, Arrow moves focus, `w`
    /// closes, `q` quits (after the prefix); Alt+Shift+Arrow resizes
    /// directly.
    fn default() -> (r: KeyMap)
        ensures
            r.wf(),
            r.prefix() == ctrl_b(),
            r.prefix_map() == default_prefix_map(),
            r.direct_map() == default_direct_map(),
    {
        let mut km = KeyMap::new();
        let ctrl = KeyModifiers::control();
        let none = KeyModifiers::empty();
        km.bind(KeyChord { modifiers: ctrl, code: KeyCode::Left }, Command::SplitLeft);
        km.bind(KeyChord { modifiers: ctrl, code: KeyCode::Right }, Command::SplitRight);
        km.bind(KeyChord { modifiers: ctrl, code: KeyCode::Up }, Command::SplitUp);
        km.bind(KeyChord { modifiers: ctrl, code: KeyCode::Down }, Command::SplitDown);
        km.bind(KeyChord { modifiers: none, code: KeyCode::Left }, Command::FocusLeft);
        km.bind(KeyChord { modifiers: none, code: KeyCode::Right }, Command::FocusRight);
        km.bind(KeyChord { modifiers: none, code: KeyCode::Up }, Command::FocusUp);
        km.bind(KeyChord { modifiers: none, code: KeyCode::Down }, Command::FocusDown);
        km.bind(KeyChord { modifiers: none, code: KeyCode::Char('w') }, Command::ClosePane);
        km.bind(KeyChord { modifiers: none, code: KeyCode::Char('q') }, Command::Quit);
        let alt_shift = KeyModifiers::alt().union(KeyModifiers::shift());
        km.bind_direct(KeyChord { modifiers: alt_shift, code: KeyCode::Left }, Command::ResizeLeft);
        km.bind_direct(KeyChord { modifiers: alt_shift, code: KeyCode::Right }, Command::ResizeRight);
        km.bind_direct(KeyChord { modifiers: alt_shift, code: KeyCode::Up }, Command::ResizeUp);
        km.bind_direct(KeyChord { modifiers: alt_shift, code: KeyCode::Down }, Command::ResizeDown);
        assert(km.prefix_map() =~= default_prefix_map());
        assert(km.direct_map() =~= default_direct_map());
        km
    }
}

} // verus!
