//! The application state machine.
//!
//! [`App`] owns the layout, the pane backends and the input state. Each event
//! moves it to a new state; the contracts state that move over [`AppState`],
//! a plain-value snapshot of everything the app decides on.

use vstd::prelude::*;
use vstd::utf8::encode_utf8;
use vstd::string::StringSliceAdditionalSpecFns;
use crate::cheatsheet::{bar_height, cheatsheet_bar_height};
use crate::commands::Command;
use crate::config::{action_views, copy_actions, find_layout, keys_distinct, layout_views, layouts_map, ActionView, LayoutAction};
use crate::encode::{key_bytes, key_event_to_bytes};
use crate::keymap::{chord_of_event, KeyMap};
use crate::keys::{KeyCode, KeyEvent, KeyEventKind, MouseButton, MouseEvent, MouseEventKind};
use crate::layout::{
    clamp_ratio, clamp_ratio_exec, first_len, has_pair, law_split_places_new_pane, RATIO_MAX, RATIO_MIN, dividers_of, full_rect, is_nearest, no_candidate, rects_of,
    remove_tree, set_ratio_at, split_tree, adjust_tree, law_rects_name_leaves, DividerInfo,
    DividerView, Direction, Layout, Node, Orientation, PaneId, Rect, SplitPosition, RATIO_HALF,
    RATIO_ONE,
};
use crate::selection::Selection;
use crate::traits::{AppEvent, Clipboard, Failure, PaneBackend, PaneFactory};

verus! {

/// Ratio change of one resize step, in basis points (2% of the split).
pub const RESIZE_STEP: i32 = 200;

// ── the plain-value model ──────────────────────────────────────────────────

/// State of a divider being dragged with the mouse.
pub struct DragView {
    pub orientation: Orientation,
    /// Start of the split's rectangle along the split axis.
    pub rect_start: u16,
    /// Size of the split's rectangle along the split axis.
    pub rect_size: u16,
    /// The last mouse coordinate along the split axis that was applied.
    pub last_axis_coord: Option<u16>,
    /// Path from the root to the split being resized.
    pub path: Seq<bool>,
}

/// A call the application made to a pane backend, the pane factory or the
/// clipboard.
pub enum PlatformCall {
    /// A backend was asked for pane `pane` at the given size; `ok` tells
    /// whether one came back.
    Spawn { pane: PaneId, cols: u16, rows: u16, ok: bool },
    /// Pane `pane` was told its new inner size.
    Resize { pane: PaneId, cols: u16, rows: u16 },
    /// Bytes were written to pane `pane`'s shell.
    Write { pane: PaneId, bytes: Seq<u8>, ok: bool },
    /// The text of a selection was asked of pane `pane`, and `text` came
    /// back.
    ReadSelection { pane: PaneId, start: (u16, u16), end: (u16, u16), display_offset: usize, text: Seq<char> },
    /// The clipboard was read: its text, or `None` when it could not be read.
    ClipboardRead { text: Option<Seq<char>> },
    /// Text was put on the clipboard.
    ClipboardWrite { text: Seq<char> },
}

/// Everything the application decides on, as plain values.
pub struct AppState {
    pub layout: Layout,
    /// Ids of the panes that have a backend, in the order they were created.
    pub pane_ids: Seq<PaneId>,
    pub keymap: KeyMap,
    pub terminal_size: (u16, u16),
    pub running: bool,
    /// The prefix key was pressed and the next key names a command.
    pub prefix_active: bool,
    pub show_cheatsheet: bool,
    pub selection: Option<Selection>,
    /// Screen cell where a selecting left-button press began.
    pub drag_origin: Option<(u16, u16)>,
    /// The mouse moved with the left button down since the press.
    pub dragging: bool,
    pub resize_drag: Option<DragView>,
    /// Every call made to the platform so far, oldest first.
    pub calls: Seq<PlatformCall>,
    /// Named layouts that a command can load, by number.
    pub layouts: Map<u8, Seq<ActionView>>,
}

/// The ids of a list of panes.
pub open spec fn ids_of<B>(panes: Seq<(PaneId, B)>) -> Seq<PaneId> {
    panes.map_values(|p: (PaneId, B)| p.0)
}

/// A consistent state: a well-formed layout and key map, and each backend
/// belongs to a distinct pane of the layout.
pub open spec fn state_wf(s: AppState) -> bool {
    &&& s.layout.wf()
    &&& s.keymap.wf()
    &&& s.pane_ids.no_duplicates()
    &&& forall|x: PaneId| #[trigger] s.pane_ids.contains(x) ==> s.layout.leaves_view().contains(x)
}

/// The last call made failed: a spawn that gave no backend, or a write the
/// backend refused.
pub open spec fn last_call_failed(calls: Seq<PlatformCall>) -> bool {
    &&& calls.len() > 0
    &&& match calls.last() {
        PlatformCall::Spawn { ok, .. } => !ok,
        PlatformCall::Write { ok, .. } => !ok,
        _ => false,
    }
}

/// The panes with a backend are exactly the panes of the layout.
pub open spec fn panes_are_leaves(s: AppState) -> bool {
    forall|x: PaneId| #![trigger s.pane_ids.contains(x)] #![trigger s.layout.leaves_view().contains(x)]
        s.pane_ids.contains(x) <==> s.layout.leaves_view().contains(x)
}

/// Dropping pane `ids[i]` from a list without repeats drops exactly it.
proof fn lemma_remove_id(ids: Seq<PaneId>, i: int)
    requires
        ids.no_duplicates(),
        0 <= i < ids.len(),
    ensures
        forall|x: PaneId| #[trigger] ids.remove(i).contains(x) <==> (ids.contains(x) && x != ids[i]),
{
    assert forall|x: PaneId| #[trigger] ids.remove(i).contains(x) <==> (ids.contains(x) && x != ids[i]) by {
        if ids.remove(i).contains(x) {
            let k = choose|k: int| 0 <= k < ids.remove(i).len() && ids.remove(i)[k] == x;
            if k < i { assert(ids[k] == x); } else { assert(ids[k + 1] == x); }
        }
        if ids.contains(x) && x != ids[i] {
            let k = choose|k: int| 0 <= k < ids.len() && ids[k] == x;
            if k < i { assert(ids.remove(i)[k] == x); } else { assert(ids.remove(i)[k - 1] == x); }
        }
    }
}

/// `ids` without `id`.
pub open spec fn without(ids: Seq<PaneId>, id: PaneId) -> Seq<PaneId> {
    if ids.contains(id) {
        ids.remove(choose|i: int| 0 <= i < ids.len() && ids[i] == id)
    } else {
        ids
    }
}

/// Inner extent of a bordered pane: two cells less, but at least `min`.
pub open spec fn inner_extent(len: u16, min: u16) -> u16 {
    let v: u16 = if len >= 2 { (len - 2) as u16 } else { 0 };
    if v < min { min } else { v }
}

/// The rectangle of pane `id` among `rs` (the first one); an empty
/// rectangle at the origin when it has none.
pub open spec fn rect_for(rs: Seq<(PaneId, Rect)>, id: PaneId) -> Rect {
    if exists|k: int| first_rect_of(rs, id, k) {
        rs[choose|k: int| first_rect_of(rs, id, k)].1
    } else {
        Rect { x: 0, y: 0, width: 0, height: 0 }
    }
}

/// Telling each pane of `ids` that has a rectangle among `rs` its inner
/// size, in order.
pub open spec fn resize_calls(ids: Seq<PaneId>, rs: Seq<(PaneId, Rect)>) -> Seq<PlatformCall>
    decreases ids.len(),
{
    if ids.len() == 0 {
        Seq::empty()
    } else {
        let id = ids.last();
        let r = rect_for(rs, id);
        resize_calls(ids.drop_last(), rs) + if exists|k: int| first_rect_of(rs, id, k) {
            seq![PlatformCall::Resize { pane: id, cols: inner_extent(r.width, 4), rows: inner_extent(r.height, 2) }]
        } else {
            Seq::empty()
        }
    }
}

/// Pane rectangles for the whole terminal.
pub open spec fn screen_rects(s: AppState) -> Seq<(PaneId, Rect)> {
    rects_of(s.layout.root, full_rect(s.terminal_size.0, s.terminal_size.1))
}

/// The state after every pane was told its size in the current layout.
pub open spec fn resized(s: AppState) -> AppState {
    AppState { calls: s.calls + resize_calls(s.pane_ids, screen_rects(s)), ..s }
}

/// The state with `extra` calls made.
pub open spec fn with_calls(s: AppState, extra: Seq<PlatformCall>) -> AppState {
    AppState { calls: s.calls + extra, ..s }
}

/// What the writes a pane has been handed become after call `c`: a write to
/// the pane adds its bytes, and spawning the pane starts afresh.
pub open spec fn writes_after(w: Seq<Seq<u8>>, c: PlatformCall, id: PaneId) -> Seq<Seq<u8>> {
    match c {
        PlatformCall::Write { pane, bytes, .. } => if pane == id { w.push(bytes) } else { w },
        PlatformCall::Spawn { pane, .. } => if pane == id { Seq::empty() } else { w },
        _ => w,
    }
}

/// What a pane's size becomes after call `c`.
pub open spec fn size_after(z: (u16, u16), c: PlatformCall, id: PaneId) -> (u16, u16) {
    match c {
        PlatformCall::Spawn { pane, cols, rows, .. } => if pane == id { (cols, rows) } else { z },
        PlatformCall::Resize { pane, cols, rows } => if pane == id { (cols, rows) } else { z },
        _ => z,
    }
}

/// The byte strings written to pane `id` since it was last spawned, by the
/// calls `calls`.
pub open spec fn writes_to(calls: Seq<PlatformCall>, id: PaneId) -> Seq<Seq<u8>>
    decreases calls.len(),
{
    if calls.len() == 0 {
        Seq::empty()
    } else {
        writes_after(writes_to(calls.drop_last(), id), calls.last(), id)
    }
}

/// The size pane `id` was last spawned at or told, by the calls `calls`.
pub open spec fn size_of(calls: Seq<PlatformCall>, id: PaneId) -> (u16, u16)
    decreases calls.len(),
{
    if calls.len() == 0 {
        (0, 0)
    } else {
        size_after(size_of(calls.drop_last(), id), calls.last(), id)
    }
}

/// Call `c` writes to, resizes or spawns pane `id`.
pub open spec fn targets(c: PlatformCall, id: PaneId) -> bool {
    match c {
        PlatformCall::Write { pane, .. } => pane == id,
        PlatformCall::Spawn { pane, .. } => pane == id,
        PlatformCall::Resize { pane, .. } => pane == id,
        _ => false,
    }
}

/// Backend `p.1` of pane `p.0` holds what `calls` handed it.
pub open spec fn pane_matches<B: PaneBackend>(p: (PaneId, B), calls: Seq<PlatformCall>) -> bool {
    &&& p.1.pane_id() == p.0
    &&& p.1.inputs() == writes_to(calls, p.0)
    &&& p.1.size() == size_of(calls, p.0)
}

/// Every backend holds what `calls` handed its pane.
pub open spec fn backends_match<B: PaneBackend>(panes: Seq<(PaneId, B)>, calls: Seq<PlatformCall>) -> bool {
    forall|k: int| 0 <= k < panes.len() ==> #[trigger] pane_matches(panes[k], calls)
}

/// One more call changes a pane's writes and size as the step functions say.
proof fn lemma_log_push(calls: Seq<PlatformCall>, c: PlatformCall, id: PaneId)
    ensures
        writes_to(calls.push(c), id) == writes_after(writes_to(calls, id), c, id),
        size_of(calls.push(c), id) == size_after(size_of(calls, id), c, id),
{
    assert(calls.push(c).drop_last() =~= calls);
}

/// A call that touches none of the panes leaves every backend matching.
proof fn lemma_push_untargeted<B: PaneBackend>(panes: Seq<(PaneId, B)>, calls: Seq<PlatformCall>, c: PlatformCall)
    requires
        backends_match(panes, calls),
        forall|k: int| 0 <= k < panes.len() ==> !targets(c, (#[trigger] panes[k]).0),
    ensures
        backends_match(panes, calls.push(c)),
{
    assert forall|k: int| 0 <= k < panes.len() implies #[trigger] pane_matches(panes[k], calls.push(c)) by {
        assert(pane_matches(panes[k], calls));
        lemma_log_push(calls, c, panes[k].0);
    }
}

/// A call to pane `i` whose backend took it leaves every backend matching.
proof fn lemma_push_to_pane<B: PaneBackend>(before: Seq<(PaneId, B)>, after: Seq<(PaneId, B)>,
    calls: Seq<PlatformCall>, c: PlatformCall, i: int)
    requires
        backends_match(before, calls),
        ids_of(before).no_duplicates(),
        0 <= i < before.len(),
        after.len() == before.len(),
        forall|j: int| 0 <= j < before.len() && j != i ==> after[j] == before[j],
        after[i].0 == before[i].0,
        after[i].1.pane_id() == before[i].1.pane_id(),
        targets(c, before[i].0),
        after[i].1.inputs() == writes_after(before[i].1.inputs(), c, before[i].0),
        after[i].1.size() == size_after(before[i].1.size(), c, before[i].0),
    ensures
        backends_match(after, calls.push(c)),
{
    assert forall|k: int| 0 <= k < after.len() implies #[trigger] pane_matches(after[k], calls.push(c)) by {
        assert(pane_matches(before[k], calls));
        lemma_log_push(calls, c, before[k].0);
        if k != i {
            assert(ids_of(before)[k] != ids_of(before)[i]);
        }
    }
}

/// Orientation and placement of the split a command makes.
pub open spec fn split_params(cmd: Command) -> Option<(Orientation, SplitPosition)> {
    match cmd {
        Command::SplitVertical => Some((Orientation::Vertical, SplitPosition::After)),
        Command::SplitRight => Some((Orientation::Vertical, SplitPosition::After)),
        Command::SplitLeft => Some((Orientation::Vertical, SplitPosition::Before)),
        Command::SplitHorizontal => Some((Orientation::Horizontal, SplitPosition::After)),
        Command::SplitDown => Some((Orientation::Horizontal, SplitPosition::After)),
        Command::SplitUp => Some((Orientation::Horizontal, SplitPosition::Before)),
        _ => None,
    }
}

/// Ratio given to the first child of a split when the split pane should
/// keep `requested` (basis points, clamped into range); an even split when
/// nothing is requested.
pub open spec fn internal_ratio(pos: SplitPosition, requested: Option<u16>) -> u16 {
    match requested {
        None => RATIO_HALF,
        Some(r) => {
            let c = clamp_ratio(r as int);
            match pos {
                SplitPosition::After => c,
                SplitPosition::Before => (RATIO_ONE - c) as u16,
            }
        },
    }
}

/// Splitting the active pane: the new pane becomes active, the selection is
/// dropped, every pane is told its new size, a backend is asked for the new
/// pane at its inner size, and `ok` (the split succeeded) exactly when one
/// came back, which the new pane then has.
pub open spec fn split_rel(s: AppState, t: AppState, o: Orientation, p: SplitPosition, ratio: u16, ok: bool) -> bool {
    let new_id = PaneId(s.layout.next_id);
    let m = resized(AppState {
        layout: Layout {
            root: split_tree(s.layout.root, s.layout.active, o, p, ratio, new_id),
            active: new_id,
            next_id: (s.layout.next_id + 1) as u32,
        },
        selection: None,
        ..s
    });
    let r = rect_for(screen_rects(m), new_id);
    let spawn = PlatformCall::Spawn { pane: new_id, cols: inner_extent(r.width, 4), rows: inner_extent(r.height, 2), ok };
    &&& t.pane_ids == (if ok { s.pane_ids.push(new_id) } else { s.pane_ids })
    &&& t == (AppState { pane_ids: t.pane_ids, calls: m.calls.push(spawn), ..m })
}

/// Closing pane `id`: a selection in it is dropped; when it is the last
/// pane (or not a pane) the app stops, otherwise it leaves the layout,
/// loses its backend, focus goes to the first remaining pane, and every pane
/// is told its new size.
pub open spec fn close_rel(s: AppState, t: AppState, id: PaneId) -> bool {
    let sel = if s.selection matches Some(x) && x.pane_id == id { None } else { s.selection };
    let l = s.layout.leaves_view();
    if l.len() >= 2 && l.contains(id) {
        t == resized(AppState {
            layout: Layout {
                root: remove_tree(s.layout.root, id),
                active: if l[0] != id { l[0] } else { l[1] },
                next_id: s.layout.next_id,
            },
            pane_ids: without(s.pane_ids, id),
            selection: sel,
            ..s
        })
    } else {
        t == (AppState { running: false, selection: sel, ..s })
    }
}

/// Focus moved to the nearest pane in direction `dir`, if there is one.
pub open spec fn focus_dir_rel(l: Layout, l2: Layout, dir: Direction, size: (u16, u16)) -> bool {
    let rs = rects_of(l.root, full_rect(size.0, size.1));
    let a = rs[l.active_index()].1;
    &&& l2.root == l.root
    &&& l2.next_id == l.next_id
    &&& if no_candidate(rs, l.active, a, dir) {
        l2.active == l.active
    } else {
        exists|i: int| is_nearest(rs, l.active, a, dir, i) && l2.active == rs[i].0
    }
}

/// State with only the layout replaced.
pub open spec fn with_layout(s: AppState, l: Layout) -> AppState {
    AppState { layout: l, ..s }
}

/// Delta of a resize step.
pub open spec fn resize_delta(grow: bool) -> i32 {
    if grow { RESIZE_STEP } else { (0 - RESIZE_STEP) as i32 }
}

/// Moving the ratio of the split around the active pane; every pane is
/// told its new size.
pub open spec fn resize_rel(s: AppState, t: AppState, o: Orientation, grow: bool) -> bool {
    t == resized(with_layout(s, Layout {
        root: adjust_tree(s.layout.root, s.layout.active, o, resize_delta(grow)),
        ..s.layout
    }))
}

/// Running command `cmd`: loading a named layout runs its steps (see
/// [`layout_rel`]) and does nothing when there is no such layout; anything
/// else as [`plain_dispatch_rel`] says.
pub open spec fn dispatch_rel(s: AppState, t: AppState, cmd: Command, ok: bool) -> bool {
    match cmd {
        Command::LoadLayout(n) => if s.layouts.contains_key(n) {
            layout_rel(s, t, s.layouts[n], ok)
        } else {
            t == s && ok
        },
        _ => plain_dispatch_rel(s, t, cmd, ok),
    }
}

/// Whether the pane ids left suffice for command `cmd`: a split takes one,
/// loading a layout at most one per step.
pub open spec fn cmd_fits(s: AppState, cmd: Command) -> bool {
    match cmd {
        Command::LoadLayout(n) => s.layouts.contains_key(n)
            ==> s.layout.next_id + s.layouts[n].len() < u32::MAX,
        _ => split_params(cmd) is Some ==> s.layout.next_id < u32::MAX,
    }
}

/// Running a command other than loading a layout, which does nothing here;
/// `ok` is false only when a split's backend could not be created.
pub open spec fn plain_dispatch_rel(s: AppState, t: AppState, cmd: Command, ok: bool) -> bool {
    match split_params(cmd) {
        Some(sp) => split_rel(s, t, sp.0, sp.1, RATIO_HALF, ok),
        None => ok && match cmd {
            Command::ClosePane => close_rel(s, t, s.layout.active),
            Command::FocusNext => t == with_layout(s, Layout {
                active: s.layout.leaves_view()[(s.layout.active_index() + 1) % (s.layout.leaves_view().len() as int)],
                ..s.layout
            }),
            Command::FocusPrev => t == with_layout(s, Layout {
                active: s.layout.leaves_view()[(s.layout.active_index() + s.layout.leaves_view().len() - 1)
                    % (s.layout.leaves_view().len() as int)],
                ..s.layout
            }),
            Command::FocusLeft => t == with_layout(s, t.layout)
                && focus_dir_rel(s.layout, t.layout, Direction::Left, s.terminal_size),
            Command::FocusRight => t == with_layout(s, t.layout)
                && focus_dir_rel(s.layout, t.layout, Direction::Right, s.terminal_size),
            Command::FocusUp => t == with_layout(s, t.layout)
                && focus_dir_rel(s.layout, t.layout, Direction::Up, s.terminal_size),
            Command::FocusDown => t == with_layout(s, t.layout)
                && focus_dir_rel(s.layout, t.layout, Direction::Down, s.terminal_size),
            Command::ResizeLeft => resize_rel(s, t, Orientation::Vertical, false),
            Command::ResizeRight => resize_rel(s, t, Orientation::Vertical, true),
            Command::ResizeUp => resize_rel(s, t, Orientation::Horizontal, false),
            Command::ResizeDown => resize_rel(s, t, Orientation::Horizontal, true),
            Command::Quit => t == (AppState { running: false, ..s }),
            Command::LoadLayout(_) => t == s,
            _ => false,
        },
    }
}

/// One startup command: splits take an optional ratio for the pane being
/// split, everything else runs as a key binding would, but a layout does
/// not load another.
pub open spec fn startup_step_rel(s: AppState, t: AppState, cmd: Command, ratio: Option<u16>, ok: bool) -> bool {
    match split_params(cmd) {
        Some(sp) => split_rel(s, t, sp.0, sp.1, internal_ratio(sp.1, ratio), ok),
        None => plain_dispatch_rel(s, t, cmd, ok),
    }
}

/// `tr` lists the states that running `cmds` from `s` went through: it
/// starts at `s` and ends at `t`, each command moved one state to the next,
/// and all of them succeeded except, when `!ok`, the last one run.
pub open spec fn startup_trace(s: AppState, t: AppState, cmds: Seq<(Command, Option<u16>)>, ok: bool,
    tr: Seq<AppState>) -> bool {
    &&& 1 <= tr.len() <= cmds.len() + 1
    &&& tr[0] == s
    &&& tr.last() == t
    &&& ok ==> tr.len() == cmds.len() + 1
    &&& !ok ==> tr.len() >= 2
    &&& forall|j: int| 0 <= j < tr.len() - 1 ==> startup_step_rel(#[trigger] tr[j], tr[j + 1], cmds[j].0, cmds[j].1,
        ok || j < tr.len() - 2)
}

/// Running startup commands in order, stopping at the first that fails.
pub open spec fn startup_rel(s: AppState, t: AppState, cmds: Seq<(Command, Option<u16>)>, ok: bool) -> bool {
    exists|tr: Seq<AppState>| #[trigger] startup_trace(s, t, cmds, ok, tr)
}

/// One step of a layout: a command as at startup, or typing a program into
/// the active pane.
pub open spec fn layout_step_rel(s: AppState, t: AppState, a: ActionView, ok: bool) -> bool {
    match a {
        ActionView::Split { cmd, ratio } => startup_step_rel(s, t, cmd, ratio, ok),
        ActionView::RunInPane(program) => if s.pane_ids.contains(s.layout.active) {
            t == with_calls(s, seq![PlatformCall::Write { pane: s.layout.active, bytes: run_bytes(program), ok }])
        } else {
            t == s && ok
        },
    }
}

/// `tr` lists the states that running the layout steps `acts` from `s`
/// went through, as in [`startup_trace`].
pub open spec fn layout_trace(s: AppState, t: AppState, acts: Seq<ActionView>, ok: bool, tr: Seq<AppState>) -> bool {
    &&& 1 <= tr.len() <= acts.len() + 1
    &&& tr[0] == s
    &&& tr.last() == t
    &&& ok ==> tr.len() == acts.len() + 1
    &&& !ok ==> tr.len() >= 2
    &&& forall|j: int| 0 <= j < tr.len() - 1 ==> layout_step_rel(#[trigger] tr[j], tr[j + 1], acts[j],
        ok || j < tr.len() - 2)
}

/// Running layout steps in order, stopping at the first that fails.
pub open spec fn layout_rel(s: AppState, t: AppState, acts: Seq<ActionView>, ok: bool) -> bool {
    exists|tr: Seq<AppState>| #[trigger] layout_trace(s, t, acts, ok, tr)
}

/// What typing `program` into a pane sends: its UTF-8 bytes and a newline.
pub open spec fn run_bytes(program: Seq<char>) -> Seq<u8> {
    encode_utf8(program).push(0x0au8)
}

/// The bytes that type `program` and press Enter.
pub fn program_input(program: &str) -> (r: Vec<u8>)
    ensures
        r@ == run_bytes(program@),
{
    let bytes = program.as_bytes();
    let mut v: Vec<u8> = Vec::new();
    let mut i: usize = 0;
    while i < bytes.len()
        invariant
            i <= bytes@.len(),
            bytes@ == encode_utf8(program@),
            v@ == bytes@.take(i as int),
        decreases bytes.len() - i,
    {
        v.push(bytes[i]);
        i = i + 1;
        assert(v@ =~= bytes@.take(i as int));
    }
    v.push(0x0a);
    assert(bytes@.take(bytes@.len() as int) =~= bytes@);
    v
}

// ── keys ───────────────────────────────────────────────────────────────────

/// Control and Shift are both held.
pub open spec fn ctrl_shift(k: KeyEvent) -> bool {
    k.modifiers.control && k.modifiers.shift
}

/// Ctrl+Shift+C: copy the selection.
pub open spec fn is_copy_key(k: KeyEvent) -> bool {
    ctrl_shift(k) && (k.code == KeyCode::Char('c') || k.code == KeyCode::Char('C'))
}

/// Ctrl+Shift+V: paste the clipboard.
pub open spec fn is_paste_key(k: KeyEvent) -> bool {
    ctrl_shift(k) && (k.code == KeyCode::Char('v') || k.code == KeyCode::Char('V'))
}

/// Copying: the text of a non-empty selection is asked of its pane and,
/// when some came back, put on the clipboard; the selection is dropped. A
/// click-sized selection stays and nothing is copied.
pub open spec fn copy_rel(s: AppState, t: AppState) -> bool {
    match s.selection {
        Some(x) => if x.start == x.end {
            t == s
        } else {
            &&& t == (AppState { selection: None, calls: t.calls, ..s })
            &&& if s.pane_ids.contains(x.pane_id) {
                exists|text: Seq<char>| t.calls == s.calls + #[trigger] copy_calls(x, text)
            } else {
                t.calls == s.calls
            }
        },
        None => t == s,
    }
}

/// The text put on the clipboard by the calls that follow `before` in
/// `after`, when the last of them does so.
pub open spec fn copied_texts(before: Seq<PlatformCall>, after: Seq<PlatformCall>) -> Seq<Seq<char>> {
    if after.len() > before.len() && after.last() is ClipboardWrite {
        seq![after.last()->ClipboardWrite_text]
    } else {
        Seq::empty()
    }
}

/// Event `ev` copies the selection: Ctrl+Shift+C, or a right click while
/// there is a selection.
pub open spec fn copies(s: AppState, ev: AppEvent) -> bool {
    match ev {
        AppEvent::Key(k) => k.kind == KeyEventKind::Press && is_copy_key(k),
        AppEvent::Mouse(m) => m.kind == MouseEventKind::Down(MouseButton::Right) && s.selection is Some,
        _ => false,
    }
}

/// A copy from state `s` to `t` asked the pane for the selection's text
/// and got `text`: when `s` has a non-empty selection in a pane with a
/// backend, the calls made are those of [`copy_calls`] with `text`.
pub open spec fn copy_follows(s: AppState, t: AppState, text: Seq<char>) -> bool {
    match s.selection {
        Some(x) => x.start != x.end && s.pane_ids.contains(x.pane_id) ==> t.calls == s.calls + copy_calls(x, text),
        None => true,
    }
}

/// The calls of copying selection `x` whose pane gave back `text`: the
/// read, then the text put on the clipboard unless it is empty.
pub open spec fn copy_calls(x: Selection, text: Seq<char>) -> Seq<PlatformCall> {
    let ends = if crate::selection::cell_le(x.start, x.end) { (x.start, x.end) } else { (x.end, x.start) };
    seq![PlatformCall::ReadSelection {
        pane: x.pane_id, start: ends.0, end: ends.1, display_offset: x.display_offset, text }]
        + if text.len() > 0 { seq![PlatformCall::ClipboardWrite { text }] } else { Seq::empty() }
}

/// The calls of pasting into pane `target` when reading the clipboard gave
/// `read`: the read, then the text written to the pane as a bracketed paste
/// when there was non-empty text and the pane has a backend.
pub open spec fn paste_calls(s: AppState, target: PaneId, read: Option<Seq<char>>, ok: bool) -> Seq<PlatformCall> {
    seq![PlatformCall::ClipboardRead { text: read }] + match read {
        Some(text) => if text.len() > 0 && s.pane_ids.contains(target) {
            seq![PlatformCall::Write { pane: target, bytes: bracketed_paste_bytes(text), ok }]
        } else {
            Seq::empty()
        },
        None => Seq::empty(),
    }
}

/// Pasting into pane `target`: the clipboard is read and, when it held
/// text and the pane has a backend, the text goes to the pane as a
/// bracketed paste; `ok` is false only when that write failed.
pub open spec fn paste_rel(s: AppState, t: AppState, target: PaneId, ok: bool) -> bool {
    &&& t == (AppState { calls: t.calls, ..s })
    &&& exists|read: Option<Seq<char>>| t.calls == s.calls + #[trigger] paste_calls(s, target, read, ok)
        && (paste_calls(s, target, read, ok).len() == 1 ==> ok)
}

/// A key that goes to the active pane: its bytes are written there when it
/// has an encoding and the pane a backend; `ok` is false only when that
/// write failed.
pub open spec fn forward_rel(s: AppState, t: AppState, k: KeyEvent, ok: bool) -> bool {
    &&& t == with_calls(s, forward_calls(s, k, ok))
    &&& forward_calls(s, k, ok).len() == 0 ==> ok
}

/// Calls made by a key that goes to the active pane: its bytes, when it has
/// an encoding and the pane a backend.
pub open spec fn forward_calls(s: AppState, k: KeyEvent, ok: bool) -> Seq<PlatformCall> {
    match key_bytes(k) {
        Some(b) => if s.pane_ids.contains(s.layout.active) {
            seq![PlatformCall::Write { pane: s.layout.active, bytes: b, ok }]
        } else {
            Seq::empty()
        },
        None => Seq::empty(),
    }
}

/// The command a key press runs, if any.
pub open spec fn key_command(s: AppState, k: KeyEvent) -> Option<Command> {
    let c = chord_of_event(k);
    if is_copy_key(k) || is_paste_key(k) {
        None
    } else if s.prefix_active {
        if s.keymap.prefix_map().contains_key(c) { Some(s.keymap.prefix_map()[c]) } else { None }
    } else if c == s.keymap.prefix() {
        None
    } else if s.keymap.direct_map().contains_key(c) {
        Some(s.keymap.direct_map()[c])
    } else {
        None
    }
}

/// A key press: global shortcuts first, then the key after the prefix key,
/// then the prefix key itself, then direct bindings; any other key goes to
/// the active pane. `render` tells whether the screen changed.
pub open spec fn key_rel(s: AppState, t: AppState, k: KeyEvent, ok: bool, render: bool) -> bool {
    let c = chord_of_event(k);
    if is_copy_key(k) {
        copy_rel(s, t) && ok && render
    } else if is_paste_key(k) {
        paste_rel(s, t, s.layout.active, ok) && (ok ==> render)
    } else if s.prefix_active {
        let s1 = AppState { prefix_active: false, ..s };
        (ok ==> render) && if s.keymap.prefix_map().contains_key(c) {
            dispatch_rel(s1, t, s.keymap.prefix_map()[c], ok)
        } else {
            t == s1 && ok
        }
    } else if c == s.keymap.prefix() {
        t == (AppState { prefix_active: true, ..s }) && ok && render
    } else if s.keymap.direct_map().contains_key(c) {
        dispatch_rel(s, t, s.keymap.direct_map()[c], ok) && (ok ==> render)
    } else {
        forward_rel(s, t, k, ok) && (ok ==> !render)
    }
}

/// A held key repeating: only direct bindings act on it.
pub open spec fn repeat_command(s: AppState, k: KeyEvent) -> Option<Command> {
    let c = chord_of_event(k);
    if s.keymap.direct_map().contains_key(c) { Some(s.keymap.direct_map()[c]) } else { None }
}

/// A key repeat: a direct binding runs again; other keys go to the pane as
/// their press would.
pub open spec fn repeat_rel(s: AppState, t: AppState, k: KeyEvent, ok: bool, render: bool) -> bool {
    match repeat_command(s, k) {
        Some(cmd) => dispatch_rel(s, t, cmd, ok) && (ok ==> render),
        None => forward_rel(s, t, as_press(k), ok) && (ok ==> !render),
    }
}

/// The same key, pressed: a held key sends what its press sends.
pub open spec fn as_press(k: KeyEvent) -> KeyEvent {
    KeyEvent { kind: KeyEventKind::Press, ..k }
}


/// The app right after start: one pane, `PaneId(0)`, focused and running,
/// whose backend was asked for at the terminal's size less the border.
pub open spec fn initial_state(keymap: KeyMap, terminal_size: (u16, u16), show_cheatsheet: bool) -> AppState {
    AppState {
        layout: Layout { root: Node::Leaf(PaneId(0)), active: PaneId(0), next_id: 1 },
        pane_ids: seq![PaneId(0)],
        keymap,
        terminal_size,
        running: true,
        prefix_active: false,
        show_cheatsheet,
        selection: None,
        drag_origin: None,
        dragging: false,
        resize_drag: None,
        layouts: Map::empty(),
        calls: seq![PlatformCall::Spawn {
            pane: PaneId(0),
            cols: inner_extent(terminal_size.0, 4),
            rows: inner_extent(terminal_size.1, 4),
            ok: true,
        }],
    }
}

/// The bytes of a bracketed paste of `text`: `ESC [ 200 ~`, the text's
/// UTF-8 bytes, `ESC [ 201 ~`. Shells then take the text as one paste
/// rather than running it line by line.
pub open spec fn bracketed_paste_bytes(text: Seq<char>) -> Seq<u8> {
    seq![0x1bu8, 0x5bu8, 0x32u8, 0x30u8, 0x30u8, 0x7eu8] + encode_utf8(text)
        + seq![0x1bu8, 0x5bu8, 0x32u8, 0x30u8, 0x31u8, 0x7eu8]
}

/// Bracketed-paste framing of `text`.
pub fn bracketed_paste(text: &str) -> (r: Vec<u8>)
    ensures
        r@ == bracketed_paste_bytes(text@),
{
    let mut v: Vec<u8> = vec![0x1b, 0x5b, 0x32, 0x30, 0x30, 0x7e];
    let bytes = text.as_bytes();
    let mut i: usize = 0;
    while i < bytes.len()
        invariant
            i <= bytes@.len(),
            bytes@ == encode_utf8(text@),
            v@ == seq![0x1bu8, 0x5bu8, 0x32u8, 0x30u8, 0x30u8, 0x7eu8] + bytes@.subrange(0, i as int),
        decreases bytes.len() - i,
    {
        v.push(bytes[i]);
        i = i + 1;
        assert(v@ =~= seq![0x1bu8, 0x5bu8, 0x32u8, 0x30u8, 0x30u8, 0x7eu8] + bytes@.subrange(0, i as int));
    }
    v.push(0x1b);
    v.push(0x5b);
    v.push(0x32);
    v.push(0x30);
    v.push(0x31);
    v.push(0x7e);
    assert(bytes@.subrange(0, bytes@.len() as int) =~= bytes@);
    assert(v@ =~= bracketed_paste_bytes(text@));
    v
}

/// The prefix key applies to exactly one following key: after any key other
/// than the copy and paste shortcuts, prefix mode is off.
pub proof fn law_prefix_applies_once(s: AppState, t: AppState, k: KeyEvent, ok: bool, render: bool)
    requires
        s.prefix_active,
        !is_copy_key(k),
        !is_paste_key(k),
        key_rel(s, t, k, ok, render),
    ensures
        !t.prefix_active,
{
    let c = chord_of_event(k);
    let s1 = AppState { prefix_active: false, ..s };
    if s.keymap.prefix_map().contains_key(c) {
        let cmd = s.keymap.prefix_map()[c];
        assert(dispatch_rel(s1, t, cmd, ok));
        if let Command::LoadLayout(n) = cmd {
            if s1.layouts.contains_key(n) {
                lemma_layout_keeps_input_state(s1, t, s1.layouts[n], ok);
            }
            return;
        }
        assert(plain_dispatch_rel(s1, t, cmd, ok));
        match split_params(cmd) {
            Some(sp) => {},
            None => {
                if cmd == Command::ClosePane {
                    let l = s1.layout.leaves_view();
                    if l.len() >= 2 && l.contains(s1.layout.active) {} else {}
                }
            },
        }
    }
}

/// The split commands place the new pane on their side of the pane that was
/// active, from a key binding or at startup: `split_left` puts it to the
/// left (first child of a vertical split), `split_right` and
/// `split_vertical` to the right, `split_up` above (first child of a
/// horizontal split), `split_down` and `split_horizontal` below; the new
/// pane takes the next pane id and the focus.
pub proof fn law_split_sides(s: AppState, t: AppState, cmd: Command, ratio: Option<u16>, at_startup: bool, ok: bool)
    requires
        state_wf(s),
        if at_startup { startup_step_rel(s, t, cmd, ratio, ok) } else { dispatch_rel(s, t, cmd, ok) },
    ensures
        ({
            let new = PaneId(s.layout.next_id);
            let old = s.layout.active;
            &&& cmd == Command::SplitLeft ==> t.layout.active == new
                && has_pair(t.layout.root, Orientation::Vertical, new, old)
            &&& (cmd == Command::SplitRight || cmd == Command::SplitVertical) ==> t.layout.active == new
                && has_pair(t.layout.root, Orientation::Vertical, old, new)
            &&& cmd == Command::SplitUp ==> t.layout.active == new
                && has_pair(t.layout.root, Orientation::Horizontal, new, old)
            &&& (cmd == Command::SplitDown || cmd == Command::SplitHorizontal) ==> t.layout.active == new
                && has_pair(t.layout.root, Orientation::Horizontal, old, new)
        }),
{
    if let Some(sp) = split_params(cmd) {
        let r = if at_startup { internal_ratio(sp.1, ratio) } else { RATIO_HALF };
        assert(t.layout.root == split_tree(s.layout.root, s.layout.active, sp.0, sp.1, r, PaneId(s.layout.next_id)));
        law_split_places_new_pane(s.layout.root, s.layout.active, sp.0, sp.1, r, PaneId(s.layout.next_id));
    }
}

/// The command that `cmd` is another name of: `split_vertical` is
/// `split_right` and `split_horizontal` is `split_down`.
pub open spec fn canonical(cmd: Command) -> Command {
    match cmd {
        Command::SplitVertical => Command::SplitRight,
        Command::SplitHorizontal => Command::SplitDown,
        _ => cmd,
    }
}

proof fn lemma_step_alias(a: AppState, b: AppState, c: Command, r: Option<u16>, o: bool)
    ensures
        startup_step_rel(a, b, c, r, o) == startup_step_rel(a, b, canonical(c), r, o),
{
    if split_params(c) is Some {
        assert(split_params(canonical(c)) == split_params(c));
    } else {
        assert(canonical(c) == c);
    }
}

proof fn lemma_dispatch_alias(a: AppState, b: AppState, c: Command, o: bool)
    ensures
        dispatch_rel(a, b, c, o) == dispatch_rel(a, b, canonical(c), o),
{
    if split_params(c) is Some {
        assert(split_params(canonical(c)) == split_params(c));
    } else {
        assert(canonical(c) == c);
    }
}

/// `split_vertical` does what `split_right` does and `split_horizontal`
/// what `split_down` does: from a key binding, and in a list of startup
/// commands, where replacing each by the other changes nothing.
pub proof fn law_split_aliases(s: AppState, t: AppState, cmds: Seq<(Command, Option<u16>)>, cmd: Command, ok: bool)
    ensures
        dispatch_rel(s, t, cmd, ok) == dispatch_rel(s, t, canonical(cmd), ok),
        startup_rel(s, t, cmds, ok)
            == startup_rel(s, t, cmds.map_values(|p: (Command, Option<u16>)| (canonical(p.0), p.1)), ok),
{
    let cmds2 = cmds.map_values(|p: (Command, Option<u16>)| (canonical(p.0), p.1));
    lemma_dispatch_alias(s, t, cmd, ok);
    assert forall|j: int| 0 <= j < cmds.len() implies #[trigger] cmds2[j] == (canonical(cmds[j].0), cmds[j].1) by {}
    assert forall|tr: Seq<AppState>| #[trigger] startup_trace(s, t, cmds, ok, tr)
        == startup_trace(s, t, cmds2, ok, tr) by {
        if startup_trace(s, t, cmds, ok, tr) {
            assert forall|j: int| 0 <= j < tr.len() - 1 implies startup_step_rel(#[trigger] tr[j], tr[j + 1],
                cmds2[j].0, cmds2[j].1, ok || j < tr.len() - 2) by {
                assert(startup_step_rel(tr[j], tr[j + 1], cmds[j].0, cmds[j].1, ok || j < tr.len() - 2));
                lemma_step_alias(tr[j], tr[j + 1], cmds[j].0, cmds[j].1, ok || j < tr.len() - 2);
            }
        }
        if startup_trace(s, t, cmds2, ok, tr) {
            assert forall|j: int| 0 <= j < tr.len() - 1 implies startup_step_rel(#[trigger] tr[j], tr[j + 1],
                cmds[j].0, cmds[j].1, ok || j < tr.len() - 2) by {
                assert(startup_step_rel(tr[j], tr[j + 1], cmds2[j].0, cmds2[j].1, ok || j < tr.len() - 2));
                lemma_step_alias(tr[j], tr[j + 1], cmds[j].0, cmds[j].1, ok || j < tr.len() - 2);
            }
        }
    }
    if startup_rel(s, t, cmds, ok) {
        let tr = choose|tr: Seq<AppState>| #[trigger] startup_trace(s, t, cmds, ok, tr);
        assert(startup_trace(s, t, cmds2, ok, tr));
    }
    if startup_rel(s, t, cmds2, ok) {
        let tr = choose|tr: Seq<AppState>| #[trigger] startup_trace(s, t, cmds2, ok, tr);
        assert(startup_trace(s, t, cmds, ok, tr));
    }
}

/// A step of a layout leaves the input state and the named layouts as
/// they were.
proof fn lemma_step_keeps_input_state(s: AppState, t: AppState, a: ActionView, ok: bool)
    requires
        layout_step_rel(s, t, a, ok),
    ensures
        t.prefix_active == s.prefix_active,
        t.layouts == s.layouts,
{
    match a {
        ActionView::Split { cmd, ratio } => {
            match split_params(cmd) {
                Some(sp) => {},
                None => {
                    if cmd == Command::ClosePane {
                        let l = s.layout.leaves_view();
                        if l.len() >= 2 && l.contains(s.layout.active) {} else {}
                    }
                },
            }
        },
        ActionView::RunInPane(_) => {},
    }
}

/// Running a layout leaves the input state and the named layouts as they
/// were.
proof fn lemma_layout_keeps_input_state(s: AppState, t: AppState, acts: Seq<ActionView>, ok: bool)
    requires
        layout_rel(s, t, acts, ok),
    ensures
        t.prefix_active == s.prefix_active,
        t.layouts == s.layouts,
{
    let tr = choose|tr: Seq<AppState>| #[trigger] layout_trace(s, t, acts, ok, tr);
    lemma_trace_keeps_input_state(s, t, acts, ok, tr, tr.len() - 1);
}

proof fn lemma_trace_keeps_input_state(s: AppState, t: AppState, acts: Seq<ActionView>, ok: bool,
    tr: Seq<AppState>, j: int)
    requires
        layout_trace(s, t, acts, ok, tr),
        0 <= j < tr.len(),
    ensures
        tr[j].prefix_active == s.prefix_active,
        tr[j].layouts == s.layouts,
    decreases j,
{
    if j > 0 {
        lemma_trace_keeps_input_state(s, t, acts, ok, tr, j - 1);
        lemma_step_keeps_input_state(tr[j - 1], tr[j], acts[j - 1], ok || j - 1 < tr.len() - 2);
    }
}

// ── mouse ──────────────────────────────────────────────────────────────────

/// Height left for panes above the cheatsheet bar.
pub open spec fn pane_area_height(s: AppState) -> u16 {
    let w = s.terminal_size.0;
    let h = s.terminal_size.1;
    let bar: u16 = if s.prefix_active && s.show_cheatsheet { bar_height(s.keymap, w) } else { 0 };
    if h >= bar { (h - bar) as u16 } else { 0 }
}

/// Pane rectangles as the mouse sees them.
pub open spec fn mouse_rects(s: AppState) -> Seq<(PaneId, Rect)> {
    rects_of(s.layout.root, full_rect(s.terminal_size.0, pane_area_height(s)))
}

/// Dividers as the mouse sees them.
pub open spec fn mouse_dividers(s: AppState) -> Seq<DividerView> {
    dividers_of(s.layout.root, full_rect(s.terminal_size.0, pane_area_height(s)), Seq::empty())
}

/// The cell `(col, row)` lies on divider `d`.
pub open spec fn divider_hit(d: DividerView, col: u16, row: u16) -> bool {
    match d.orientation {
        Orientation::Vertical => col == d.position && d.span_start <= row < d.span_end,
        Orientation::Horizontal => row == d.position && d.span_start <= col < d.span_end,
    }
}

/// `ds[i]` is the first divider under `(col, row)`.
pub open spec fn first_divider_at(ds: Seq<DividerView>, col: u16, row: u16, i: int) -> bool {
    &&& 0 <= i < ds.len()
    &&& divider_hit(ds[i], col, row)
    &&& forall|j: int| 0 <= j < i ==> !divider_hit(#[trigger] ds[j], col, row)
}

/// The cell `(col, row)` lies in `r`.
pub open spec fn rect_contains(r: Rect, col: u16, row: u16) -> bool {
    r.x <= col < r.x + r.width && r.y <= row < r.y + r.height
}

/// `rs[i]` is the first pane rectangle containing `(col, row)`.
pub open spec fn first_pane_at(rs: Seq<(PaneId, Rect)>, col: u16, row: u16, i: int) -> bool {
    &&& 0 <= i < rs.len()
    &&& rect_contains(rs[i].1, col, row)
    &&& forall|j: int| 0 <= j < i ==> !rect_contains((#[trigger] rs[j]).1, col, row)
}

/// `rs[i]` is the first rectangle of pane `id`.
pub open spec fn first_rect_of(rs: Seq<(PaneId, Rect)>, id: PaneId, i: int) -> bool {
    &&& 0 <= i < rs.len()
    &&& rs[i].0 == id
    &&& forall|j: int| 0 <= j < i ==> (#[trigger] rs[j]).0 != id
}

/// The cell lies inside the border of pane rectangle `r`.
pub open spec fn in_inner(r: Rect, col: u16, row: u16) -> bool {
    let iw: int = if r.width >= 2 { r.width - 2 } else { 0 };
    let ih: int = if r.height >= 2 { r.height - 2 } else { 0 };
    r.x + 1 <= col < r.x + 1 + iw && r.y + 1 <= row < r.y + 1 + ih
}

/// The mouse coordinate along a split axis.
pub open spec fn axis_coord(o: Orientation, m: MouseEvent) -> u16 {
    match o {
        Orientation::Vertical => m.column,
        Orientation::Horizontal => m.row,
    }
}

/// Ratio (basis points) that puts a divider at `coord` of a split
/// spanning `size` cells from `start`: the offset's share, rounded up so
/// that the first part ends exactly at `coord`.
pub open spec fn drag_ratio(coord: u16, start: u16, size: u16) -> int {
    ((if coord >= start { coord - start } else { 0 }) * RATIO_ONE as int + size - 1) / size as int
}

/// Dragging a divider to offset `offset` of a split of `len` cells (at most
/// RATIO_ONE cells, with the ratio inside the allowed range) puts the end of
/// the first part exactly at that offset.
pub proof fn law_drag_lands_on_cell(offset: u16, len: u16)
    requires
        1 <= offset < len <= RATIO_ONE,
        RATIO_MIN <= drag_ratio(offset, 0, len) <= RATIO_MAX,
    ensures
        first_len(len, drag_ratio(offset, 0, len) as u16) == offset,
{
    let o = offset as int;
    let n = len as int;
    let q = drag_ratio(offset, 0, len);
    assert(q == (o * 10000 + n - 1) / n);
    assert(q * n <= o * 10000 + n - 1 && q * n > o * 10000 - 1) by (nonlinear_arith)
        requires
            q == (o * 10000 + n - 1) / n,
            n >= 1,
            o >= 0;
    assert((n * q) / 10000 == o) by (nonlinear_arith)
        requires
            q * n <= o * 10000 + n - 1,
            q * n >= o * 10000,
            1 <= n <= 10000;
}

/// A coordinate clamped into `[lo, lo + len)` and made relative to `lo`.
pub open spec fn clamp_into(v: u16, lo: int, len: int) -> u16 {
    let a: int = if v < lo { lo } else { v as int };
    let b: int = if a > lo + len - 1 { lo + len - 1 } else { a };
    (b - lo) as u16
}

/// Left button pressed: on a divider a resize drag starts; on a pane it is
/// focused, and inside its border a selection starts at that cell.
pub open spec fn down_left_rel(s: AppState, t: AppState, m: MouseEvent) -> bool {
    let s0 = AppState { selection: None, dragging: false, resize_drag: None, ..s };
    let ds = mouse_dividers(s);
    let rs = mouse_rects(s);
    if exists|i: int| first_divider_at(ds, m.column, m.row, i) {
        let d = ds[choose|i: int| first_divider_at(ds, m.column, m.row, i)];
        t == (AppState {
            resize_drag: Some(DragView {
                orientation: d.orientation,
                rect_start: d.rect_start,
                rect_size: d.rect_size,
                last_axis_coord: Some(axis_coord(d.orientation, m)),
                path: d.path,
            }),
            ..s0
        })
    } else if exists|i: int| first_pane_at(rs, m.column, m.row, i) {
        let p = rs[choose|i: int| first_pane_at(rs, m.column, m.row, i)];
        let s1 = with_layout(s0, Layout { active: p.0, ..s.layout });
        if in_inner(p.1, m.column, m.row) {
            let cell = ((m.column - p.1.x - 1) as u16, (m.row - p.1.y - 1) as u16);
            t == (AppState {
                drag_origin: Some((m.column, m.row)),
                selection: Some(Selection { pane_id: p.0, start: cell, end: cell, display_offset: 0 }),
                ..s1
            })
        } else {
            t == s1
        }
    } else {
        t == s0
    }
}

/// Left button dragged: a divider drag moves its split's ratio (once per
/// new coordinate) and every pane is told its new size; otherwise the selection's end follows the mouse,
/// clamped to the pane's inner area.
pub open spec fn drag_left_rel(s: AppState, t: AppState, m: MouseEvent) -> bool {
    match s.resize_drag {
        Some(d) => if d.rect_size > 0 && d.last_axis_coord != Some(axis_coord(d.orientation, m)) {
            let a = axis_coord(d.orientation, m);
            t == resized(AppState {
                layout: Layout {
                    root: set_ratio_at(s.layout.root, d.path, clamp_ratio(drag_ratio(a, d.rect_start, d.rect_size))),
                    ..s.layout
                },
                resize_drag: Some(DragView { last_axis_coord: Some(a), ..d }),
                ..s
            })
        } else {
            t == s
        },
        None => {
            let s1 = AppState { dragging: true, ..s };
            let rs = mouse_rects(s);
            match s.selection {
                Some(sel) => if exists|i: int| first_rect_of(rs, sel.pane_id, i) {
                    let r = rs[choose|i: int| first_rect_of(rs, sel.pane_id, i)].1;
                    let end = (clamp_into(m.column, r.x + 1, r.width - 2), clamp_into(m.row, r.y + 1, r.height - 2));
                    t == (AppState { selection: Some(Selection { end, ..sel }), ..s1 })
                } else {
                    t == s1
                },
                None => t == s1,
            }
        },
    }
}

/// Left button released: a divider drag ends; a click without movement
/// drops the selection.
pub open spec fn up_left_rel(s: AppState, t: AppState) -> bool {
    if s.resize_drag is Some {
        t == (AppState { resize_drag: None, ..s })
    } else {
        t == (AppState {
            selection: if s.dragging { s.selection } else { None },
            drag_origin: None,
            dragging: false,
            ..s
        })
    }
}

/// Pane a right click pastes into: the pane under the mouse, or the active
/// pane when there is none.
pub open spec fn paste_target(s: AppState, m: MouseEvent) -> PaneId {
    let rs = mouse_rects(s);
    if exists|i: int| first_pane_at(rs, m.column, m.row, i) {
        rs[choose|i: int| first_pane_at(rs, m.column, m.row, i)].0
    } else {
        s.layout.active
    }
}

/// A mouse event. A right click copies the selection when there is one and
/// otherwise pastes the clipboard into the pane under the mouse.
pub open spec fn mouse_rel(s: AppState, t: AppState, m: MouseEvent) -> bool {
    match m.kind {
        MouseEventKind::Down(MouseButton::Left) => down_left_rel(s, t, m),
        MouseEventKind::Drag(MouseButton::Left) => drag_left_rel(s, t, m),
        MouseEventKind::Up(MouseButton::Left) => up_left_rel(s, t),
        MouseEventKind::Down(MouseButton::Right) => if s.selection is Some {
            copy_rel(s, t)
        } else {
            paste_rel(s, t, paste_target(s, m), true) || paste_rel(s, t, paste_target(s, m), false)
        },
        _ => t == s,
    }
}

/// An event: `ok` is false only when a pane backend failed; `render` tells
/// whether the screen needs redrawing.
pub open spec fn event_rel(s: AppState, t: AppState, ev: AppEvent, ok: bool, render: bool) -> bool {
    match ev {
        AppEvent::Key(k) => match k.kind {
            KeyEventKind::Press => key_rel(s, t, k, ok, render),
            KeyEventKind::Repeat => repeat_rel(s, t, k, ok, render),
            KeyEventKind::Release => t == s && ok && !render,
        },
        AppEvent::Mouse(m) => mouse_rel(s, t, m) && ok && render,
        AppEvent::Resize(w, h) => t == resized(AppState { selection: None, terminal_size: (w, h), ..s }) && ok && render,
        AppEvent::PaneData { .. } => t == s && ok && render,
        AppEvent::PaneExit { pane_id } => ok && if s.pane_ids.contains(pane_id) {
            close_rel(s, t, pane_id) && render
        } else {
            t == s && !render
        },
    }
}

/// Events the app handles without overflowing: a split needs a fresh pane
/// id, and moving a selection needs its pane to have an inner area.
pub open spec fn accepts(s: AppState, ev: AppEvent) -> bool {
    match ev {
        AppEvent::Key(k) => {
            let cmd = match k.kind {
                KeyEventKind::Press => key_command(s, k),
                KeyEventKind::Repeat => repeat_command(s, k),
                KeyEventKind::Release => None,
            };
            cmd matches Some(c) ==> cmd_fits(s, c)
        },
        AppEvent::Mouse(m) => {
            let rs = mouse_rects(s);
            match s.selection {
                Some(sel) => (m.kind == MouseEventKind::Drag(MouseButton::Left) && s.resize_drag is None
                    && exists|i: int| first_rect_of(rs, sel.pane_id, i)) ==> ({
                    let r = rs[choose|i: int| first_rect_of(rs, sel.pane_id, i)].1;
                    r.width >= 3 && r.height >= 3
                }),
                None => true,
            }
        },
        _ => true,
    }
}


proof fn lemma_first_divider_unique(ds: Seq<DividerView>, col: u16, row: u16, i: int, j: int)
    requires
        first_divider_at(ds, col, row, i),
        first_divider_at(ds, col, row, j),
    ensures
        i == j,
{
    if i < j { assert(!divider_hit(ds[i], col, row)); }
    if j < i { assert(!divider_hit(ds[j], col, row)); }
}

proof fn lemma_first_pane_unique(rs: Seq<(PaneId, Rect)>, col: u16, row: u16, i: int, j: int)
    requires
        first_pane_at(rs, col, row, i),
        first_pane_at(rs, col, row, j),
    ensures
        i == j,
{
    if i < j { assert(!rect_contains(rs[i].1, col, row)); }
    if j < i { assert(!rect_contains(rs[j].1, col, row)); }
}

proof fn lemma_first_rect_unique(rs: Seq<(PaneId, Rect)>, id: PaneId, i: int, j: int)
    requires
        first_rect_of(rs, id, i),
        first_rect_of(rs, id, j),
    ensures
        i == j,
{
    if i < j { assert(rs[i].0 != id); }
    if j < i { assert(rs[j].0 != id); }
}

/// Whether a command splits the active pane.
pub fn is_split(cmd: Command) -> (r: bool)
    ensures
        r == (split_params(cmd) is Some),
{
    match cmd {
        Command::SplitVertical | Command::SplitHorizontal | Command::SplitLeft | Command::SplitRight
        | Command::SplitUp | Command::SplitDown => true,
        _ => false,
    }
}

// ── the application ────────────────────────────────────────────────────────

/// A divider being dragged.
struct DividerDrag {
    orientation: Orientation,
    rect_start: u16,
    rect_size: u16,
    last_axis_coord: Option<u16>,
    path: Vec<bool>,
}

impl View for DividerDrag {
    type V = DragView;

    closed spec fn view(&self) -> DragView {
        DragView {
            orientation: self.orientation,
            rect_start: self.rect_start,
            rect_size: self.rect_size,
            last_axis_coord: self.last_axis_coord,
            path: self.path@,
        }
    }
}

/// Central application state, generic over the pane backend.
pub struct App<B: PaneBackend> {
    layout: Layout,
    panes: Vec<(PaneId, B)>,
    keymap: KeyMap,
    terminal_size: (u16, u16),
    running: bool,
    prefix_active: bool,
    show_cheatsheet: bool,
    selection: Option<Selection>,
    drag_origin: Option<(u16, u16)>,
    dragging: bool,
    resize_drag: Option<DividerDrag>,
    calls: Ghost<Seq<PlatformCall>>,
    named_layouts: Vec<(u8, Vec<LayoutAction>)>,
}

/// Inner size of a bordered pane: two cells less each way, at least four
/// columns and two rows.
pub fn pane_inner_size(rect: Rect) -> (r: (u16, u16))
    ensures
        r == (inner_extent(rect.width, 4), inner_extent(rect.height, 2)),
{
    let w: u16 = if rect.width >= 2 { rect.width - 2 } else { 0 };
    let h: u16 = if rect.height >= 2 { rect.height - 2 } else { 0 };
    (if w < 4 { 4 } else { w }, if h < 2 { 2 } else { h })
}

/// Size of the first pane for a terminal of `terminal_size`: two cells
/// less each way, at least four.
pub fn initial_pane_size(terminal_size: (u16, u16)) -> (r: (u16, u16))
    ensures
        r == (inner_extent(terminal_size.0, 4), inner_extent(terminal_size.1, 4)),
{
    let (tw, th) = terminal_size;
    let w: u16 = if tw >= 2 { tw - 2 } else { 0 };
    let h: u16 = if th >= 2 { th - 2 } else { 0 };
    (if w < 4 { 4 } else { w }, if h < 4 { 4 } else { h })
}

/// The first rectangle of pane `id`.
fn rect_index(rects: &Vec<(PaneId, Rect)>, id: PaneId) -> (r: Option<usize>)
    ensures
        match r {
            Some(i) => first_rect_of(rects@, id, i as int),
            None => forall|j: int| 0 <= j < rects@.len() ==> (#[trigger] rects@[j]).0 != id,
        },
{
    let mut i: usize = 0;
    while i < rects.len()
        invariant
            i <= rects@.len(),
            forall|j: int| 0 <= j < i ==> (#[trigger] rects@[j]).0 != id,
        decreases rects.len() - i,
    {
        if rects[i].0 == id {
            return Some(i);
        }
        i = i + 1;
    }
    None
}

/// The first pane rectangle containing the cell `(col, row)`.
pub fn find_pane_at(rects: &Vec<(PaneId, Rect)>, col: u16, row: u16) -> (r: Option<(PaneId, Rect)>)
    ensures
        match r {
            Some(p) => exists|i: int| first_pane_at(rects@, col, row, i) && rects@[i] == p,
            None => forall|j: int| 0 <= j < rects@.len() ==> !rect_contains((#[trigger] rects@[j]).1, col, row),
        },
{
    let mut i: usize = 0;
    while i < rects.len()
        invariant
            i <= rects@.len(),
            forall|j: int| 0 <= j < i ==> !rect_contains((#[trigger] rects@[j]).1, col, row),
        decreases rects.len() - i,
    {
        let (id, rect) = rects[i];
        let x = rect.x as u32;
        let y = rect.y as u32;
        if x <= col as u32 && (col as u32) < x + rect.width as u32
            && y <= row as u32 && (row as u32) < y + rect.height as u32 {
            assert(first_pane_at(rects@, col, row, i as int));
            return Some((id, rect));
        }
        i = i + 1;
    }
    None
}

/// The first divider under the cell `(col, row)`.
pub fn find_divider_at(dividers: &Vec<DividerInfo>, col: u16, row: u16) -> (r: Option<DividerInfo>)
    ensures
        match r {
            Some(d) => exists|i: int| first_divider_at(dividers@.map_values(|x: DividerInfo| x@), col, row, i)
                && d@ == dividers@[i]@,
            None => forall|j: int| 0 <= j < dividers@.len() ==> !divider_hit((#[trigger] dividers@[j])@, col, row),
        },
{
    let ghost ds = dividers@.map_values(|x: DividerInfo| x@);
    let mut i: usize = 0;
    while i < dividers.len()
        invariant
            i <= dividers@.len(),
            ds == dividers@.map_values(|x: DividerInfo| x@),
            forall|j: int| 0 <= j < i ==> !divider_hit((#[trigger] dividers@[j])@, col, row),
        decreases dividers.len() - i,
    {
        let d = &dividers[i];
        let hit = match d.orientation {
            Orientation::Vertical => col == d.position && row >= d.span_start && row < d.span_end,
            Orientation::Horizontal => row == d.position && col >= d.span_start && col < d.span_end,
        };
        if hit {
            proof {
                assert forall|j: int| 0 <= j < i implies !divider_hit(#[trigger] ds[j], col, row) by {
                    assert(ds[j] == dividers@[j]@);
                }
                assert(first_divider_at(ds, col, row, i as int));
            }
            let path = d.path.clone();
            proof {
                assert(path@ =~= d.path@) by {
                    assert forall|k: int| 0 <= k < path@.len() implies path@[k] == d.path@[k] by {
                        assert(vstd::pervasive::cloned(d.path@[k], path@[k]));
                    }
                }
            }
            return Some(DividerInfo {
                orientation: d.orientation,
                position: d.position,
                span_start: d.span_start,
                span_end: d.span_end,
                rect_start: d.rect_start,
                rect_size: d.rect_size,
                path,
            });
        }
        i = i + 1;
    }
    None
}

impl<B: PaneBackend> App<B> {
    /// The app as plain values.
    pub closed spec fn state(&self) -> AppState {
        AppState {
            layout: self.layout,
            pane_ids: ids_of(self.panes@),
            keymap: self.keymap,
            terminal_size: self.terminal_size,
            running: self.running,
            prefix_active: self.prefix_active,
            show_cheatsheet: self.show_cheatsheet,
            selection: self.selection,
            drag_origin: self.drag_origin,
            dragging: self.dragging,
            resize_drag: match self.resize_drag {
                Some(d) => Some(d@),
                None => None,
            },
            calls: self.calls@,
            layouts: layouts_map(layout_views(self.named_layouts@)),
        }
    }

    /// The text that the backend of the selection's pane has for the
    /// selection, in reading order; empty without a selection or backend.
    pub closed spec fn selection_text(&self) -> Seq<char> {
        match self.selection {
            Some(x) => {
                let ends = if crate::selection::cell_le(x.start, x.end) { (x.start, x.end) } else { (x.end, x.start) };
                if exists|k: int| 0 <= k < self.panes@.len() && self.panes@[k].0 == x.pane_id {
                    let k = choose|k: int| 0 <= k < self.panes@.len() && self.panes@[k].0 == x.pane_id;
                    self.panes@[k].1.text_between(ends.0, ends.1, x.display_offset)
                } else {
                    Seq::empty()
                }
            },
            None => Seq::empty(),
        }
    }

    /// What the plain values do not show is consistent too.
    pub closed spec fn inner_wf(&self) -> bool {
        &&& keys_distinct(layout_views(self.named_layouts@))
        &&& backends_match(self.panes@, self.calls@)
    }

    /// A consistent app.
    pub open spec fn wf(&self) -> bool {
        state_wf(self.state()) && self.inner_wf()
    }

    /// Whether the event loop should keep running.
    pub fn is_running(&self) -> (r: bool)
        ensures
            r == self.state().running,
    {
        self.running
    }

    /// Number of panes with a backend.
    pub fn pane_count(&self) -> (r: usize)
        ensures
            r == self.state().pane_ids.len(),
    {
        self.panes.len()
    }

    /// The focused pane.
    pub fn active_pane(&self) -> (r: PaneId)
        ensures
            r == self.state().layout.active,
    {
        self.layout.active
    }

    /// Whether the next key names a command.
    pub fn is_prefix_active(&self) -> (r: bool)
        ensures
            r == self.state().prefix_active,
    {
        self.prefix_active
    }

    /// The pane layout.
    pub fn layout(&self) -> (r: &Layout)
        ensures
            *r == self.state().layout,
    {
        &self.layout
    }

    /// The current text selection.
    pub fn selection(&self) -> (r: Option<Selection>)
        ensures
            r == self.state().selection,
    {
        self.selection
    }

    /// The terminal size the layout is computed for.
    pub fn terminal_size(&self) -> (r: (u16, u16))
        ensures
            r == self.state().terminal_size,
    {
        self.terminal_size
    }

    /// The key bindings.
    pub fn keymap(&self) -> (r: &KeyMap)
        ensures
            *r == self.state().keymap,
    {
        &self.keymap
    }

    /// Whether the cheatsheet bar is shown now: prefix mode with the
    /// cheatsheet enabled.
    pub fn cheatsheet_visible(&self) -> (r: bool)
        ensures
            r == (self.state().prefix_active && self.state().show_cheatsheet),
    {
        self.prefix_active && self.show_cheatsheet
    }

    /// The pane backends with their ids.
    pub fn panes(&self) -> (r: &Vec<(PaneId, B)>)
        ensures
            ids_of(r@) == self.state().pane_ids,
    {
        &self.panes
    }

    /// The backend of pane `id`: it has been handed the writes to the pane
    /// since its spawn and told the pane's last size.
    pub fn pane(&self, id: PaneId) -> (r: Option<&B>)
        ensures
            r is Some <==> self.state().pane_ids.contains(id),
            r matches Some(b) ==> (self.wf() ==> b.inputs() == writes_to(self.state().calls, id)
                && b.size() == size_of(self.state().calls, id)),
    {
        match self.find_pane(id) {
            Some(i) => {
                assert(self.wf() ==> pane_matches(self.panes@[i as int], self.calls@));
                Some(&self.panes[i].1)
            },
            None => None,
        }
    }

    fn find_pane(&self, id: PaneId) -> (r: Option<usize>)
        ensures
            match r {
                Some(i) => i < self.panes@.len() && self.panes@[i as int].0 == id
                    && self.state().pane_ids.contains(id),
                None => !self.state().pane_ids.contains(id),
            },
    {
        let ghost ids = ids_of(self.panes@);
        let mut i: usize = 0;
        while i < self.panes.len()
            invariant
                i <= self.panes@.len(),
                ids == ids_of(self.panes@),
                forall|j: int| 0 <= j < i ==> (#[trigger] self.panes@[j]).0 != id,
            decreases self.panes.len() - i,
        {
            if self.panes[i].0 == id {
                proof { assert(ids[i as int] == id); }
                return Some(i);
            }
            i = i + 1;
        }
        proof {
            assert forall|j: int| 0 <= j < ids.len() implies ids[j] != id by {
                assert(ids[j] == self.panes@[j].0);
            }
        }
        None
    }

    /// Records a call that touches no pane backend.
    fn record(&mut self, Ghost(c): Ghost<PlatformCall>)
        requires
            old(self).wf(),
            !(c is Write || c is Spawn || c is Resize),
        ensures
            final(self).wf(),
            final(self).panes@ == old(self).panes@,
            final(self).state() == with_calls(old(self).state(), seq![c]),
    {
        let ghost c0 = self.calls@;
        self.calls = Ghost(self.calls@.push(c));
        proof {
            lemma_push_untargeted(self.panes@, c0, c);
            assert(c0.push(c) =~= c0 + seq![c]);
        }
    }

    /// Hands `bytes` to the backend at index `i`, recording the write.
    fn write_to_pane(&mut self, i: usize, bytes: &Vec<u8>) -> (r: Result<(), Failure>)
        requires
            old(self).wf(),
            i < old(self).panes@.len(),
        ensures
            final(self).wf(),
            final(self).panes@.len() == old(self).panes@.len(),
            ids_of(final(self).panes@) == ids_of(old(self).panes@),
            final(self).state() == with_calls(old(self).state(),
                seq![PlatformCall::Write { pane: old(self).panes@[i as int].0, bytes: bytes@, ok: r is Ok }]),
            r is Err ==> last_call_failed(final(self).state().calls),
    {
        let ghost s0 = self.state();
        let ghost c0 = self.calls@;
        let ghost before = self.panes@;
        let res = self.panes[i].1.write_input(bytes.as_slice());
        let ghost call = PlatformCall::Write { pane: before[i as int].0, bytes: bytes@, ok: res is Ok };
        self.calls = Ghost(self.calls@.push(call));
        proof {
            self.lemma_same_ids(before);
            lemma_push_to_pane(before, self.panes@, c0, call, i as int);
            assert(c0.push(call) =~= c0 + seq![call]);
        }
        res
    }

    /// Tells the backend at index `i` its new size, recording the call.
    fn resize_pane(&mut self, i: usize, cols: u16, rows: u16)
        requires
            old(self).wf(),
            i < old(self).panes@.len(),
        ensures
            final(self).wf(),
            final(self).panes@.len() == old(self).panes@.len(),
            ids_of(final(self).panes@) == ids_of(old(self).panes@),
            final(self).state() == with_calls(old(self).state(),
                seq![PlatformCall::Resize { pane: old(self).panes@[i as int].0, cols, rows }]),
    {
        let ghost c0 = self.calls@;
        let ghost before = self.panes@;
        let ghost call = PlatformCall::Resize { pane: self.panes@[i as int].0, cols, rows };
        self.calls = Ghost(self.calls@.push(call));
        self.panes[i].1.resize(cols, rows);
        proof {
            self.lemma_same_ids(before);
            lemma_push_to_pane(before, self.panes@, c0, call, i as int);
            assert(c0.push(call) =~= c0 + seq![call]);
        }
    }

    /// Tells every backend its inner size in the current layout.
    fn refresh_pane_sizes(&mut self)
        requires
            old(self).wf(),
        ensures
            final(self).wf(),
            final(self).state() == resized(old(self).state()),
    {
        let (w, h) = self.terminal_size;
        let rects = self.layout.compute_rects(w, h);
        let ghost ids = ids_of(self.panes@);
        let ghost s0 = self.state();
        let ghost rs = rects@;
        assert(rs == screen_rects(s0));
        let n = self.panes.len();
        let mut i: usize = 0;
        while i < n
            invariant
                n == self.panes@.len(),
                i <= n,
                ids.len() == n,
                ids_of(self.panes@) == ids,
                rs == rects@,
                state_wf(s0),
                self.wf(),
                self.state() == with_calls(s0, resize_calls(ids.take(i as int), rs)),
            decreases n - i,
        {
            let id = self.panes[i].0;
            proof {
                assert(ids[i as int] == id);
                assert(ids.take(i as int + 1).drop_last() =~= ids.take(i as int));
                assert(ids.take(i as int + 1).last() == id);
            }
            match rect_index(&rects, id) {
                Some(k) => {
                    let (iw, ih) = pane_inner_size(rects[k].1);
                    proof {
                        let c = choose|j: int| first_rect_of(rs, id, j);
                        lemma_first_rect_unique(rs, id, k as int, c);
                    }
                    let ghost prev = self.state().calls;
                    self.resize_pane(i, iw, ih);
                    proof {
                        let x = ids.take(i as int + 1);
                        let call = PlatformCall::Resize { pane: id, cols: iw, rows: ih };
                        assert(first_rect_of(rs, id, k as int));
                        assert(rect_for(rs, id) == rects@[k as int].1);
                        assert(resize_calls(x, rs) == resize_calls(ids.take(i as int), rs) + seq![call]);
                        assert(prev == s0.calls + resize_calls(ids.take(i as int), rs));
                        assert(s0.calls + resize_calls(x, rs) =~= prev + seq![call]);
                    }
                },
                None => {
                    proof {
                        assert(!exists|j: int| first_rect_of(rs, id, j));
                        let x = ids.take(i as int + 1);
                        assert(resize_calls(x, rs) == resize_calls(ids.take(i as int), rs) + Seq::<PlatformCall>::empty());
                        assert(resize_calls(x, rs) =~= resize_calls(ids.take(i as int), rs));
                    }
                },
            }
            i = i + 1;
        }
        proof {
            assert(ids.take(n as int) =~= ids);
        }
    }

    /// An app with one pane, `PaneId(0)`, whose backend `factory` spawns
    /// with [`initial_pane_size`].
    pub fn new<F: PaneFactory<B>>(keymap: KeyMap, terminal_size: (u16, u16), show_cheatsheet: bool, factory: &F)
        -> (r: Result<App<B>, Failure>)
        requires
            keymap.wf(),
        ensures
            r matches Ok(app) ==> app.wf() && app.state() == initial_state(keymap, terminal_size, show_cheatsheet),
    {
        let (pw, ph) = initial_pane_size(terminal_size);
        let first = factory.spawn(PaneId(0), pw, ph);
        Self::with_first_pane(keymap, terminal_size, show_cheatsheet, first)
    }

    /// The app that [`Self::new`] builds from what spawning pane
    /// `PaneId(0)` at [`initial_pane_size`] gave: running with that backend
    /// when there is one, otherwise the spawn's error.
    pub fn with_first_pane(keymap: KeyMap, terminal_size: (u16, u16), show_cheatsheet: bool, first: Result<B, Failure>)
        -> (r: Result<App<B>, Failure>)
        requires
            keymap.wf(),
            first matches Ok(b) ==> b.pane_id() == PaneId(0) && b.inputs() == Seq::<Seq<u8>>::empty()
                && b.size() == (inner_extent(terminal_size.0, 4), inner_extent(terminal_size.1, 4)),
        ensures
            r is Ok <==> first is Ok,
            r matches Ok(app) ==> app.wf() && app.state() == initial_state(keymap, terminal_size, show_cheatsheet),
            first matches Err(e) ==> r == Err::<App<B>, Failure>(e),
    {
        let layout = Layout::new();
        let (pw, ph) = initial_pane_size(terminal_size);
        let root_id = layout.active;
        match first {
            Ok(pane) => {
                let mut panes: Vec<(PaneId, B)> = Vec::new();
                panes.push((root_id, pane));
                let calls: Ghost<Seq<PlatformCall>> = Ghost(Seq::empty().push(PlatformCall::Spawn { pane: root_id, cols: pw, rows: ph, ok: true }));
                let app = App {
                    layout,
                    panes,
                    keymap,
                    terminal_size,
                    running: true,
                    prefix_active: false,
                    show_cheatsheet,
                    selection: None,
                    drag_origin: None,
                    dragging: false,
                    resize_drag: None,
                    calls,
                    named_layouts: Vec::new(),
                };
                proof {
                    lemma_log_push(Seq::empty(), calls@[0], PaneId(0));
                    assert(Seq::<PlatformCall>::empty().push(calls@[0]) == calls@);
                    assert(pane_matches(app.panes@[0], app.calls@));
                    assert(layouts_map(layout_views(app.named_layouts@)) =~= Map::<u8, Seq<ActionView>>::empty());
                    assert(ids_of(app.panes@) =~= seq![PaneId(0)]);
                    assert(app.state().layout.leaves_view().contains(PaneId(0))) by {
                        assert(app.state().layout.leaves_view()[0] == PaneId(0));
                    }
                }
                Ok(app)
            },
            Err(e) => Err(e),
        }
    }

    /// Splits the active pane and spawns a backend for the new one.
    fn split<F: PaneFactory<B>>(&mut self, orientation: Orientation, position: SplitPosition, ratio: Option<u16>, factory: &F)
        -> (r: Result<(), Failure>)
        requires
            old(self).wf(),
            old(self).state().layout.next_id < u32::MAX,
        ensures
            final(self).wf(),
            split_rel(old(self).state(), final(self).state(), orientation, position,
                internal_ratio(position, ratio), r is Ok),
            panes_are_leaves(old(self).state()) && r is Ok ==> panes_are_leaves(final(self).state()),
            r is Err ==> last_call_failed(final(self).state().calls),
    {
        let ghost s = self.state();
        self.selection = None;
        let (w, h) = self.terminal_size;
        let new_id = match ratio {
            Some(req) => {
                let c = clamp_ratio_exec(req as i32);
                let internal: u16 = match position {
                    SplitPosition::After => c,
                    SplitPosition::Before => 10000 - c,
                };
                self.layout.split_with_position_and_ratio(orientation, position, internal)
            },
            None => self.layout.split_with_position(orientation, position),
        };
        proof {
            assert forall|x: PaneId| #[trigger] ids_of(self.panes@).contains(x) implies
                self.layout.leaves_view().contains(x) by {
                assert(s.pane_ids.contains(x));
            }
        }
        let ghost mid = self.state();
        self.refresh_pane_sizes();
        let ghost m = self.state();
        let rects = self.layout.compute_rects(w, h);
        let ghost rs = rects@;
        assert(rs == screen_rects(m));
        let rect = match rect_index(&rects, new_id) {
            Some(k) => {
                proof {
                    let c = choose|j: int| first_rect_of(rs, new_id, j);
                    lemma_first_rect_unique(rs, new_id, k as int, c);
                }
                rects[k].1
            },
            None => {
                proof { assert(!exists|j: int| first_rect_of(rs, new_id, j)); }
                Rect::default()
            },
        };
        let (iw, ih) = pane_inner_size(rect);
        let spawned = factory.spawn(new_id, iw, ih);
        let ghost c0 = self.calls@;
        let ghost spawn = PlatformCall::Spawn { pane: new_id, cols: iw, rows: ih, ok: spawned is Ok };
        proof {
            assert(!s.pane_ids.contains(new_id)) by {
                if s.pane_ids.contains(new_id) {
                    assert(s.layout.leaves_view().contains(new_id));
                }
            }
            assert forall|k: int| 0 <= k < self.panes@.len() implies !targets(spawn, (#[trigger] self.panes@[k]).0) by {
                assert(ids_of(self.panes@)[k] == self.panes@[k].0);
                assert(s.pane_ids.contains(self.panes@[k].0));
            }
            lemma_push_untargeted(self.panes@, c0, spawn);
        }
        self.calls = Ghost(self.calls@.push(spawn));
        match spawned {
            Ok(pane) => {
                let ghost before = self.panes@;
                self.panes.push((new_id, pane));
                proof {
                    assert(ids_of(self.panes@) =~= ids_of(before).push(new_id));
                    lemma_log_push(c0, spawn, new_id);
                    assert(pane_matches(self.panes@.last(), self.calls@));
                    assert forall|k: int| 0 <= k < self.panes@.len() implies #[trigger] pane_matches(self.panes@[k], self.calls@) by {
                        if k < before.len() { assert(self.panes@[k] == before[k]); }
                    }
                    if panes_are_leaves(s) {
                        let ids = ids_of(self.panes@);
                        assert forall|x: PaneId| #[trigger] ids.contains(x) <==> self.layout.leaves_view().contains(x) by {
                            if x == new_id {
                                assert(ids[ids.len() - 1] == new_id);
                            } else {
                                if ids.contains(x) {
                                    let k = choose|k: int| 0 <= k < ids.len() && ids[k] == x;
                                    assert(s.pane_ids[k] == x);
                                }
                                if s.pane_ids.contains(x) {
                                    let k = choose|k: int| 0 <= k < s.pane_ids.len() && s.pane_ids[k] == x;
                                    assert(ids[k] == x);
                                }
                            }
                        }
                    }
                    assert(ids_of(self.panes@).no_duplicates()) by {
                        let t = ids_of(self.panes@);
                        assert forall|a: int, b: int| 0 <= a < t.len() && 0 <= b < t.len() && a != b
                            implies t[a] != t[b] by {
                            if a < t.len() - 1 && b < t.len() - 1 {
                                assert(t[a] == s.pane_ids[a] && t[b] == s.pane_ids[b]);
                            } else if a == t.len() - 1 {
                                assert(s.pane_ids.contains(t[b]));
                            } else {
                                assert(s.pane_ids.contains(t[a]));
                            }
                        }
                    }
                    assert forall|x: PaneId| #[trigger] ids_of(self.panes@).contains(x) implies
                        self.layout.leaves_view().contains(x) by {
                        if x != new_id {
                            let k = choose|k: int| 0 <= k < ids_of(self.panes@).len() && ids_of(self.panes@)[k] == x;
                            assert(s.pane_ids[k] == x);
                            assert(s.pane_ids.contains(x));
                        }
                    }
                }
                Ok(())
            },
            Err(e) => Err(e),
        }
    }

    /// Closes pane `id`; closing the last pane stops the app.
    fn close_pane(&mut self, id: PaneId)
        requires
            old(self).wf(),
        ensures
            final(self).wf(),
            close_rel(old(self).state(), final(self).state(), id),
            panes_are_leaves(old(self).state()) ==> panes_are_leaves(final(self).state()),
    {
        let ghost s = self.state();
        match self.selection {
            Some(sel) => {
                if sel.pane_id == id {
                    self.selection = None;
                }
            },
            None => {},
        }
        let ghost l0 = self.layout;
        if !self.layout.close_pane(id) {
            self.running = false;
            return;
        }
        match self.find_pane(id) {
            Some(i) => {
                let ghost before = self.panes@;
                self.panes.remove(i);
                proof {
                    let ids = s.pane_ids;
                    lemma_remove_id(ids, i as int);
                    assert(ids_of(self.panes@) =~= ids.remove(i as int));
                    if panes_are_leaves(s) {
                        assert forall|x: PaneId| #[trigger] ids_of(self.panes@).contains(x)
                            <==> self.layout.leaves_view().contains(x) by {
                            assert(ids.contains(x) <==> l0.leaves_view().contains(x));
                        }
                    }
                    let j = choose|j: int| 0 <= j < ids.len() && ids[j] == id;
                    assert(ids[i as int] == id);
                    assert(j == i);
                    assert(ids_of(self.panes@) =~= ids.remove(i as int));
                    assert forall|x: PaneId| #[trigger] ids_of(self.panes@).contains(x) implies
                        self.layout.leaves_view().contains(x) by {
                        let k = choose|k: int| 0 <= k < ids_of(self.panes@).len() && ids_of(self.panes@)[k] == x;
                        if k < i { assert(ids[k] == x); } else { assert(ids[k + 1] == x); }
                        assert(ids.contains(x));
                    }
                }
            },
            None => {
                proof {
                    assert forall|x: PaneId| #[trigger] ids_of(self.panes@).contains(x) implies
                        self.layout.leaves_view().contains(x) by {
                        assert(s.pane_ids.contains(x));
                    }
                    assert(l0.leaves_view().contains(id));
                }
            },
        }
        self.refresh_pane_sizes();
    }

    /// Runs a command.
    fn dispatch<F: PaneFactory<B>>(&mut self, cmd: Command, factory: &F) -> (r: Result<(), Failure>)
        requires
            old(self).wf(),
            cmd_fits(old(self).state(), cmd),
        ensures
            final(self).wf(),
            dispatch_rel(old(self).state(), final(self).state(), cmd, r is Ok),
            panes_are_leaves(old(self).state()) && r is Ok ==> panes_are_leaves(final(self).state()),
            r is Err ==> last_call_failed(final(self).state().calls),
    {
        match cmd {
            Command::LoadLayout(n) => self.load_layout(n, factory),
            other => self.dispatch_plain(other, factory),
        }
    }

    /// Runs the steps of named layout `n`, if there is one.
    fn load_layout<F: PaneFactory<B>>(&mut self, n: u8, factory: &F) -> (r: Result<(), Failure>)
        requires
            old(self).wf(),
            cmd_fits(old(self).state(), Command::LoadLayout(n)),
        ensures
            final(self).wf(),
            dispatch_rel(old(self).state(), final(self).state(), Command::LoadLayout(n), r is Ok),
            panes_are_leaves(old(self).state()) && r is Ok ==> panes_are_leaves(final(self).state()),
            r is Err ==> last_call_failed(final(self).state().calls),
    {
        let steps = match find_layout(&self.named_layouts, n) {
            Some(v) => copy_actions(v),
            None => { return Ok(()); },
        };
        assert(action_views(steps@).len() == steps@.len());
        self.apply_layout(&steps, factory)
    }

    /// Runs a command other than loading a layout, which does nothing here.
    fn dispatch_plain<F: PaneFactory<B>>(&mut self, cmd: Command, factory: &F) -> (r: Result<(), Failure>)
        requires
            old(self).wf(),
            split_params(cmd) is Some ==> old(self).state().layout.next_id < u32::MAX,
        ensures
            final(self).wf(),
            plain_dispatch_rel(old(self).state(), final(self).state(), cmd, r is Ok),
            panes_are_leaves(old(self).state()) && r is Ok ==> panes_are_leaves(final(self).state()),
            r is Err ==> last_call_failed(final(self).state().calls),
    {
        let ghost s = self.state();
        match cmd {
            Command::SplitVertical => self.split(Orientation::Vertical, SplitPosition::After, None, factory),
            Command::SplitHorizontal => self.split(Orientation::Horizontal, SplitPosition::After, None, factory),
            Command::SplitLeft => self.split(Orientation::Vertical, SplitPosition::Before, None, factory),
            Command::SplitRight => self.split(Orientation::Vertical, SplitPosition::After, None, factory),
            Command::SplitUp => self.split(Orientation::Horizontal, SplitPosition::Before, None, factory),
            Command::SplitDown => self.split(Orientation::Horizontal, SplitPosition::After, None, factory),
            Command::ClosePane => {
                let id = self.layout.active;
                self.close_pane(id);
                Ok(())
            },
            Command::FocusNext => {
                self.layout.focus_next();
                proof { self.lemma_layout_only(s); }
                Ok(())
            },
            Command::FocusPrev => {
                self.layout.focus_prev();
                proof { self.lemma_layout_only(s); }
                Ok(())
            },
            Command::FocusLeft => {
                self.layout.focus_direction(Direction::Left, self.terminal_size);
                proof { self.lemma_layout_only(s); }
                Ok(())
            },
            Command::FocusRight => {
                self.layout.focus_direction(Direction::Right, self.terminal_size);
                proof { self.lemma_layout_only(s); }
                Ok(())
            },
            Command::FocusUp => {
                self.layout.focus_direction(Direction::Up, self.terminal_size);
                proof { self.lemma_layout_only(s); }
                Ok(())
            },
            Command::FocusDown => {
                self.layout.focus_direction(Direction::Down, self.terminal_size);
                proof { self.lemma_layout_only(s); }
                Ok(())
            },
            Command::ResizeLeft => {
                let active = self.layout.active;
                self.layout.adjust_pane_ratio(active, Orientation::Vertical, -RESIZE_STEP);
                proof { self.lemma_layout_only(s); }
                self.refresh_pane_sizes();
                Ok(())
            },
            Command::ResizeRight => {
                let active = self.layout.active;
                self.layout.adjust_pane_ratio(active, Orientation::Vertical, RESIZE_STEP);
                proof { self.lemma_layout_only(s); }
                self.refresh_pane_sizes();
                Ok(())
            },
            Command::ResizeUp => {
                let active = self.layout.active;
                self.layout.adjust_pane_ratio(active, Orientation::Horizontal, -RESIZE_STEP);
                proof { self.lemma_layout_only(s); }
                self.refresh_pane_sizes();
                Ok(())
            },
            Command::ResizeDown => {
                let active = self.layout.active;
                self.layout.adjust_pane_ratio(active, Orientation::Horizontal, RESIZE_STEP);
                proof { self.lemma_layout_only(s); }
                self.refresh_pane_sizes();
                Ok(())
            },
            Command::Quit => {
                self.running = false;
                Ok(())
            },
            Command::LoadLayout(_) => Ok(()),
        }
    }

    /// Whether the pane ids left suffice for `cmd`.
    fn command_fits(&self, cmd: Command) -> (r: bool)
        requires
            self.wf(),
        ensures
            r == cmd_fits(self.state(), cmd),
    {
        match cmd {
            Command::LoadLayout(n) => match find_layout(&self.named_layouts, n) {
                Some(v) => {
                    assert(action_views(v@).len() == v@.len());
                    if v.len() >= 0xffff_ffffusize {
                        false
                    } else {
                        (self.layout.next_id as u64) + (v.len() as u64) < 0xffff_ffffu64
                    }
                },
                None => true,
            },
            _ => !is_split(cmd) || self.layout.can_allocate(),
        }
    }

    /// Makes the named layouts, whose numbers are distinct, loadable by
    /// [`Command::LoadLayout`].
    pub fn set_named_layouts(&mut self, layouts: Vec<(u8, Vec<LayoutAction>)>)
        requires
            old(self).wf(),
            keys_distinct(layout_views(layouts@)),
        ensures
            final(self).wf(),
            final(self).state() == (AppState { layouts: layouts_map(layout_views(layouts@)), ..old(self).state() }),
    {
        self.named_layouts = layouts;
    }

    /// After a change of the layout alone that keeps its leaves, the app is
    /// still consistent and differs from `s` in its layout only.
    proof fn lemma_layout_only(&self, s: AppState)
        requires
            state_wf(s),
            self.layout.wf(),
            self.layout.leaves_view() == s.layout.leaves_view(),
            self.state() == with_layout(s, self.layout),
            self.inner_wf(),
        ensures
            self.wf(),
    {
        assert forall|x: PaneId| #[trigger] self.state().pane_ids.contains(x) implies
            self.layout.leaves_view().contains(x) by {
            assert(s.pane_ids.contains(x));
        }
    }

    /// Puts the selected text on the clipboard and drops the selection; a
    /// click-sized selection is kept and nothing is copied.
    fn copy_selection<C: Clipboard>(&mut self, clipboard: &mut C)
        requires
            old(self).wf(),
        ensures
            final(self).wf(),
            copy_rel(old(self).state(), final(self).state()),
            panes_are_leaves(old(self).state()) ==> panes_are_leaves(final(self).state()),
            final(clipboard).texts() == old(clipboard).texts() + copied_texts(old(self).state().calls, final(self).state().calls),
            copy_follows(old(self).state(), final(self).state(), old(self).selection_text()),
    {
        let ghost s = self.state();
        match self.selection {
            Some(sel) => {
                if sel.is_empty() {
                    return;
                }
                let (start, end) = sel.ordered();
                match self.find_pane(sel.pane_id) {
                    Some(i) => {
                        let text = self.panes[i].1.selected_text(start, end, sel.display_offset);
                        proof {
                            let k = choose|k: int| 0 <= k < self.panes@.len() && self.panes@[k].0 == sel.pane_id;
                            assert(ids_of(self.panes@)[k] == ids_of(self.panes@)[i as int]);
                            assert(text@ == self.selection_text());
                        }
                        let ghost read = PlatformCall::ReadSelection {
                            pane: sel.pane_id, start, end, display_offset: sel.display_offset, text: text@ };
                        self.record(Ghost(read));
                        if !text.as_str().is_empty() {
                            self.record(Ghost(PlatformCall::ClipboardWrite { text: text@ }));
                            let _ = clipboard.set_text(text.as_str());
                        }
                        self.selection = None;
                        proof {
                            assert(self.state().calls =~= s.calls + copy_calls(sel, text@));
                        }
                        return;
                    },
                    None => {},
                }
            },
            None => {},
        }
        self.selection = None;
    }

    /// Writes the clipboard text to pane `pane_id` as a bracketed paste.
    /// Nothing is written when the clipboard is empty or cannot be read.
    fn paste_clipboard_to<C: Clipboard>(&mut self, pane_id: PaneId, clipboard: &mut C) -> (r: Result<(), Failure>)
        requires
            old(self).wf(),
        ensures
            final(self).wf(),
            paste_rel(old(self).state(), final(self).state(), pane_id, r is Ok),
            panes_are_leaves(old(self).state()) && r is Ok ==> panes_are_leaves(final(self).state()),
            final(clipboard).texts() == old(clipboard).texts(),
            r is Err ==> last_call_failed(final(self).state().calls),
    {
        let ghost s = self.state();
        let got = clipboard.get_text();
        let ghost read: Option<Seq<char>> = match &got {
            Ok(t) => Some(t@),
            Err(_) => None,
        };
        self.record(Ghost(PlatformCall::ClipboardRead { text: read }));
        match got {
            Ok(text) => {
                if !text.as_str().is_empty() {
                    match self.find_pane(pane_id) {
                        Some(i) => {
                            let bytes = bracketed_paste(text.as_str());
                            let res = self.write_to_pane(i, &bytes);
                            proof {
                                assert(self.state().calls =~= s.calls + paste_calls(s, pane_id, read, res is Ok));
                            }
                            return match res {
                                Ok(()) => Ok(()),
                                Err(e) => Err(e),
                            };
                        },
                        None => {},
                    }
                }
                proof { assert(self.state().calls =~= s.calls + paste_calls(s, pane_id, read, true)); }
                Ok(())
            },
            Err(_) => {
                proof { assert(self.state().calls =~= s.calls + paste_calls(s, pane_id, read, true)); }
                Ok(())
            },
        }
    }

    proof fn lemma_same_ids(&self, before: Seq<(PaneId, B)>)
        requires
            self.panes@.len() == before.len(),
            forall|j: int| 0 <= j < before.len() ==> (#[trigger] self.panes@[j]).0 == before[j].0,
        ensures
            ids_of(self.panes@) == ids_of(before),
    {
        assert(ids_of(self.panes@) =~= ids_of(before));
    }

    /// Sends the bytes of a key event to the active pane.
    fn forward_key(&mut self, key: &KeyEvent) -> (r: Result<(), Failure>)
        requires
            old(self).wf(),
        ensures
            final(self).wf(),
            forward_rel(old(self).state(), final(self).state(), *key, r is Ok),
            key_bytes(*key) is None ==> r is Ok,
            panes_are_leaves(old(self).state()) && r is Ok ==> panes_are_leaves(final(self).state()),
            r is Err ==> last_call_failed(final(self).state().calls),
    {
        match key_event_to_bytes(key) {
            Some(bytes) => {
                match self.find_pane(self.layout.active) {
                    Some(i) => {
                        self.write_to_pane(i, &bytes)
                    },
                    None => {
                        proof { assert(self.state().calls =~= self.state().calls + Seq::<PlatformCall>::empty()); }
                        Ok(())
                    },
                }
            },
            None => {
                proof { assert(self.state().calls =~= self.state().calls + Seq::<PlatformCall>::empty()); }
                Ok(())
            },
        }
    }

    /// A key press; the result tells whether the screen needs redrawing.
    fn handle_key<F: PaneFactory<B>, C: Clipboard>(&mut self, key: KeyEvent, factory: &F, clipboard: &mut C)
        -> (r: Result<bool, Failure>)
        requires
            old(self).wf(),
            key_command(old(self).state(), key) matches Some(c) ==> cmd_fits(old(self).state(), c),
        ensures
            final(self).wf(),
            key_rel(old(self).state(), final(self).state(), key, r is Ok, r matches Ok(true)),
            panes_are_leaves(old(self).state()) && r is Ok ==> panes_are_leaves(final(self).state()),
            final(clipboard).texts() == old(clipboard).texts() + if is_copy_key(key) { copied_texts(old(self).state().calls, final(self).state().calls) } else { Seq::empty() },
            is_copy_key(key) ==> copy_follows(old(self).state(), final(self).state(), old(self).selection_text()),
            r is Err ==> last_call_failed(final(self).state().calls),
    {
        let mods = key.modifiers;
        if mods.control && mods.shift {
            match key.code {
                KeyCode::Char(c) => {
                    if c == 'c' || c == 'C' {
                        self.copy_selection(clipboard);
                        return Ok(true);
                    }
                    if c == 'v' || c == 'V' {
                        let target = self.layout.active;
                        return match self.paste_clipboard_to(target, clipboard) {
                            Ok(()) => Ok(true),
                            Err(e) => Err(e),
                        };
                    }
                },
                _ => {},
            }
        }
        if self.prefix_active {
            self.prefix_active = false;
            match self.keymap.lookup_prefix(&key) {
                Some(cmd) => {
                    let cmd = *cmd;
                    match self.dispatch(cmd, factory) {
                        Ok(()) => {},
                        Err(e) => { return Err(e); },
                    }
                },
                None => {},
            }
            return Ok(true);
        }
        if self.keymap.is_prefix(&key) {
            self.prefix_active = true;
            return Ok(true);
        }
        match self.keymap.lookup_direct(&key) {
            Some(cmd) => {
                let cmd = *cmd;
                return match self.dispatch(cmd, factory) {
                    Ok(()) => Ok(true),
                    Err(e) => Err(e),
                };
            },
            None => {},
        }
        match self.forward_key(&key) {
            Ok(()) => Ok(false),
            Err(e) => Err(e),
        }
    }

    /// A key repeat: direct bindings fire again so they can be held; other
    /// keys go to the active pane.
    fn handle_key_repeat<F: PaneFactory<B>>(&mut self, key: KeyEvent, factory: &F) -> (r: Result<bool, Failure>)
        requires
            old(self).wf(),
            repeat_command(old(self).state(), key) matches Some(c) ==> cmd_fits(old(self).state(), c),
        ensures
            final(self).wf(),
            repeat_rel(old(self).state(), final(self).state(), key, r is Ok, r matches Ok(true)),
            panes_are_leaves(old(self).state()) && r is Ok ==> panes_are_leaves(final(self).state()),
            r is Err ==> last_call_failed(final(self).state().calls),
    {
        match self.keymap.lookup_direct(&key) {
            Some(cmd) => {
                let cmd = *cmd;
                return match self.dispatch(cmd, factory) {
                    Ok(()) => Ok(true),
                    Err(e) => Err(e),
                };
            },
            None => {},
        }
        let pressed = KeyEvent { kind: KeyEventKind::Press, ..key };
        match self.forward_key(&pressed) {
            Ok(()) => Ok(false),
            Err(e) => Err(e),
        }
    }

    /// The terminal was resized: the selection is dropped and every pane
    /// gets its new size.
    fn handle_resize(&mut self, w: u16, h: u16)
        requires
            old(self).wf(),
        ensures
            final(self).wf(),
            final(self).state() == resized(AppState { selection: None, terminal_size: (w, h), ..old(self).state() }),
            panes_are_leaves(old(self).state()) ==> panes_are_leaves(final(self).state()),
    {
        self.selection = None;
        self.terminal_size = (w, h);
        self.refresh_pane_sizes();
    }

    /// Height left for panes above the cheatsheet bar.
    fn pane_area_h(&self) -> (r: u16)
        requires
            self.wf(),
        ensures
            r == pane_area_height(self.state()),
    {
        let (w, h) = self.terminal_size;
        let bar: u16 = if self.prefix_active && self.show_cheatsheet {
            cheatsheet_bar_height(w, &self.keymap)
        } else {
            0
        };
        if h >= bar { h - bar } else { 0 }
    }

    /// Left button pressed.
    fn mouse_down_left(&mut self, mouse: MouseEvent)
        requires
            old(self).wf(),
        ensures
            final(self).wf(),
            down_left_rel(old(self).state(), final(self).state(), mouse),
            panes_are_leaves(old(self).state()) ==> panes_are_leaves(final(self).state()),
    {
        let ghost s = self.state();
        let w = self.terminal_size.0;
        let area_h = self.pane_area_h();
        self.selection = None;
        self.dragging = false;
        self.resize_drag = None;
        let ghost s0 = self.state();
        let dividers = self.layout.compute_dividers(w, area_h);
        let ghost ds = dividers@.map_values(|x: DividerInfo| x@);
        assert(ds == mouse_dividers(s));
        match find_divider_at(&dividers, mouse.column, mouse.row) {
            Some(div) => {
                let axis = match div.orientation {
                    Orientation::Vertical => mouse.column,
                    Orientation::Horizontal => mouse.row,
                };
                self.resize_drag = Some(DividerDrag {
                    orientation: div.orientation,
                    rect_start: div.rect_start,
                    rect_size: div.rect_size,
                    last_axis_coord: Some(axis),
                    path: div.path,
                });
                proof {
                    let i = choose|i: int| first_divider_at(ds, mouse.column, mouse.row, i) && div@ == dividers@[i]@;
                    let c = choose|i: int| first_divider_at(ds, mouse.column, mouse.row, i);
                    lemma_first_divider_unique(ds, mouse.column, mouse.row, i, c);
                    assert(ds[i] == dividers@[i]@);
                    assert(self.state() == (AppState {
                        resize_drag: Some(DragView {
                            orientation: ds[c].orientation,
                            rect_start: ds[c].rect_start,
                            rect_size: ds[c].rect_size,
                            last_axis_coord: Some(axis_coord(ds[c].orientation, mouse)),
                            path: ds[c].path,
                        }),
                        ..s0
                    }));
                }
                return;
            },
            None => {
                proof {
                    assert forall|i: int| !first_divider_at(ds, mouse.column, mouse.row, i) by {
                        if 0 <= i < ds.len() { assert(ds[i] == dividers@[i]@); }
                    }
                }
            },
        }
        let rects = self.layout.compute_rects(w, area_h);
        let ghost rs = rects@;
        match find_pane_at(&rects, mouse.column, mouse.row) {
            Some((pane_id, rect)) => {
                proof {
                    let i = choose|i: int| first_pane_at(rs, mouse.column, mouse.row, i) && rs[i] == (pane_id, rect);
                    let c = choose|i: int| first_pane_at(rs, mouse.column, mouse.row, i);
                    lemma_first_pane_unique(rs, mouse.column, mouse.row, i, c);
                    law_rects_name_leaves(self.layout.root, full_rect(w, area_h));
                    assert(rs[i].0 == self.layout.leaves_view()[i]);
                    assert(self.layout.leaves_view().contains(pane_id));
                }
                self.layout.set_active(pane_id);
                proof { self.lemma_layout_only(s0); }
                let ix: u32 = rect.x as u32 + 1;
                let iy: u32 = rect.y as u32 + 1;
                let iw: u32 = if rect.width >= 2 { rect.width as u32 - 2 } else { 0 };
                let ih: u32 = if rect.height >= 2 { rect.height as u32 - 2 } else { 0 };
                let col = mouse.column as u32;
                let row = mouse.row as u32;
                if col >= ix && col < ix + iw && row >= iy && row < iy + ih {
                    let cell: (u16, u16) = ((col - ix) as u16, (row - iy) as u16);
                    self.drag_origin = Some((mouse.column, mouse.row));
                    self.selection = Some(Selection { pane_id, start: cell, end: cell, display_offset: 0 });
                }
            },
            None => {
                proof {
                    assert forall|i: int| !first_pane_at(rs, mouse.column, mouse.row, i) by {}
                }
            },
        }
    }

    /// Left button dragged.
    fn mouse_drag_left(&mut self, mouse: MouseEvent)
        requires
            old(self).wf(),
            accepts(old(self).state(), AppEvent::Mouse(mouse)),
            mouse.kind == MouseEventKind::Drag(MouseButton::Left),
        ensures
            final(self).wf(),
            drag_left_rel(old(self).state(), final(self).state(), mouse),
            panes_are_leaves(old(self).state()) ==> panes_are_leaves(final(self).state()),
    {
        let ghost s = self.state();
        let w = self.terminal_size.0;
        let area_h = self.pane_area_h();
        let mut moved = false;
        match &mut self.resize_drag {
            Some(drag) => {
                if drag.rect_size > 0 {
                    let axis = match drag.orientation {
                        Orientation::Vertical => mouse.column,
                        Orientation::Horizontal => mouse.row,
                    };
                    if drag.last_axis_coord == Some(axis) {
                        return;
                    }
                    drag.last_axis_coord = Some(axis);
                    let offset: u32 = if axis >= drag.rect_start { (axis - drag.rect_start) as u32 } else { 0 };
                    let bp: u32 = (offset * 10000 + (drag.rect_size as u32 - 1)) / (drag.rect_size as u32);
                    let ratio: u16 = if bp > 10000 { 10000 } else { bp as u16 };
                    proof {
                        assert(clamp_ratio(ratio as int) == clamp_ratio(drag_ratio(axis, drag.rect_start, drag.rect_size)));
                    }
                    self.layout.set_split_ratio_at(&drag.path, ratio);
                    moved = true;
                }
            },
            None => {},
        }
        if moved {
            proof {
                assert forall|x: PaneId| #[trigger] self.state().pane_ids.contains(x) implies
                    self.layout.leaves_view().contains(x) by {
                    assert(s.pane_ids.contains(x));
                }
            }
            self.refresh_pane_sizes();
        }
        if self.resize_drag.is_some() {
            return;
        }
        self.dragging = true;
        match self.selection {
            Some(sel) => {
                let rects = self.layout.compute_rects(w, area_h);
                let ghost rs = rects@;
                match rect_index(&rects, sel.pane_id) {
                    Some(k) => {
                        let rect = rects[k].1;
                        proof {
                            let c = choose|i: int| first_rect_of(rs, sel.pane_id, i);
                            lemma_first_rect_unique(rs, sel.pane_id, k as int, c);
                        }
                        let ix: u32 = rect.x as u32 + 1;
                        let iy: u32 = rect.y as u32 + 1;
                        let iw: u32 = rect.width as u32 - 2;
                        let ih: u32 = rect.height as u32 - 2;
                        let c0: u32 = if (mouse.column as u32) < ix { ix } else { mouse.column as u32 };
                        let c1: u32 = if c0 > ix + iw - 1 { ix + iw - 1 } else { c0 };
                        let r0: u32 = if (mouse.row as u32) < iy { iy } else { mouse.row as u32 };
                        let r1: u32 = if r0 > iy + ih - 1 { iy + ih - 1 } else { r0 };
                        self.selection = Some(Selection { end: ((c1 - ix) as u16, (r1 - iy) as u16), ..sel });
                    },
                    None => {
                        proof {
                            assert forall|i: int| !first_rect_of(rs, sel.pane_id, i) by {}
                        }
                    },
                }
            },
            None => {},
        }
    }

    /// A mouse event.
    fn handle_mouse<C: Clipboard>(&mut self, mouse: MouseEvent, clipboard: &mut C)
        requires
            old(self).wf(),
            accepts(old(self).state(), AppEvent::Mouse(mouse)),
        ensures
            final(self).wf(),
            mouse_rel(old(self).state(), final(self).state(), mouse),
            panes_are_leaves(old(self).state()) ==> panes_are_leaves(final(self).state()),
            final(clipboard).texts() == old(clipboard).texts() + if copies(old(self).state(), AppEvent::Mouse(mouse)) { copied_texts(old(self).state().calls, final(self).state().calls) } else { Seq::empty() },
            mouse.kind == MouseEventKind::Down(MouseButton::Right) ==> copy_follows(old(self).state(), final(self).state(), old(self).selection_text()),
    {
        let ghost s = self.state();
        match mouse.kind {
            MouseEventKind::Down(MouseButton::Left) => self.mouse_down_left(mouse),
            MouseEventKind::Drag(MouseButton::Left) => self.mouse_drag_left(mouse),
            MouseEventKind::Up(MouseButton::Left) => {
                if self.resize_drag.is_some() {
                    self.resize_drag = None;
                    return;
                }
                if !self.dragging {
                    self.selection = None;
                }
                self.drag_origin = None;
                self.dragging = false;
            },
            MouseEventKind::Down(MouseButton::Right) => {
                if self.selection.is_some() {
                    self.copy_selection(clipboard);
                } else {
                    let w = self.terminal_size.0;
                    let area_h = self.pane_area_h();
                    let rects = self.layout.compute_rects(w, area_h);
                    let ghost rs = rects@;
                    let target = match find_pane_at(&rects, mouse.column, mouse.row) {
                        Some((id, r)) => {
                            proof {
                                let i = choose|i: int| first_pane_at(rs, mouse.column, mouse.row, i) && rs[i] == (id, r);
                                let c = choose|i: int| first_pane_at(rs, mouse.column, mouse.row, i);
                                lemma_first_pane_unique(rs, mouse.column, mouse.row, i, c);
                            }
                            id
                        },
                        None => {
                            proof {
                                assert forall|i: int| !first_pane_at(rs, mouse.column, mouse.row, i) by {}
                            }
                            self.layout.active
                        },
                    };
                    proof {
                        assert(rs == mouse_rects(s));
                        assert(target == paste_target(s, mouse));
                    }
                    let _ = self.paste_clipboard_to(target, clipboard);
                }
            },
            _ => {},
        }
    }

    /// Handles one event; the result tells whether the screen needs
    /// redrawing. An error comes only from a pane backend or the pane
    /// factory.
    pub fn step<F: PaneFactory<B>, C: Clipboard>(&mut self, event: AppEvent, factory: &F, clipboard: &mut C)
        -> (r: Result<bool, Failure>)
        requires
            old(self).wf(),
            accepts(old(self).state(), event),
        ensures
            final(self).wf(),
            event_rel(old(self).state(), final(self).state(), event, r is Ok, r matches Ok(true)),
            panes_are_leaves(old(self).state()) && r is Ok ==> panes_are_leaves(final(self).state())
                && final(self).state().pane_ids.contains(final(self).state().layout.active),
            final(clipboard).texts() == old(clipboard).texts() + if copies(old(self).state(), event) { copied_texts(old(self).state().calls, final(self).state().calls) } else { Seq::empty() },
            copies(old(self).state(), event) ==> copy_follows(old(self).state(), final(self).state(), old(self).selection_text()),
            r is Err ==> last_call_failed(final(self).state().calls),
    {
        match event {
            AppEvent::Key(key) => match key.kind {
                KeyEventKind::Press => self.handle_key(key, factory, clipboard),
                KeyEventKind::Repeat => self.handle_key_repeat(key, factory),
                KeyEventKind::Release => Ok(false),
            },
            AppEvent::Mouse(mouse) => {
                self.handle_mouse(mouse, clipboard);
                Ok(true)
            },
            AppEvent::Resize(w, h) => {
                self.handle_resize(w, h);
                Ok(true)
            },
            AppEvent::PaneData { .. } => Ok(true),
            AppEvent::PaneExit { pane_id } => {
                if self.find_pane(pane_id).is_some() {
                    self.close_pane(pane_id);
                    Ok(true)
                } else {
                    Ok(false)
                }
            },
        }
    }

    /// Handles one event without drawing.
    pub fn process_event<F: PaneFactory<B>, C: Clipboard>(&mut self, event: AppEvent, factory: &F, clipboard: &mut C)
        -> (r: Result<(), Failure>)
        requires
            old(self).wf(),
            accepts(old(self).state(), event),
        ensures
            final(self).wf(),
            event_rel(old(self).state(), final(self).state(), event, r is Ok, true)
                || event_rel(old(self).state(), final(self).state(), event, r is Ok, false),
            panes_are_leaves(old(self).state()) && r is Ok ==> panes_are_leaves(final(self).state())
                && final(self).state().pane_ids.contains(final(self).state().layout.active),
            final(clipboard).texts() == old(clipboard).texts() + if copies(old(self).state(), event) { copied_texts(old(self).state().calls, final(self).state().calls) } else { Seq::empty() },
            copies(old(self).state(), event) ==> copy_follows(old(self).state(), final(self).state(), old(self).selection_text()),
            r is Err ==> last_call_failed(final(self).state().calls),
    {
        match self.step(event, factory, clipboard) {
            Ok(_) => Ok(()),
            Err(e) => Err(e),
        }
    }

    /// Whether [`Self::step`] can take `event` in this state.
    #[verifier::rlimit(40)]
    pub fn can_process(&self, event: &AppEvent) -> (r: bool)
        requires
            self.wf(),
        ensures
            r == accepts(self.state(), *event),
    {
        match event {
            AppEvent::Key(key) => self.key_fits(key),
            AppEvent::Mouse(mouse) => {
                match self.selection {
                    Some(sel) => {
                        if mouse.kind == MouseEventKind::Drag(MouseButton::Left) && self.resize_drag.is_none() {
                            let w = self.terminal_size.0;
                            let area_h = self.pane_area_h();
                            let rects = self.layout.compute_rects(w, area_h);
                            match rect_index(&rects, sel.pane_id) {
                                Some(k) => {
                                    proof {
                                        let c = choose|i: int| first_rect_of(rects@, sel.pane_id, i);
                                        lemma_first_rect_unique(rects@, sel.pane_id, k as int, c);
                                    }
                                    rects[k].1.width >= 3 && rects[k].1.height >= 3
                                },
                                None => {
                                    proof {
                                        assert forall|i: int| !first_rect_of(rects@, sel.pane_id, i) by {}
                                    }
                                    true
                                },
                            }
                        } else {
                            true
                        }
                    },
                    None => true,
                }
            },
            _ => true,
        }
    }

    /// Whether the command a key runs, if any, fits the pane ids left.
    fn key_fits(&self, key: &KeyEvent) -> (r: bool)
        requires
            self.wf(),
        ensures
            r == accepts(self.state(), AppEvent::Key(*key)),
    {
        let cmd = match key.kind {
            KeyEventKind::Press => self.key_command_of(key),
            KeyEventKind::Repeat => match self.keymap.lookup_direct(key) {
                Some(c) => Some(*c),
                None => None,
            },
            KeyEventKind::Release => None,
        };
        match cmd {
            Some(c) => self.command_fits(c),
            None => true,
        }
    }

    /// The command a key press runs.
    fn key_command_of(&self, key: &KeyEvent) -> (r: Option<Command>)
        requires
            self.wf(),
        ensures
            r == key_command(self.state(), *key),
    {
        let mods = key.modifiers;
        if mods.control && mods.shift {
            match key.code {
                KeyCode::Char(c) => {
                    if c == 'c' || c == 'C' || c == 'v' || c == 'V' {
                        return None;
                    }
                },
                _ => {},
            }
        }
        if self.prefix_active {
            return match self.keymap.lookup_prefix(key) {
                Some(c) => Some(*c),
                None => None,
            };
        }
        if self.keymap.is_prefix(key) {
            return None;
        }
        match self.keymap.lookup_direct(key) {
            Some(c) => Some(*c),
            None => None,
        }
    }

    /// Runs one startup command: a split with its ratio, anything else as
    /// a key binding would.
    fn startup_step<F: PaneFactory<B>>(&mut self, cmd: Command, ratio: Option<u16>, factory: &F)
        -> (r: Result<(), Failure>)
        requires
            old(self).wf(),
            old(self).state().layout.next_id < u32::MAX,
        ensures
            final(self).wf(),
            final(self).state().layout.next_id <= old(self).state().layout.next_id + 1,
            startup_step_rel(old(self).state(), final(self).state(), cmd, ratio, r is Ok),
            panes_are_leaves(old(self).state()) && r is Ok ==> panes_are_leaves(final(self).state()),
            r is Err ==> last_call_failed(final(self).state().calls),
    {
        match cmd {
            Command::SplitVertical => self.split(Orientation::Vertical, SplitPosition::After, ratio, factory),
            Command::SplitHorizontal => self.split(Orientation::Horizontal, SplitPosition::After, ratio, factory),
            Command::SplitLeft => self.split(Orientation::Vertical, SplitPosition::Before, ratio, factory),
            Command::SplitRight => self.split(Orientation::Vertical, SplitPosition::After, ratio, factory),
            Command::SplitUp => self.split(Orientation::Horizontal, SplitPosition::Before, ratio, factory),
            Command::SplitDown => self.split(Orientation::Horizontal, SplitPosition::After, ratio, factory),
            other => self.dispatch_plain(other, factory),
        }
    }

    /// Runs startup commands in order; a split's ratio (basis points) is
    /// the share the split pane keeps, clamped into range, and a split
    /// without one is even. Stops at the first command that fails.
    pub fn apply_startup_commands<F: PaneFactory<B>>(&mut self, cmds: &Vec<(Command, Option<u16>)>, factory: &F)
        -> (r: Result<(), Failure>)
        requires
            old(self).wf(),
            old(self).state().layout.next_id + cmds@.len() < u32::MAX,
        ensures
            final(self).wf(),
            startup_rel(old(self).state(), final(self).state(), cmds@, r is Ok),
            panes_are_leaves(old(self).state()) && r is Ok ==> panes_are_leaves(final(self).state()),
            r is Err ==> last_call_failed(final(self).state().calls),
    {
        let ghost s0 = self.state();
        let ghost mut tr: Seq<AppState> = seq![s0];
        let mut i: usize = 0;
        while i < cmds.len()
            invariant
                i <= cmds@.len(),
                self.wf(),
                self.state().layout.next_id <= s0.layout.next_id + i,
                s0.layout.next_id + cmds@.len() < u32::MAX,
                tr.len() == i + 1,
                s0 == old(self).state(),
                panes_are_leaves(s0) ==> panes_are_leaves(self.state()),
                tr[0] == s0,
                tr.last() == self.state(),
                forall|j: int| 0 <= j < i ==> startup_step_rel(#[trigger] tr[j], tr[j + 1], cmds@[j].0, cmds@[j].1, true),
            decreases cmds.len() - i,
        {
            let (cmd, ratio) = cmds[i];
            let res = self.startup_step(cmd, ratio, factory);
            let ghost prev = tr;
            proof {
                tr = tr.push(self.state());
                assert forall|j: int| 0 <= j < i + 1 implies startup_step_rel(#[trigger] tr[j], tr[j + 1],
                    cmds@[j].0, cmds@[j].1, res is Ok || j < i) by {
                    if j < i {
                        assert(tr[j] == prev[j] && tr[j + 1] == prev[j + 1]);
                    }
                }
            }
            match res {
                Ok(()) => {},
                Err(e) => {
                    proof {
                        assert(startup_trace(s0, self.state(), cmds@, false, tr));
                    }
                    return Err(e);
                },
            }
            i = i + 1;
        }
        proof {
            assert(startup_trace(s0, self.state(), cmds@, true, tr));
        }
        Ok(())
    }

    /// Runs the steps of a layout in order: commands as at startup, and
    /// programs typed into the active pane. Stops at the first step that
    /// fails.
    pub fn apply_layout<F: PaneFactory<B>>(&mut self, actions: &Vec<LayoutAction>, factory: &F)
        -> (r: Result<(), Failure>)
        requires
            old(self).wf(),
            old(self).state().layout.next_id + actions@.len() < u32::MAX,
        ensures
            final(self).wf(),
            layout_rel(old(self).state(), final(self).state(), action_views(actions@), r is Ok),
            panes_are_leaves(old(self).state()) && r is Ok ==> panes_are_leaves(final(self).state()),
            r is Err ==> last_call_failed(final(self).state().calls),
    {
        let ghost acts = action_views(actions@);
        let ghost s0 = self.state();
        let ghost mut tr: Seq<AppState> = seq![s0];
        let mut i: usize = 0;
        while i < actions.len()
            invariant
                i <= actions@.len(),
                acts == action_views(actions@),
                self.wf(),
                self.state().layout.next_id <= s0.layout.next_id + i,
                s0.layout.next_id + actions@.len() < u32::MAX,
                s0 == old(self).state(),
                tr.len() == i + 1,
                panes_are_leaves(s0) ==> panes_are_leaves(self.state()),
                tr[0] == s0,
                tr.last() == self.state(),
                forall|j: int| 0 <= j < i ==> layout_step_rel(#[trigger] tr[j], tr[j + 1], acts[j], true),
            decreases actions.len() - i,
        {
            let res = match &actions[i] {
                LayoutAction::Split { cmd, ratio } => self.startup_step(*cmd, *ratio, factory),
                LayoutAction::RunInPane(program) => {
                    let bytes = program_input(program.as_str());
                    let ghost si = self.state();
                    match self.find_pane(self.layout.active) {
                        Some(k) => {
                            self.write_to_pane(k, &bytes)
                        },
                        None => {
                            proof {
                                assert(si.calls =~= si.calls + Seq::<PlatformCall>::empty());
                                assert(self.state() == with_calls(si, Seq::empty()));
                            }
                            Ok(())
                        },
                    }
                },
            };
            let ghost prev = tr;
            proof {
                assert(acts[i as int] == actions@[i as int]@);
                tr = tr.push(self.state());
                assert forall|j: int| 0 <= j < i + 1 implies layout_step_rel(#[trigger] tr[j], tr[j + 1],
                    acts[j], res is Ok || j < i) by {
                    if j < i {
                        assert(tr[j] == prev[j] && tr[j + 1] == prev[j + 1]);
                    }
                }
            }
            match res {
                Ok(()) => {},
                Err(e) => {
                    proof {
                        assert(layout_trace(s0, self.state(), acts, false, tr));
                    }
                    return Err(e);
                },
            }
            i = i + 1;
        }
        proof {
            assert(layout_trace(s0, self.state(), acts, true, tr));
        }
        Ok(())
    }
}

} // verus!
