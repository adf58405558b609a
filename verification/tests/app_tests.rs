use tpane::app::App;
use tpane::commands::Command;
use tpane::config::LayoutAction;
use tpane::keymap::KeyMap;
use tpane::keys::{KeyCode, KeyEvent, KeyEventKind, KeyModifiers, MouseButton, MouseEvent, MouseEventKind};
use tpane::layout::{PaneId, Rect};
use tpane::traits::{AppEvent, Clipboard, Failure, PaneBackend, PaneFactory};

// ── headless backends ───────────────────────────────────────────────────────

struct HeadlessPaneBackend {
    #[allow(dead_code)]
    id: PaneId,
    #[allow(dead_code)]
    cols: u16,
    #[allow(dead_code)]
    rows: u16,
    input_log: Vec<Vec<u8>>,
    resize_log: Vec<(u16, u16)>,
}

impl PaneBackend for HeadlessPaneBackend {
    fn write_input(&mut self, bytes: &[u8]) -> Result<(), Failure> {
        self.input_log.push(bytes.to_vec());
        Ok(())
    }

    fn resize(&mut self, cols: u16, rows: u16) {
        self.cols = cols;
        self.rows = rows;
        self.resize_log.push((cols, rows));
    }

    fn selected_text(&self, _start: (u16, u16), _end: (u16, u16), _display_offset: usize) -> String {
        String::new()
    }
}

struct HeadlessPaneFactory;

impl PaneFactory<HeadlessPaneBackend> for HeadlessPaneFactory {
    fn spawn(&self, id: PaneId, cols: u16, rows: u16) -> Result<HeadlessPaneBackend, Failure> {
        Ok(HeadlessPaneBackend { id, cols, rows, input_log: Vec::new(), resize_log: Vec::new() })
    }
}

struct HeadlessClipboard {
    content: String,
}

impl HeadlessClipboard {
    fn new() -> Self {
        HeadlessClipboard { content: String::new() }
    }
}

impl Clipboard for HeadlessClipboard {
    fn get_text(&mut self) -> Result<String, Failure> {
        Ok(self.content.clone())
    }

    fn set_text(&mut self, text: &str) -> Result<(), Failure> {
        self.content = text.to_string();
        Ok(())
    }
}

struct HeadlessRenderer {
    frame_count: usize,
    last_cheatsheet_visible: bool,
}

impl HeadlessRenderer {
    fn new() -> Self {
        HeadlessRenderer { frame_count: 0, last_cheatsheet_visible: false }
    }

    fn render(&mut self, prefix_active: bool) {
        self.frame_count += 1;
        self.last_cheatsheet_visible = prefix_active;
    }
}

/// A factory whose spawns fail.
struct FailingFactory;

impl PaneFactory<HeadlessPaneBackend> for FailingFactory {
    fn spawn(&self, _id: PaneId, _cols: u16, _rows: u16) -> Result<HeadlessPaneBackend, Failure> {
        Err(Failure { message: "no pty".to_string() })
    }
}

// ── helpers ────────────────────────────────────────────────────────────────

const TERM_SIZE: (u16, u16) = (80, 24);

fn default_app() -> (App<HeadlessPaneBackend>, HeadlessPaneFactory, HeadlessClipboard) {
    let factory = HeadlessPaneFactory;
    let app = App::new(KeyMap::default(), TERM_SIZE, true, &factory).unwrap();
    (app, factory, HeadlessClipboard::new())
}

fn ctrl() -> KeyModifiers {
    KeyModifiers::control()
}

fn none() -> KeyModifiers {
    KeyModifiers::empty()
}

fn ctrl_shift() -> KeyModifiers {
    KeyModifiers::control().union(KeyModifiers::shift())
}

fn alt_shift() -> KeyModifiers {
    KeyModifiers::alt().union(KeyModifiers::shift())
}

fn key_press(code: KeyCode, mods: KeyModifiers) -> AppEvent {
    AppEvent::Key(KeyEvent { code, modifiers: mods, kind: KeyEventKind::Press })
}

fn key_repeat(code: KeyCode, mods: KeyModifiers) -> AppEvent {
    AppEvent::Key(KeyEvent { code, modifiers: mods, kind: KeyEventKind::Repeat })
}

fn mouse(kind: MouseEventKind, col: u16, row: u16) -> AppEvent {
    AppEvent::Mouse(MouseEvent { kind, column: col, row, modifiers: KeyModifiers::empty() })
}

fn mouse_click(col: u16, row: u16) -> AppEvent {
    mouse(MouseEventKind::Down(MouseButton::Left), col, row)
}

fn mouse_drag(col: u16, row: u16) -> AppEvent {
    mouse(MouseEventKind::Drag(MouseButton::Left), col, row)
}

fn mouse_up(col: u16, row: u16) -> AppEvent {
    mouse(MouseEventKind::Up(MouseButton::Left), col, row)
}

fn mouse_right_click(col: u16, row: u16) -> AppEvent {
    mouse(MouseEventKind::Down(MouseButton::Right), col, row)
}

fn send(app: &mut App<HeadlessPaneBackend>, factory: &HeadlessPaneFactory, clip: &mut HeadlessClipboard, ev: AppEvent) {
    assert!(app.can_process(&ev));
    app.process_event(ev, factory, clip).unwrap();
}

fn prefix_then(
    app: &mut App<HeadlessPaneBackend>,
    factory: &HeadlessPaneFactory,
    clipboard: &mut HeadlessClipboard,
    code: KeyCode,
    mods: KeyModifiers,
) {
    send(app, factory, clipboard, key_press(KeyCode::Char('b'), ctrl()));
    send(app, factory, clipboard, key_press(code, mods));
}

fn input_log(app: &App<HeadlessPaneBackend>, id: PaneId) -> &Vec<Vec<u8>> {
    &app.pane(id).unwrap().input_log
}

fn rect_of(rects: &[(PaneId, Rect)], id: PaneId) -> Rect {
    rects.iter().find(|(p, _)| *p == id).map(|(_, r)| *r).unwrap()
}

fn contains(hay: &[u8], needle: &[u8]) -> bool {
    hay.windows(needle.len()).any(|w| w == needle)
}

// ── construction ────────────────────────────────────────────────────────────

#[test]
fn app_starts_with_one_pane() {
    let (app, _, _) = default_app();
    assert_eq!(app.pane_count(), 1);
    assert!(app.is_running());
}

#[test]
fn app_initial_pane_has_correct_id() {
    let (app, _, _) = default_app();
    let id = app.active_pane();
    assert!(app.pane(id).is_some());
}

// ── prefix key mode ─────────────────────────────────────────────────────────

#[test]
fn ctrl_b_activates_prefix_mode() {
    let (mut app, factory, mut clip) = default_app();
    assert!(!app.is_prefix_active());
    send(&mut app, &factory, &mut clip, key_press(KeyCode::Char('b'), ctrl()));
    assert!(app.is_prefix_active());
}

#[test]
fn prefix_mode_deactivates_after_command() {
    let (mut app, factory, mut clip) = default_app();
    prefix_then(&mut app, &factory, &mut clip, KeyCode::Char('q'), none());
    assert!(!app.is_prefix_active());
}

#[test]
fn prefix_mode_deactivates_on_unknown_key() {
    let (mut app, factory, mut clip) = default_app();
    send(&mut app, &factory, &mut clip, key_press(KeyCode::Char('b'), ctrl()));
    assert!(app.is_prefix_active());
    send(&mut app, &factory, &mut clip, key_press(KeyCode::Char('z'), none()));
    assert!(!app.is_prefix_active());
    assert!(app.is_running());
}

#[test]
fn regular_key_without_prefix_forwards_to_pane() {
    let (mut app, factory, mut clip) = default_app();
    let active = app.active_pane();
    send(&mut app, &factory, &mut clip, key_press(KeyCode::Char('a'), none()));
    assert!(!input_log(&app, active).is_empty());
}

#[test]
fn ctrl_b_itself_does_not_forward_to_pane() {
    let (mut app, factory, mut clip) = default_app();
    let active = app.active_pane();
    send(&mut app, &factory, &mut clip, key_press(KeyCode::Char('b'), ctrl()));
    assert!(input_log(&app, active).is_empty());
}

// ── directional splits ─────────────────────────────────────────────────────

#[test]
fn split_right_creates_two_panes() {
    let (mut app, factory, mut clip) = default_app();
    prefix_then(&mut app, &factory, &mut clip, KeyCode::Right, ctrl());
    assert_eq!(app.pane_count(), 2);
}

#[test]
fn split_left_creates_two_panes() {
    let (mut app, factory, mut clip) = default_app();
    prefix_then(&mut app, &factory, &mut clip, KeyCode::Left, ctrl());
    assert_eq!(app.pane_count(), 2);
}

#[test]
fn split_down_creates_two_panes() {
    let (mut app, factory, mut clip) = default_app();
    prefix_then(&mut app, &factory, &mut clip, KeyCode::Down, ctrl());
    assert_eq!(app.pane_count(), 2);
}

#[test]
fn split_up_creates_two_panes() {
    let (mut app, factory, mut clip) = default_app();
    prefix_then(&mut app, &factory, &mut clip, KeyCode::Up, ctrl());
    assert_eq!(app.pane_count(), 2);
}

#[test]
fn split_changes_active_pane() {
    let (mut app, factory, mut clip) = default_app();
    let original = app.active_pane();
    prefix_then(&mut app, &factory, &mut clip, KeyCode::Right, ctrl());
    assert_ne!(app.active_pane(), original);
}

#[test]
fn multiple_splits_create_correct_count() {
    let (mut app, factory, mut clip) = default_app();
    prefix_then(&mut app, &factory, &mut clip, KeyCode::Right, ctrl());
    prefix_then(&mut app, &factory, &mut clip, KeyCode::Down, ctrl());
    prefix_then(&mut app, &factory, &mut clip, KeyCode::Left, ctrl());
    assert_eq!(app.pane_count(), 4);
}

// ── close pane ─────────────────────────────────────────────────────────────

#[test]
fn close_pane_after_split_returns_to_one() {
    let (mut app, factory, mut clip) = default_app();
    prefix_then(&mut app, &factory, &mut clip, KeyCode::Right, ctrl());
    assert_eq!(app.pane_count(), 2);
    prefix_then(&mut app, &factory, &mut clip, KeyCode::Char('w'), none());
    assert_eq!(app.pane_count(), 1);
    assert!(app.is_running());
}

#[test]
fn close_last_pane_quits() {
    let (mut app, factory, mut clip) = default_app();
    prefix_then(&mut app, &factory, &mut clip, KeyCode::Char('w'), none());
    assert!(!app.is_running());
}

#[test]
fn close_pane_shifts_focus_to_remaining() {
    let (mut app, factory, mut clip) = default_app();
    let first = app.active_pane();
    prefix_then(&mut app, &factory, &mut clip, KeyCode::Right, ctrl());
    let second = app.active_pane();
    assert_ne!(first, second);
    prefix_then(&mut app, &factory, &mut clip, KeyCode::Char('w'), none());
    assert_eq!(app.active_pane(), first);
}

// ── pane exit ──────────────────────────────────────────────────────────────

#[test]
fn pane_exit_event_removes_pane() {
    let (mut app, factory, mut clip) = default_app();
    let first = app.active_pane();
    prefix_then(&mut app, &factory, &mut clip, KeyCode::Right, ctrl());
    assert_eq!(app.pane_count(), 2);
    send(&mut app, &factory, &mut clip, AppEvent::PaneExit { pane_id: first });
    assert_eq!(app.pane_count(), 1);
    assert!(app.is_running());
}

#[test]
fn stale_pane_exit_event_is_ignored() {
    let (mut app, factory, mut clip) = default_app();
    let bogus_id = PaneId(999);
    send(&mut app, &factory, &mut clip, AppEvent::PaneExit { pane_id: bogus_id });
    assert_eq!(app.pane_count(), 1);
    assert!(app.is_running());
}

#[test]
fn pane_exit_of_last_pane_quits() {
    let (mut app, factory, mut clip) = default_app();
    let root = app.active_pane();
    send(&mut app, &factory, &mut clip, AppEvent::PaneExit { pane_id: root });
    assert!(!app.is_running());
}

// ── focus ──────────────────────────────────────────────────────────────────

#[test]
fn focus_right_moves_spatially() {
    let (mut app, factory, mut clip) = default_app();
    let first = app.active_pane();
    prefix_then(&mut app, &factory, &mut clip, KeyCode::Right, ctrl());
    let second = app.active_pane();
    prefix_then(&mut app, &factory, &mut clip, KeyCode::Left, none());
    assert_eq!(app.active_pane(), first);
    prefix_then(&mut app, &factory, &mut clip, KeyCode::Right, none());
    assert_eq!(app.active_pane(), second);
}

#[test]
fn focus_left_moves_spatially() {
    let (mut app, factory, mut clip) = default_app();
    let first = app.active_pane();
    prefix_then(&mut app, &factory, &mut clip, KeyCode::Right, ctrl());
    let second = app.active_pane();
    assert_ne!(first, second);
    prefix_then(&mut app, &factory, &mut clip, KeyCode::Left, none());
    assert_eq!(app.active_pane(), first);
    prefix_then(&mut app, &factory, &mut clip, KeyCode::Left, none());
    assert_eq!(app.active_pane(), first);
}

#[test]
fn quit_command_stops_app() {
    let (mut app, factory, mut clip) = default_app();
    assert!(app.is_running());
    prefix_then(&mut app, &factory, &mut clip, KeyCode::Char('q'), none());
    assert!(!app.is_running());
}

#[test]
fn resize_event_updates_pane_geometry() {
    let (mut app, factory, mut clip) = default_app();
    prefix_then(&mut app, &factory, &mut clip, KeyCode::Right, ctrl());
    let pre_resizes: usize = app.panes().iter().map(|(_, p)| p.resize_log.len()).sum();
    send(&mut app, &factory, &mut clip, AppEvent::Resize(120, 40));
    let post_resizes: usize = app.panes().iter().map(|(_, p)| p.resize_log.len()).sum();
    assert!(post_resizes > pre_resizes);
}

// ── key forwarding ─────────────────────────────────────────────────────────

#[test]
fn regular_key_forwards_to_active_pane() {
    let (mut app, factory, mut clip) = default_app();
    let active = app.active_pane();
    send(&mut app, &factory, &mut clip, key_press(KeyCode::Char('a'), none()));
    assert_eq!(input_log(&app, active)[0], vec![b'a']);
}

#[test]
fn enter_key_forwards_cr() {
    let (mut app, factory, mut clip) = default_app();
    let active = app.active_pane();
    send(&mut app, &factory, &mut clip, key_press(KeyCode::Enter, none()));
    assert_eq!(input_log(&app, active)[0], vec![b'\r']);
}

#[test]
fn bound_key_after_prefix_does_not_forward() {
    let (mut app, factory, mut clip) = default_app();
    let active = app.active_pane();
    prefix_then(&mut app, &factory, &mut clip, KeyCode::Char('q'), none());
    assert!(input_log(&app, active).is_empty());
}

#[test]
fn key_after_focus_switch_goes_to_new_active() {
    let (mut app, factory, mut clip) = default_app();
    let first = app.active_pane();
    prefix_then(&mut app, &factory, &mut clip, KeyCode::Right, ctrl());
    let second = app.active_pane();
    prefix_then(&mut app, &factory, &mut clip, KeyCode::Left, none());
    assert_eq!(app.active_pane(), first);
    send(&mut app, &factory, &mut clip, key_press(KeyCode::Char('x'), none()));
    assert!(!input_log(&app, first).is_empty());
    assert!(input_log(&app, second).is_empty());
}

// ── sequences ──────────────────────────────────────────────────────────────

#[test]
fn split_close_split_maintains_consistency() {
    let (mut app, factory, mut clip) = default_app();
    for _ in 0..3 {
        prefix_then(&mut app, &factory, &mut clip, KeyCode::Right, ctrl());
    }
    assert_eq!(app.pane_count(), 4);
    for _ in 0..2 {
        prefix_then(&mut app, &factory, &mut clip, KeyCode::Char('w'), none());
    }
    assert_eq!(app.pane_count(), 2);
    prefix_then(&mut app, &factory, &mut clip, KeyCode::Down, ctrl());
    assert_eq!(app.pane_count(), 3);
    assert!(app.is_running());
    assert_eq!(app.layout().leaf_ids().len(), app.pane_count());
}

#[test]
fn mixed_directional_splits() {
    let (mut app, factory, mut clip) = default_app();
    prefix_then(&mut app, &factory, &mut clip, KeyCode::Right, ctrl());
    prefix_then(&mut app, &factory, &mut clip, KeyCode::Down, ctrl());
    prefix_then(&mut app, &factory, &mut clip, KeyCode::Left, ctrl());
    prefix_then(&mut app, &factory, &mut clip, KeyCode::Up, ctrl());
    assert_eq!(app.pane_count(), 5);
    assert_eq!(app.layout().leaf_ids().len(), 5);
}

// ── cheatsheet visibility ──────────────────────────────────────────────────

#[test]
fn cheatsheet_shown_when_prefix_active_and_enabled() {
    let factory = HeadlessPaneFactory;
    let mut app = App::new(KeyMap::default(), TERM_SIZE, true, &factory).unwrap();
    let mut renderer = HeadlessRenderer::new();
    let mut clip = HeadlessClipboard::new();
    send(&mut app, &factory, &mut clip, key_press(KeyCode::Char('b'), ctrl()));
    assert!(app.is_prefix_active());
    renderer.render(app.cheatsheet_visible());
    assert!(renderer.last_cheatsheet_visible);
    assert_eq!(renderer.frame_count, 1);
}

#[test]
fn cheatsheet_hidden_when_disabled() {
    let factory = HeadlessPaneFactory;
    let mut app = App::new(KeyMap::default(), TERM_SIZE, false, &factory).unwrap();
    let mut renderer = HeadlessRenderer::new();
    let mut clip = HeadlessClipboard::new();
    send(&mut app, &factory, &mut clip, key_press(KeyCode::Char('b'), ctrl()));
    assert!(app.is_prefix_active());
    renderer.render(app.cheatsheet_visible());
    assert!(!renderer.last_cheatsheet_visible);
}

#[test]
fn cheatsheet_hidden_after_prefix_deactivates() {
    let (mut app, factory, mut clip) = default_app();
    let mut renderer = HeadlessRenderer::new();
    send(&mut app, &factory, &mut clip, key_press(KeyCode::Char('b'), ctrl()));
    assert!(app.is_prefix_active());
    send(&mut app, &factory, &mut clip, key_press(KeyCode::Char('z'), none()));
    assert!(!app.is_prefix_active());
    renderer.render(app.cheatsheet_visible());
    assert!(!renderer.last_cheatsheet_visible);
}

// ── mouse ──────────────────────────────────────────────────────────────────

#[test]
fn mouse_click_changes_active_pane() {
    let (mut app, factory, mut clip) = default_app();
    prefix_then(&mut app, &factory, &mut clip, KeyCode::Right, ctrl());
    assert_eq!(app.pane_count(), 2);
    let right_pane = app.active_pane();
    send(&mut app, &factory, &mut clip, mouse_click(1, 1));
    assert_ne!(app.active_pane(), right_pane);
}

#[test]
fn mouse_click_on_active_pane_is_noop() {
    let (mut app, factory, mut clip) = default_app();
    let initial = app.active_pane();
    send(&mut app, &factory, &mut clip, mouse_click(5, 5));
    assert_eq!(app.active_pane(), initial);
}

fn drag_select(app: &mut App<HeadlessPaneBackend>, factory: &HeadlessPaneFactory, clip: &mut HeadlessClipboard) {
    send(app, factory, clip, mouse_click(2, 2));
    send(app, factory, clip, mouse_drag(10, 2));
    send(app, factory, clip, mouse_up(10, 2));
}

#[test]
fn mouse_drag_creates_selection() {
    let (mut app, factory, mut clip) = default_app();
    drag_select(&mut app, &factory, &mut clip);
    assert!(app.selection().is_some());
    let sel = app.selection().unwrap();
    assert_eq!(sel.start, (1, 1));
    assert_eq!(sel.end, (9, 1));
}

#[test]
fn click_without_drag_clears_selection() {
    let (mut app, factory, mut clip) = default_app();
    drag_select(&mut app, &factory, &mut clip);
    assert!(app.selection().is_some());
    send(&mut app, &factory, &mut clip, mouse_click(5, 5));
    send(&mut app, &factory, &mut clip, mouse_up(5, 5));
    assert!(app.selection().is_none());
}

#[test]
fn right_click_clears_selection() {
    let (mut app, factory, mut clip) = default_app();
    drag_select(&mut app, &factory, &mut clip);
    assert!(app.selection().is_some());
    send(&mut app, &factory, &mut clip, mouse_right_click(5, 5));
    assert!(app.selection().is_none());
}

#[test]
fn selection_cleared_on_resize() {
    let (mut app, factory, mut clip) = default_app();
    drag_select(&mut app, &factory, &mut clip);
    assert!(app.selection().is_some());
    send(&mut app, &factory, &mut clip, AppEvent::Resize(120, 40));
    assert!(app.selection().is_none());
}

#[test]
fn selection_cleared_on_split() {
    let (mut app, factory, mut clip) = default_app();
    drag_select(&mut app, &factory, &mut clip);
    assert!(app.selection().is_some());
    prefix_then(&mut app, &factory, &mut clip, KeyCode::Right, ctrl());
    assert!(app.selection().is_none());
}

// ── copy and paste ─────────────────────────────────────────────────────────

#[test]
fn ctrl_shift_v_pastes_with_bracketed_paste() {
    let (mut app, factory, mut clip) = default_app();
    clip.content = "hello world".to_string();
    send(&mut app, &factory, &mut clip, key_press(KeyCode::Char('V'), ctrl_shift()));
    let active = app.active_pane();
    let log = input_log(&app, active);
    assert_eq!(log.len(), 1);
    let bytes = &log[0];
    assert!(bytes.starts_with(b"\x1b[200~"));
    assert!(bytes.ends_with(b"\x1b[201~"));
    assert!(contains(bytes, b"hello world"));
}

#[test]
fn ctrl_shift_c_works_during_prefix_mode() {
    let (mut app, factory, mut clip) = default_app();
    send(&mut app, &factory, &mut clip, key_press(KeyCode::Char('b'), ctrl()));
    assert!(app.is_prefix_active());
    send(&mut app, &factory, &mut clip, key_press(KeyCode::Char('C'), ctrl_shift()));
    assert!(app.is_running());
}

#[test]
fn border_click_does_not_start_selection() {
    let (mut app, factory, mut clip) = default_app();
    send(&mut app, &factory, &mut clip, mouse_click(0, 0));
    send(&mut app, &factory, &mut clip, mouse_up(0, 0));
    assert!(app.selection().is_none());
}

#[test]
fn right_click_without_selection_pastes() {
    let (mut app, factory, mut clip) = default_app();
    clip.content = "pasted text".to_string();
    assert!(app.selection().is_none());
    send(&mut app, &factory, &mut clip, mouse_right_click(5, 5));
    let active = app.active_pane();
    let log = input_log(&app, active);
    assert_eq!(log.len(), 1);
    let bytes = &log[0];
    assert!(bytes.starts_with(b"\x1b[200~"));
    assert!(bytes.ends_with(b"\x1b[201~"));
    assert!(contains(bytes, b"pasted text"));
}

#[test]
fn right_click_pastes_into_inactive_pane() {
    let (mut app, factory, mut clip) = default_app();
    let first = app.active_pane();
    prefix_then(&mut app, &factory, &mut clip, KeyCode::Right, ctrl());
    let second = app.active_pane();
    assert_ne!(first, second);
    clip.content = "into first".to_string();
    send(&mut app, &factory, &mut clip, mouse_right_click(1, 1));
    let first_log = input_log(&app, first);
    assert_eq!(first_log.len(), 1);
    assert!(contains(&first_log[0], b"into first"));
    assert!(input_log(&app, second).is_empty());
}

#[test]
fn right_click_with_selection_copies_not_pastes() {
    let (mut app, factory, mut clip) = default_app();
    clip.content = "should not paste".to_string();
    drag_select(&mut app, &factory, &mut clip);
    assert!(app.selection().is_some());
    send(&mut app, &factory, &mut clip, mouse_right_click(5, 5));
    assert!(app.selection().is_none());
    let active = app.active_pane();
    assert!(input_log(&app, active).is_empty());
}

// ── spatial navigation ─────────────────────────────────────────────────────

#[test]
fn spatial_nav_three_pane_left_from_bottom_right() {
    let (mut app, factory, mut clip) = default_app();
    let left_pane = app.active_pane();
    prefix_then(&mut app, &factory, &mut clip, KeyCode::Right, ctrl());
    let top_right = app.active_pane();
    assert_ne!(left_pane, top_right);
    prefix_then(&mut app, &factory, &mut clip, KeyCode::Down, ctrl());
    let bottom_right = app.active_pane();
    assert_ne!(top_right, bottom_right);
    prefix_then(&mut app, &factory, &mut clip, KeyCode::Left, none());
    assert_eq!(app.active_pane(), left_pane);
}

#[test]
fn spatial_nav_up_down_in_stacked_panes() {
    let (mut app, factory, mut clip) = default_app();
    let top = app.active_pane();
    prefix_then(&mut app, &factory, &mut clip, KeyCode::Down, ctrl());
    let bottom = app.active_pane();
    prefix_then(&mut app, &factory, &mut clip, KeyCode::Up, none());
    assert_eq!(app.active_pane(), top);
    prefix_then(&mut app, &factory, &mut clip, KeyCode::Down, none());
    assert_eq!(app.active_pane(), bottom);
}

#[test]
fn spatial_nav_no_movement_when_no_pane_in_direction() {
    let (mut app, factory, mut clip) = default_app();
    let only = app.active_pane();
    prefix_then(&mut app, &factory, &mut clip, KeyCode::Left, none());
    assert_eq!(app.active_pane(), only);
    prefix_then(&mut app, &factory, &mut clip, KeyCode::Up, none());
    assert_eq!(app.active_pane(), only);
}

// ── resize through direct bindings ─────────────────────────────────────────

#[test]
fn resize_direct_binding_changes_pane_size() {
    let (mut app, factory, mut clip) = default_app();
    prefix_then(&mut app, &factory, &mut clip, KeyCode::Right, ctrl());
    let active = app.active_pane();
    let (w, h) = TERM_SIZE;
    let w_before = rect_of(&app.layout().compute_rects(w, h), active).width;
    send(&mut app, &factory, &mut clip, key_press(KeyCode::Left, alt_shift()));
    let w_after = rect_of(&app.layout().compute_rects(w, h), active).width;
    assert!(w_after > w_before, "active pane should grow after resize_left");
}

#[test]
fn resize_repeat_event_continues_resize() {
    let (mut app, factory, mut clip) = default_app();
    prefix_then(&mut app, &factory, &mut clip, KeyCode::Right, ctrl());
    let active = app.active_pane();
    let (w, h) = TERM_SIZE;
    send(&mut app, &factory, &mut clip, key_press(KeyCode::Left, alt_shift()));
    let w_after_press = rect_of(&app.layout().compute_rects(w, h), active).width;
    send(&mut app, &factory, &mut clip, key_repeat(KeyCode::Left, alt_shift()));
    let w_after_repeat = rect_of(&app.layout().compute_rects(w, h), active).width;
    assert!(w_after_repeat > w_after_press, "repeat event should continue resizing");
}

#[test]
fn vertical_resize_direction_matches_arrow() {
    let (mut app, factory, mut clip) = default_app();
    prefix_then(&mut app, &factory, &mut clip, KeyCode::Down, ctrl());
    let active = app.active_pane();
    let (w, h) = TERM_SIZE;
    let h_before = rect_of(&app.layout().compute_rects(w, h), active).height;
    send(&mut app, &factory, &mut clip, key_press(KeyCode::Up, alt_shift()));
    let h_after = rect_of(&app.layout().compute_rects(w, h), active).height;
    assert!(h_after > h_before, "lower pane should grow on resize_up");
}

#[test]
fn prefix_key_repeat_does_not_disturb_prefix_mode() {
    let (mut app, factory, mut clip) = default_app();
    send(&mut app, &factory, &mut clip, key_press(KeyCode::Char('b'), ctrl()));
    assert!(app.is_prefix_active());
    send(&mut app, &factory, &mut clip, key_repeat(KeyCode::Char('b'), ctrl()));
    assert!(app.is_prefix_active(), "prefix should still be active after Ctrl+B repeat");
}

// ── divider drag ───────────────────────────────────────────────────────────

#[test]
fn divider_drag_changes_pane_widths() {
    let (mut app, factory, mut clip) = default_app();
    prefix_then(&mut app, &factory, &mut clip, KeyCode::Right, ctrl());
    assert_eq!(app.pane_count(), 2);
    let (w, h) = TERM_SIZE;
    let dividers = app.layout().compute_dividers(w, h);
    assert_eq!(dividers.len(), 1);
    let div_col = dividers[0].position;
    let span_start = dividers[0].span_start;
    let ids = app.layout().leaf_ids();
    let left_w_before = rect_of(&app.layout().compute_rects(w, h), ids[0]).width;
    send(&mut app, &factory, &mut clip, mouse_click(div_col, span_start + 1));
    let new_col = div_col + 5;
    send(&mut app, &factory, &mut clip, mouse_drag(new_col, span_start + 1));
    send(&mut app, &factory, &mut clip, mouse_up(new_col, span_start + 1));
    let left_w_after = rect_of(&app.layout().compute_rects(w, h), ids[0]).width;
    assert!(
        left_w_after > left_w_before,
        "left pane should be wider after dragging divider right: before={left_w_before}, after={left_w_after}"
    );
}

#[test]
fn divider_drag_does_not_create_selection() {
    let (mut app, factory, mut clip) = default_app();
    prefix_then(&mut app, &factory, &mut clip, KeyCode::Right, ctrl());
    let (w, h) = TERM_SIZE;
    let dividers = app.layout().compute_dividers(w, h);
    let div_col = dividers[0].position;
    let span_start = dividers[0].span_start;
    send(&mut app, &factory, &mut clip, mouse_click(div_col, span_start + 1));
    send(&mut app, &factory, &mut clip, mouse_drag(div_col + 3, span_start + 1));
    send(&mut app, &factory, &mut clip, mouse_up(div_col + 3, span_start + 1));
    assert!(app.selection().is_none(), "divider drag should not create a text selection");
}

// ── startup commands ───────────────────────────────────────────────────────

#[test]
fn startup_split_right_default_ratio_produces_equal_panes() {
    let factory = HeadlessPaneFactory;
    let mut app = App::new(KeyMap::default(), TERM_SIZE, true, &factory).unwrap();
    let cmds = vec![(Command::SplitRight, None)];
    app.apply_startup_commands(&cmds, &factory).unwrap();
    let (w, h) = TERM_SIZE;
    let ids = app.layout().leaf_ids();
    assert_eq!(ids.len(), 2);
    let rects = app.layout().compute_rects(w, h);
    let left_w = rect_of(&rects, ids[0]).width;
    let right_w = rect_of(&rects, ids[1]).width;
    assert!(
        (left_w as i32 - right_w as i32).abs() <= 2,
        "equal split should give roughly equal widths: left={left_w}, right={right_w}"
    );
}

#[test]
fn startup_split_right_with_ratio_gives_correct_proportions() {
    let factory = HeadlessPaneFactory;
    let mut app = App::new(KeyMap::default(), TERM_SIZE, true, &factory).unwrap();
    let cmds = vec![(Command::SplitRight, Some(7000))];
    app.apply_startup_commands(&cmds, &factory).unwrap();
    let (w, h) = TERM_SIZE;
    let ids = app.layout().leaf_ids();
    let rects = app.layout().compute_rects(w, h);
    let left_w = rect_of(&rects, ids[0]).width;
    let right_w = rect_of(&rects, ids[1]).width;
    assert!(left_w > right_w, "left pane should be wider (70%) than right pane (30%): left={left_w}, right={right_w}");
}

#[test]
fn startup_split_down_with_ratio_gives_correct_proportions() {
    let factory = HeadlessPaneFactory;
    let mut app = App::new(KeyMap::default(), TERM_SIZE, true, &factory).unwrap();
    let cmds = vec![(Command::SplitDown, Some(3000))];
    app.apply_startup_commands(&cmds, &factory).unwrap();
    let (w, h) = TERM_SIZE;
    let ids = app.layout().leaf_ids();
    let rects = app.layout().compute_rects(w, h);
    let top_h = rect_of(&rects, ids[0]).height;
    let bottom_h = rect_of(&rects, ids[1]).height;
    assert!(top_h < bottom_h, "top pane should be shorter (30%) than bottom pane (70%): top={top_h}, bottom={bottom_h}");
}

#[test]
fn startup_split_left_with_ratio_keeps_original_pane_size() {
    let factory = HeadlessPaneFactory;
    let mut app = App::new(KeyMap::default(), TERM_SIZE, true, &factory).unwrap();
    let cmds = vec![(Command::SplitLeft, Some(7000))];
    app.apply_startup_commands(&cmds, &factory).unwrap();
    let (w, h) = TERM_SIZE;
    let ids = app.layout().leaf_ids();
    let rects = app.layout().compute_rects(w, h);
    let left_w = rect_of(&rects, ids[0]).width;
    let right_w = rect_of(&rects, ids[1]).width;
    assert!(
        right_w > left_w,
        "original (right) pane should be wider (70%) than new left pane (30%): left={left_w}, right={right_w}"
    );
}

#[test]
fn startup_commands_create_correct_pane_count() {
    let factory = HeadlessPaneFactory;
    let mut app = App::new(KeyMap::default(), TERM_SIZE, true, &factory).unwrap();
    let cmds = vec![(Command::SplitRight, Some(6000)), (Command::SplitDown, None)];
    app.apply_startup_commands(&cmds, &factory).unwrap();
    assert_eq!(app.pane_count(), 3);
}

// ── further scenarios ──────────────────────────────────────────────────────

#[test]
fn first_pane_spawns_inside_the_border() {
    let (app, _, _) = default_app();
    let p = app.pane(PaneId(0)).unwrap();
    assert_eq!((p.cols, p.rows), (78, 22));
    let tiny = App::new(KeyMap::default(), (3, 3), true, &HeadlessPaneFactory).unwrap();
    let p = tiny.pane(PaneId(0)).unwrap();
    assert_eq!((p.cols, p.rows), (4, 4));
}

#[test]
fn failed_spawn_reports_error_and_keeps_running() {
    let factory = FailingFactory;
    assert!(App::<HeadlessPaneBackend>::new(KeyMap::default(), TERM_SIZE, true, &factory).is_err());
    let (mut app, _, mut clip) = default_app();
    app.process_event(key_press(KeyCode::Char('b'), ctrl()), &factory, &mut clip).unwrap();
    let r = app.process_event(key_press(KeyCode::Right, ctrl()), &factory, &mut clip);
    assert!(r.is_err());
    assert_eq!(app.pane_count(), 1);
    assert_eq!(app.layout().leaf_ids().len(), 2);
    assert!(app.is_running());
}

#[test]
fn apply_layout_types_programs_into_the_active_pane() {
    let (mut app, factory, _) = default_app();
    let steps = vec![
        LayoutAction::Split { cmd: Command::SplitRight, ratio: None },
        LayoutAction::RunInPane("ls -l".to_string()),
    ];
    app.apply_layout(&steps, &factory).unwrap();
    let active = app.active_pane();
    assert_eq!(active, PaneId(1));
    assert_eq!(input_log(&app, active)[0], b"ls -l\n".to_vec());
    assert!(input_log(&app, PaneId(0)).is_empty());
}

#[test]
fn key_release_changes_nothing() {
    let (mut app, factory, mut clip) = default_app();
    let ev = AppEvent::Key(KeyEvent { code: KeyCode::Char('a'), modifiers: none(), kind: KeyEventKind::Release });
    assert_eq!(app.step(ev, &factory, &mut clip).unwrap(), false);
    assert!(input_log(&app, PaneId(0)).is_empty());
}

#[test]
fn step_reports_when_to_redraw() {
    let (mut app, factory, mut clip) = default_app();
    assert_eq!(app.step(key_press(KeyCode::Char('a'), none()), &factory, &mut clip).unwrap(), false);
    assert_eq!(app.step(key_press(KeyCode::Char('b'), ctrl()), &factory, &mut clip).unwrap(), true);
    assert_eq!(app.step(AppEvent::PaneData { pane_id: PaneId(0) }, &factory, &mut clip).unwrap(), true);
    assert_eq!(app.step(AppEvent::PaneExit { pane_id: PaneId(5) }, &factory, &mut clip).unwrap(), false);
}

#[test]
fn drag_in_a_pane_too_small_for_a_selection_is_refused() {
    let factory = HeadlessPaneFactory;
    let mut app = App::new(KeyMap::default(), (20, 10), true, &factory).unwrap();
    let mut clip = HeadlessClipboard::new();
    send(&mut app, &factory, &mut clip, key_press(KeyCode::Char('b'), ctrl()));
    send(&mut app, &factory, &mut clip, key_press(KeyCode::Right, ctrl()));
    send(&mut app, &factory, &mut clip, mouse_click(2, 2));
    assert!(app.selection().is_some());
    assert!(app.can_process(&mouse_drag(3, 3)));
    for _ in 0..25 {
        send(&mut app, &factory, &mut clip, key_press(KeyCode::Left, alt_shift()));
    }
    assert!(!app.can_process(&mouse_drag(3, 3)));
}

#[test]
fn copy_puts_selected_text_on_the_clipboard() {
    struct TextPane;
    impl PaneBackend for TextPane {
        fn write_input(&mut self, _bytes: &[u8]) -> Result<(), Failure> {
            Ok(())
        }
        fn resize(&mut self, _cols: u16, _rows: u16) {}
        fn selected_text(&self, start: (u16, u16), end: (u16, u16), _offset: usize) -> String {
            format!("{start:?}-{end:?}")
        }
    }
    struct TextFactory;
    impl PaneFactory<TextPane> for TextFactory {
        fn spawn(&self, _id: PaneId, _cols: u16, _rows: u16) -> Result<TextPane, Failure> {
            Ok(TextPane)
        }
    }
    let factory = TextFactory;
    let mut app = App::new(KeyMap::default(), TERM_SIZE, true, &factory).unwrap();
    let mut clip = HeadlessClipboard::new();
    app.process_event(mouse_click(10, 3), &factory, &mut clip).unwrap();
    app.process_event(mouse_drag(4, 2), &factory, &mut clip).unwrap();
    app.process_event(mouse_up(4, 2), &factory, &mut clip).unwrap();
    app.process_event(key_press(KeyCode::Char('c'), ctrl_shift()), &factory, &mut clip).unwrap();
    assert_eq!(clip.content, "(3, 1)-(9, 2)");
    assert!(app.selection().is_none());
}

#[test]
fn split_tells_every_pane_its_inner_size() {
    let (mut app, factory, mut clip) = default_app();
    prefix_then(&mut app, &factory, &mut clip, KeyCode::Right, ctrl());
    let rects = app.layout().compute_rects(TERM_SIZE.0, TERM_SIZE.1);
    assert_eq!(rects.len(), 2);
    for (id, rect) in rects.iter() {
        let pane = app.pane(*id).unwrap();
        assert_eq!((pane.cols, pane.rows), tpane::app::pane_inner_size(*rect));
    }
    let first = rect_of(&rects, PaneId(0));
    assert_eq!(
        app.pane(PaneId(0)).unwrap().resize_log.last().copied(),
        Some((first.width - 2, first.height - 2))
    );
    assert_eq!(app.pane(PaneId(1)).unwrap().resize_log.len(), 0);
}

#[test]
fn first_pane_spawn_result_decides_startup() {
    let failed: Result<App<HeadlessPaneBackend>, Failure> = App::with_first_pane(
        KeyMap::default(),
        TERM_SIZE,
        true,
        Err(Failure { message: "no pty".to_string() }),
    );
    assert_eq!(failed.err().map(|f| f.message), Some("no pty".to_string()));
    let pane = HeadlessPaneBackend { id: PaneId(0), cols: 78, rows: 22, input_log: Vec::new(), resize_log: Vec::new() };
    let app = App::with_first_pane(KeyMap::default(), TERM_SIZE, true, Ok(pane)).ok().unwrap();
    assert_eq!(app.pane_count(), 1);
    assert_eq!(app.active_pane(), PaneId(0));
    assert!(app.is_running());
}

#[test]
fn ctrl_n_loads_named_layout() {
    let factory = HeadlessPaneFactory;
    let mut keymap = KeyMap::default();
    keymap.bind(tpane::keymap::KeyChord::parse("ctrl+1").unwrap(), Command::LoadLayout(1));
    let mut app = App::new(keymap, TERM_SIZE, true, &factory).unwrap();
    let mut clip = HeadlessClipboard::new();
    app.set_named_layouts(vec![(
        1,
        vec![
            LayoutAction::Split { cmd: Command::SplitRight, ratio: None },
            LayoutAction::Split { cmd: Command::SplitDown, ratio: None },
        ],
    )]);
    prefix_then(&mut app, &factory, &mut clip, KeyCode::Char('1'), ctrl());
    assert_eq!(app.pane_count(), 3);
    assert!(!app.is_prefix_active());
    prefix_then(&mut app, &factory, &mut clip, KeyCode::Char('2'), ctrl());
    assert_eq!(app.pane_count(), 3);
}

#[test]
fn held_character_key_repeats_into_pane() {
    let (mut app, factory, mut clip) = default_app();
    let active = app.active_pane();
    send(&mut app, &factory, &mut clip, key_repeat(KeyCode::Char('a'), none()));
    assert_eq!(input_log(&app, active), &vec![vec![b'a']]);
}

#[test]
fn dragged_divider_lands_on_the_mouse_cell() {
    let factory = HeadlessPaneFactory;
    let mut app = App::new(KeyMap::default(), (301, 24), false, &factory).unwrap();
    let mut clip = HeadlessClipboard::new();
    prefix_then(&mut app, &factory, &mut clip, KeyCode::Right, ctrl());
    let rects = app.layout().compute_rects(301, 24);
    let divider = rect_of(&rects, PaneId(0)).width;
    send(&mut app, &factory, &mut clip, mouse_click(divider, 5));
    send(&mut app, &factory, &mut clip, mouse_drag(100, 5));
    send(&mut app, &factory, &mut clip, mouse_up(100, 5));
    let rects = app.layout().compute_rects(301, 24);
    assert_eq!(rect_of(&rects, PaneId(0)).width, 100);
}

#[test]
fn split_spawns_the_backend_under_the_new_pane_id() {
    let (mut app, factory, mut clip) = default_app();
    prefix_then(&mut app, &factory, &mut clip, KeyCode::Right, ctrl());
    let new_id = app.active_pane();
    assert_eq!(app.pane(new_id).unwrap().id, new_id);
    assert_eq!(app.pane(PaneId(0)).unwrap().id, PaneId(0));
}
