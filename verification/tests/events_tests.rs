use tpane::events::{map_input_event, pane_event_to_app, EventQueue, InputEvent, PaneEvent};
use tpane::keys::{KeyCode, KeyEvent, KeyEventKind, KeyModifiers, MouseButton, MouseEvent, MouseEventKind};
use tpane::layout::PaneId;
use tpane::traits::AppEvent;

fn key_event(kind: KeyEventKind) -> KeyEvent {
    KeyEvent { code: KeyCode::Char('x'), modifiers: KeyModifiers::empty(), kind }
}

fn mouse_event(kind: MouseEventKind, col: u16, row: u16) -> MouseEvent {
    MouseEvent { kind, column: col, row, modifiers: KeyModifiers::empty() }
}

#[test]
fn queue_event_coalesces_pane_data_and_pop_clears_dedupe_marker() {
    let mut src = EventQueue::new();
    let pane_id = PaneId(7);

    src.queue_event_coalesced(AppEvent::PaneData { pane_id });
    src.queue_event_coalesced(AppEvent::PaneData { pane_id });
    assert_eq!(src.len(), 1);

    match src.pop_queued_event() {
        Some(AppEvent::PaneData { pane_id: popped }) => assert_eq!(popped, pane_id),
        _ => panic!("expected pane data event"),
    }
    assert_eq!(src.len(), 0);

    src.queue_event_coalesced(AppEvent::PaneData { pane_id });
    assert_eq!(src.len(), 1);
}

#[test]
fn queue_event_coalesces_mouse_drag_and_resize_tail_events() {
    let mut src = EventQueue::new();

    src.queue_event_coalesced(AppEvent::Mouse(mouse_event(MouseEventKind::Drag(MouseButton::Left), 3, 4)));
    src.queue_event_coalesced(AppEvent::Mouse(mouse_event(MouseEventKind::Drag(MouseButton::Left), 9, 4)));
    assert_eq!(src.len(), 1);
    match src.events().first() {
        Some(AppEvent::Mouse(mouse)) => assert_eq!(mouse.column, 9),
        _ => panic!("expected coalesced mouse drag"),
    }

    src.queue_event_coalesced(AppEvent::Resize(80, 24));
    src.queue_event_coalesced(AppEvent::Resize(120, 40));
    assert_eq!(src.len(), 2);
    match src.events().last() {
        Some(AppEvent::Resize(w, h)) => assert_eq!((*w, *h), (120, 40)),
        _ => panic!("expected coalesced resize"),
    }
}

#[test]
fn map_crossterm_event_accepts_press_mouse_resize_and_ignores_release() {
    let mapped_press = map_input_event(InputEvent::Key(key_event(KeyEventKind::Press)));
    assert!(matches!(mapped_press, Some(AppEvent::Key(_))));

    let mapped_release = map_input_event(InputEvent::Key(key_event(KeyEventKind::Release)));
    assert!(mapped_release.is_none());

    let mapped_mouse = map_input_event(InputEvent::Mouse(mouse_event(MouseEventKind::Moved, 1, 1)));
    assert!(matches!(mapped_mouse, Some(AppEvent::Mouse(_))));

    let mapped_resize = map_input_event(InputEvent::Resize(90, 30));
    match mapped_resize {
        Some(AppEvent::Resize(w, h)) => assert_eq!((w, h), (90, 30)),
        _ => panic!("expected resize event"),
    }
}

#[test]
fn key_repeats_and_other_input_are_dropped() {
    assert!(map_input_event(InputEvent::Key(key_event(KeyEventKind::Repeat))).is_none());
    assert!(map_input_event(InputEvent::Other).is_none());
}

#[test]
fn pane_events_become_app_events() {
    assert_eq!(pane_event_to_app(PaneEvent::Data { pane_id: PaneId(2) }), AppEvent::PaneData { pane_id: PaneId(2) });
    assert_eq!(pane_event_to_app(PaneEvent::Exit { pane_id: PaneId(3) }), AppEvent::PaneExit { pane_id: PaneId(3) });
}

#[test]
fn queue_keeps_order_and_drag_after_other_event_is_appended() {
    let mut q = EventQueue::new();
    let drag = AppEvent::Mouse(mouse_event(MouseEventKind::Drag(MouseButton::Left), 1, 1));
    q.queue_event_coalesced(drag);
    q.queue_event_coalesced(AppEvent::PaneData { pane_id: PaneId(1) });
    q.queue_event_coalesced(drag);
    q.queue_event_coalesced(AppEvent::PaneData { pane_id: PaneId(2) });
    q.queue_event_coalesced(AppEvent::PaneData { pane_id: PaneId(1) });
    assert_eq!(q.len(), 4);
    assert_eq!(q.pop_queued_event(), Some(drag));
    assert_eq!(q.pop_queued_event(), Some(AppEvent::PaneData { pane_id: PaneId(1) }));
    assert_eq!(q.pop_queued_event(), Some(drag));
    assert_eq!(q.pop_queued_event(), Some(AppEvent::PaneData { pane_id: PaneId(2) }));
    assert_eq!(q.pop_queued_event(), None);
}

#[test]
fn right_drag_is_not_coalesced() {
    let mut q = EventQueue::new();
    let drag = AppEvent::Mouse(mouse_event(MouseEventKind::Drag(MouseButton::Right), 1, 1));
    q.queue_event_coalesced(drag);
    q.queue_event_coalesced(drag);
    assert_eq!(q.len(), 2);
}
