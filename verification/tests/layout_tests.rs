use tpane::layout::{Layout, Orientation, PaneId, Rect, SplitPosition, RATIO_MAX, RATIO_MIN};

fn rect_of(rects: &[(PaneId, Rect)], id: PaneId) -> Rect {
    rects.iter().find(|(p, _)| *p == id).map(|(_, r)| *r).unwrap()
}

fn no_overlap(rects: &[(PaneId, Rect)]) {
    for (i, (_, a)) in rects.iter().enumerate() {
        for (_, b) in rects.iter().skip(i + 1) {
            let disjoint = a.x + a.width <= b.x || b.x + b.width <= a.x || a.y + a.height <= b.y
                || b.y + b.height <= a.y;
            assert!(disjoint, "{a:?} overlaps {b:?}");
        }
    }
}

fn all_in_bounds(rects: &[(PaneId, Rect)], w: u16, h: u16) {
    for (_, r) in rects {
        assert!(r.x + r.width <= w, "rect {:?} exceeds width {w}", r);
        assert!(r.y + r.height <= h, "rect {:?} exceeds height {h}", r);
    }
}

#[test]
fn single_pane_occupies_full_area() {
    let layout = Layout::new();
    let rects = layout.compute_rects(100, 40);
    let r = rect_of(&rects, PaneId(0));
    assert_eq!(r.width, 100);
    assert_eq!(r.height, 40);
    assert_eq!(r.x, 0);
    assert_eq!(r.y, 0);
}

#[test]
fn vertical_split_divides_width() {
    let mut layout = Layout::new();
    layout.split(Orientation::Vertical);
    let rects = layout.compute_rects(100, 40);
    let w: u16 = rects.iter().map(|(_, r)| r.width).sum::<u16>() + 1;
    assert_eq!(w, 100);
}

#[test]
fn vertical_split_preserves_full_height() {
    let mut layout = Layout::new();
    layout.split(Orientation::Vertical);
    let rects = layout.compute_rects(80, 24);
    for (_, r) in &rects {
        assert_eq!(r.height, 24);
    }
}

#[test]
fn vertical_split_no_overlap() {
    let mut layout = Layout::new();
    layout.split(Orientation::Vertical);
    let rects = layout.compute_rects(80, 24);
    no_overlap(&rects);
    all_in_bounds(&rects, 80, 24);
}

#[test]
fn horizontal_split_divides_height() {
    let mut layout = Layout::new();
    layout.split(Orientation::Horizontal);
    let rects = layout.compute_rects(80, 24);
    let h: u16 = rects.iter().map(|(_, r)| r.height).sum::<u16>() + 1;
    assert_eq!(h, 24);
}

#[test]
fn horizontal_split_preserves_full_width() {
    let mut layout = Layout::new();
    layout.split(Orientation::Horizontal);
    let rects = layout.compute_rects(80, 24);
    for (_, r) in &rects {
        assert_eq!(r.width, 80);
    }
}

#[test]
fn horizontal_split_no_overlap() {
    let mut layout = Layout::new();
    layout.split(Orientation::Horizontal);
    let rects = layout.compute_rects(80, 24);
    no_overlap(&rects);
    all_in_bounds(&rects, 80, 24);
}

#[test]
fn tiny_terminal_splits_stay_in_bounds() {
    for w in [1u16, 2, 3, 4] {
        for h in [1u16, 2, 3, 4] {
            let mut layout = Layout::new();
            layout.split(Orientation::Vertical);
            let rects = layout.compute_rects(w, h);
            all_in_bounds(&rects, w, h);
            if w >= 2 {
                no_overlap(&rects);
            }

            let mut layout = Layout::new();
            layout.split(Orientation::Horizontal);
            let rects = layout.compute_rects(w, h);
            all_in_bounds(&rects, w, h);
            if h >= 2 {
                no_overlap(&rects);
            }
        }
    }
}

#[test]
fn three_pane_split_no_overlap() {
    let mut layout = Layout::new();
    layout.split(Orientation::Vertical);
    layout.split(Orientation::Horizontal);
    let rects = layout.compute_rects(120, 40);
    assert_eq!(rects.len(), 3);
    no_overlap(&rects);
    all_in_bounds(&rects, 120, 40);
}

#[test]
fn split_makes_new_pane_active() {
    let mut layout = Layout::new();
    let original = layout.active;
    let new_id = layout.split(Orientation::Vertical);
    assert_ne!(new_id, original);
    assert_eq!(layout.active, new_id);
}

#[test]
fn close_last_pane_is_noop() {
    let mut layout = Layout::new();
    assert!(!layout.close_active());
    assert_eq!(layout.leaf_ids().len(), 1);
}

#[test]
fn close_active_removes_split() {
    let mut layout = Layout::new();
    layout.split(Orientation::Vertical);
    assert_eq!(layout.leaf_ids().len(), 2);
    assert!(layout.close_active());
    assert_eq!(layout.leaf_ids().len(), 1);
}

#[test]
fn close_pane_by_id_removes_non_active() {
    let mut layout = Layout::new();
    let first = layout.active;
    let _second = layout.split(Orientation::Vertical);
    assert!(layout.close_pane(first));
    assert_eq!(layout.leaf_ids().len(), 1);
    assert!(!layout.leaf_ids().contains(&first));
}

#[test]
fn close_active_pane_shifts_focus() {
    let mut layout = Layout::new();
    let first = layout.active;
    layout.split(Orientation::Vertical);
    let active_after_split = layout.active;
    layout.close_active();
    assert_eq!(layout.active, first);
    assert!(!layout.leaf_ids().contains(&active_after_split));
}

#[test]
fn focus_next_cycles() {
    let mut layout = Layout::new();
    layout.split(Orientation::Vertical);
    let ids = layout.leaf_ids();
    layout.active = ids[0];
    layout.focus_next();
    assert_eq!(layout.active, ids[1]);
    layout.focus_next();
    assert_eq!(layout.active, ids[0]);
}

#[test]
fn focus_prev_cycles() {
    let mut layout = Layout::new();
    layout.split(Orientation::Vertical);
    let ids = layout.leaf_ids();
    layout.active = ids[1];
    layout.focus_prev();
    assert_eq!(layout.active, ids[0]);
    layout.focus_prev();
    assert_eq!(layout.active, ids[1]);
}

#[test]
fn focus_cycles_with_three_panes() {
    let mut layout = Layout::new();
    layout.split(Orientation::Vertical);
    layout.split(Orientation::Vertical);
    let ids = layout.leaf_ids();
    assert_eq!(ids.len(), 3);
    layout.active = ids[0];
    layout.focus_next();
    assert_eq!(layout.active, ids[1]);
    layout.focus_next();
    assert_eq!(layout.active, ids[2]);
    layout.focus_next();
    assert_eq!(layout.active, ids[0]);
}

#[test]
fn split_before_puts_new_pane_first() {
    let mut layout = Layout::new();
    let new_id = layout.split_with_position(Orientation::Vertical, SplitPosition::Before);
    assert_eq!(layout.leaf_ids(), vec![new_id, PaneId(0)]);
}

#[test]
fn split_ratio_sets_first_child_share() {
    let mut layout = Layout::new();
    layout.split_with_position_and_ratio(Orientation::Vertical, SplitPosition::After, 7000);
    let rects = layout.compute_rects(100, 10);
    assert_eq!(rect_of(&rects, PaneId(0)).width, 70);
    assert_eq!(rect_of(&rects, PaneId(1)).x, 71);
    assert_eq!(rect_of(&rects, PaneId(1)).width, 29);
}

#[test]
fn close_then_split_again_uses_fresh_id() {
    let mut layout = Layout::new();
    let a = layout.split(Orientation::Vertical);
    assert!(layout.close_pane(a));
    let b = layout.split(Orientation::Vertical);
    assert_ne!(a, b);
    assert_eq!(layout.next_id, 3);
}

#[test]
fn closing_unknown_pane_changes_nothing() {
    let mut layout = Layout::new();
    layout.split(Orientation::Horizontal);
    assert!(!layout.close_pane(PaneId(42)));
    assert_eq!(layout.leaf_ids().len(), 2);
}

#[test]
fn dividers_of_vertical_split() {
    let mut layout = Layout::new();
    layout.split(Orientation::Vertical);
    let dividers = layout.compute_dividers(80, 24);
    assert_eq!(dividers.len(), 1);
    assert_eq!(dividers[0].position, 40);
    assert_eq!(dividers[0].span_start, 0);
    assert_eq!(dividers[0].span_end, 24);
    assert!(dividers[0].path.is_empty());
}

#[test]
fn split_ratio_is_clamped() {
    let mut layout = Layout::new();
    layout.split(Orientation::Vertical);
    let path: Vec<bool> = Vec::new();
    layout.set_split_ratio_at(&path, 9999);
    let rects = layout.compute_rects(100, 10);
    assert_eq!(rect_of(&rects, PaneId(0)).width, (100u32 * RATIO_MAX as u32 / 10000) as u16);
    layout.set_split_ratio_at(&path, 1);
    let rects = layout.compute_rects(100, 10);
    assert_eq!(rect_of(&rects, PaneId(0)).width, (100u32 * RATIO_MIN as u32 / 10000) as u16);
}
