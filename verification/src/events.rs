//! Event intake: pane events, terminal input, and a queue that coalesces
//! bursts of redundant events before the application sees them.

use vstd::prelude::*;
use crate::keys::{KeyEvent, KeyEventKind, MouseButton, MouseEvent, MouseEventKind};
use crate::layout::PaneId;
use crate::traits::AppEvent;

verus! {

/// Pane lifecycle and output events produced by pane reader threads.
#[derive(Debug, Clone, Copy, PartialEq, Eq, Structural)]
pub enum PaneEvent {
    /// Terminal output arrived for this pane.
    Data { pane_id: PaneId },
    /// The pane's shell process exited.
    Exit { pane_id: PaneId },
}

/// A terminal input event as the terminal library reports it.
#[derive(Debug, Clone, Copy, PartialEq, Eq, Structural)]
pub enum InputEvent {
    Key(KeyEvent),
    Mouse(MouseEvent),
    Resize(u16, u16),
    /// Focus changes, pastes and anything else the app does not use.
    Other,
}

/// The application event for a pane event.
pub open spec fn pane_to_app(event: PaneEvent) -> AppEvent {
    match event {
        PaneEvent::Data { pane_id } => AppEvent::PaneData { pane_id },
        PaneEvent::Exit { pane_id } => AppEvent::PaneExit { pane_id },
    }
}

/// The queue after pane events `evs` arrived in order.
pub open spec fn coalesce_all(q: Seq<AppEvent>, evs: Seq<PaneEvent>) -> Seq<AppEvent>
    decreases evs.len(),
{
    if evs.len() == 0 {
        q
    } else {
        coalesce(coalesce_all(q, evs.drop_last()), pane_to_app(evs.last()))
    }
}

/// Translates a pane event.
pub fn pane_event_to_app(event: PaneEvent) -> (r: AppEvent)
    ensures
        r == pane_to_app(event),
{
    match event {
        PaneEvent::Data { pane_id } => AppEvent::PaneData { pane_id },
        PaneEvent::Exit { pane_id } => AppEvent::PaneExit { pane_id },
    }
}

/// The application event for a terminal input event: key presses, mouse
/// events and resizes; key releases and repeats, and other events, are
/// dropped.
pub open spec fn input_to_app(event: InputEvent) -> Option<AppEvent> {
    match event {
        InputEvent::Key(k) => if k.kind == KeyEventKind::Press { Some(AppEvent::Key(k)) } else { None },
        InputEvent::Mouse(m) => Some(AppEvent::Mouse(m)),
        InputEvent::Resize(w, h) => Some(AppEvent::Resize(w, h)),
        InputEvent::Other => None,
    }
}

/// Translates a terminal input event.
pub fn map_input_event(event: InputEvent) -> (r: Option<AppEvent>)
    ensures
        r == input_to_app(event),
{
    match event {
        InputEvent::Key(k) => if k.kind == KeyEventKind::Press { Some(AppEvent::Key(k)) } else { None },
        InputEvent::Mouse(m) => Some(AppEvent::Mouse(m)),
        InputEvent::Resize(w, h) => Some(AppEvent::Resize(w, h)),
        InputEvent::Other => None,
    }
}

/// A left-button drag.
pub open spec fn is_left_drag(e: AppEvent) -> bool {
    e matches AppEvent::Mouse(m) && m.kind == MouseEventKind::Drag(MouseButton::Left)
}

/// The queue after `event` arrives: output from a pane that already waits
/// is dropped; a left-button drag replaces a drag at the tail; a resize
/// replaces a resize at the tail; anything else is appended.
pub open spec fn coalesce(q: Seq<AppEvent>, event: AppEvent) -> Seq<AppEvent> {
    match event {
        AppEvent::PaneData { pane_id } => if q.contains(AppEvent::PaneData { pane_id }) { q } else { q.push(event) },
        AppEvent::Resize(_, _) => if q.len() > 0 && q.last() is Resize { q.drop_last().push(event) } else { q.push(event) },
        _ => if is_left_drag(event) && q.len() > 0 && is_left_drag(q.last()) {
            q.drop_last().push(event)
        } else {
            q.push(event)
        },
    }
}

/// Each pane's output event occurs at most once in the queue.
pub open spec fn pane_data_once(q: Seq<AppEvent>) -> bool {
    forall|i: int, j: int| 0 <= i < q.len() && 0 <= j < q.len() && i != j && (#[trigger] q[i]) is PaneData
        ==> q[i] != #[trigger] q[j]
}

/// Events waiting for the application, with bursts coalesced.
pub struct EventQueue {
    queued: Vec<AppEvent>,
    /// Panes with an output event in `queued`.
    queued_pane_data: Vec<PaneId>,
}

impl View for EventQueue {
    type V = Seq<AppEvent>;

    closed spec fn view(&self) -> Seq<AppEvent> {
        self.queued@
    }
}

impl EventQueue {
    /// The queue and its index of waiting pane output agree, and no pane's
    /// output waits twice.
    pub closed spec fn wf(&self) -> bool {
        &&& pane_data_once(self.queued@)
        &&& self.queued_pane_data@.no_duplicates()
        &&& forall|p: PaneId| #[trigger] self.queued_pane_data@.contains(p)
            <==> self.queued@.contains(AppEvent::PaneData { pane_id: p })
    }

    /// An empty queue.
    pub fn new() -> (r: EventQueue)
        ensures
            r.wf(),
            r@ == Seq::<AppEvent>::empty(),
    {
        EventQueue { queued: Vec::new(), queued_pane_data: Vec::new() }
    }

    /// Number of waiting events.
    pub fn len(&self) -> (r: usize)
        ensures
            r == self@.len(),
    {
        self.queued.len()
    }

    /// The waiting events, oldest first.
    pub fn events(&self) -> (r: &Vec<AppEvent>)
        ensures
            r@ == self@,
    {
        &self.queued
    }

    fn pending_index(&self, pane_id: PaneId) -> (r: Option<usize>)
        ensures
            match r {
                Some(i) => i < self.queued_pane_data@.len() && self.queued_pane_data@[i as int] == pane_id,
                None => !self.queued_pane_data@.contains(pane_id),
            },
    {
        let mut i: usize = 0;
        while i < self.queued_pane_data.len()
            invariant
                i <= self.queued_pane_data@.len(),
                forall|j: int| 0 <= j < i ==> self.queued_pane_data@[j] != pane_id,
            decreases self.queued_pane_data.len() - i,
        {
            if self.queued_pane_data[i] == pane_id {
                return Some(i);
            }
            i = i + 1;
        }
        None
    }

    /// Adds an event, coalescing it with what already waits.
    pub fn queue_event_coalesced(&mut self, event: AppEvent)
        requires
            old(self).wf(),
        ensures
            final(self).wf(),
            final(self)@ == coalesce(old(self)@, event),
    {
        let ghost q = self.queued@;
        match event {
            AppEvent::PaneData { pane_id } => {
                match self.pending_index(pane_id) {
                    Some(_) => {
                        proof { assert(self.queued_pane_data@.contains(pane_id)); }
                    },
                    None => {
                        self.queued_pane_data.push(pane_id);
                        self.queued.push(event);
                        proof {
                            assert(!q.contains(event));
                            assert forall|i: int, j: int| 0 <= i < self.queued@.len() && 0 <= j < self.queued@.len()
                                && i != j && (#[trigger] self.queued@[i]) is PaneData
                                implies self.queued@[i] != #[trigger] self.queued@[j] by {
                                if i < q.len() && j < q.len() {
                                    assert(self.queued@[i] == q[i] && self.queued@[j] == q[j]);
                                } else if i == q.len() {
                                    assert(self.queued@[j] == q[j]);
                                } else {
                                    assert(self.queued@[i] == q[i]);
                                }
                            }
                            let od = old(self).queued_pane_data@;
                            assert forall|p: PaneId| #[trigger] self.queued_pane_data@.contains(p)
                                <==> self.queued@.contains(AppEvent::PaneData { pane_id: p }) by {
                                assert(self.queued@[q.len() as int] == event);
                                assert(self.queued_pane_data@[od.len() as int] == pane_id);
                                if p == pane_id {
                                } else {
                                    if self.queued@.contains(AppEvent::PaneData { pane_id: p }) {
                                        let k = choose|k: int| 0 <= k < self.queued@.len()
                                            && self.queued@[k] == AppEvent::PaneData { pane_id: p };
                                        assert(k < q.len());
                                        assert(q[k] == AppEvent::PaneData { pane_id: p });
                                        assert(q.contains(AppEvent::PaneData { pane_id: p }));
                                        assert(od.contains(p));
                                        let j = choose|j: int| 0 <= j < od.len() && od[j] == p;
                                        assert(self.queued_pane_data@[j] == p);
                                    }
                                    if self.queued_pane_data@.contains(p) {
                                        let k = choose|k: int| 0 <= k < self.queued_pane_data@.len()
                                            && self.queued_pane_data@[k] == p;
                                        assert(k < od.len());
                                        assert(od[k] == p);
                                        assert(od.contains(p));
                                        assert(q.contains(AppEvent::PaneData { pane_id: p }));
                                        let m = choose|m: int| 0 <= m < q.len() && q[m] == AppEvent::PaneData { pane_id: p };
                                        assert(self.queued@[m] == q[m]);
                                    }
                                }
                            }
                            assert(self.queued_pane_data@.no_duplicates()) by {
                                let nd = self.queued_pane_data@;
                                assert forall|a: int, b: int| 0 <= a < nd.len() && 0 <= b < nd.len() && a != b
                                    implies nd[a] != nd[b] by {
                                    if a < od.len() && b < od.len() {
                                        assert(nd[a] == od[a] && nd[b] == od[b]);
                                    } else if a == od.len() {
                                        assert(nd[b] == od[b]);
                                        assert(od.contains(nd[b]));
                                    } else {
                                        assert(nd[a] == od[a]);
                                        assert(od.contains(nd[a]));
                                    }
                                }
                            }
                        }
                    },
                }
            },
            AppEvent::Resize(_, _) => {
                let n = self.queued.len();
                if n > 0 && matches!(self.queued[n - 1], AppEvent::Resize(_, _)) {
                    self.queued.set(n - 1, event);
                    proof { self.lemma_replace_tail(q, event); }
                } else {
                    self.queued.push(event);
                    proof { self.lemma_push_plain(q, event); }
                }
            },
            AppEvent::Mouse(m) => {
                let n = self.queued.len();
                let drag = m.kind == MouseEventKind::Drag(MouseButton::Left);
                if drag && n > 0 && Self::is_left_drag_exec(&self.queued[n - 1]) {
                    self.queued.set(n - 1, event);
                    proof { self.lemma_replace_tail(q, event); }
                } else {
                    self.queued.push(event);
                    proof { self.lemma_push_plain(q, event); }
                }
            },
            _ => {
                self.queued.push(event);
                proof { self.lemma_push_plain(q, event); }
            },
        }
    }

    fn is_left_drag_exec(e: &AppEvent) -> (r: bool)
        ensures
            r == is_left_drag(*e),
    {
        match e {
            AppEvent::Mouse(m) => m.kind == MouseEventKind::Drag(MouseButton::Left),
            _ => false,
        }
    }

    proof fn lemma_push_plain(&self, q: Seq<AppEvent>, event: AppEvent)
        requires
            !(event is PaneData),
            pane_data_once(q),
            self.queued@ == q.push(event),
            forall|p: PaneId| #[trigger] self.queued_pane_data@.contains(p)
                <==> q.contains(AppEvent::PaneData { pane_id: p }),
            self.queued_pane_data@.no_duplicates(),
        ensures
            self.wf(),
    {
        let s = self.queued@;
        assert forall|i: int, j: int| 0 <= i < s.len() && 0 <= j < s.len() && i != j && (#[trigger] s[i]) is PaneData
            implies s[i] != #[trigger] s[j] by {
            if i < q.len() && j < q.len() {
                assert(s[i] == q[i] && s[j] == q[j]);
            }
        }
        assert forall|p: PaneId| #[trigger] self.queued_pane_data@.contains(p)
            <==> s.contains(AppEvent::PaneData { pane_id: p }) by {
            if s.contains(AppEvent::PaneData { pane_id: p }) {
                let k = choose|k: int| 0 <= k < s.len() && s[k] == AppEvent::PaneData { pane_id: p };
                assert(k < q.len());
                assert(q[k] == s[k]);
            }
            if q.contains(AppEvent::PaneData { pane_id: p }) {
                let k = choose|k: int| 0 <= k < q.len() && q[k] == AppEvent::PaneData { pane_id: p };
                assert(s[k] == q[k]);
            }
        }
    }

    proof fn lemma_replace_tail(&self, q: Seq<AppEvent>, event: AppEvent)
        requires
            !(event is PaneData),
            q.len() > 0,
            !(q.last() is PaneData),
            pane_data_once(q),
            self.queued@ == q.update(q.len() - 1, event),
            forall|p: PaneId| #[trigger] self.queued_pane_data@.contains(p)
                <==> q.contains(AppEvent::PaneData { pane_id: p }),
            self.queued_pane_data@.no_duplicates(),
        ensures
            self.wf(),
            self.queued@ == q.drop_last().push(event),
    {
        let s = self.queued@;
        assert(s =~= q.drop_last().push(event));
        assert forall|i: int, j: int| 0 <= i < s.len() && 0 <= j < s.len() && i != j && (#[trigger] s[i]) is PaneData
            implies s[i] != #[trigger] s[j] by {
            if i < q.len() - 1 && j < q.len() - 1 {
                assert(s[i] == q[i] && s[j] == q[j]);
            }
        }
        assert forall|p: PaneId| #[trigger] self.queued_pane_data@.contains(p)
            <==> s.contains(AppEvent::PaneData { pane_id: p }) by {
            if s.contains(AppEvent::PaneData { pane_id: p }) {
                let k = choose|k: int| 0 <= k < s.len() && s[k] == AppEvent::PaneData { pane_id: p };
                assert(k < q.len() - 1);
                assert(q[k] == s[k]);
            }
            if q.contains(AppEvent::PaneData { pane_id: p }) {
                let k = choose|k: int| 0 <= k < q.len() && q[k] == AppEvent::PaneData { pane_id: p };
                assert(k < q.len() - 1);
                assert(s[k] == q[k]);
            }
        }
    }

    /// Takes the oldest waiting event.
    pub fn pop_queued_event(&mut self) -> (r: Option<AppEvent>)
        requires
            old(self).wf(),
        ensures
            final(self).wf(),
            old(self)@.len() == 0 ==> r is None && final(self)@ == old(self)@,
            old(self)@.len() > 0 ==> r == Some(old(self)@[0]) && final(self)@ == old(self)@.drop_first(),
    {
        if self.queued.len() == 0 {
            return None;
        }
        let ghost q = self.queued@;
        let ghost d = self.queued_pane_data@;
        let event = self.queued.remove(0);
        assert(self.queued@ =~= q.drop_first());
        match event {
            AppEvent::PaneData { pane_id } => {
                match self.pending_index(pane_id) {
                    Some(k) => {
                        self.queued_pane_data.remove(k);
                        proof {
                            assert forall|p: PaneId| #[trigger] self.queued_pane_data@.contains(p)
                                <==> self.queued@.contains(AppEvent::PaneData { pane_id: p }) by {
                                if self.queued_pane_data@.contains(p) {
                                    let j = choose|j: int| 0 <= j < self.queued_pane_data@.len()
                                        && self.queued_pane_data@[j] == p;
                                    if j < k { assert(d[j] == p); } else { assert(d[j + 1] == p); }
                                    assert(p != pane_id);
                                    assert(d.contains(p));
                                    let m = choose|m: int| 0 <= m < q.len() && q[m] == AppEvent::PaneData { pane_id: p };
                                    assert(m != 0);
                                    assert(self.queued@[m - 1] == q[m]);
                                }
                                if self.queued@.contains(AppEvent::PaneData { pane_id: p }) {
                                    let m = choose|m: int| 0 <= m < self.queued@.len()
                                        && self.queued@[m] == AppEvent::PaneData { pane_id: p };
                                    assert(q[m + 1] == self.queued@[m]);
                                    assert(q[0] != q[m + 1]);
                                    assert(p != pane_id);
                                    assert(d.contains(p));
                                    let j = choose|j: int| 0 <= j < d.len() && d[j] == p;
                                    assert(j != k);
                                    if j < k { assert(self.queued_pane_data@[j] == p); }
                                    else { assert(self.queued_pane_data@[j - 1] == p); }
                                }
                            }
                            assert(pane_data_once(self.queued@)) by {
                                assert forall|i: int, j: int| 0 <= i < self.queued@.len() && 0 <= j < self.queued@.len()
                                    && i != j && (#[trigger] self.queued@[i]) is PaneData
                                    implies self.queued@[i] != #[trigger] self.queued@[j] by {
                                    assert(self.queued@[i] == q[i + 1] && self.queued@[j] == q[j + 1]);
                                }
                            }
                        }
                    },
                    None => {
                        proof { assert(q[0] == event); assert(q.contains(event)); }
                    },
                }
            },
            _ => {
                proof {
                    assert forall|p: PaneId| #[trigger] self.queued_pane_data@.contains(p)
                        <==> self.queued@.contains(AppEvent::PaneData { pane_id: p }) by {
                        if q.contains(AppEvent::PaneData { pane_id: p }) {
                            let m = choose|m: int| 0 <= m < q.len() && q[m] == AppEvent::PaneData { pane_id: p };
                            assert(m != 0);
                            assert(self.queued@[m - 1] == q[m]);
                        }
                        if self.queued@.contains(AppEvent::PaneData { pane_id: p }) {
                            let m = choose|m: int| 0 <= m < self.queued@.len()
                                && self.queued@[m] == AppEvent::PaneData { pane_id: p };
                            assert(q[m + 1] == self.queued@[m]);
                        }
                    }
                    assert(pane_data_once(self.queued@)) by {
                        assert forall|i: int, j: int| 0 <= i < self.queued@.len() && 0 <= j < self.queued@.len()
                            && i != j && (#[trigger] self.queued@[i]) is PaneData
                            implies self.queued@[i] != #[trigger] self.queued@[j] by {
                            assert(self.queued@[i] == q[i + 1] && self.queued@[j] == q[j + 1]);
                        }
                    }
                }
            },
        }
        Some(event)
    }
}

/// Output from a pane waits at most once: queuing it again while it waits
/// changes nothing.
pub proof fn law_pane_data_queued_once(q: Seq<AppEvent>, pane_id: PaneId)
    ensures
        coalesce(coalesce(q, AppEvent::PaneData { pane_id }), AppEvent::PaneData { pane_id })
            == coalesce(q, AppEvent::PaneData { pane_id }),
{
    let e = AppEvent::PaneData { pane_id };
    let q1 = coalesce(q, e);
    if !q.contains(e) {
        assert(q1[q.len() as int] == e);
    }
    assert(q1.contains(e));
}

/// Only bursts are coalesced: a key event, a pane exit, or a mouse event
/// other than a left-button drag is always appended, so no keystroke is
/// lost or replaced. Any event either is appended, or is pane output
/// already waiting (the queue stays as it is), or replaces the tail when
/// both are left-button drags or both are resizes; nothing else queued is
/// ever removed.
pub proof fn law_only_bursts_coalesce(q: Seq<AppEvent>, e: AppEvent)
    ensures
        (e is Key || e is PaneExit
            || (e matches AppEvent::Mouse(m) && m.kind != MouseEventKind::Drag(MouseButton::Left)))
            ==> coalesce(q, e) == q.push(e),
        ({
            ||| coalesce(q, e) == q.push(e)
            ||| (e is PaneData && q.contains(e) && coalesce(q, e) == q)
            ||| (q.len() > 0 && coalesce(q, e) == q.drop_last().push(e) && (
                    (e is Resize && q.last() is Resize)
                    || ((e matches AppEvent::Mouse(m) && m.kind == MouseEventKind::Drag(MouseButton::Left))
                        && (q.last() matches AppEvent::Mouse(m2) && m2.kind == MouseEventKind::Drag(MouseButton::Left)))))
        }),
{
}

/// Of a burst of left-button drags, or of resizes, only the last waits:
/// queuing two in a row leaves the queue as queuing the second alone.
pub proof fn law_tail_coalescing(q: Seq<AppEvent>, first: AppEvent, second: AppEvent)
    requires
        (is_left_drag(first) && is_left_drag(second)) || (first is Resize && second is Resize),
    ensures
        coalesce(coalesce(q, first), second) == coalesce(q, second),
{
    let q1 = coalesce(q, first);
    assert(q1.last() == first);
    assert(q1.drop_last() =~= (if q.len() > 0 && ((first is Resize && q.last() is Resize)
        || (is_left_drag(first) && is_left_drag(q.last()))) { q.drop_last() } else { q }));
    assert(coalesce(q1, second) =~= coalesce(q, second));
}

} // verus!
