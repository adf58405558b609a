//! Abstractions over the platform: pane backends, pane factories and the
//! clipboard. The application state machine is generic over them.

use vstd::prelude::*;
use crate::keys::{KeyEvent, MouseEvent};
use crate::layout::PaneId;

verus! {

/// An error reported by a platform component.
#[derive(Debug, Clone)]
pub struct Failure {
    pub message: String,
}

/// An event for the application state machine.
#[derive(Debug, Clone, Copy, PartialEq, Eq, Structural)]
pub enum AppEvent {
    /// Keyboard input.
    Key(KeyEvent),
    /// Mouse input.
    Mouse(MouseEvent),
    /// The terminal was resized to (`width`, `height`).
    Resize(u16, u16),
    /// A pane produced output and should be redrawn.
    PaneData { pane_id: PaneId },
    /// A pane's shell process exited.
    PaneExit { pane_id: PaneId },
}

/// Per-pane backend: shell I/O and terminal content.
///
/// The contracts speak of a model of the backend: [`Self::pane_id`],
/// [`Self::inputs`], [`Self::size`] and [`Self::text_between`]. A backend
/// verified against them defines the model; the defaults only let
/// implementations written outside Verus compile, and such an
/// implementation is trusted to behave as the contracts say of the model
/// (it is not checked).
pub trait PaneBackend {
    /// The pane this backend was spawned for.
    closed spec fn pane_id(&self) -> PaneId {
        PaneId(0)
    }

    /// Every byte string handed to [`Self::write_input`], oldest first.
    closed spec fn inputs(&self) -> Seq<Seq<u8>> {
        Seq::empty()
    }

    /// The text a selection from `start` to `end` covers at scrollback
    /// position `display_offset`.
    closed spec fn text_between(&self, start: (u16, u16), end: (u16, u16), display_offset: usize) -> Seq<char> {
        Seq::empty()
    }

    /// The pane geometry `(cols, rows)` the backend was last given.
    closed spec fn size(&self) -> (u16, u16) {
        (0, 0)
    }

    /// Writes raw bytes (keyboard input) to the pane's shell.
    fn write_input(&mut self, bytes: &[u8]) -> (r: Result<(), Failure>)
        ensures
            final(self).inputs() == old(self).inputs().push(bytes@),
            final(self).size() == old(self).size(),
            final(self).pane_id() == old(self).pane_id(),
    ;

    /// Tells the backend that the pane geometry changed.
    fn resize(&mut self, cols: u16, rows: u16)
        ensures
            final(self).size() == (cols, rows),
            final(self).inputs() == old(self).inputs(),
            final(self).pane_id() == old(self).pane_id(),
    ;

    /// Text of a selection given in pane-grid-local `(col, row)`
    /// coordinates; a backend without a buffer model returns the empty
    /// string (its `text_between` is empty).
    fn selected_text(&self, start: (u16, u16), end: (u16, u16), display_offset: usize) -> (r: String)
        ensures
            r@ == self.text_between(start, end, display_offset),
    ;

    /// Whether the pane's terminal shows its alternate screen (full-screen
    /// programs do).
    fn is_alt_screen(&self) -> (r: bool)
        default_ensures
            !r,
    {
        false
    }

    /// Whether the pane's terminal reports mouse events.
    fn is_mouse_mode(&self) -> (r: bool)
        default_ensures
            !r,
    {
        false
    }

    /// Whether mouse reports use the SGR encoding rather than X10.
    fn is_sgr_mouse(&self) -> (r: bool)
        default_ensures
            !r,
    {
        false
    }

    /// Whether the mouse wheel should send cursor keys (alternate scroll on
    /// the alternate screen).
    fn is_alternate_scroll(&self) -> (r: bool)
        default_ensures
            !r,
    {
        false
    }

    /// Scrollback position of the view; zero at the most recent output.
    fn display_offset(&self) -> (r: usize)
        default_ensures
            r == 0,
    {
        0
    }

    /// Scrolls the view one page towards history.
    fn scroll_page_up(&mut self) {
    }

    /// Scrolls the view one page towards the most recent output.
    fn scroll_page_down(&mut self) {
    }

    /// Scrolls the view by `lines`; positive values go towards history.
    fn scroll_by_lines(&mut self, lines: i32) {
    }

    /// Scrolls the view to the most recent output.
    fn scroll_to_bottom(&mut self) {
    }
}

/// Creates pane backends.
pub trait PaneFactory<B: PaneBackend> {
    /// A backend for pane `id` with the given geometry, written nothing yet.
    fn spawn(&self, id: PaneId, cols: u16, rows: u16) -> (r: Result<B, Failure>)
        ensures
            r matches Ok(b) ==> b.pane_id() == id && b.inputs() == Seq::<Seq<u8>>::empty()
                && b.size() == (cols, rows),
    ;
}

/// The system clipboard.
///
/// The contracts speak of a model, [`Self::texts`]; as for
/// [`PaneBackend`], an implementation written outside Verus keeps only the
/// default and is trusted to behave as the contracts say.
pub trait Clipboard {
    /// Every text handed to [`Self::set_text`], oldest first.
    closed spec fn texts(&self) -> Seq<Seq<char>> {
        Seq::empty()
    }

    /// The clipboard's text.
    fn get_text(&mut self) -> (r: Result<String, Failure>)
        ensures
            final(self).texts() == old(self).texts(),
    ;

    /// Puts `text` on the clipboard.
    fn set_text(&mut self, text: &str) -> (r: Result<(), Failure>)
        ensures
            final(self).texts() == old(self).texts().push(text@),
    ;
}

} // verus!
