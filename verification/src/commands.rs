//! Command identifiers understood by the dispatcher and the configuration.

use vstd::prelude::*;
use crate::text::{decimal, owned, push_decimal, str_eq};

verus! {

/// All actions that can be dispatched.
#[derive(Debug, Clone, Copy, PartialEq, Eq, Structural)]
pub enum Command {
    SplitVertical,
    SplitHorizontal,
    /// Split vertical, new pane on the left, focus moves to it.
    SplitLeft,
    /// Split vertical, new pane on the right, focus moves to it.
    SplitRight,
    /// Split horizontal, new pane above, focus moves to it.
    SplitUp,
    /// Split horizontal, new pane below, focus moves to it.
    SplitDown,
    ClosePane,
    FocusNext,
    FocusPrev,
    FocusLeft,
    FocusRight,
    FocusUp,
    FocusDown,
    /// Grow the active pane to the left.
    ResizeLeft,
    /// Grow the active pane to the right.
    ResizeRight,
    /// Grow the active pane upward.
    ResizeUp,
    /// Grow the active pane downward.
    ResizeDown,
    Quit,
    /// Run the steps of the named layout with this number.
    LoadLayout(u8),
}

/// `name` is `load_layout_` followed by the decimal digits of `n`, and of
/// no smaller number.
pub open spec fn first_layout_number(name: Seq<char>, n: u8) -> bool {
    &&& name == "load_layout_"@ + decimal(n as nat)
    &&& forall|m: u8| m < n ==> name != "load_layout_"@ + decimal(m as nat)
}

/// The command that a configuration name denotes, if any.
pub open spec fn command_named(name: Seq<char>) -> Option<Command> {
    if name == "split_vertical"@ { Some(Command::SplitVertical) }
    else if name == "split_horizontal"@ { Some(Command::SplitHorizontal) }
    else if name == "split"@ { Some(Command::SplitVertical) }
    else if name == "split_left"@ { Some(Command::SplitLeft) }
    else if name == "split_right"@ { Some(Command::SplitRight) }
    else if name == "split_up"@ { Some(Command::SplitUp) }
    else if name == "split_down"@ { Some(Command::SplitDown) }
    else if name == "close"@ || name == "close_pane"@ { Some(Command::ClosePane) }
    else if name == "focus_next"@ { Some(Command::FocusNext) }
    else if name == "focus_prev"@ { Some(Command::FocusPrev) }
    else if name == "focus_left"@ { Some(Command::FocusLeft) }
    else if name == "focus_right"@ { Some(Command::FocusRight) }
    else if name == "focus_up"@ { Some(Command::FocusUp) }
    else if name == "focus_down"@ { Some(Command::FocusDown) }
    else if name == "resize_left"@ { Some(Command::ResizeLeft) }
    else if name == "resize_right"@ { Some(Command::ResizeRight) }
    else if name == "resize_up"@ { Some(Command::ResizeUp) }
    else if name == "resize_down"@ { Some(Command::ResizeDown) }
    else if name == "quit"@ { Some(Command::Quit) }
    else if exists|n: u8| first_layout_number(name, n) {
        Some(Command::LoadLayout(choose|n: u8| first_layout_number(name, n)))
    }
    else { None }
}

/// The number `n` of a name `load_layout_<n>`.
fn layout_number(name: &str) -> (r: Option<u8>)
    ensures
        match r {
            Some(n) => first_layout_number(name@, n),
            None => forall|n: u8| !first_layout_number(name@, n),
        },
{
    let mut n: u32 = 0;
    while n < 256
        invariant
            n <= 256,
            forall|m: u8| m < n ==> name@ != "load_layout_"@ + decimal(m as nat),
        decreases 256 - n,
    {
        let mut candidate = owned("load_layout_");
        push_decimal(&mut candidate, n);
        if str_eq(name, candidate.as_str()) {
            let k: u8 = n as u8;
            assert(first_layout_number(name@, k));
            return Some(k);
        }
        n = n + 1;
    }
    None
}

impl Command {
    /// Parses a command name from the configuration.
    ///
    /// `split` is an alias of `split_vertical` and `close` of `close_pane`;
    /// `load_layout_<n>` loads named layout `n`; unknown names give `None`.
    pub fn from_name(name: &str) -> (r: Option<Command>)
        ensures
            r == command_named(name@),
    {
        if str_eq(name, "split_vertical") { Some(Command::SplitVertical) }
        else if str_eq(name, "split_horizontal") { Some(Command::SplitHorizontal) }
        else if str_eq(name, "split") { Some(Command::SplitVertical) }
        else if str_eq(name, "split_left") { Some(Command::SplitLeft) }
        else if str_eq(name, "split_right") { Some(Command::SplitRight) }
        else if str_eq(name, "split_up") { Some(Command::SplitUp) }
        else if str_eq(name, "split_down") { Some(Command::SplitDown) }
        else if str_eq(name, "close") || str_eq(name, "close_pane") { Some(Command::ClosePane) }
        else if str_eq(name, "focus_next") { Some(Command::FocusNext) }
        else if str_eq(name, "focus_prev") { Some(Command::FocusPrev) }
        else if str_eq(name, "focus_left") { Some(Command::FocusLeft) }
        else if str_eq(name, "focus_right") { Some(Command::FocusRight) }
        else if str_eq(name, "focus_up") { Some(Command::FocusUp) }
        else if str_eq(name, "focus_down") { Some(Command::FocusDown) }
        else if str_eq(name, "resize_left") { Some(Command::ResizeLeft) }
        else if str_eq(name, "resize_right") { Some(Command::ResizeRight) }
        else if str_eq(name, "resize_up") { Some(Command::ResizeUp) }
        else if str_eq(name, "resize_down") { Some(Command::ResizeDown) }
        else if str_eq(name, "quit") { Some(Command::Quit) }
        else {
            match layout_number(name) {
                Some(n) => Some(Command::LoadLayout(n)),
                None => None,
            }
        }
    }
}

} // verus!
