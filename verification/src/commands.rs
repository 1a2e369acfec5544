//! Navigation commands that a controller sends to the front end.

use vstd::prelude::*;

verus! {

/// Commands that can be sent to the front end.
#[derive(Debug, Clone)]
pub enum TuiCommand {
    /// Jump to a record (0-indexed).
    JumpToLine(usize),
    /// Cycle the view.
    ToggleView,
    /// Set the view directly.
    SetViewMode(ViewModeCmd),
    /// Show or hide the detail pane.
    ShowDetail(bool),
    /// Scroll down by a number of records.
    ScrollDown(usize),
    /// Scroll up by a number of records.
    ScrollUp(usize),
    /// Jump to the first record.
    GotoTop,
    /// Jump to the last record.
    GotoBottom,
}

/// The views that a command can select.
#[derive(Debug, Clone, Copy)]
pub enum ViewModeCmd {
    Text,
    TokenXray,
    Tree,
}

} // verus!
