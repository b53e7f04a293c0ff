//! Notifications that the core hands to the user interface.

use vstd::prelude::*;

verus! {

/// Tells the interface that an item was added to the history.
#[derive(Debug, Clone)]
pub struct ClipboardItemAddedEvent {
    pub id: i64,
    pub preview_text: String,
    pub created_at: i64,
    pub pinned: bool,
}

/// Tells the interface that capturing was paused or resumed.
#[derive(Debug, Clone, Copy, PartialEq, Eq, Structural)]
pub struct ClipboardPausedChangedEvent {
    pub paused: bool,
}

} // verus!
