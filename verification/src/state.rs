//! The state behind the user interface.

pub mod filter_state;
pub mod notification_state;
pub mod scrollable_state;
pub mod state;
pub mod tracklist_state;

use vstd::prelude::*;

verus! {

/// The panel that takes the keyboard input.
#[derive(Clone, Copy, Debug, PartialEq, Eq, Structural)]
pub enum FocusedWindow {
    FilterFilterOptions,
    FilterOptions,
    TrackList,
}

/// What a pending confirmation would delete.
#[derive(Debug)]
pub enum DeleteType {
    TrackDelete(u32),
    PlaylistDelete(String),
}

} // verus!
