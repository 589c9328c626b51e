//! The groups of buckets that the track list can be filtered by.

use vstd::prelude::*;

verus! {

/// One of the four groups of buckets.
#[derive(Clone, Copy, Debug, PartialEq, Eq, PartialOrd, Ord, Structural)]
pub enum F1State {
    All,
    Playlists,
    Artists,
    Albums,
}

} // verus!
