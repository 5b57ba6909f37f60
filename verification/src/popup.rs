//! The one popup the interface can show at a time, as an explicit
//! state value owned by the top-level view: closed, a single item's
//! detail view, or the sync view over a lesson's items. Child views
//! hand back a new state instead of mutating shared storage.

use vstd::prelude::*;

verus! {

use crate::lingq::LingQ;

/// Which popup is open, if any.
pub enum PopupState {
    Closed,
    LingQ { lingq: LingQ },
    Sync { lingqs: Vec<LingQ> },
}

impl Default for PopupState {
    /// Initially no popup is open.
    fn default() -> (r: PopupState)
        ensures
            r is Closed,
    {
        PopupState::Closed
    }
}

} // verus!
