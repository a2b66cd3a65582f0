//! Kinds and outcomes of the list pop-ups.

use vstd::prelude::*;

verus! {

/// How a list pop-up ended.
pub enum PopupResult {
    Cancelled,
    Selected(usize),
    FilterChanged(String),
}

/// Which list a pop-up shows.
#[derive(Debug, Clone, Copy, PartialEq, Eq, Structural)]
pub enum PopupKind {
    Device,
    History,
    Mapping,
}

} // verus!
