//! Edit events as the presentation layer hands them in.

use vstd::prelude::*;

verus! {

/// An edit event addressed to one node of the construction: a path of
/// child indices from the root, and the node-level event itself.
pub struct CallConstructorEvent {
    pub index: Vec<usize>,
    pub ccei: CCEI,
}

/// The node-level part of an edit event: a selector tag whose meaning
/// depends on the node kind, and a textual payload.
pub struct CCEI {
    pub id: usize,
    pub message: String,
}

} // verus!
