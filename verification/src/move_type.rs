//! The two kinds of move.

use vstd::prelude::*;

verus! {

/// The kind of move that the game expects next.
#[derive(Copy, Clone, PartialEq, Eq, Structural, Debug)]
pub enum MoveType {
    Mark,
    Collapse,
}

} // verus!
