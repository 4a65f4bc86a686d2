//! A single mutable position with no autonomous behavior: callers (the
//! editor) are responsible for validating against the active buffer.

use vstd::prelude::*;

use crate::position::Position;

verus! {

/// The live cursor: one position, set unconditionally.
#[derive(Clone, Copy, Debug, PartialEq, Eq, Structural)]
pub struct Cursor {
    pub pos: Position,
}

impl Cursor {
    pub fn new(pos: Position) -> (c: Cursor)
        ensures
            c.pos == pos,
    {
        Cursor { pos }
    }

    /// Set the position unconditionally; the caller validates first.
    pub fn move_to(&mut self, pos: Position)
        ensures
            final(self).pos == pos,
    {
        self.pos = pos;
    }
}

} // verus!
