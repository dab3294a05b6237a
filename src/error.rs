use vstd::prelude::*;

use crate::pos::{HasPos, Pos};

verus! {

/// An error of one pipeline stage, located in the source text.
#[derive(Debug, Clone, PartialEq)]
pub struct Error<T> {
    pub error_type: T,
    pub pos: Pos,
}

impl<T> Error<T> {
    pub fn new(error_type: T, pos: Pos) -> (e: Error<T>)
        ensures
            e == (Error { error_type, pos }),
    {
        Error { error_type, pos }
    }
}

impl<T> HasPos for Error<T> {
    open spec fn spec_pos(&self) -> Pos {
        self.pos
    }

    fn pos(&self) -> (p: Pos) {
        self.pos
    }
}

} // verus!
