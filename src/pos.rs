use vstd::prelude::*;

verus! {

/// A zero-based line and column in the source text.
#[derive(Debug, Clone, Copy, PartialEq, Eq, Structural)]
pub struct Pos {
    pub line: u32,
    pub column: u32,
}

/// The span of source text between two positions.
#[derive(Debug, Clone, Copy, PartialEq, Eq, Structural)]
pub struct Range {
    pub start: Pos,
    pub end: Pos,
}

/// Items that can be located in the source text.
pub trait HasPos {
    spec fn spec_pos(&self) -> Pos;

    fn pos(&self) -> (p: Pos)
        ensures
            p == self.spec_pos(),
    ;
}

pub fn create_pos(line: u32, column: u32) -> (p: Pos)
    ensures
        p.line == line,
        p.column == column,
{
    Pos { line, column }
}

pub fn create_range(start: Pos, end: Pos) -> (r: Range)
    ensures
        r.start == start,
        r.end == end,
{
    Range { start, end }
}

} // verus!
