//! A position in a text: an index, a line and an offset within the line.
use vstd::prelude::*;

verus! {

/// A position in a text.
#[derive(Debug, PartialEq, Eq, Clone, Copy, Structural)]
pub struct Position {
    pub index: usize,
    pub line: usize,
    pub line_offset: usize,
}

impl Position {
    /// The position at the start of a text.
    pub fn new() -> (p: Position)
        ensures
            p == (Position { index: 0, line: 0, line_offset: 0 }),
    {
        Position { index: 0, line: 0, line_offset: 0 }
    }

    /// The position with the given components.
    pub fn new_at(index: usize, line: usize, line_offset: usize) -> (p: Position)
        ensures
            p == (Position { index, line, line_offset }),
    {
        Position { index, line, line_offset }
    }

    /// Overwrites this position with `position`.
    pub fn update(&mut self, position: Position)
        ensures
            *final(self) == position,
    {
        self.index = position.index;
        self.line = position.line;
        self.line_offset = position.line_offset;
    }

    /// Steps one place forward on the current line.
    pub fn increment(&mut self)
        requires
            old(self).index < usize::MAX,
            old(self).line_offset < usize::MAX,
        ensures
            *final(self) == (Position {
                index: (old(self).index + 1) as usize,
                line: old(self).line,
                line_offset: (old(self).line_offset + 1) as usize,
            }),
    {
        self.index += 1;
        self.line_offset += 1;
    }

    /// Moves to the start of the next line; the index stays.
    pub fn newline(&mut self)
        requires
            old(self).line < usize::MAX,
        ensures
            *final(self) == (Position {
                index: old(self).index,
                line: (old(self).line + 1) as usize,
                line_offset: 0,
            }),
    {
        self.line += 1;
        self.line_offset = 0;
    }

    /// Sets the index.
    pub fn set_index(&mut self, index: usize)
        ensures
            *final(self) == (Position { index, ..*old(self) }),
    {
        self.index = index;
    }

    /// Sets the line.
    pub fn set_line(&mut self, line: usize)
        ensures
            *final(self) == (Position { line, ..*old(self) }),
    {
        self.line = line;
    }

    /// Sets the offset within the line.
    pub fn set_line_offset(&mut self, line_offset: usize)
        ensures
            *final(self) == (Position { line_offset, ..*old(self) }),
    {
        self.line_offset = line_offset;
    }
}

} // verus!
