//! Positions in the scanned input.
use vstd::prelude::*;

verus! {

/// How far a scanner has come: the line and column of the next character and
/// the number of characters that lie before it.
#[derive(Clone, Copy, Debug, PartialEq, Eq, Structural)]
pub struct Position {
    pub line: usize,
    pub column: usize,
    pub offset: usize,
}

impl Position {
    /// The position `chars` ordinary characters further on the same line.
    pub open spec fn advanced(self, chars: nat) -> Position {
        Position {
            line: self.line,
            column: (self.column + chars) as usize,
            offset: (self.offset + chars) as usize,
        }
    }

    /// The position at the start of the next line, one line terminator on.
    pub open spec fn next_line(self) -> Position {
        Position { line: (self.line + 1) as usize, column: 0, offset: (self.offset + 1) as usize }
    }

    /// Whether `later` is this position or one behind it, going by line,
    /// then column, then offset.
    pub open spec fn precedes(self, later: Position) -> bool {
        ||| self.line < later.line
        ||| self.line == later.line && self.column < later.column
        ||| self.line == later.line && self.column == later.column && self.offset <= later.offset
    }

    /// Steps over one ordinary character.
    pub fn increment(&mut self)
        requires
            old(self).column < usize::MAX,
            old(self).offset < usize::MAX,
        ensures
            *final(self) == old(self).advanced(1),
            final(self).line == old(self).line,
            final(self).column == old(self).column + 1,
            final(self).offset == old(self).offset + 1,
    {
        self.column += 1;
        self.offset += 1;
    }

    /// Steps over one line terminator: the column starts again at zero.
    pub fn newline(&mut self)
        requires
            old(self).line < usize::MAX,
            old(self).offset < usize::MAX,
        ensures
            *final(self) == old(self).next_line(),
            final(self).line == old(self).line + 1,
            final(self).column == 0,
            final(self).offset == old(self).offset + 1,
    {
        self.offset += 1;
        self.line += 1;
        self.column = 0;
    }
}

impl Default for Position {
    /// The position before the first character of an input.
    fn default() -> (start: Position)
        ensures
            start == (Position { line: 0, column: 0, offset: 0 }),
    {
        Position { line: 0, column: 0, offset: 0 }
    }
}

} // verus!
