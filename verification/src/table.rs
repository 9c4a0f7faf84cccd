//! What the lexer knows of the table it may be in.
use vstd::prelude::*;

verus! {

/// How the cells of a column are aligned. The last two stand for a column
/// whose alignment row cell is read half way: it began with a colon or
/// without one.
#[derive(Debug, PartialEq, Eq, Clone, Copy, Structural)]
pub enum Alignment {
    Left,
    Right,
    Center,
    LeftOrCenter,
    LeftOrRight,
}

/// A column of a table: its number, from 0, and the value of the `align`
/// attribute of its cells.
#[derive(Debug, PartialEq)]
pub struct Column(pub usize, pub String);

/// The state of table detection.
///
/// A line that starts with a pipe after a blank line may be the header of a
/// table: `possible_table` is set, `possible_table_start` is the byte offset
/// of that pipe and `table_index` the number of tokens emitted before it. The
/// table is confirmed, and `in_table` set, when the next line is a valid
/// alignment row.
#[derive(Debug, PartialEq, Eq, Clone, Copy, Structural)]
pub struct State {
    pub possible_table_start: usize,
    pub possible_table: bool,
    pub in_table: bool,
    pub table_index: usize,
}

impl State {
    /// The state outside any table.
    pub open spec fn outside() -> State {
        State { possible_table_start: 0, possible_table: false, in_table: false, table_index: 0 }
    }

    /// The state outside any table.
    pub fn new() -> (s: State)
        ensures
            s == State::outside(),
    {
        State { possible_table_start: 0, possible_table: false, in_table: false, table_index: 0 }
    }
}

} // verus!
