//! Which of the four kinds of emphasis are open.
use vstd::prelude::*;

verus! {

/// One kind of emphasis, and whether it is open.
#[derive(Debug, PartialEq, Eq, Clone, Copy, Structural)]
pub enum Tag {
    Italic(bool),
    Bold(bool),
    Strike(bool),
    Underline(bool),
}

/// The four toggles of emphasis. Each is open from its opening delimiter to
/// its closing one.
#[derive(Debug, PartialEq, Eq, Clone, Copy, Structural)]
pub struct State {
    pub italic: Tag,
    pub bold: Tag,
    pub strike: Tag,
    pub underline: Tag,
}

impl State {
    /// The state in which no emphasis is open.
    pub open spec fn closed() -> State {
        State {
            italic: Tag::Italic(false),
            bold: Tag::Bold(false),
            strike: Tag::Strike(false),
            underline: Tag::Underline(false),
        }
    }

    /// The state in which no emphasis is open.
    pub fn new() -> (s: State)
        ensures
            s == State::closed(),
    {
        State {
            italic: Tag::Italic(false),
            bold: Tag::Bold(false),
            strike: Tag::Strike(false),
            underline: Tag::Underline(false),
        }
    }
}

} // verus!
