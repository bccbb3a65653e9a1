//! How a screen of the user interface ends.

use vstd::prelude::*;

verus! {

/// Says that the program is to end, and that nothing went wrong.
#[derive(Clone, Copy, PartialEq, Eq, Structural, Debug)]
pub struct ExitSignal;

/// What a screen says of itself after each key.
#[derive(Clone, Copy, PartialEq, Eq, Structural, Debug)]
pub enum Status {
    /// The screen is finished, and what it holds is to be used.
    Done,
    /// The screen is finished, and what it holds is to be dropped.
    Cancelled,
    /// The screen goes on.
    Running,
}

} // verus!
