//! What a temporary buffer answers when it is handed a keystroke.

use vstd::prelude::*;

verus! {

/// The outcome of handing one keystroke to a temporary buffer.
#[derive(Debug, Clone, Copy, PartialEq, Eq, Structural)]
pub enum EnumAddResult {
    /// The buffer took the keystroke and has room for more.
    Added,
    /// The buffer took the keystroke and is now full: it has to be written
    /// to the piece table before the next one.
    MustPersist,
    /// The buffer took nothing and is as it was.
    NoChange,
}

} // verus!
