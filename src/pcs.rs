//! The three revisions that take part in a merge.

use vstd::prelude::*;

verus! {

/// One of the three versions of a file taking part in a merge.
#[derive(Debug, Clone, Copy, PartialEq, Eq, Structural)]
pub enum Revision {
    Base,
    Left,
    Right,
}

} // verus!
