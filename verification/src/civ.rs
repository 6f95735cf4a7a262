use vstd::prelude::*;

verus! {

/// One civilization record: a name, a leader, and a list of bias tags.
/// Records are immutable once loaded; the allocator only moves them
/// between collections, never changes their contents.
#[derive(Debug, Clone, PartialEq)]
pub struct Civ {
    pub name: String,
    pub leader: String,
    pub bias: Vec<String>,
}

} // verus!
