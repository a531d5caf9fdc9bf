use vstd::prelude::*;

verus! {

/// A diagnostic: a message and the source range it is about.
#[derive(Debug)]
pub struct Error {
    pub message: String,
    pub range: std::ops::Range<usize>,
}

} // verus!
