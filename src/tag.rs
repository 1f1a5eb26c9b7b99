//! Taint segments reported for a condition.
use vstd::prelude::*;

verus! {

/// A byte range `[begin, end)` of the input that may affect a condition,
/// with the signedness the taint pass gave it.
#[derive(Debug, Clone, Copy, PartialEq, Eq, Hash, Default)]
pub struct TagSeg {
    pub sign: bool,
    pub begin: u32,
    pub end: u32,
}

} // verus!
