//! The alternatives of an expected version.

use crate::proto::Empty;
use vstd::prelude::*;

verus! {

/// How the version of a stream is constrained.
#[derive(Debug, Clone, Copy, PartialEq, Eq, Structural)]
pub enum Kind {
    /// Any version will do.
    Any(Empty),
    /// The stream must be at exactly this version.
    Exact(u64),
}

} // verus!
