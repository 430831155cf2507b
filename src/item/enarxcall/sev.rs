//! Enarx calls of the SEV technology.
use vstd::prelude::*;

verus! {

/// The identifier of the SEV technology.
pub const TECH: usize = 1;

} // verus!
