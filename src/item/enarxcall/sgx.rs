//! Enarx calls of the SGX technology.
use vstd::prelude::*;

verus! {

/// The identifier of the SGX technology.
pub const TECH: usize = 2;

} // verus!
