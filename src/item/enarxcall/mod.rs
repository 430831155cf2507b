//! Items of the reserved enarx-call kind, which has no numbers yet.
use vstd::prelude::*;

pub mod sev;
pub mod sgx;

use crate::libc::EINVAL;
use crate::{Error, Result};

verus! {

/// `get_attestation` syscall number used by the shim.
pub const SYS_GETATT: i64 = 0xEA01;

/// Number of an enarx-call item. None is assigned yet, so no value of this
/// type can be made.
#[derive(Clone, Copy, Debug, PartialEq, Eq)]
pub struct Number {
    code: u64,
}

impl Number {
    /// Decodes a number: as none is assigned, every word is `EINVAL`.
    pub fn try_from(num: u64) -> (r: Result<Number>)
        ensures
            r == Err::<Number, Error>(EINVAL),
    {
        Err(EINVAL)
    }
}

/// Payload of an enarx-call item.
#[derive(Clone, Copy, Debug, PartialEq, Eq)]
pub struct Payload {
    pub num: Number,
    pub argv: [u64; 4],
    pub ret: u64,
}

/// Words in an enarx-call payload.
pub const USIZE_COUNT: usize = 6;

} // verus!
