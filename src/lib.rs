//! A shared-memory request/response channel through which a guest without
//! its own kernel proxies Linux system calls to its host.
//!
//! The guest stages calls into a block of memory, commits their inputs,
//! lets the host run them, and collects the results; the host walks the
//! block, validates every offset that the guest put there, and runs the
//! calls.
use vstd::prelude::*;

pub mod boot;
pub mod guest;
pub mod host;
pub mod item;
pub mod libc;

verus! {

/// An `errno` value.
pub type Error = i32;

/// The result of a call: a value or an `errno`.
pub type Result<T> = core::result::Result<T, Error>;

/// The offset that stands for a null pointer in an argument vector.
pub const NULL: usize = 0;

} // verus!
