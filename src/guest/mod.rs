//! The guest side: stages calls into a block, commits them, and collects
//! what the host wrote back.
pub mod staging;
pub mod syscall;
pub mod stub;
pub mod handler;
