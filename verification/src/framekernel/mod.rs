//! The framework layer of the framekernel: the kernel heap every other
//! service allocates from.
pub mod ostd;

pub use ostd::OSTD;
