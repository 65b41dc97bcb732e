//! A small just-in-time assembler for x86-64.
//!
//! Functions are built from abstract operations on logical registers,
//! laid out at byte offsets in declaration order, and encoded into the
//! architecture's variable-length instruction format.  The resulting
//! byte buffer can be loaded into a memory region and made executable.

pub mod jit;
pub mod program;
pub mod region;
pub mod x86_64;
