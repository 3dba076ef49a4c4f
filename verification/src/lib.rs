//! Resolution of exception-unwinding actions from compiler-emitted exception
//! metadata (GCC-style Language-Specific Data Areas).
//!
//! Given a suspended instruction pointer inside a function and the function's
//! LSDA bytes, the resolver decides whether the unwinder must run a cleanup
//! routine, transfer control to a catching handler, do nothing, or treat the
//! frame as non-unwindable.
//!
//! The LSDA is modelled as a byte buffer together with the address at which it
//! lives: every memory access the resolver makes, including the one extra load
//! for indirect encodings, is resolved inside that buffer, and multi-byte
//! values are read little-endian with a fixed address width of eight bytes.

#![allow(non_upper_case_globals)]

pub mod dwarf;
pub mod eh;
pub mod meth;
pub mod targets;
