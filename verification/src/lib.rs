//! Core of a Z-machine interpreter: a runtime for the bytecode format used
//! by interactive-fiction story files (versions 3 through 8).
//!
//! The host hands the runtime a story image and a display sink; the runtime
//! decodes and dispatches instructions until one requires user I/O or
//! persistence, then yields a typed event and pauses.

pub mod buffer;
pub mod frame;
pub mod instruction;
pub mod options;
pub mod quetzal;
pub mod rng;
pub mod traits;
pub mod zmachine;
pub mod zscii;
pub mod zstring;

use vstd::prelude::*;

verus! {

/// Structured failures surfaced to the host.
///
/// `UnsupportedVersion` and `MalformedImage` are fatal at boot; most of the
/// rest are fatal at run time. `SaveMismatch` is recoverable locally: the
/// restore opcode fails and execution continues with the old state intact.
#[derive(Clone, Copy, Debug, PartialEq, Eq, Structural)]
pub enum ZmachineError {
    UnsupportedVersion,
    MalformedImage,
    BadAddress,
    StackUnderflow,
    AttributeRange,
    UnknownOpcode,
    RecursiveAbbreviation,
    SaveMismatch,
}

} // verus!
