//! The host side of a binary-translating emulator for a 32-bit guest.
//!
//! The execution engine runs the guest's code and calls back into the host
//! for everything else. This library is what the host answers with:
//!
//! - `codec`: the little-endian encoding of the values that the guest moves;
//! - `memory`: the guest's address space, made of spans of pages that are
//!   backed by plain storage or by I/O handlers;
//! - `jit`: the engine's registers and control words, as a callback or the
//!   host sees them;
//! - `bridge`: the answers to the engine's callbacks, and the tick budget of
//!   a run;
//! - `coproc`: coprocessors as capability objects of the host;
//! - `error`: the failures that end a run.
//!
//! The library decides and computes; it holds no engine. Whoever links the
//! engine routes its callbacks to a `Context` and stops the run when an
//! answer is an `Err`.

pub mod bridge;
pub mod codec;
pub mod coproc;
pub mod error;
pub mod jit;
pub mod memory;

pub use crate::bridge::Context;
pub use crate::bridge::Exception;
pub use crate::bridge::Handlers;
pub use crate::jit::JitContext;
