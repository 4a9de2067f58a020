//! The failures that the emulator's host side can report.

use vstd::prelude::*;

verus! {

/// A violation of the host side's own integrity. The execution engine has no
/// way to resume after one, so whoever receives it must stop the run.
#[derive(Clone, Copy, Debug, PartialEq, Eq, Structural)]
pub enum Error {
    /// No span contains the address.
    UnmappedAccess,
    /// An I/O handler or a coprocessor was entered while it was already in use.
    ReentrantAccess,
    /// A new span would share a page with an existing one.
    OverlapMapping,
    /// A supervisor call or an exception arrived and nothing handles it.
    MissingHandler,
}

} // verus!
