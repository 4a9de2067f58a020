//! The guest's 32-bit address space: sparse spans of pages, each backed by
//! plain storage or by an I/O handler.

use vstd::prelude::*;
pub use crate::codec::Primitive;
pub use self::space::MemoryImpl;
pub use self::space::MemoryLookup;
pub use self::space::Memory;
pub use self::span::IOPage;
pub use self::span::PageSpan;
pub use self::span::PageSpanKind;

pub mod laws;
pub mod model;
pub mod space;
pub mod span;

verus! {

/// The number of address bits inside a page.
pub const PAGE_BITS: u32 = 12;

/// The number of bytes in a page.
pub const PAGE_SIZE: usize = 4096;

/// The address bits that select a byte inside its page.
pub const PAGE_LOWER_MASK: u32 = 0xFFF;

/// The address bits that select the page.
pub const PAGE_UPPER_MASK: u32 = 0xFFFF_F000;

} // verus!
