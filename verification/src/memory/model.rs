//! The mathematical model of the address space.
//!
//! An address space is a map from the first page of each span to what the
//! span holds. The spans of a well-formed space are pairwise disjoint, so a
//! page lies in at most one of them, and an address is served by the span
//! that covers its page.

use vstd::prelude::*;
use crate::codec::natural_width;
use crate::codec::decoded;
use crate::codec::Primitive;
use crate::error::Error;
use crate::memory::span::IOPage;

verus! {

/// What stands behind a span: the bytes of plain storage, or the slot of an
/// I/O handler, which is empty while the handler is in use elsewhere.
pub enum Backing {
    Bytes(Seq<u8>),
    Io(Option<Box<dyn IOPage>>),
}

/// The mathematical content of a span.
pub struct SpanView {
    /// The length of the span in pages.
    pub pages: nat,
    /// The advisory flag that the span was registered with.
    pub read_only: bool,
    pub backing: Backing,
}

impl SpanView {
    /// A span has at least one page, and plain storage has one byte for each
    /// address of the span.
    pub open spec fn wf(self) -> bool {
        &&& 1 <= self.pages <= u32::MAX
        &&& self.backing matches Backing::Bytes(bytes) ==> bytes.len() == self.pages * 4096
    }
}

/// A span of plain storage in which every byte is zero.
pub open spec fn zeroed_span(pages: nat, read_only: bool) -> SpanView {
    SpanView { pages, read_only, backing: Backing::Bytes(Seq::new(pages * 4096, |i: int| 0u8)) }
}

/// The page that holds the address.
pub open spec fn page_of(addr: u32) -> int {
    addr as int / 4096
}

/// The place of the address inside its page.
pub open spec fn page_offset(addr: u32) -> int {
    addr as int % 4096
}

/// The offset with the bits of the alignment mask cleared.
pub open spec fn align_down(offset: usize, mask: usize) -> usize {
    offset & !mask
}

/// Whether `size` bytes at `offset` lie inside storage of `len` bytes.
pub open spec fn window_fits(offset: int, size: int, len: int) -> bool {
    0 <= offset && offset + size <= len
}

/// The bytes with `data` written over them from `offset` on.
pub open spec fn overwrite(bytes: Seq<u8>, offset: int, data: Seq<u8>) -> Seq<u8> {
    bytes.subrange(0, offset) + data + bytes.subrange(offset + data.len(), bytes.len() as int)
}

/// Whether the span that starts at page `start` contains `page`.
pub open spec fn covers(m: Map<int, SpanView>, start: int, page: int) -> bool {
    m.dom().contains(start) && start <= page < start + m[start].pages
}

/// Whether some span contains `page`.
pub open spec fn mapped(m: Map<int, SpanView>, page: int) -> bool {
    exists|start: int| covers(m, start, page)
}

/// The first page of the span that contains `page`, where there is one.
pub open spec fn base_of(m: Map<int, SpanView>, page: int) -> int {
    choose|start: int| covers(m, start, page)
}

/// Whether a span of `pages` pages from page `start` on would share a page
/// with a span of `m`.
pub open spec fn overlaps(m: Map<int, SpanView>, start: int, pages: int) -> bool {
    exists|page: int| start <= page < start + pages && mapped(m, page)
}

/// The invariant of an address space: every span is well formed and starts
/// at a page of the 32-bit address space, and no page lies in two spans.
pub open spec fn well_formed(m: Map<int, SpanView>) -> bool {
    &&& forall|start: int| #[trigger]
        m.dom().contains(start) ==> 0 <= start <= u32::MAX && m[start].wf()
    &&& forall|a: int, b: int, page: int|
        covers(m, a, page) && covers(m, b, page) ==> a == b
}

/// The distance in bytes from the start of the span that serves `addr`.
pub open spec fn span_offset(m: Map<int, SpanView>, addr: u32) -> int {
    (page_of(addr) - base_of(m, page_of(addr))) * 4096 + page_offset(addr)
}

/// The offset inside the span at which an access to `addr` takes place: the
/// distance from the span's start with the bits of the alignment mask
/// cleared.
pub open spec fn byte_offset(m: Map<int, SpanView>, addr: u32, mask: usize) -> usize {
    align_down(span_offset(m, addr) as usize, mask)
}

/// The span that serves `addr`.
pub open spec fn span_of(m: Map<int, SpanView>, addr: u32) -> SpanView {
    m[base_of(m, page_of(addr))]
}

/// The `size` bytes that plain storage holds at `addr`, aligned by `mask`.
pub open spec fn stored_bytes(m: Map<int, SpanView>, addr: u32, size: usize, mask: usize) -> Seq<
    u8,
> {
    let at = byte_offset(m, addr, mask) as int;
    span_of(m, addr).backing->Bytes_0.subrange(at, at + size)
}

/// The address space after `data` was written to plain storage at `addr`,
/// aligned by `mask`.
pub open spec fn store_bytes(m: Map<int, SpanView>, addr: u32, mask: usize, data: Seq<u8>) -> Map<
    int,
    SpanView,
> {
    let span = span_of(m, addr);
    let at = byte_offset(m, addr, mask) as int;
    m.insert(
        base_of(m, page_of(addr)),
        SpanView {
            pages: span.pages,
            read_only: span.read_only,
            backing: Backing::Bytes(overwrite(span.backing->Bytes_0, at, data)),
        },
    )
}

/// Whether `after` is `m` with nothing changed but the state of the handler
/// of the I/O span that starts at `base`, which is in its slot.
pub open spec fn handler_kept(m: Map<int, SpanView>, base: int, after: Map<int, SpanView>) -> bool {
    &&& after == m.insert(base, after[base])
    &&& after[base].pages == m[base].pages
    &&& after[base].read_only == m[base].read_only
    &&& after[base].backing matches Backing::Io(Some(_))
}

/// What a read of `size` bytes at `addr`, aligned by `mask`, does to the
/// address space `m`: the space afterwards, and the bytes read.
///
/// Outside every span the read fails with `UnmappedAccess`. Plain storage
/// yields the bytes stored at the aligned address. An I/O span with an empty
/// handler slot fails with `ReentrantAccess`. Otherwise the handler is asked
/// for `size` bytes at the aligned offset into its span and the result is
/// what it gave; the handler stays in its slot and nothing else changes.
pub open spec fn read_bytes(
    m: Map<int, SpanView>,
    addr: u32,
    size: usize,
    mask: usize,
    after: Map<int, SpanView>,
    r: Result<Seq<u8>, Error>,
) -> bool {
    let base = base_of(m, page_of(addr));
    if !mapped(m, page_of(addr)) {
        after == m && r == Err::<Seq<u8>, Error>(Error::UnmappedAccess)
    } else {
        match m[base].backing {
            Backing::Bytes(_) => after == m && r == Ok::<Seq<u8>, Error>(
                stored_bytes(m, addr, size, mask),
            ),
            Backing::Io(None) => after == m && r == Err::<Seq<u8>, Error>(Error::ReentrantAccess),
            Backing::Io(Some(h)) => {
                &&& handler_kept(m, base, after)
                &&& r matches Ok(data)
                &&& data.len() == size
                &&& h.may_read(byte_offset(m, addr, mask), data)
            },
        }
    }
}

/// What a write of `data` at `addr`, aligned by `mask`, does to the address
/// space `m`: the space afterwards, and the result.
///
/// Outside every span the write fails with `UnmappedAccess`. Plain storage
/// takes the bytes at the aligned address, whatever the span's read-only
/// flag says. An I/O span with an empty handler slot fails with
/// `ReentrantAccess`. Otherwise the handler is handed the bytes and the
/// aligned offset into its span; it stays in its slot and nothing else
/// changes.
pub open spec fn write_bytes(
    m: Map<int, SpanView>,
    addr: u32,
    mask: usize,
    data: Seq<u8>,
    after: Map<int, SpanView>,
    r: Result<(), Error>,
) -> bool {
    let base = base_of(m, page_of(addr));
    if !mapped(m, page_of(addr)) {
        after == m && r == Err::<(), Error>(Error::UnmappedAccess)
    } else {
        match m[base].backing {
            Backing::Bytes(_) => after == store_bytes(m, addr, mask, data) && r == Ok::<(), Error>(
                (),
            ),
            Backing::Io(None) => after == m && r == Err::<(), Error>(Error::ReentrantAccess),
            Backing::Io(Some(_)) => {
                &&& r == Ok::<(), Error>(())
                &&& handler_kept(m, base, after)
                &&& after[base].backing matches Backing::Io(Some(h))
                &&& h.may_follow_write(byte_offset(m, addr, mask), data)
            },
        }
    }
}

/// The value of type `T` that plain storage holds at `addr`, rounded down
/// to the alignment of `T`.
pub open spec fn stored<T: Primitive>(m: Map<int, SpanView>, addr: u32) -> T {
    T::decode(stored_bytes(m, addr, T::SIZE, T::ALIGN))
}

/// The address space after `value` was written to plain storage at `addr`,
/// rounded down to the alignment of `T`.
pub open spec fn store<T: Primitive>(m: Map<int, SpanView>, addr: u32, value: T) -> Map<
    int,
    SpanView,
> {
    store_bytes(m, addr, T::ALIGN, value.encode())
}

/// What a read of a `T` at `addr` does to the address space `m`: what the
/// read of the `T::SIZE` bytes at the address, rounded down to the alignment
/// of `T`, does, with the bytes decoded.
pub open spec fn read_result<T: Primitive>(
    m: Map<int, SpanView>,
    addr: u32,
    after: Map<int, SpanView>,
    r: Result<T, Error>,
) -> bool {
    exists|bytes: Result<Seq<u8>, Error>| #[trigger]
        read_bytes(m, addr, T::SIZE, T::ALIGN, after, bytes) && r == decoded::<T>(bytes)
}

/// What a write of `value` at `addr` does to the address space `m`: what the
/// write of the value's encoding at the address, rounded down to the
/// alignment of `T`, does.
pub open spec fn write_result<T: Primitive>(
    m: Map<int, SpanView>,
    addr: u32,
    value: T,
    after: Map<int, SpanView>,
    r: Result<(), Error>,
) -> bool {
    write_bytes(m, addr, T::ALIGN, value.encode(), after, r)
}

/// The answer to the question whether `addr` is read-only: the flag that the
/// span of the address was registered with, or `UnmappedAccess` outside
/// every span.
pub open spec fn flag_result(m: Map<int, SpanView>, addr: u32) -> Result<bool, Error> {
    if mapped(m, page_of(addr)) {
        Ok(span_of(m, addr).read_only)
    } else {
        Err(Error::UnmappedAccess)
    }
}

/// What registering `span` at `addr` does to the address space `m`: the
/// space afterwards, and the result.
///
/// A span without pages registers nothing. A span that would share a page
/// with one of `m` is refused with `OverlapMapping` and `m` stays as it is.
/// Any other span is added under the page of `addr`.
pub open spec fn map_outcome(
    m: Map<int, SpanView>,
    addr: u32,
    span: SpanView,
    after: Map<int, SpanView>,
    r: Result<(), Error>,
) -> bool {
    if span.pages == 0 {
        r == Ok::<(), Error>(()) && after == m
    } else if overlaps(m, page_of(addr), span.pages as int) {
        r == Err::<(), Error>(Error::OverlapMapping) && after == m
    } else {
        r == Ok::<(), Error>(()) && after == m.insert(page_of(addr), span)
    }
}

/// In a well-formed space the span that covers a page is the one that
/// `base_of` names.
pub proof fn lemma_base_of(m: Map<int, SpanView>, start: int, page: int)
    requires
        well_formed(m),
        covers(m, start, page),
    ensures
        mapped(m, page),
        base_of(m, page) == start,
{
    assert(covers(m, base_of(m, page), page));
}

/// The page number and the place inside the page, as the bit operations on
/// an address compute them.
pub proof fn lemma_address_split(addr: u32)
    ensures
        (addr & 0xFFFF_F000u32) >> 12u32 == page_of(addr),
        (addr & !0xFFFu32) >> 12u32 == page_of(addr),
        addr >> 12u32 == page_of(addr),
        addr & 0xFFFu32 == page_offset(addr),
        page_of(addr) < 0x10_0000,
{
    assert((addr & 0xFFFF_F000u32) >> 12u32 == addr / 4096 && (addr & !0xFFFu32) >> 12u32 == addr
        / 4096 && addr >> 12u32 == addr / 4096 && addr & 0xFFFu32 == addr % 4096 && addr / 4096
        < 0x10_0000) by (bit_vector);
}

/// An aligned access of a natural width stays inside the page it starts in:
/// rounding down keeps the page, and the access ends no later than the page.
pub proof fn lemma_align_down_in_page(offset: usize, size: usize)
    requires
        natural_width(size),
    ensures
        align_down(offset, (size - 1) as usize) <= offset,
        align_down(offset, (size - 1) as usize) / 4096 == offset / 4096,
        align_down(offset, (size - 1) as usize) % 4096 + size <= 4096,
{
    let mask: usize = (size - 1) as usize;
    assert((offset & !mask) <= offset && (offset & !mask) / 4096 == offset / 4096 && (offset
        & !mask) % 4096 + size <= 4096) by (bit_vector)
        requires
            1 <= size <= 4096,
            size & mask == 0,
            mask == (size - 1) as usize,
    ;
}

/// An aligned access of a natural width that starts inside storage of whole
/// pages lies inside it.
pub proof fn lemma_window_fits(offset: usize, size: usize, pages: nat)
    requires
        natural_width(size),
        offset < pages * 4096,
    ensures
        window_fits(
            align_down(offset, (size - 1) as usize) as int,
            size as int,
            (pages * 4096) as int,
        ),
{
    lemma_align_down_in_page(offset, size);
    let at = align_down(offset, (size - 1) as usize) as int;
    assert(at / 4096 < pages);
    assert(at == (at / 4096) * 4096 + at % 4096);
}

} // verus!
