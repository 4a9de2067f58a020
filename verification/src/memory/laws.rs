//! What holds of every well-formed address space.

use vstd::prelude::*;
use crate::codec::decoded;
use crate::codec::natural_width;
use crate::codec::Primitive;
use crate::error::Error;
use crate::memory::model::byte_offset;
use crate::memory::model::read_bytes;
use crate::memory::model::write_bytes;
use crate::memory::model::stored_bytes;
use crate::memory::model::store_bytes;
use crate::memory::model::base_of;
use crate::memory::model::covers;
use crate::memory::model::flag_result;
use crate::memory::model::lemma_address_split;
use crate::memory::model::lemma_base_of;
use crate::memory::model::lemma_window_fits;
use crate::memory::model::map_outcome;
use crate::memory::model::mapped;
use crate::memory::model::overlaps;
use crate::memory::model::overwrite;
use crate::memory::model::page_of;
use crate::memory::model::page_offset;
use crate::memory::model::read_result;
use crate::memory::model::span_of;
use crate::memory::model::span_offset;
use crate::memory::model::store;
use crate::memory::model::stored;
use crate::memory::model::well_formed;
use crate::memory::model::write_result;
use crate::memory::model::SpanView;

verus! {

/// Registering a span keeps the address space well formed and maps exactly
/// the pages of the new span in addition to those mapped before. The pages
/// of the new span belong to it, and every other page keeps its span.
pub proof fn lemma_map_pages(
    m: Map<int, SpanView>,
    addr: u32,
    span: SpanView,
    after: Map<int, SpanView>,
    page: int,
)
    requires
        well_formed(m),
        span.wf(),
        map_outcome(m, addr, span, after, Ok(())),
    ensures
        well_formed(after),
        mapped(after, page) <==> mapped(m, page) || page_of(addr) <= page < page_of(addr)
            + span.pages,
        page_of(addr) <= page < page_of(addr) + span.pages ==> base_of(after, page) == page_of(
            addr,
        ) && after[base_of(after, page)] == span,
        mapped(m, page) ==> base_of(after, page) == base_of(m, page) && after[base_of(after, page)]
            == m[base_of(m, page)],
{
    let start = page_of(addr);
    lemma_address_split(addr);
    assert(!overlaps(m, start, span.pages as int));
    assert(after == m.insert(start, span));
    assert forall|k: int| #[trigger] m.dom().contains(k) implies k != start by {
        if k == start {
            assert(covers(m, start, start));
            assert(mapped(m, start));
        }
    }
    assert forall|a: int, q: int| covers(m, a, q) implies covers(after, a, q) by {}
    assert forall|a: int, q: int| covers(after, a, q) implies (covers(m, a, q) || (a == start
        && start <= q < start + span.pages)) by {}
    assert forall|a: int, b: int, q: int| covers(after, a, q) && covers(after, b, q) implies a
        == b by {
        if a == start && b != start {
            assert(covers(m, b, q));
            assert(mapped(m, q));
        }
        if b == start && a != start {
            assert(covers(m, a, q));
            assert(mapped(m, q));
        }
    }
    assert(well_formed(after));
    if start <= page < start + span.pages {
        assert(covers(after, start, page));
        lemma_base_of(after, start, page);
    }
    if mapped(m, page) {
        let b = base_of(m, page);
        assert(covers(m, b, page));
        assert(covers(after, b, page));
        lemma_base_of(after, b, page);
    }
    if mapped(after, page) {
        let b = base_of(after, page);
        assert(covers(after, b, page));
        if !(start <= page < start + span.pages) {
            assert(covers(m, b, page));
        }
    }
}

/// After a span of `span.pages` pages was registered at `addr`, an address
/// is mapped exactly if it was mapped before or lies among the
/// `span.pages * 4096` addresses that start with the first address of the
/// page of `addr`. Where `addr` is the first address of its page, these are
/// the addresses from `addr` up to `addr + span.pages * 4096`.
pub proof fn lemma_map_addresses(
    m: Map<int, SpanView>,
    addr: u32,
    span: SpanView,
    after: Map<int, SpanView>,
    a: u32,
)
    requires
        well_formed(m),
        span.wf(),
        map_outcome(m, addr, span, after, Ok(())),
    ensures
        mapped(after, page_of(a)) <==> mapped(m, page_of(a)) || page_of(addr) * 4096 <= a
            < page_of(addr) * 4096 + span.pages * 4096,
        page_offset(addr) == 0 ==> page_of(addr) * 4096 == addr,
{
    lemma_map_pages(m, addr, span, after, page_of(a));
}

/// A registered span answers the question for the read-only flag with the
/// flag it was registered with, at each of its addresses, and every other
/// address is answered as before.
pub proof fn lemma_map_read_only(
    m: Map<int, SpanView>,
    addr: u32,
    span: SpanView,
    after: Map<int, SpanView>,
    a: u32,
)
    requires
        well_formed(m),
        span.wf(),
        map_outcome(m, addr, span, after, Ok(())),
    ensures
        flag_result(after, a) == if page_of(addr) <= page_of(a) < page_of(addr) + span.pages {
            Ok::<bool, Error>(span.read_only)
        } else {
            flag_result(m, a)
        },
{
    lemma_map_pages(m, addr, span, after, page_of(a));
}

/// No read and no write changes which addresses are mapped or the answer to
/// the question for the read-only flag of an address, and each leaves the
/// address space well formed.
pub proof fn lemma_access_keeps_flags<T: Primitive>(
    m: Map<int, SpanView>,
    addr: u32,
    value: T,
    after: Map<int, SpanView>,
    r: Result<T, Error>,
    w: Result<(), Error>,
    a: u32,
)
    requires
        well_formed(m),
        read_result::<T>(m, addr, after, r) || write_result::<T>(m, addr, value, after, w),
    ensures
        well_formed(after),
        mapped(after, page_of(a)) <==> mapped(m, page_of(a)),
        flag_result(after, a) == flag_result(m, a),
{
    if mapped(m, page_of(addr)) {
        let base = base_of(m, page_of(addr));
        assert(covers(m, base, page_of(addr)));
        if m[base].backing is Bytes {
            if write_result::<T>(m, addr, value, after, w) {
                lemma_store_frame::<T>(m, addr, value, page_of(a));
            }
        } else {
            assert(after.dom() =~= m.dom());
            assert forall|k: int| #[trigger] after.dom().contains(k) implies after[k].pages
                == m[k].pages && after[k].read_only == m[k].read_only && after[k].wf() by {}
            assert forall|p: int, q: int| covers(after, p, q) <==> covers(m, p, q) by {}
            if mapped(m, page_of(a)) {
                let b = base_of(m, page_of(a));
                assert(covers(m, b, page_of(a)));
                assert(covers(after, b, page_of(a)));
                lemma_base_of(after, b, page_of(a));
            }
            if mapped(after, page_of(a)) {
                let b = base_of(after, page_of(a));
                assert(covers(after, b, page_of(a)));
                assert(covers(m, b, page_of(a)));
            }
        }
    }
}

/// An access outside every span fails with `UnmappedAccess` and changes
/// nothing, and no other access fails so.
pub proof fn lemma_unmapped_access<T: Primitive>(
    m: Map<int, SpanView>,
    addr: u32,
    value: T,
    after: Map<int, SpanView>,
    r: Result<T, Error>,
    w: Result<(), Error>,
)
    ensures
        read_result::<T>(m, addr, after, r) ==> (r == Err::<T, Error>(Error::UnmappedAccess)
            <==> !mapped(m, page_of(addr))),
        write_result::<T>(m, addr, value, after, w) ==> (w == Err::<(), Error>(
            Error::UnmappedAccess,
        ) <==> !mapped(m, page_of(addr))),
        !mapped(m, page_of(addr)) && (read_result::<T>(m, addr, after, r) || write_result::<T>(
            m,
            addr,
            value,
            after,
            w,
        )) ==> after == m,
{
}

/// A read of plain storage changes nothing and returns the value stored.
pub proof fn lemma_read_plain<T: Primitive>(
    m: Map<int, SpanView>,
    addr: u32,
    after: Map<int, SpanView>,
    r: Result<T, Error>,
)
    requires
        mapped(m, page_of(addr)),
        span_of(m, addr).backing is Bytes,
        read_result::<T>(m, addr, after, r),
    ensures
        r == Ok::<T, Error>(stored::<T>(m, addr)),
        after == m,
{
}

/// Storing a value keeps the address space well formed, changes no span's
/// place, length or flag, and leaves every plain span but the one written to
/// as it was.
pub proof fn lemma_store_frame<T: Primitive>(
    m: Map<int, SpanView>,
    addr: u32,
    value: T,
    page: int,
)
    requires
        well_formed(m),
        mapped(m, page_of(addr)),
        span_of(m, addr).backing is Bytes,
    ensures
        well_formed(store::<T>(m, addr, value)),
        mapped(store::<T>(m, addr, value), page) <==> mapped(m, page),
        mapped(m, page) ==> {
            let after = store::<T>(m, addr, value);
            &&& base_of(after, page) == base_of(m, page)
            &&& after[base_of(m, page)].pages == m[base_of(m, page)].pages
            &&& after[base_of(m, page)].read_only == m[base_of(m, page)].read_only
            &&& after[base_of(m, page)].backing is Bytes <==> m[base_of(m, page)].backing is Bytes
            &&& base_of(m, page) != base_of(m, page_of(addr)) ==> after[base_of(m, page)]
                == m[base_of(m, page)]
        },
{
    let after = store::<T>(m, addr, value);
    let base = base_of(m, page_of(addr));
    let span = m[base];
    assert(covers(m, base, page_of(addr)));
    lemma_address_split(addr);
    T::lemma_width();
    value.lemma_decode_encode();
    lemma_window_fits(span_offset(m, addr) as usize, T::SIZE, span.pages);
    assert(after[base].wf());
    assert forall|a: int, q: int| covers(after, a, q) <==> covers(m, a, q) by {}
    assert(well_formed(after));
    if mapped(m, page) {
        let b = base_of(m, page);
        assert(covers(m, b, page));
        assert(covers(after, b, page));
        lemma_base_of(after, b, page);
    }
    if mapped(after, page) {
        let b = base_of(after, page);
        assert(covers(after, b, page));
        assert(covers(m, b, page));
    }
}

/// A value written to plain storage is the value read back from the same
/// address with the same type.
pub proof fn lemma_store_then_stored<T: Primitive>(m: Map<int, SpanView>, addr: u32, value: T)
    requires
        well_formed(m),
        mapped(m, page_of(addr)),
        span_of(m, addr).backing is Bytes,
    ensures
        stored::<T>(store::<T>(m, addr, value), addr) == value,
{
    let after = store::<T>(m, addr, value);
    let base = base_of(m, page_of(addr));
    let span = m[base];
    lemma_store_frame::<T>(m, addr, value, page_of(addr));
    assert(covers(m, base, page_of(addr)));
    lemma_address_split(addr);
    T::lemma_width();
    value.lemma_decode_encode();
    lemma_window_fits(span_offset(m, addr) as usize, T::SIZE, span.pages);
    let at = byte_offset(m, addr, T::ALIGN) as int;
    assert(byte_offset(after, addr, T::ALIGN) == at);
    let bytes = span.backing->Bytes_0;
    assert(overwrite(bytes, at, value.encode()).subrange(at, at + T::SIZE) =~= value.encode());
}

/// A write to plain storage followed by a read of the same type at the same
/// address returns the value written, whatever the span's read-only flag.
pub proof fn lemma_write_then_read<T: Primitive>(
    m: Map<int, SpanView>,
    addr: u32,
    value: T,
    written: Map<int, SpanView>,
    w: Result<(), Error>,
    after: Map<int, SpanView>,
    r: Result<T, Error>,
)
    requires
        well_formed(m),
        mapped(m, page_of(addr)),
        span_of(m, addr).backing is Bytes,
        write_result::<T>(m, addr, value, written, w),
        read_result::<T>(written, addr, after, r),
    ensures
        w == Ok::<(), Error>(()),
        r == Ok::<T, Error>(value),
        after == written,
{
    lemma_store_frame::<T>(m, addr, value, page_of(addr));
    lemma_store_then_stored::<T>(m, addr, value);
    lemma_read_plain::<T>(written, addr, after, r);
}

/// The address with the bits below the width of `T` cleared.
pub open spec fn aligned<T: Primitive>(addr: u32) -> u32 {
    addr & !(T::ALIGN as u32)
}

/// An access at an address takes place where the access at the aligned
/// address does: in the same page, at the same offset into the span.
pub proof fn lemma_aligned_offset<T: Primitive>(m: Map<int, SpanView>, addr: u32)
    requires
        well_formed(m),
        mapped(m, page_of(addr)),
    ensures
        page_of(aligned::<T>(addr)) == page_of(addr),
        byte_offset(m, aligned::<T>(addr), T::ALIGN) == byte_offset(m, addr, T::ALIGN),
{
    T::lemma_width();
    lemma_address_split(addr);
    let low: u32 = aligned::<T>(addr);
    lemma_address_split(low);
    let mask: usize = T::ALIGN;
    let mask32: u32 = mask as u32;
    assert(mask <= 0xFFF);
    assert((addr & !mask32) / 4096 == addr / 4096) by (bit_vector)
        requires
            mask32 <= 0xFFF,
    ;
    let page = page_of(addr);
    let base = base_of(m, page);
    assert(covers(m, base, page));
    let whole: usize = ((page - base) * 4096) as usize;
    let lo: usize = page_offset(addr) as usize;
    let lo2: usize = page_offset(low) as usize;
    assert(lo2 == lo & !mask) by {
        let a = addr;
        assert((a & !mask32) % 4096 == (a % 4096) & !mask32) by (bit_vector)
            requires
                mask32 <= 0xFFF,
        ;
        let x: u32 = a % 4096;
        assert(x & !mask32 == (x as usize) & !mask) by (bit_vector)
            requires
                mask32 == mask as u32,
                mask <= 0xFFF,
                x <= 0xFFF,
        ;
    }
    assert(span_offset(m, addr) == whole + lo);
    assert(span_offset(m, low) == whole + lo2);
    assert(((whole + lo2) as usize) & !mask == ((whole + lo) as usize) & !mask) by (bit_vector)
        requires
            whole % 4096 == 0,
            whole <= 0xFFFF_F000,
            lo <= 0xFFF,
            mask <= 0xFFF,
            lo2 == lo & !mask,
    ;
}

/// An access at an address does what the access of the same type at the
/// aligned address does: every outcome of the one is an outcome of the other.
pub proof fn lemma_access_aligned<T: Primitive>(
    m: Map<int, SpanView>,
    addr: u32,
    value: T,
    after: Map<int, SpanView>,
    r: Result<T, Error>,
    w: Result<(), Error>,
)
    requires
        well_formed(m),
    ensures
        read_result::<T>(m, aligned::<T>(addr), after, r) <==> read_result::<T>(m, addr, after, r),
        write_result::<T>(m, aligned::<T>(addr), value, after, w) <==> write_result::<T>(
            m,
            addr,
            value,
            after,
            w,
        ),
{
    T::lemma_width();
    let low: u32 = aligned::<T>(addr);
    let mask32: u32 = T::ALIGN as u32;
    assert((addr & !mask32) / 4096 == addr / 4096) by (bit_vector)
        requires
            mask32 <= 0xFFF,
    ;
    assert(page_of(low) == page_of(addr));
    if mapped(m, page_of(addr)) {
        lemma_aligned_offset::<T>(m, addr);
    }
    assert forall|bytes: Result<Seq<u8>, Error>|
        read_bytes(m, low, T::SIZE, T::ALIGN, after, bytes) == read_bytes(
            m,
            addr,
            T::SIZE,
            T::ALIGN,
            after,
            bytes,
        ) by {}
}

/// After the first registration on an empty address space, an address is
/// mapped exactly if its page is one of the pages of the new span, whatever
/// the place of the address inside its page and of `addr` inside its own.
/// In addresses: exactly the `span.pages * 4096` addresses from the first
/// address of the page of `addr` on are mapped, which are the addresses from
/// `addr` on where `addr` is the first address of its page. Each of them
/// answers the question for the read-only flag with the flag of the span.
pub proof fn lemma_map_first(addr: u32, span: SpanView, after: Map<int, SpanView>, a: u32)
    requires
        span.wf(),
        map_outcome(Map::<int, SpanView>::empty(), addr, span, after, Ok(())),
    ensures
        well_formed(after),
        mapped(after, page_of(a)) <==> page_of(addr) <= page_of(a) < page_of(addr) + span.pages,
        mapped(after, page_of(a)) <==> page_of(addr) * 4096 <= a < page_of(addr) * 4096 + span.pages
            * 4096,
        page_offset(addr) == 0 ==> (mapped(after, page_of(a)) <==> addr <= a < addr + span.pages
            * 4096),
        flag_result(after, a) == if mapped(after, page_of(a)) {
            Ok::<bool, Error>(span.read_only)
        } else {
            Err::<bool, Error>(Error::UnmappedAccess)
        },
{
    let m = Map::<int, SpanView>::empty();
    assert(well_formed(m));
    assert(!mapped(m, page_of(a)));
    lemma_map_pages(m, addr, span, after, page_of(a));
    lemma_map_read_only(m, addr, span, after, a);
}

/// Storing bytes of a natural width keeps the address space well formed,
/// changes no span's place, length or flag, and leaves every span but the one
/// written to as it was.
pub proof fn lemma_store_bytes_frame(
    m: Map<int, SpanView>,
    addr: u32,
    size: usize,
    data: Seq<u8>,
    page: int,
)
    requires
        well_formed(m),
        mapped(m, page_of(addr)),
        span_of(m, addr).backing is Bytes,
        natural_width(size),
        data.len() == size,
    ensures
        well_formed(store_bytes(m, addr, (size - 1) as usize, data)),
        mapped(store_bytes(m, addr, (size - 1) as usize, data), page) <==> mapped(m, page),
        mapped(m, page) ==> {
            let after = store_bytes(m, addr, (size - 1) as usize, data);
            &&& base_of(after, page) == base_of(m, page)
            &&& after[base_of(m, page)].pages == m[base_of(m, page)].pages
            &&& after[base_of(m, page)].read_only == m[base_of(m, page)].read_only
            &&& after[base_of(m, page)].backing is Bytes <==> m[base_of(m, page)].backing is Bytes
            &&& base_of(m, page) != base_of(m, page_of(addr)) ==> after[base_of(m, page)]
                == m[base_of(m, page)]
        },
{
    let after = store_bytes(m, addr, (size - 1) as usize, data);
    let base = base_of(m, page_of(addr));
    let span = m[base];
    assert(covers(m, base, page_of(addr)));
    lemma_address_split(addr);
    lemma_window_fits(span_offset(m, addr) as usize, size, span.pages);
    assert(after[base].wf());
    assert forall|a: int, q: int| covers(after, a, q) <==> covers(m, a, q) by {}
    assert(well_formed(after));
    if mapped(m, page) {
        let b = base_of(m, page);
        assert(covers(m, b, page));
        assert(covers(after, b, page));
        lemma_base_of(after, b, page);
    }
    if mapped(after, page) {
        let b = base_of(after, page);
        assert(covers(after, b, page));
        assert(covers(m, b, page));
    }
}

/// Whether `after` is what one access of `size` bytes at `addr` may leave of
/// `m`: a read, or a write of `data`. The width is a natural one and the
/// access is aligned to it.
pub open spec fn is_access(
    m: Map<int, SpanView>,
    addr: u32,
    size: usize,
    data: Seq<u8>,
    after: Map<int, SpanView>,
) -> bool {
    let mask = (size - 1) as usize;
    &&& natural_width(size)
    &&& {
        ||| exists|r: Result<Seq<u8>, Error>| #[trigger] read_bytes(m, addr, size, mask, after, r)
        ||| data.len() == size && exists|w: Result<(), Error>| #[trigger]
            write_bytes(m, addr, mask, data, after, w)
    }
}

/// Whether `after` is what the registration of `span` at `addr` may leave of
/// `m`, be the span taken or refused.
pub open spec fn is_registration(
    m: Map<int, SpanView>,
    addr: u32,
    span: SpanView,
    after: Map<int, SpanView>,
) -> bool {
    &&& span.pages == 0 || span.wf()
    &&& exists|r: Result<(), Error>| #[trigger] map_outcome(m, addr, span, after, r)
}

/// Whether one operation of the address space may lead from `m` to `after`:
/// a read, a write or a registration.
pub open spec fn step(m: Map<int, SpanView>, after: Map<int, SpanView>) -> bool {
    ||| exists|addr: u32, size: usize, data: Seq<u8>| #[trigger] is_access(m, addr, size, data, after)
    ||| exists|addr: u32, span: SpanView| #[trigger] is_registration(m, addr, span, after)
}

/// Whether the states are those of an address space in the course of any
/// number of operations, from the first state to the last.
pub open spec fn history(states: Seq<Map<int, SpanView>>) -> bool {
    &&& states.len() >= 1
    &&& forall|i: int| 0 <= i < states.len() - 1 ==> step(#[trigger] states[i], states[i + 1])
}

/// Every read and every write of a primitive is an operation of the address
/// space, and so is every registration.
pub proof fn lemma_operations_are_steps<T: Primitive>(
    m: Map<int, SpanView>,
    addr: u32,
    value: T,
    span: SpanView,
    after: Map<int, SpanView>,
    r: Result<T, Error>,
    w: Result<(), Error>,
    o: Result<(), Error>,
)
    ensures
        read_result::<T>(m, addr, after, r) ==> step(m, after),
        write_result::<T>(m, addr, value, after, w) ==> step(m, after),
        (span.pages == 0 || span.wf()) && map_outcome(m, addr, span, after, o) ==> step(m, after),
{
    T::lemma_width();
    value.lemma_decode_encode();
    if read_result::<T>(m, addr, after, r) {
        let bytes = choose|bytes: Result<Seq<u8>, Error>| #[trigger]
            read_bytes(m, addr, T::SIZE, T::ALIGN, after, bytes) && r == decoded::<T>(bytes);
        assert(is_access(m, addr, T::SIZE, value.encode(), after));
    }
    if write_result::<T>(m, addr, value, after, w) {
        assert(write_bytes(m, addr, T::ALIGN, value.encode(), after, w));
        assert(is_access(m, addr, T::SIZE, value.encode(), after));
    }
    if (span.pages == 0 || span.wf()) && map_outcome(m, addr, span, after, o) {
        assert(is_registration(m, addr, span, after));
    }
}

/// No operation unmaps an address or changes the answer to the question for
/// its read-only flag, and each leaves the address space well formed.
pub proof fn lemma_step_keeps_flags(m: Map<int, SpanView>, after: Map<int, SpanView>, a: u32)
    requires
        well_formed(m),
        step(m, after),
    ensures
        well_formed(after),
        mapped(m, page_of(a)) ==> mapped(after, page_of(a)) && flag_result(after, a) == flag_result(
            m,
            a,
        ),
{
    if exists|addr: u32, size: usize, data: Seq<u8>| #[trigger] is_access(m, addr, size, data, after) {
        let (addr, size, data) = choose|addr: u32, size: usize, data: Seq<u8>| #[trigger]
            is_access(m, addr, size, data, after);
        let mask = (size - 1) as usize;
        if mapped(m, page_of(addr)) {
            let base = base_of(m, page_of(addr));
            assert(covers(m, base, page_of(addr)));
            if m[base].backing is Bytes {
                if after != m {
                    lemma_store_bytes_frame(m, addr, size, data, page_of(a));
                }
            } else {
                assert(after.dom() =~= m.dom());
                assert forall|k: int| #[trigger] after.dom().contains(k) implies after[k].pages
                    == m[k].pages && after[k].read_only == m[k].read_only && after[k].wf() by {}
                assert forall|p: int, q: int| covers(after, p, q) <==> covers(m, p, q) by {}
                if mapped(m, page_of(a)) {
                    let b = base_of(m, page_of(a));
                    assert(covers(m, b, page_of(a)));
                    assert(covers(after, b, page_of(a)));
                    lemma_base_of(after, b, page_of(a));
                }
            }
        }
    } else {
        let (addr, span) = choose|addr: u32, span: SpanView| #[trigger]
            is_registration(m, addr, span, after);
        if after != m {
            lemma_map_pages(m, addr, span, after, page_of(a));
            lemma_map_read_only(m, addr, span, after, a);
            if mapped(m, page_of(a)) {
                assert(!overlaps(m, page_of(addr), span.pages as int));
            }
        }
    }
}

/// Whatever operations an address space goes through, it stays well formed,
/// and an address that is mapped stays mapped and keeps the answer to the
/// question for its read-only flag.
pub proof fn lemma_history_keeps_flags(states: Seq<Map<int, SpanView>>, a: u32)
    requires
        history(states),
        well_formed(states[0]),
    ensures
        well_formed(states.last()),
        mapped(states[0], page_of(a)) ==> mapped(states.last(), page_of(a)) && flag_result(
            states.last(),
            a,
        ) == flag_result(states[0], a),
    decreases states.len(),
{
    if states.len() > 1 {
        let earlier = states.drop_last();
        assert forall|i: int| 0 <= i < earlier.len() - 1 implies step(
            #[trigger] earlier[i],
            earlier[i + 1],
        ) by {
            assert(step(states[i], states[i + 1]));
        }
        lemma_history_keeps_flags(earlier, a);
        let i = states.len() - 2;
        assert(step(states[i], states[i + 1]));
        assert(earlier.last() == states[i]);
        lemma_step_keeps_flags(states[i], states.last(), a);
    }
}

/// Each address of a registered span is answered with the flag that the
/// span was registered with, however many reads, writes and registrations
/// follow the span's own.
pub proof fn lemma_flag_is_the_one_registered(
    m: Map<int, SpanView>,
    addr: u32,
    span: SpanView,
    states: Seq<Map<int, SpanView>>,
    a: u32,
)
    requires
        well_formed(m),
        span.wf(),
        history(states),
        map_outcome(m, addr, span, states[0], Ok(())),
        page_of(addr) <= page_of(a) < page_of(addr) + span.pages,
    ensures
        flag_result(states.last(), a) == Ok::<bool, Error>(span.read_only),
{
    lemma_map_pages(m, addr, span, states[0], page_of(a));
    lemma_map_read_only(m, addr, span, states[0], a);
    lemma_history_keeps_flags(states, a);
}

} // verus!
