//! The address space: spans kept in ascending order of their first page and
//! found by binary search.

use vstd::prelude::*;
use crate::codec::Primitive;
use crate::error::Error;
use crate::codec::decoded;
use crate::memory::model::base_of;
use crate::memory::model::byte_offset;
use crate::memory::model::read_bytes;
use crate::memory::model::write_bytes;
use crate::memory::model::stored_bytes;
use crate::memory::model::flag_result;
use crate::memory::model::read_result;
use crate::memory::model::write_result;
use crate::memory::model::map_outcome;
use crate::memory::model::zeroed_span;
use crate::memory::model::covers;
use crate::memory::model::lemma_address_split;
use crate::memory::model::lemma_base_of;
use crate::memory::model::lemma_window_fits;
use crate::memory::model::mapped;
use crate::memory::model::overlaps;
use crate::memory::model::page_of;
use crate::memory::model::span_of;
use crate::memory::model::span_offset;
use crate::memory::model::align_down;
use crate::memory::model::well_formed;
use crate::memory::model::Backing;
use crate::memory::model::SpanView;
use crate::memory::span::IOPage;
use crate::memory::span::PageSpan;
use crate::memory::PAGE_BITS;
use crate::memory::PAGE_LOWER_MASK;
use crate::memory::PAGE_SIZE;
use crate::memory::PAGE_UPPER_MASK;

verus! {

/// A span found for a page, and the page's distance in pages from the start
/// of the span.
pub struct MemoryLookup<T> {
    pub item: T,
    pub offset: u32,
}

/// The address space of one guest.
pub struct MemoryImpl {
    /// The spans with their first pages, in ascending order.
    pages: Vec<(u32, PageSpan)>,
}

/// Whether an entry of `s` starts at page `start`.
spec fn has_start(s: Seq<(u32, PageSpan)>, start: int) -> bool {
    exists|i: int| 0 <= i < s.len() && (#[trigger] s[i]).0 == start
}

/// The index of the entry that starts at page `start`.
spec fn index_of(s: Seq<(u32, PageSpan)>, start: int) -> int {
    choose|i: int| 0 <= i < s.len() && (#[trigger] s[i]).0 == start
}

/// The map from first pages to spans that the entries stand for.
spec fn view_of(s: Seq<(u32, PageSpan)>) -> Map<int, SpanView> {
    Map::new(|start: int| has_start(s, start), |start: int| s[index_of(s, start)].1@)
}

/// Each entry ends before the next one starts, and each span is well formed.
spec fn ordered(s: Seq<(u32, PageSpan)>) -> bool {
    &&& forall|i: int| 0 <= i < s.len() ==> (#[trigger] s[i]).1.wf()
    &&& forall|i: int, j: int|
        0 <= i < j < s.len() ==> (#[trigger] s[i]).0 + s[i].1@.pages <= (#[trigger] s[j]).0
}

/// Whether `k` entries of `s` start at or before `page`, and the others after it.
spec fn splits_at(s: Seq<(u32, PageSpan)>, page: int, k: int) -> bool {
    &&& 0 <= k <= s.len()
    &&& forall|j: int| 0 <= j < k ==> (#[trigger] s[j]).0 <= page
    &&& forall|j: int| k <= j < s.len() ==> (#[trigger] s[j]).0 > page
}

/// An entry is found in the map under its first page.
proof fn lemma_entry(s: Seq<(u32, PageSpan)>, i: int)
    requires
        ordered(s),
        0 <= i < s.len(),
    ensures
        has_start(s, s[i].0 as int),
        index_of(s, s[i].0 as int) == i,
        view_of(s).dom().contains(s[i].0 as int),
        view_of(s)[s[i].0 as int] == s[i].1@,
{
    let start = s[i].0 as int;
    let j = index_of(s, start);
    assert(0 <= j < s.len() && s[j].0 == start);
    if j < i {
        assert(s[j].0 + s[j].1@.pages <= s[i].0);
    }
    if i < j {
        assert(s[i].0 + s[i].1@.pages <= s[j].0);
    }
}

/// A first page of the map belongs to an entry.
proof fn lemma_start(s: Seq<(u32, PageSpan)>, start: int)
    requires
        ordered(s),
        view_of(s).dom().contains(start),
    ensures
        0 <= index_of(s, start) < s.len(),
        s[index_of(s, start)].0 == start,
        view_of(s)[start] == s[index_of(s, start)].1@,
{
    assert(has_start(s, start));
}

/// Ordered entries stand for a well-formed address space.
proof fn lemma_view_well_formed(s: Seq<(u32, PageSpan)>)
    requires
        ordered(s),
    ensures
        well_formed(view_of(s)),
{
    let m = view_of(s);
    assert forall|start: int| #[trigger] m.dom().contains(start) implies 0 <= start <= u32::MAX
        && m[start].wf() by {
        lemma_start(s, start);
    }
    assert forall|a: int, b: int, page: int| covers(m, a, page) && covers(m, b, page) implies a
        == b by {
        lemma_start(s, a);
        lemma_start(s, b);
        let ia = index_of(s, a);
        let ib = index_of(s, b);
        if ia < ib {
            assert(s[ia].0 + s[ia].1@.pages <= s[ib].0);
        }
        if ib < ia {
            assert(s[ib].0 + s[ib].1@.pages <= s[ia].0);
        }
    }
}

/// A page is mapped exactly if the last entry that starts at or before it
/// reaches it, and that entry is then the page's span.
proof fn lemma_floor(s: Seq<(u32, PageSpan)>, page: int, k: int)
    requires
        ordered(s),
        splits_at(s, page, k),
    ensures
        mapped(view_of(s), page) <==> (k > 0 && page < s[k - 1].0 + s[k - 1].1@.pages),
        mapped(view_of(s), page) ==> base_of(view_of(s), page) == s[k - 1].0 && view_of(s)[s[k
            - 1].0 as int] == s[k - 1].1@,
{
    let m = view_of(s);
    lemma_view_well_formed(s);
    if k > 0 && page < s[k - 1].0 + s[k - 1].1@.pages {
        lemma_entry(s, k - 1);
        assert(covers(m, s[k - 1].0 as int, page));
        lemma_base_of(m, s[k - 1].0 as int, page);
    } else {
        if mapped(m, page) {
            let a = base_of(m, page);
            assert(covers(m, a, page));
            lemma_start(s, a);
            let j = index_of(s, a);
            assert(j < k);
            if j < k - 1 {
                assert(s[j].0 + s[j].1@.pages <= s[k - 1].0);
            }
            assert(false);
        }
    }
}

/// Whether a span of `pages` pages from `start` on runs into the entry before
/// position `k` or into the one at it.
spec fn collides(s: Seq<(u32, PageSpan)>, k: int, start: int, pages: int) -> bool {
    ||| k > 0 && s[k - 1].0 + s[k - 1].1@.pages > start
    ||| k < s.len() && s[k].0 < start + pages
}

/// A new span shares a page with the address space exactly if it runs into
/// one of its two neighbours.
proof fn lemma_collides(s: Seq<(u32, PageSpan)>, k: int, start: int, pages: int)
    requires
        ordered(s),
        splits_at(s, start, k),
        pages >= 1,
    ensures
        overlaps(view_of(s), start, pages) <==> collides(s, k, start, pages),
{
    let m = view_of(s);
    if k > 0 && s[k - 1].0 + s[k - 1].1@.pages > start {
        lemma_entry(s, k - 1);
        assert(covers(m, s[k - 1].0 as int, start));
        assert(mapped(m, start));
        assert(overlaps(m, start, pages));
    } else if k < s.len() && s[k].0 < start + pages {
        lemma_entry(s, k);
        assert(s[k].1.wf());
        assert(covers(m, s[k].0 as int, s[k].0 as int));
        assert(mapped(m, s[k].0 as int));
        assert(overlaps(m, start, pages));
    } else {
        if overlaps(m, start, pages) {
            let page = choose|page: int| start <= page < start + pages && mapped(m, page);
            let a = base_of(m, page);
            assert(covers(m, a, page));
            lemma_start(s, a);
            let j = index_of(s, a);
            if j < k {
                if j < k - 1 {
                    assert(s[j].0 + s[j].1@.pages <= s[k - 1].0);
                }
                assert(false);
            } else {
                if k < j {
                    assert(s[k].0 + s[k].1@.pages <= s[j].0);
                }
                assert(false);
            }
        }
    }
}

/// Putting a span between its two neighbours keeps the entries ordered and
/// adds the span to the map.
proof fn lemma_insert(s: Seq<(u32, PageSpan)>, k: int, entry: (u32, PageSpan))
    requires
        ordered(s),
        splits_at(s, entry.0 as int, k),
        entry.1.wf(),
        !collides(s, k, entry.0 as int, entry.1@.pages as int),
    ensures
        ordered(s.insert(k, entry)),
        view_of(s.insert(k, entry)) == view_of(s).insert(entry.0 as int, entry.1@),
{
    let t = s.insert(k, entry);
    assert forall|i: int| 0 <= i < t.len() implies (#[trigger] t[i]).1.wf() by {
        if i < k {
            assert(t[i] == s[i]);
        } else if i > k {
            assert(t[i] == s[i - 1]);
        }
    }
    assert forall|i: int, j: int| 0 <= i < j < t.len() implies (#[trigger] t[i]).0 + t[i].1@.pages
        <= (#[trigger] t[j]).0 by {
        if j < k {
            assert(t[i] == s[i] && t[j] == s[j]);
        } else if j == k {
            assert(t[i] == s[i]);
            if i < k - 1 {
                assert(s[i].0 + s[i].1@.pages <= s[k - 1].0);
            }
        } else if i < k {
            assert(t[i] == s[i] && t[j] == s[j - 1]);
        } else if i == k {
            assert(t[j] == s[j - 1]);
            if k < j - 1 {
                assert(s[k].0 + s[k].1@.pages <= s[j - 1].0);
            }
        } else {
            assert(t[i] == s[i - 1] && t[j] == s[j - 1]);
        }
    }
    let m = view_of(s).insert(entry.0 as int, entry.1@);
    assert forall|start: int| view_of(t).dom().contains(start) <==> m.dom().contains(start) by {
        if view_of(t).dom().contains(start) {
            lemma_start(t, start);
            let i = index_of(t, start);
            if i < k {
                assert(t[i] == s[i]);
                assert(has_start(s, start));
            } else if i > k {
                assert(t[i] == s[i - 1]);
                assert(has_start(s, start));
            }
        }
        if m.dom().contains(start) {
            if start == entry.0 {
                assert(t[k] == entry);
                assert(has_start(t, start));
            } else {
                lemma_start(s, start);
                let i = index_of(s, start);
                if i < k {
                    assert(t[i] == s[i]);
                } else {
                    assert(t[i + 1] == s[i]);
                }
                assert(has_start(t, start));
            }
        }
    }
    assert forall|start: int| #[trigger] m.dom().contains(start) implies view_of(t)[start]
        == m[start] by {
        if start == entry.0 {
            assert(t[k] == entry);
            lemma_entry(t, k);
        } else {
            lemma_start(s, start);
            let i = index_of(s, start);
            if i < k {
                assert(t[i] == s[i]);
                lemma_entry(t, i);
            } else {
                assert(t[i + 1] == s[i]);
                lemma_entry(t, i + 1);
            }
        }
    }
    assert(view_of(t) =~= m);
}

/// Replacing the span of an entry replaces it in the map; the entries stay
/// ordered if the new span is well formed and as long as the old one.
proof fn lemma_update(s: Seq<(u32, PageSpan)>, i: int, span: PageSpan)
    requires
        ordered(s),
        0 <= i < s.len(),
    ensures
        view_of(s.update(i, (s[i].0, span))) == view_of(s).insert(s[i].0 as int, span@),
        span.wf() && span@.pages == s[i].1@.pages ==> ordered(s.update(i, (s[i].0, span))),
{
    let t = s.update(i, (s[i].0, span));
    let m = view_of(s).insert(s[i].0 as int, span@);
    assert forall|j: int| 0 <= j < s.len() implies (#[trigger] t[j]).0 == s[j].0 by {}
    assert forall|start: int| view_of(t).dom().contains(start) <==> m.dom().contains(start) by {
        if has_start(t, start) {
            let j = index_of(t, start);
            assert(s[j].0 == start);
            assert(has_start(s, start));
        }
        if has_start(s, start) {
            let j = index_of(s, start);
            assert(t[j].0 == start);
            assert(has_start(t, start));
        }
        lemma_entry(s, i);
    }
    assert forall|start: int| #[trigger] m.dom().contains(start) implies view_of(t)[start]
        == m[start] by {
        lemma_entry(s, i);
        assert(has_start(s, start));
        let j = index_of(s, start);
        lemma_entry(s, j);
        assert(t[j].0 == start);
        assert(has_start(t, start));
        let jt = index_of(t, start);
        assert(s[jt].0 == start);
        lemma_entry(s, jt);
        assert(jt == j);
    }
    assert(view_of(t) =~= m);
    if span.wf() && span@.pages == s[i].1@.pages {
        assert forall|a: int, b: int| 0 <= a < b < t.len() implies (#[trigger] t[a]).0
            + t[a].1@.pages <= (#[trigger] t[b]).0 by {
            assert(s[a].0 + s[a].1@.pages <= s[b].0);
        }
        assert forall|a: int| 0 <= a < t.len() implies (#[trigger] t[a]).1.wf() by {
            if a != i {
                assert(s[a].1.wf());
            }
        }
    }
}

impl View for MemoryImpl {
    type V = Map<int, SpanView>;

    closed spec fn view(&self) -> Map<int, SpanView> {
        view_of(self.pages@)
    }
}

impl MemoryImpl {
    /// The invariant of the address space: the spans are kept in ascending
    /// order, none reaches into the next, and each is well formed.
    pub closed spec fn wf(&self) -> bool {
        ordered(self.pages@)
    }

    /// The content of a well-formed address space is well formed: no page
    /// lies in two spans.
    pub proof fn lemma_wf(&self)
        requires
            self.wf(),
        ensures
            well_formed(self@),
    {
        lemma_view_well_formed(self.pages@);
    }

    /// An address space without spans.
    pub fn new() -> (mem: MemoryImpl)
        ensures
            mem.wf(),
            mem@ == Map::<int, SpanView>::empty(),
    {
        let mem = MemoryImpl { pages: Vec::new() };
        assert(mem@ =~= Map::<int, SpanView>::empty());
        mem
    }

    /// The number of spans that start at or before `page`.
    fn upper_bound(&self, page: u32) -> (k: usize)
        requires
            self.wf(),
        ensures
            splits_at(self.pages@, page as int, k as int),
    {
        let mut lo: usize = 0;
        let mut hi: usize = self.pages.len();
        while lo < hi
            invariant
                ordered(self.pages@),
                0 <= lo <= hi <= self.pages@.len(),
                forall|j: int| 0 <= j < lo ==> (#[trigger] self.pages@[j]).0 <= page,
                forall|j: int| hi <= j < self.pages@.len() ==> (#[trigger] self.pages@[j]).0 > page,
            decreases hi - lo,
        {
            let mid: usize = lo + (hi - lo) / 2;
            if self.pages[mid].0 <= page {
                assert forall|j: int| 0 <= j < mid + 1 implies (#[trigger] self.pages@[j]).0
                    <= page by {
                    if j < mid {
                        assert(self.pages@[j].0 + self.pages@[j].1@.pages <= self.pages@[mid as int].0);
                    }
                }
                lo = mid + 1;
            } else {
                assert forall|j: int| mid <= j < self.pages@.len() implies (
                #[trigger] self.pages@[j]).0 > page by {
                    if mid < j {
                        assert(self.pages@[mid as int].0 + self.pages@[mid as int].1@.pages
                            <= self.pages@[j].0);
                    }
                }
                hi = mid;
            }
        }
        lo
    }

    /// Finds the span that contains `page`, by binary search for the last
    /// span that starts at or before the page.
    pub fn lookup(&self, page: u32) -> (r: Option<MemoryLookup<&PageSpan>>)
        requires
            self.wf(),
        ensures
            r is Some <==> mapped(self@, page as int),
            r matches Some(found) ==> found.item@ == self@[base_of(self@, page as int)]
                && found.offset == page - base_of(self@, page as int),
    {
        let k: usize = self.upper_bound(page);
        proof {
            lemma_floor(self.pages@, page as int, k as int);
        }
        if k == 0 {
            return None;
        }
        let entry = &self.pages[k - 1];
        if page - entry.0 < entry.1.size() {
            Some(MemoryLookup { item: &entry.1, offset: page - entry.0 })
        } else {
            None
        }
    }

    /// Finds the span that contains `page` and lends it out for change.
    ///
    /// The address space afterwards is the one before with the span as the
    /// borrower left it. It is well formed if the span still is and has kept
    /// its length.
    pub fn lookup_mut(&mut self, page: u32) -> (r: Option<MemoryLookup<&mut PageSpan>>)
        requires
            old(self).wf(),
        ensures
            r is Some <==> mapped(old(self)@, page as int),
            r matches Some(found) ==> {
                let base = base_of(old(self)@, page as int);
                &&& (*found.item)@ == old(self)@[base]
                &&& found.offset == page - base
                &&& final(self)@ == old(self)@.insert(base, (*final(found.item))@)
                &&& (*final(found.item)).wf() && (*final(found.item))@.pages == old(self)@[base].pages
                    ==> final(self).wf()
            },
            r is None ==> final(self)@ == old(self)@ && final(self).wf(),
    {
        let k: usize = self.upper_bound(page);
        proof {
            lemma_floor(self.pages@, page as int, k as int);
        }
        if k == 0 {
            return None;
        }
        let start: u32 = self.pages[k - 1].0;
        let size: u32 = self.pages[k - 1].1.size();
        if page - start < size {
            let ghost s = self.pages@;
            let entry = &mut self.pages[k - 1];
            let item = &mut entry.1;
            proof {
                lemma_update(s, k - 1, *final(item));
            }
            Some(MemoryLookup { item, offset: page - start })
        } else {
            None
        }
    }

    /// Whether a span contains `addr`.
    pub fn is_mapped(&self, addr: u32) -> (b: bool)
        requires
            self.wf(),
        ensures
            b == mapped(self@, page_of(addr)),
    {
        proof {
            lemma_address_split(addr);
        }
        self.lookup((addr & PAGE_UPPER_MASK) >> PAGE_BITS).is_some()
    }

    /// Puts `span` at the page of `addr`, unless it would share a page with
    /// a span that is there.
    fn place(&mut self, addr: u32, span: PageSpan) -> (r: Result<(), Error>)
        requires
            old(self).wf(),
            span.wf(),
        ensures
            final(self).wf(),
            overlaps(old(self)@, page_of(addr), span@.pages as int) ==> r == Err::<(), Error>(
                Error::OverlapMapping,
            ) && final(self)@ == old(self)@,
            !overlaps(old(self)@, page_of(addr), span@.pages as int) ==> r == Ok::<(), Error>(())
                && final(self)@ == old(self)@.insert(page_of(addr), span@),
    {
        proof {
            lemma_address_split(addr);
        }
        let start: u32 = addr >> PAGE_BITS;
        let end: u64 = start as u64 + span.size() as u64;
        let k: usize = self.upper_bound(start);
        proof {
            lemma_collides(self.pages@, k as int, start as int, span@.pages as int);
        }
        if k > 0 && self.pages[k - 1].0 as u64 + self.pages[k - 1].1.size() as u64 > start as u64 {
            return Err(Error::OverlapMapping);
        }
        if k < self.pages.len() && (self.pages[k].0 as u64) < end {
            return Err(Error::OverlapMapping);
        }
        proof {
            lemma_insert(self.pages@, k as int, (start, span));
        }
        self.pages.insert(k, (start, span));
        Ok(())
    }

    /// Registers `pages` pages of zeroed plain storage from the page of
    /// `addr` on. The storage has to be within what the machine can address.
    pub fn map_memory(&mut self, addr: u32, pages: u32, read_only: bool) -> (r: Result<(), Error>)
        requires
            old(self).wf(),
            pages * 4096 <= usize::MAX,
        ensures
            final(self).wf(),
            map_outcome(old(self)@, addr, zeroed_span(pages as nat, read_only), final(self)@, r),
    {
        if pages == 0 {
            return Ok(());
        }
        let len: usize = pages as usize * PAGE_SIZE;
        let backing = vec![0u8; len];
        assert(backing@ =~= Seq::new((pages * 4096) as nat, |i: int| 0u8));
        let span = PageSpan::normal(pages, backing, read_only);
        self.place(addr, span)
    }

    /// Registers `pages` pages served by `handler` from the page of `addr`
    /// on, with the handler in its slot. Where the span is refused the
    /// handler is dropped.
    pub fn map_io(&mut self, addr: u32, pages: u32, handler: Box<dyn IOPage>, read_only: bool) -> (r:
        Result<(), Error>)
        requires
            old(self).wf(),
        ensures
            final(self).wf(),
            ({
                let slot = Some(handler);
                map_outcome(
                    old(self)@,
                    addr,
                    SpanView { pages: pages as nat, read_only, backing: Backing::Io(slot) },
                    final(self)@,
                    r,
                )
            }),
    {
        if pages == 0 {
            return Ok(());
        }
        let slot = Some(handler);
        let span = PageSpan::io(pages, slot, read_only);
        self.place(addr, span)
    }
}

/// A provider of guest memory.
///
/// `valid` is the provider's invariant. `reads`, `writes` and `flags` are the
/// provider's own account of what its operations do, in bytes; a provider
/// that says nothing there may do anything.
pub trait Memory {
    /// The invariant that every operation needs and keeps.
    open spec fn valid(&self) -> bool {
        true
    }

    /// Whether a read of `size` bytes at `addr`, aligned by the mask
    /// `align`, may leave the provider as `after` and give `r`.
    open spec fn reads(
        &self,
        addr: u32,
        size: usize,
        align: usize,
        after: &Self,
        r: Result<Seq<u8>, Error>,
    ) -> bool {
        true
    }

    /// Whether a write of `data` at `addr`, aligned by the mask `align`, may
    /// leave the provider as `after` and give `r`.
    open spec fn writes(
        &self,
        addr: u32,
        align: usize,
        data: Seq<u8>,
        after: &Self,
        r: Result<(), Error>,
    ) -> bool {
        true
    }

    /// Whether the question for the read-only flag of `addr` may be answered
    /// with `r`.
    open spec fn flags(&self, addr: u32, r: Result<bool, Error>) -> bool {
        true
    }

    /// Reads the primitive at `addr`, rounded down to its alignment: the
    /// result is the decoding of the `T::SIZE` bytes read.
    fn read<T: Primitive>(&mut self, addr: u32) -> (r: Result<T, Error>)
        requires
            old(self).valid(),
        ensures
            final(self).valid(),
            exists|bytes: Result<Seq<u8>, Error>| #[trigger]
                old(self).reads(addr, T::SIZE, T::ALIGN, final(self), bytes) && r == decoded::<T>(
                    bytes,
                ),
    ;

    /// Writes the primitive at `addr`, rounded down to its alignment: the
    /// bytes written are the encoding of `value`.
    fn write<T: Primitive>(&mut self, addr: u32, value: T) -> (r: Result<(), Error>)
        requires
            old(self).valid(),
        ensures
            final(self).valid(),
            old(self).writes(addr, T::ALIGN, value.encode(), final(self), r),
    ;

    /// The read-only flag of the span that serves `addr`.
    fn is_read_only(&self, addr: u32) -> (r: Result<bool, Error>)
        requires
            self.valid(),
        ensures
            self.flags(addr, r),
    ;
}

impl Memory for MemoryImpl {
    open spec fn valid(&self) -> bool {
        self.wf()
    }

    open spec fn reads(
        &self,
        addr: u32,
        size: usize,
        align: usize,
        after: &Self,
        r: Result<Seq<u8>, Error>,
    ) -> bool {
        read_bytes(self@, addr, size, align, after@, r)
    }

    open spec fn writes(
        &self,
        addr: u32,
        align: usize,
        data: Seq<u8>,
        after: &Self,
        r: Result<(), Error>,
    ) -> bool {
        write_bytes(self@, addr, align, data, after@, r)
    }

    open spec fn flags(&self, addr: u32, r: Result<bool, Error>) -> bool {
        r == flag_result(self@, addr)
    }

    /// Reads the primitive at `addr`: see `read_result`.
    fn read<T: Primitive>(&mut self, addr: u32) -> (r: Result<T, Error>)
        ensures
            read_result::<T>(old(self)@, addr, final(self)@, r),
    {
        proof {
            lemma_address_split(addr);
            T::lemma_width();
            self.lemma_wf();
        }
        let page: u32 = (addr & !PAGE_LOWER_MASK) >> PAGE_BITS;
        let ghost m = self@;
        let ghost mut bytes = Err::<Seq<u8>, Error>(Error::UnmappedAccess);
        let r = match self.lookup_mut(page) {
            None => Err(Error::UnmappedAccess),
            Some(found) => {
                let offset: usize = found.offset as usize * PAGE_SIZE + (addr
                    & PAGE_LOWER_MASK) as usize;
                let ghost base = base_of(m, page_of(addr));
                let ghost span = m[base];
                proof {
                    assert(covers(m, base, page_of(addr)));
                    assert(offset == span_offset(m, addr));
                    lemma_window_fits(offset, T::SIZE, span.pages);
                }
                let r = found.item.read::<T>(offset);
                proof {
                    let after = m.insert(base, found.item@);
                    let at = byte_offset(m, addr, T::ALIGN);
                    assert(at == align_down(offset, T::ALIGN));
                    assert(after[base] == found.item@);
                    match span.backing {
                        Backing::Bytes(_) => {
                            assert(found.item@ == span);
                            assert(after =~= m);
                            bytes = Ok(stored_bytes(m, addr, T::SIZE, T::ALIGN));
                        },
                        Backing::Io(None) => {
                            assert(found.item@ == span);
                            assert(after =~= m);
                            bytes = Err(Error::ReentrantAccess);
                        },
                        Backing::Io(Some(h)) => {
                            let data = choose|data: Seq<u8>|
                                {
                                    &&& data.len() == T::SIZE
                                    &&& #[trigger] h.may_read(at, data)
                                    &&& r == Ok::<T, Error>(T::decode(data))
                                };
                            bytes = Ok(data);
                        },
                    }
                    assert(read_bytes(m, addr, T::SIZE, T::ALIGN, after, bytes));
                }
                r
            },
        };
        proof {
            assert(read_bytes(m, addr, T::SIZE, T::ALIGN, self@, bytes));
            assert(old(self).reads(addr, T::SIZE, T::ALIGN, self, bytes));
        }
        r
    }

    /// Writes the primitive at `addr`: see `write_result`.
    fn write<T: Primitive>(&mut self, addr: u32, value: T) -> (r: Result<(), Error>)
        ensures
            write_result::<T>(old(self)@, addr, value, final(self)@, r),
    {
        proof {
            lemma_address_split(addr);
            T::lemma_width();
            value.lemma_decode_encode();
            self.lemma_wf();
        }
        let page: u32 = (addr & !PAGE_LOWER_MASK) >> PAGE_BITS;
        let ghost m = self@;
        match self.lookup_mut(page) {
            None => Err(Error::UnmappedAccess),
            Some(found) => {
                let offset: usize = found.offset as usize * PAGE_SIZE + (addr
                    & PAGE_LOWER_MASK) as usize;
                let ghost base = base_of(m, page_of(addr));
                let ghost span = m[base];
                proof {
                    assert(covers(m, base, page_of(addr)));
                    assert(offset == span_offset(m, addr));
                    lemma_window_fits(offset, T::SIZE, span.pages);
                }
                let r = found.item.write::<T>(offset, value);
                proof {
                    let after = m.insert(base, found.item@);
                    if span.backing == Backing::Io(None) {
                        assert(found.item@ == span);
                        assert(after =~= m);
                    }
                    assert(after[base] == found.item@);
                }
                r
            },
        }
    }

    /// The flag that the span of `addr` was registered with, or
    /// `UnmappedAccess` outside every span.
    fn is_read_only(&self, addr: u32) -> (r: Result<bool, Error>)
        ensures
            r == flag_result(self@, addr),
    {
        proof {
            lemma_address_split(addr);
        }
        match self.lookup((addr & PAGE_UPPER_MASK) >> PAGE_BITS) {
            None => Err(Error::UnmappedAccess),
            Some(found) => Ok(found.item.read_only()),
        }
    }
}

} // verus!
