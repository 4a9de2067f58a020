//! Spans: contiguous runs of pages with one kind of backing.

use vstd::prelude::*;
use crate::codec::Primitive;
use crate::error::Error;
use crate::memory::model::align_down;
use crate::memory::model::overwrite;
use crate::memory::model::window_fits;
use crate::memory::model::Backing;
use crate::memory::model::SpanView;

verus! {

/// Handler of a memory-mapped I/O span. Offsets count bytes from the start of
/// the span and are aligned to the width of the access.
///
/// The two spec functions are the handler's own account of what it does; a
/// handler that says nothing there may do anything. The address space
/// promises to hand the handler the offset and the bytes of the access and
/// to pass on what the handler gave.
pub trait IOPage {
    /// Whether a read at offset `o` may fill the buffer with `data` in this state.
    open spec fn may_read(&self, o: usize, data: Seq<u8>) -> bool {
        true
    }

    /// Whether this state may follow a write of `data` at offset `o`.
    open spec fn may_follow_write(&self, o: usize, data: Seq<u8>) -> bool {
        true
    }

    /// Fills `b` with the bytes at offset `o`. The buffer keeps its length,
    /// as every slice does.
    fn read(&mut self, o: usize, b: &mut [u8])
        ensures
            final(b)@.len() == old(b)@.len(),
            old(self).may_read(o, final(b)@),
    ;

    /// Takes the bytes `b` written at offset `o`.
    fn write(&mut self, o: usize, b: &[u8])
        ensures
            final(self).may_follow_write(o, b@),
    ;
}

/// What stands behind a span.
pub enum PageSpanKind {
    /// Plain storage, one byte per address.
    Normal { backing: Vec<u8> },
    /// An I/O handler in its slot. The handler is out of its slot for the
    /// time of a call; an access that finds the slot empty is a reentrant one.
    MMIO { handler: Option<Box<dyn IOPage>> },
}

impl View for PageSpanKind {
    type V = Backing;

    open spec fn view(&self) -> Backing {
        match *self {
            PageSpanKind::Normal { backing } => Backing::Bytes(backing@),
            PageSpanKind::MMIO { handler } => Backing::Io(handler),
        }
    }
}

/// What a read of a `T` at `offset` bytes into a span may do: the backing
/// before and after, and the result.
///
/// Plain storage is left as it was and yields the value that its bytes
/// encode at the aligned offset, or `UnmappedAccess` where the access would
/// leave the storage. An empty handler slot is `ReentrantAccess`. A handler
/// is asked for `T::SIZE` bytes at the aligned offset, stays in its slot, and
/// the result is the decoding of the bytes that it gave.
pub open spec fn read_outcome<T: Primitive>(
    before: Backing,
    offset: usize,
    after: Backing,
    r: Result<T, Error>,
) -> bool {
    let at = align_down(offset, T::ALIGN);
    match before {
        Backing::Bytes(bytes) => {
            &&& after == before
            &&& r == if window_fits(at as int, T::SIZE as int, bytes.len() as int) {
                Ok::<T, Error>(T::decode(bytes.subrange(at as int, at + T::SIZE)))
            } else {
                Err::<T, Error>(Error::UnmappedAccess)
            }
        },
        Backing::Io(None) => {
            &&& after == before
            &&& r == Err::<T, Error>(Error::ReentrantAccess)
        },
        Backing::Io(Some(h)) => {
            &&& after matches Backing::Io(Some(_))
            &&& exists|data: Seq<u8>|
                {
                    &&& data.len() == T::SIZE
                    &&& #[trigger] h.may_read(at, data)
                    &&& r == Ok::<T, Error>(T::decode(data))
                }
        },
    }
}

/// What a write of `value` at `offset` bytes into a span may do: the backing
/// before and after, and the result.
///
/// Plain storage takes the value's encoding at the aligned offset, or the
/// write fails with `UnmappedAccess` and changes nothing where it would leave
/// the storage. An empty handler slot is `ReentrantAccess`. A handler is
/// handed the encoding and the aligned offset, and stays in its slot.
pub open spec fn write_outcome<T: Primitive>(
    before: Backing,
    offset: usize,
    value: T,
    after: Backing,
    r: Result<(), Error>,
) -> bool {
    let at = align_down(offset, T::ALIGN);
    match before {
        Backing::Bytes(bytes) => {
            if window_fits(at as int, T::SIZE as int, bytes.len() as int) {
                &&& r == Ok::<(), Error>(())
                &&& after == Backing::Bytes(overwrite(bytes, at as int, value.encode()))
            } else {
                &&& r == Err::<(), Error>(Error::UnmappedAccess)
                &&& after == before
            }
        },
        Backing::Io(None) => {
            &&& after == before
            &&& r == Err::<(), Error>(Error::ReentrantAccess)
        },
        Backing::Io(Some(_)) => {
            &&& r == Ok::<(), Error>(())
            &&& after matches Backing::Io(Some(h))
            &&& h.may_follow_write(at, value.encode())
        },
    }
}

impl PageSpanKind {
    /// Reads a primitive at `offset`, rounded down to the primitive's alignment.
    ///
    /// Plain storage yields the value that its bytes encode, or
    /// `UnmappedAccess` where the access would leave the storage. A handler
    /// is asked for the bytes; an empty handler slot is `ReentrantAccess`.
    pub fn read<T: Primitive>(&mut self, offset: usize) -> (r: Result<T, Error>)
        ensures
            read_outcome::<T>(old(self)@, offset, final(self)@, r),
    {
        let at: usize = offset & !T::ALIGN;
        match self {
            PageSpanKind::Normal { backing } => {
                let len: usize = backing.len();
                if T::SIZE > len || at > len - T::SIZE {
                    Err(Error::UnmappedAccess)
                } else {
                    let src = &backing.as_slice()[at..at + T::SIZE];
                    let value = T::read(src);
                    assert(src@.subrange(0, T::SIZE as int) =~= src@);
                    Ok(value)
                }
            },
            PageSpanKind::MMIO { handler } => {
                match handler.take() {
                    None => Err(Error::ReentrantAccess),
                    Some(mut h) => {
                        let ghost before = h;
                        let mut src = vec![0u8; T::SIZE];
                        h.read(at, src.as_mut_slice());
                        let slot = Some(h);
                        *handler = slot;
                        let value = T::read(src.as_slice());
                        proof {
                            assert(src@.subrange(0, T::SIZE as int) =~= src@);
                            assert(old(self)@ matches Backing::Io(Some(asked)) && asked == before);
                            assert(before.may_read(align_down(offset, T::ALIGN), src@));
                            assert(value == T::decode(src@));
                        }
                        Ok(value)
                    },
                }
            },
        }
    }

    /// Writes a primitive at `offset`, rounded down to the primitive's alignment.
    ///
    /// Plain storage takes the value's encoding, or the write fails with
    /// `UnmappedAccess` where it would leave the storage. A handler is handed
    /// the encoding; an empty handler slot is `ReentrantAccess`.
    pub fn write<T: Primitive>(&mut self, offset: usize, value: T) -> (r: Result<(), Error>)
        ensures
            write_outcome::<T>(old(self)@, offset, value, final(self)@, r),
    {
        let at: usize = offset & !T::ALIGN;
        proof {
            value.lemma_decode_encode();
        }
        match self {
            PageSpanKind::Normal { backing } => {
                let len: usize = backing.len();
                if T::SIZE > len || at > len - T::SIZE {
                    Err(Error::UnmappedAccess)
                } else {
                    let ghost bytes = backing@;
                    let (_, tail) = backing.as_mut_slice().split_at_mut(at);
                    let (dest, _) = tail.split_at_mut(T::SIZE);
                    value.write(dest);
                    assert(backing@ =~= overwrite(bytes, at as int, value.encode()));
                    Ok(())
                }
            },
            PageSpanKind::MMIO { handler } => {
                match handler.take() {
                    None => Err(Error::ReentrantAccess),
                    Some(mut h) => {
                        let mut dest = vec![0u8; T::SIZE];
                        value.write(dest.as_mut_slice());
                        assert(dest@ =~= value.encode());
                        h.write(at, dest.as_slice());
                        let slot = Some(h);
                        *handler = slot;
                        Ok(())
                    },
                }
            },
        }
    }
}

/// One contiguous mapped region: a number of pages, what stands behind them,
/// and an advisory read-only flag. A span keeps its kind of backing for life.
pub struct PageSpan {
    size: u32,
    kind: PageSpanKind,
    read_only: bool,
}

impl View for PageSpan {
    type V = SpanView;

    closed spec fn view(&self) -> SpanView {
        SpanView { pages: self.size as nat, read_only: self.read_only, backing: self.kind@ }
    }
}

impl PageSpan {
    /// The span's invariant, which is that of its content.
    pub open spec fn wf(&self) -> bool {
        self@.wf()
    }

    /// A span of `size` pages of plain storage. The storage has to hold one
    /// byte for each address of the span.
    pub(crate) fn normal(size: u32, backing: Vec<u8>, read_only: bool) -> (span: PageSpan)
        ensures
            span@ == (SpanView {
                pages: size as nat,
                read_only,
                backing: Backing::Bytes(backing@),
            }),
    {
        PageSpan { size, kind: PageSpanKind::Normal { backing }, read_only }
    }

    /// A span of `size` pages served by the handler in `slot`.
    pub(crate) fn io(size: u32, slot: Option<Box<dyn IOPage>>, read_only: bool) -> (span: PageSpan)
        ensures
            span@ == (SpanView { pages: size as nat, read_only, backing: Backing::Io(slot) }),
    {
        PageSpan { size, kind: PageSpanKind::MMIO { handler: slot }, read_only }
    }

    /// The length of the span in pages.
    pub fn size(&self) -> (pages: u32)
        ensures
            pages == self@.pages,
    {
        self.size
    }

    /// The flag that the span was registered with.
    pub fn read_only(&self) -> (flag: bool)
        ensures
            flag == self@.read_only,
    {
        self.read_only
    }

    /// What stands behind the span.
    pub fn kind(&self) -> (kind: &PageSpanKind)
        ensures
            kind@ == self@.backing,
    {
        &self.kind
    }

    /// Reads a primitive at `offset` bytes from the start of the span; see
    /// `PageSpanKind::read`.
    pub(crate) fn read<T: Primitive>(&mut self, offset: usize) -> (r: Result<T, Error>)
        ensures
            final(self)@.pages == old(self)@.pages,
            final(self)@.read_only == old(self)@.read_only,
            read_outcome::<T>(old(self)@.backing, offset, final(self)@.backing, r),
    {
        self.kind.read(offset)
    }

    /// Writes a primitive at `offset` bytes from the start of the span; see
    /// `PageSpanKind::write`.
    pub(crate) fn write<T: Primitive>(&mut self, offset: usize, value: T) -> (r: Result<(), Error>)
        ensures
            final(self)@.pages == old(self)@.pages,
            final(self)@.read_only == old(self)@.read_only,
            write_outcome::<T>(old(self)@.backing, offset, value, final(self)@.backing, r),
    {
        self.kind.write(offset, value)
    }
}

} // verus!
