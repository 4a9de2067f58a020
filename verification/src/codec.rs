//! Little-endian encoding of the guest's primitive values.
//!
//! A primitive is a value that the guest moves in one access: an unsigned
//! integer of one, two, four or eight bytes, or a pair of such integers
//! (a register-pair transfer). Every primitive has a width in bytes and an
//! encoding of exactly that width; the guest is little-endian, so the least
//! significant byte comes first.

use vstd::prelude::*;
use byteorder::ByteOrder;
use crate::error::Error;
use byteorder::LE;

verus! {

/// The number that a byte string denotes when read least significant byte first.
pub open spec fn le_value(bytes: Seq<u8>) -> nat
    decreases bytes.len(),
{
    if bytes.len() == 0 {
        0
    } else {
        bytes[0] as nat + 256 * le_value(bytes.drop_first())
    }
}

/// The `width` least significant bytes of `value`, least significant byte first.
pub open spec fn le_bytes(value: nat, width: nat) -> Seq<u8>
    decreases width,
{
    if width == 0 {
        Seq::<u8>::empty()
    } else {
        seq![(value % 256) as u8] + le_bytes(value / 256, (width - 1) as nat)
    }
}

/// 256 to the power `width`: the number of values that `width` bytes can hold.
pub open spec fn le_span(width: nat) -> nat
    decreases width,
{
    if width == 0 {
        1
    } else {
        256 * le_span((width - 1) as nat)
    }
}

/// An encoding has the width that was asked for.
pub proof fn lemma_le_bytes_len(value: nat, width: nat)
    ensures
        le_bytes(value, width).len() == width,
    decreases width,
{
    if width > 0 {
        lemma_le_bytes_len(value / 256, (width - 1) as nat);
    }
}

/// A byte string denotes a number below 256 to the power of its length.
pub proof fn lemma_le_value_bound(bytes: Seq<u8>)
    ensures
        le_value(bytes) < le_span(bytes.len()),
    decreases bytes.len(),
{
    if bytes.len() > 0 {
        lemma_le_value_bound(bytes.drop_first());
    }
}

/// Decoding undoes encoding for every value that fits the width.
pub proof fn lemma_le_value_of_bytes(value: nat, width: nat)
    requires
        value < le_span(width),
    ensures
        le_value(le_bytes(value, width)) == value,
    decreases width,
{
    if width > 0 {
        let rest = le_bytes(value / 256, (width - 1) as nat);
        let all = le_bytes(value, width);
        lemma_le_value_of_bytes(value / 256, (width - 1) as nat);
        assert(all.drop_first() =~= rest);
        assert(all[0] == (value % 256) as u8);
    }
}

/// Encoding undoes decoding: no two byte strings of one length denote the same number.
pub proof fn lemma_le_bytes_of_value(bytes: Seq<u8>)
    ensures
        le_bytes(le_value(bytes), bytes.len()) == bytes,
    decreases bytes.len(),
{
    if bytes.len() > 0 {
        let tail = bytes.drop_first();
        lemma_le_bytes_of_value(tail);
        let v = le_value(bytes);
        assert(v % 256 == bytes[0] as nat);
        assert(v / 256 == le_value(tail));
        assert(le_bytes(v, bytes.len()) =~= bytes);
    } else {
        assert(le_bytes(le_value(bytes), 0) =~= bytes);
    }
}

/// Reads a 16-bit integer with `byteorder`'s `LittleEndian::read_u16`.
///
/// Trusted: the call returns the number that the first two bytes of `b`
/// denote, least significant byte first. It panics on a shorter buffer,
/// which the precondition excludes.
#[verifier::external_body]
fn le_read_u16(b: &[u8]) -> (r: u16)
    requires
        b@.len() >= 2,
    ensures
        r as nat == le_value(b@.subrange(0, 2)),
{
    LE::read_u16(b)
}

/// Reads a 32-bit integer with `byteorder`'s `LittleEndian::read_u32`.
///
/// Trusted: the call returns the number that the first four bytes of `b`
/// denote, least significant byte first. It panics on a shorter buffer,
/// which the precondition excludes.
#[verifier::external_body]
fn le_read_u32(b: &[u8]) -> (r: u32)
    requires
        b@.len() >= 4,
    ensures
        r as nat == le_value(b@.subrange(0, 4)),
{
    LE::read_u32(b)
}

/// Reads a 64-bit integer with `byteorder`'s `LittleEndian::read_u64`.
///
/// Trusted: the call returns the number that the first eight bytes of `b`
/// denote, least significant byte first. It panics on a shorter buffer,
/// which the precondition excludes.
#[verifier::external_body]
fn le_read_u64(b: &[u8]) -> (r: u64)
    requires
        b@.len() >= 8,
    ensures
        r as nat == le_value(b@.subrange(0, 8)),
{
    LE::read_u64(b)
}

/// Writes a 16-bit integer with `byteorder`'s `LittleEndian::write_u16`.
///
/// Trusted: the call overwrites the first two bytes of `b` with the two
/// bytes of `n`, least significant byte first, and leaves the rest of `b`
/// as it was. It panics on a shorter buffer, which the precondition excludes.
#[verifier::external_body]
fn le_write_u16(b: &mut [u8], n: u16)
    requires
        old(b)@.len() >= 2,
    ensures
        final(b)@ == le_bytes(n as nat, 2) + old(b)@.subrange(2, old(b)@.len() as int),
{
    LE::write_u16(b, n)
}

/// Writes a 32-bit integer with `byteorder`'s `LittleEndian::write_u32`.
///
/// Trusted: the call overwrites the first four bytes of `b` with the four
/// bytes of `n`, least significant byte first, and leaves the rest of `b`
/// as it was. It panics on a shorter buffer, which the precondition excludes.
#[verifier::external_body]
fn le_write_u32(b: &mut [u8], n: u32)
    requires
        old(b)@.len() >= 4,
    ensures
        final(b)@ == le_bytes(n as nat, 4) + old(b)@.subrange(4, old(b)@.len() as int),
{
    LE::write_u32(b, n)
}

/// Writes a 64-bit integer with `byteorder`'s `LittleEndian::write_u64`.
///
/// Trusted: the call overwrites the first eight bytes of `b` with the eight
/// bytes of `n`, least significant byte first, and leaves the rest of `b`
/// as it was. It panics on a shorter buffer, which the precondition excludes.
#[verifier::external_body]
fn le_write_u64(b: &mut [u8], n: u64)
    requires
        old(b)@.len() >= 8,
    ensures
        final(b)@ == le_bytes(n as nat, 8) + old(b)@.subrange(8, old(b)@.len() as int),
{
    LE::write_u64(b, n)
}

/// A width that the guest can move in one access: a power of two, at most a page.
pub open spec fn natural_width(size: usize) -> bool {
    &&& 1 <= size <= 4096
    &&& size & ((size - 1) as usize) == 0
}

/// One, two, four and eight bytes are natural widths.
pub proof fn lemma_word_widths()
    ensures
        natural_width(1),
        natural_width(2),
        natural_width(4),
        natural_width(8),
{
    assert(1usize & 0usize == 0 && 2usize & 1usize == 0 && 4usize & 3usize == 0 && 8usize & 7usize
        == 0) by (bit_vector);
}

/// A value that the guest reads or writes in one access.
///
/// `SIZE` is the width of the encoding in bytes and `ALIGN` the mask of the
/// address bits that natural alignment clears. `encode` and `decode` are the
/// mathematical encoding, on byte strings of exactly `SIZE` bytes; `read` and
/// `write` are its executable form.
pub trait Primitive: Sized {
    const SIZE: usize;

    const ALIGN: usize;

    /// The value that `SIZE` bytes denote.
    spec fn decode(bytes: Seq<u8>) -> Self;

    /// The `SIZE` bytes that denote the value.
    spec fn encode(self) -> Seq<u8>;

    /// The width is a power of two, at most a page, and the alignment mask is
    /// one less than the width.
    proof fn lemma_width()
        ensures
            natural_width(Self::SIZE),
            Self::ALIGN == Self::SIZE - 1,
    ;

    /// An encoding is `SIZE` bytes long and decodes to the value it came from.
    proof fn lemma_decode_encode(self)
        ensures
            self.encode().len() == Self::SIZE,
            Self::decode(self.encode()) == self,
    ;

    /// Every string of `SIZE` bytes is the encoding of the value it decodes to.
    proof fn lemma_encode_decode(bytes: Seq<u8>)
        requires
            bytes.len() == Self::SIZE,
        ensures
            Self::decode(bytes).encode() == bytes,
    ;

    /// Decodes the first `SIZE` bytes of `b`.
    fn read(b: &[u8]) -> (r: Self)
        requires
            b@.len() >= Self::SIZE,
        ensures
            r == Self::decode(b@.subrange(0, Self::SIZE as int)),
    ;

    /// Encodes the value into the first `SIZE` bytes of `b`; the rest of `b` stays.
    fn write(self, b: &mut [u8])
        requires
            old(b)@.len() >= Self::SIZE,
        ensures
            final(b)@ == self.encode() + old(b)@.subrange(
                Self::SIZE as int,
                old(b)@.len() as int,
            ),
    ;
}

/// The value that the bytes of a read decode to, or the read's error.
pub open spec fn decoded<T: Primitive>(bytes: Result<Seq<u8>, Error>) -> Result<T, Error> {
    match bytes {
        Ok(bytes) => Ok(T::decode(bytes)),
        Err(error) => Err(error),
    }
}

/// A primitive that is a single integer of at most eight bytes: the element
/// type of a register pair.
pub trait Word: Primitive + Copy {
    /// A word is no wider than eight bytes.
    proof fn lemma_word_width()
        ensures
            Self::SIZE <= 8,
    ;
}

impl Primitive for u8 {
    const SIZE: usize = 1;

    const ALIGN: usize = 0;

    open spec fn decode(bytes: Seq<u8>) -> Self {
        le_value(bytes) as u8
    }

    open spec fn encode(self) -> Seq<u8> {
        le_bytes(self as nat, 1)
    }

    proof fn lemma_width() {
        lemma_word_widths();
    }

    proof fn lemma_decode_encode(self) {
        reveal_with_fuel(le_span, 2);
        lemma_le_bytes_len(self as nat, 1);
        lemma_le_value_of_bytes(self as nat, 1);
    }

    proof fn lemma_encode_decode(bytes: Seq<u8>) {
        reveal_with_fuel(le_span, 2);
        lemma_le_value_bound(bytes);
        lemma_le_bytes_of_value(bytes);
    }

    fn read(b: &[u8]) -> (r: Self) {
        proof {
            reveal_with_fuel(le_value, 2);
        }
        b[0]
    }

    fn write(self, b: &mut [u8]) {
        proof {
            reveal_with_fuel(le_bytes, 2);
        }
        b[0] = self;
        assert(b@ =~= self.encode() + old(b)@.subrange(1, old(b)@.len() as int));
    }
}

impl Primitive for u16 {
    const SIZE: usize = 2;

    const ALIGN: usize = 1;

    open spec fn decode(bytes: Seq<u8>) -> Self {
        le_value(bytes) as u16
    }

    open spec fn encode(self) -> Seq<u8> {
        le_bytes(self as nat, 2)
    }

    proof fn lemma_width() {
        lemma_word_widths();
    }

    proof fn lemma_decode_encode(self) {
        reveal_with_fuel(le_span, 3);
        lemma_le_bytes_len(self as nat, 2);
        lemma_le_value_of_bytes(self as nat, 2);
    }

    proof fn lemma_encode_decode(bytes: Seq<u8>) {
        reveal_with_fuel(le_span, 3);
        lemma_le_value_bound(bytes);
        lemma_le_bytes_of_value(bytes);
    }

    fn read(b: &[u8]) -> (r: Self) {
        le_read_u16(b)
    }

    fn write(self, b: &mut [u8]) {
        le_write_u16(b, self)
    }
}

impl Primitive for u32 {
    const SIZE: usize = 4;

    const ALIGN: usize = 3;

    open spec fn decode(bytes: Seq<u8>) -> Self {
        le_value(bytes) as u32
    }

    open spec fn encode(self) -> Seq<u8> {
        le_bytes(self as nat, 4)
    }

    proof fn lemma_width() {
        lemma_word_widths();
    }

    proof fn lemma_decode_encode(self) {
        reveal_with_fuel(le_span, 5);
        lemma_le_bytes_len(self as nat, 4);
        lemma_le_value_of_bytes(self as nat, 4);
    }

    proof fn lemma_encode_decode(bytes: Seq<u8>) {
        reveal_with_fuel(le_span, 5);
        lemma_le_value_bound(bytes);
        lemma_le_bytes_of_value(bytes);
    }

    fn read(b: &[u8]) -> (r: Self) {
        le_read_u32(b)
    }

    fn write(self, b: &mut [u8]) {
        le_write_u32(b, self)
    }
}

impl Primitive for u64 {
    const SIZE: usize = 8;

    const ALIGN: usize = 7;

    open spec fn decode(bytes: Seq<u8>) -> Self {
        le_value(bytes) as u64
    }

    open spec fn encode(self) -> Seq<u8> {
        le_bytes(self as nat, 8)
    }

    proof fn lemma_width() {
        lemma_word_widths();
    }

    proof fn lemma_decode_encode(self) {
        reveal_with_fuel(le_span, 9);
        lemma_le_bytes_len(self as nat, 8);
        lemma_le_value_of_bytes(self as nat, 8);
    }

    proof fn lemma_encode_decode(bytes: Seq<u8>) {
        reveal_with_fuel(le_span, 9);
        lemma_le_value_bound(bytes);
        lemma_le_bytes_of_value(bytes);
    }

    fn read(b: &[u8]) -> (r: Self) {
        le_read_u64(b)
    }

    fn write(self, b: &mut [u8]) {
        le_write_u64(b, self)
    }
}

impl Word for u8 {
    proof fn lemma_word_width() {
    }
}

impl Word for u16 {
    proof fn lemma_word_width() {
    }
}

impl Word for u32 {
    proof fn lemma_word_width() {
    }
}

impl Word for u64 {
    proof fn lemma_word_width() {
    }
}

/// A pair of words is a primitive: its encoding is the encoding of the first
/// element followed by that of the second.
impl<T: Word> Primitive for [T; 2] {
    const SIZE: usize = 2 * T::SIZE;

    const ALIGN: usize = 2 * T::SIZE - 1;

    open spec fn decode(bytes: Seq<u8>) -> Self {
        [
            T::decode(bytes.subrange(0, T::SIZE as int)),
            T::decode(bytes.subrange(T::SIZE as int, 2 * T::SIZE)),
        ]
    }

    open spec fn encode(self) -> Seq<u8> {
        self[0].encode() + self[1].encode()
    }

    proof fn lemma_width() {
        T::lemma_width();
        T::lemma_word_width();
        let s: usize = T::SIZE;
        assert(natural_width((2 * s) as usize)) by (bit_vector)
            requires
                natural_width(s),
                s <= 8,
        ;
    }

    proof fn lemma_decode_encode(self) {
        T::lemma_width();
        T::lemma_word_width();
        self[0].lemma_decode_encode();
        self[1].lemma_decode_encode();
        let n = T::SIZE as int;
        let all = self.encode();
        assert(all.subrange(0, n) =~= self[0].encode());
        assert(all.subrange(n, 2 * n) =~= self[1].encode());
        assert(Self::decode(all) =~= self);
    }

    proof fn lemma_encode_decode(bytes: Seq<u8>) {
        T::lemma_width();
        T::lemma_word_width();
        let n = T::SIZE as int;
        let lo = bytes.subrange(0, n);
        let hi = bytes.subrange(n, 2 * n);
        T::lemma_encode_decode(lo);
        T::lemma_encode_decode(hi);
        assert(Self::decode(bytes).encode() =~= bytes);
    }

    fn read(b: &[u8]) -> (r: Self) {
        proof {
            T::lemma_width();
            T::lemma_word_width();
        }
        let n: usize = T::SIZE;
        let lo = T::read(&b[0..n]);
        let hi = T::read(&b[n..n + n]);
        proof {
            let window = b@.subrange(0, 2 * n);
            assert(b@.subrange(0, n as int).subrange(0, n as int) =~= window.subrange(0, n as int));
            assert(b@.subrange(n as int, n + n).subrange(0, n as int) =~= window.subrange(
                n as int,
                2 * n,
            ));
        }
        [lo, hi]
    }

    fn write(self, b: &mut [u8]) {
        proof {
            T::lemma_width();
            T::lemma_word_width();
            self[0].lemma_decode_encode();
            self[1].lemma_decode_encode();
        }
        let n: usize = T::SIZE;
        let (lo, rest) = b.split_at_mut(n);
        self[0].write(lo);
        self[1].write(rest);
        assert(b@ =~= self.encode() + old(b)@.subrange(2 * n, old(b)@.len() as int));
    }
}

/// The width and the alignment mask of each primitive: one, two, four and
/// eight bytes for the integers, and twice the width of its elements for a
/// pair; the mask is one less than the width.
pub proof fn lemma_widths()
    ensures
        <u8 as Primitive>::SIZE == 1 && <u8 as Primitive>::ALIGN == 0,
        <u16 as Primitive>::SIZE == 2 && <u16 as Primitive>::ALIGN == 1,
        <u32 as Primitive>::SIZE == 4 && <u32 as Primitive>::ALIGN == 3,
        <u64 as Primitive>::SIZE == 8 && <u64 as Primitive>::ALIGN == 7,
        <[u8; 2] as Primitive>::SIZE == 2 && <[u8; 2] as Primitive>::ALIGN == 1,
        <[u16; 2] as Primitive>::SIZE == 4 && <[u16; 2] as Primitive>::ALIGN == 3,
        <[u32; 2] as Primitive>::SIZE == 8 && <[u32; 2] as Primitive>::ALIGN == 7,
        <[u64; 2] as Primitive>::SIZE == 16 && <[u64; 2] as Primitive>::ALIGN == 15,
{
}

} // verus!
