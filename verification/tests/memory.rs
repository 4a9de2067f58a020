use std::cell::RefCell;
use std::rc::Rc;

use dynarmic::error::Error;
use dynarmic::memory::IOPage;
use dynarmic::memory::Memory;
use dynarmic::memory::MemoryImpl;
use dynarmic::memory::PageSpanKind;

#[test]
fn empty_mem_lookup_fails() {
    let mem = MemoryImpl::new();
    assert!(mem.lookup(0).is_none());
    assert!(mem.lookup(1).is_none());
}

#[test]
fn single_page_lookup_works() {
    let mut mem = MemoryImpl::new();
    mem.map_memory(0, 1, false).unwrap();
    assert!(mem.lookup(0).is_some());
    assert!(mem.lookup(1).is_none());
}

#[test]
fn multi_page_lookup_works() {
    let mut mem = MemoryImpl::new();
    mem.map_memory(0, 2, false).unwrap();
    assert!(mem.lookup(0).is_some());
    assert!(mem.lookup(1).is_some());
}

#[test]
fn lookup_reports_span_and_page_offset() {
    let mut mem = MemoryImpl::new();
    mem.map_memory(0x5000, 3, true).unwrap();
    assert!(mem.lookup(4).is_none());
    for page in 5..8u32 {
        let found = mem.lookup(page).unwrap();
        assert_eq!(found.offset, page - 5);
        assert_eq!(found.item.size(), 3);
        assert!(found.item.read_only());
        assert!(matches!(found.item.kind(), PageSpanKind::Normal { backing } if backing.len() == 3 * 4096));
    }
    assert!(mem.lookup(8).is_none());
}

#[test]
fn lookup_finds_the_right_span_among_many() {
    let mut mem = MemoryImpl::new();
    // registered out of order, with gaps
    mem.map_memory(0x9000, 2, false).unwrap();
    mem.map_memory(0x1000, 1, true).unwrap();
    mem.map_memory(0x4000, 3, false).unwrap();
    mem.map_memory(0x20000, 1, true).unwrap();
    let mapped: Vec<u32> = (0..0x30u32).filter(|p| mem.lookup(*p).is_some()).collect();
    assert_eq!(mapped, vec![1, 4, 5, 6, 9, 10, 0x20]);
    assert_eq!(mem.lookup(6).unwrap().offset, 2);
    assert_eq!(mem.lookup(10).unwrap().offset, 1);
    assert_eq!(mem.lookup(0x20).unwrap().offset, 0);
    assert!(mem.lookup(1).unwrap().item.read_only());
    assert!(!mem.lookup(9).unwrap().item.read_only());
}

#[test]
fn mapped_addresses_are_those_of_the_span() {
    let mut mem = MemoryImpl::new();
    mem.map_memory(0x3000, 2, false).unwrap();
    assert!(!mem.is_mapped(0x2fff));
    assert!(mem.is_mapped(0x3000));
    assert!(mem.is_mapped(0x3001));
    assert!(mem.is_mapped(0x4fff));
    assert!(!mem.is_mapped(0x5000));
    assert!(!mem.is_mapped(0));
    assert!(!mem.is_mapped(0xffff_ffff));
}

#[test]
fn map_truncates_the_address_to_its_page() {
    let mut mem = MemoryImpl::new();
    mem.map_memory(0x3abc, 1, false).unwrap();
    assert!(mem.is_mapped(0x3000));
    assert!(mem.is_mapped(0x3abb));
    assert!(mem.is_mapped(0x3fff));
    assert!(!mem.is_mapped(0x4000));
    assert!(!mem.is_mapped(0x4abc));
}

#[test]
fn map_refuses_overlap_and_changes_nothing() {
    let mut mem = MemoryImpl::new();
    mem.map_memory(0x4000, 4, false).unwrap();
    mem.write(0x4000, 0x55u8).unwrap();
    // same start
    assert_eq!(mem.map_memory(0x4000, 1, true), Err(Error::OverlapMapping));
    // reaches into the span from below
    assert_eq!(mem.map_memory(0x2000, 3, true), Err(Error::OverlapMapping));
    // starts inside the span
    assert_eq!(mem.map_memory(0x7000, 1, true), Err(Error::OverlapMapping));
    assert_eq!(mem.map_memory(0x7fff, 9, true), Err(Error::OverlapMapping));
    // encloses the span
    assert_eq!(mem.map_memory(0x0, 0x20, true), Err(Error::OverlapMapping));
    assert_eq!(mem.is_read_only(0x4000), Ok(false));
    assert_eq!(mem.read::<u8>(0x4000), Ok(0x55));
    assert!(!mem.is_mapped(0x2000));
    assert!(!mem.is_mapped(0x8000));
    // neighbours on both sides are fine
    assert_eq!(mem.map_memory(0x2000, 2, true), Ok(()));
    assert_eq!(mem.map_memory(0x8000, 1, true), Ok(()));
    assert_eq!(mem.is_read_only(0x3fff), Ok(true));
    assert_eq!(mem.is_read_only(0x4000), Ok(false));
    assert_eq!(mem.is_read_only(0x7fff), Ok(false));
    assert_eq!(mem.is_read_only(0x8000), Ok(true));
}

#[test]
fn map_of_no_pages_registers_nothing() {
    let mut mem = MemoryImpl::new();
    assert_eq!(mem.map_memory(0x1000, 0, false), Ok(()));
    assert!(!mem.is_mapped(0x1000));
    assert!(mem.lookup(1).is_none());
    mem.map_memory(0x1000, 1, false).unwrap();
    assert_eq!(mem.map_memory(0x1000, 0, true), Ok(()));
    assert_eq!(mem.is_read_only(0x1000), Ok(false));
}

#[test]
fn fresh_storage_is_zero() {
    let mut mem = MemoryImpl::new();
    mem.map_memory(0, 2, false).unwrap();
    assert_eq!(mem.read::<u64>(0), Ok(0));
    assert_eq!(mem.read::<u64>(0x1ff8), Ok(0));
    assert_eq!(mem.read::<[u64; 2]>(0xff0), Ok([0, 0]));
}

#[test]
fn unmapped_access_fails() {
    let mut mem = MemoryImpl::new();
    assert_eq!(mem.read::<u8>(0), Err(Error::UnmappedAccess));
    assert_eq!(mem.write(0, 1u8), Err(Error::UnmappedAccess));
    assert_eq!(mem.is_read_only(0), Err(Error::UnmappedAccess));
    mem.map_memory(0x1000, 1, false).unwrap();
    assert_eq!(mem.read::<u16>(0xffe), Err(Error::UnmappedAccess));
    assert_eq!(mem.read::<u32>(0x2000), Err(Error::UnmappedAccess));
    assert_eq!(mem.read::<u64>(0xffff_fff8), Err(Error::UnmappedAccess));
    assert_eq!(mem.write(0xfff, 7u8), Err(Error::UnmappedAccess));
    assert_eq!(mem.write(0x2000, [7u32, 8]), Err(Error::UnmappedAccess));
    assert_eq!(mem.is_read_only(0x2000), Err(Error::UnmappedAccess));
    // the failed writes left the mapped page alone
    assert_eq!(mem.read::<u64>(0x1000), Ok(0));
    assert_eq!(mem.read::<u64>(0x1ff8), Ok(0));
}

#[test]
fn write_then_read_returns_the_value() {
    let mut mem = MemoryImpl::new();
    mem.map_memory(0x10000, 2, false).unwrap();
    mem.write(0x10001, 0xa5u8).unwrap();
    assert_eq!(mem.read::<u8>(0x10001), Ok(0xa5));
    mem.write(0x10010, 0xbeefu16).unwrap();
    assert_eq!(mem.read::<u16>(0x10010), Ok(0xbeef));
    mem.write(0x10020, 0xdead_beefu32).unwrap();
    assert_eq!(mem.read::<u32>(0x10020), Ok(0xdead_beef));
    mem.write(0x10030, 0x0123_4567_89ab_cdefu64).unwrap();
    assert_eq!(mem.read::<u64>(0x10030), Ok(0x0123_4567_89ab_cdef));
    mem.write(0x10040, [0x11u8, 0x22]).unwrap();
    assert_eq!(mem.read::<[u8; 2]>(0x10040), Ok([0x11, 0x22]));
    mem.write(0x10050, [0x1122u16, 0x3344]).unwrap();
    assert_eq!(mem.read::<[u16; 2]>(0x10050), Ok([0x1122, 0x3344]));
    mem.write(0x10060, [0x1122_3344u32, 0x5566_7788]).unwrap();
    assert_eq!(mem.read::<[u32; 2]>(0x10060), Ok([0x1122_3344, 0x5566_7788]));
    mem.write(0x10070, [u64::MAX, 1u64]).unwrap();
    assert_eq!(mem.read::<[u64; 2]>(0x10070), Ok([u64::MAX, 1]));
    // the last bytes of the span
    mem.write(0x11ff0, [2u64, 3u64]).unwrap();
    assert_eq!(mem.read::<[u64; 2]>(0x11ff0), Ok([2, 3]));
}

#[test]
fn storage_is_little_endian() {
    let mut mem = MemoryImpl::new();
    mem.map_memory(0, 1, false).unwrap();
    mem.write(0x100, 0x0807_0605_0403_0201u64).unwrap();
    for i in 0..8u32 {
        assert_eq!(mem.read::<u8>(0x100 + i), Ok(i as u8 + 1));
    }
    assert_eq!(mem.read::<u16>(0x100), Ok(0x0201));
    assert_eq!(mem.read::<u16>(0x106), Ok(0x0807));
    assert_eq!(mem.read::<u32>(0x104), Ok(0x0807_0605));
    assert_eq!(mem.read::<[u32; 2]>(0x100), Ok([0x0403_0201, 0x0807_0605]));
    mem.write(0x200, 0x12u8).unwrap();
    mem.write(0x201, 0x34u8).unwrap();
    mem.write(0x202, 0x56u8).unwrap();
    mem.write(0x203, 0x78u8).unwrap();
    assert_eq!(mem.read::<u32>(0x200), Ok(0x7856_3412));
    mem.write(0x300, [0xaabbu16, 0xccdd]).unwrap();
    assert_eq!(mem.read::<u32>(0x300), Ok(0xccdd_aabb));
    assert_eq!(mem.read::<u8>(0x300), Ok(0xbb));
    assert_eq!(mem.read::<u8>(0x303), Ok(0xcc));
}

#[test]
fn write_changes_only_its_own_bytes() {
    let mut mem = MemoryImpl::new();
    mem.map_memory(0, 1, false).unwrap();
    mem.write(0x10, u64::MAX).unwrap();
    mem.write(0x18, u64::MAX).unwrap();
    mem.write(0x14, 0u16).unwrap();
    assert_eq!(mem.read::<u64>(0x10), Ok(0xffff_0000_ffff_ffff));
    assert_eq!(mem.read::<u64>(0x18), Ok(u64::MAX));
    assert_eq!(mem.read::<u64>(0x8), Ok(0));
}

#[test]
fn misaligned_access_is_the_aligned_one() {
    let mut mem = MemoryImpl::new();
    mem.map_memory(0x1000, 1, false).unwrap();
    mem.write(0x1003, 0x1122_3344u32).unwrap();
    assert_eq!(mem.read::<u32>(0x1000), Ok(0x1122_3344));
    assert_eq!(mem.read::<u32>(0x1001), Ok(0x1122_3344));
    assert_eq!(mem.read::<u32>(0x1002), Ok(0x1122_3344));
    assert_eq!(mem.read::<u32>(0x1003), Ok(0x1122_3344));
    assert_eq!(mem.read::<u32>(0x1004), Ok(0));
    mem.write(0x1fff, 0xaabbu16).unwrap();
    assert_eq!(mem.read::<u16>(0x1ffe), Ok(0xaabb));
    assert_eq!(mem.read::<u8>(0x1ffe), Ok(0xbb));
    assert_eq!(mem.read::<u8>(0x1fff), Ok(0xaa));
    mem.write(0x1f0f, [1u64, 2u64]).unwrap();
    assert_eq!(mem.read::<u64>(0x1f00), Ok(1));
    assert_eq!(mem.read::<u64>(0x1f08), Ok(2));
    assert_eq!(mem.read::<[u64; 2]>(0x1f01), Ok([1, 2]));
    // an access at the last byte of a span stays inside the span
    assert_eq!(mem.read::<u64>(0x1fff), Ok(0xaabb_0000_0000_0000));
    assert_eq!(mem.write(0x1fff, 0u64), Ok(()));
    assert_eq!(mem.read::<u16>(0x1ffe), Ok(0));
}

#[test]
fn pages_of_a_span_do_not_alias() {
    let mut mem = MemoryImpl::new();
    mem.map_memory(0x8000, 3, false).unwrap();
    mem.write(0x8001, 0x11u8).unwrap();
    mem.write(0x9000, 0x22u8).unwrap();
    mem.write(0xa000, 0x33u8).unwrap();
    mem.write(0x9001, 0x44u8).unwrap();
    assert_eq!(mem.read::<u8>(0x8001), Ok(0x11));
    assert_eq!(mem.read::<u8>(0x8000), Ok(0));
    assert_eq!(mem.read::<u8>(0x8002), Ok(0));
    assert_eq!(mem.read::<u8>(0x9000), Ok(0x22));
    assert_eq!(mem.read::<u8>(0x9001), Ok(0x44));
    assert_eq!(mem.read::<u8>(0xa000), Ok(0x33));
    assert_eq!(mem.read::<u16>(0x9000), Ok(0x4422));
}

#[test]
fn spans_do_not_alias() {
    let mut mem = MemoryImpl::new();
    mem.map_memory(0x1000, 1, false).unwrap();
    mem.map_memory(0x2000, 1, false).unwrap();
    mem.write(0x1000, 0xaaaa_aaaau32).unwrap();
    mem.write(0x2000, 0xbbbb_bbbbu32).unwrap();
    assert_eq!(mem.read::<u32>(0x1000), Ok(0xaaaa_aaaa));
    assert_eq!(mem.read::<u32>(0x2000), Ok(0xbbbb_bbbb));
}

#[test]
fn read_only_flag_is_the_one_registered() {
    let mut mem = MemoryImpl::new();
    mem.map_memory(0x1000, 2, true).unwrap();
    mem.map_memory(0x3000, 1, false).unwrap();
    for addr in [0x1000u32, 0x1001, 0x1fff, 0x2000, 0x2fff] {
        assert_eq!(mem.is_read_only(addr), Ok(true));
    }
    for addr in [0x3000u32, 0x3800, 0x3fff] {
        assert_eq!(mem.is_read_only(addr), Ok(false));
    }
    assert_eq!(mem.is_read_only(0x4000), Err(Error::UnmappedAccess));
}

#[test]
fn read_only_flag_does_not_stop_a_write() {
    let mut mem = MemoryImpl::new();
    mem.map_memory(0, 1, true).unwrap();
    assert_eq!(mem.write(0x20, 0x1234u16), Ok(()));
    assert_eq!(mem.read::<u16>(0x20), Ok(0x1234));
    assert_eq!(mem.is_read_only(0x20), Ok(true));
}

#[test]
fn span_may_end_with_the_address_space() {
    let mut mem = MemoryImpl::new();
    mem.map_memory(0xffff_f000, 1, false).unwrap();
    mem.write(0xffff_ffff, 0x0102_0304_0506_0708u64).unwrap();
    assert_eq!(mem.read::<u64>(0xffff_fff8), Ok(0x0102_0304_0506_0708));
    assert_eq!(mem.read::<u8>(0xffff_ffff), Ok(0x01));
    assert_eq!(mem.read::<u8>(0xffff_efff), Err(Error::UnmappedAccess));
    assert!(mem.lookup(0xf_ffff).is_some());
    assert!(mem.lookup(0x10_0000).is_none());
}

#[test]
fn lookup_mut_lends_the_span() {
    let mut mem = MemoryImpl::new();
    mem.map_memory(0x2000, 2, false).unwrap();
    assert!(mem.lookup_mut(1).is_none());
    assert!(mem.lookup_mut(4).is_none());
    let found = mem.lookup_mut(3).unwrap();
    assert_eq!(found.offset, 1);
    assert_eq!(found.item.size(), 2);
    assert!(!found.item.read_only());
}

#[test]
fn guest_program_is_stored_as_written() {
    let mut mem = MemoryImpl::new();
    mem.map_memory(0x0000_0000, 1, true).unwrap();
    mem.write(0, 0x0088u16).unwrap();
    mem.write(2, 0xE7FEu16).unwrap();
    mem.write(4, 0xEE1D_0F50u32).unwrap();
    mem.write(8, 0xEAFF_FFFEu32).unwrap();
    assert_eq!(mem.read::<u8>(0), Ok(0x88));
    assert_eq!(mem.read::<u8>(1), Ok(0x00));
    assert_eq!(mem.read::<u8>(2), Ok(0xFE));
    assert_eq!(mem.read::<u8>(3), Ok(0xE7));
    assert_eq!(mem.read::<u32>(0), Ok(0xE7FE_0088));
    assert_eq!(mem.read::<u32>(4), Ok(0xEE1D_0F50));
    assert_eq!(mem.read::<u64>(4), Ok(0xEE1D_0F50_E7FE_0088));
    assert_eq!(mem.read::<u64>(8), Ok(0x0000_0000_EAFF_FFFE));
    assert_eq!(mem.is_read_only(0), Ok(true));
}

/// A device with sixteen bytes of registers that records what it is asked.
struct Device {
    bytes: [u8; 16],
    log: Rc<RefCell<Vec<(char, usize, usize)>>>,
}

impl IOPage for Device {
    fn read(&mut self, o: usize, b: &mut [u8]) {
        self.log.borrow_mut().push(('r', o, b.len()));
        let n = b.len();
        b.copy_from_slice(&self.bytes[o..o + n]);
    }

    fn write(&mut self, o: usize, b: &[u8]) {
        self.log.borrow_mut().push(('w', o, b.len()));
        self.bytes[o..o + b.len()].copy_from_slice(b);
    }
}

#[test]
fn io_span_hands_accesses_to_its_handler() {
    let log = Rc::new(RefCell::new(Vec::new()));
    let mut mem = MemoryImpl::new();
    let device = Device { bytes: [0; 16], log: log.clone() };
    mem.map_io(0x4000, 1, Box::new(device), false).unwrap();
    assert!(mem.is_mapped(0x4000));
    assert!(matches!(mem.lookup(4).unwrap().item.kind(), PageSpanKind::MMIO { handler: Some(_) }));
    mem.write(0x4004, 0xdead_beefu32).unwrap();
    assert_eq!(mem.read::<u32>(0x4004), Ok(0xdead_beef));
    assert_eq!(mem.read::<u8>(0x4007), Ok(0xde));
    assert_eq!(mem.read::<u16>(0x4005), Ok(0xbeef));
    mem.write(0x400b, [0x0102_0304u32, 0x0506_0708]).unwrap();
    assert_eq!(mem.read::<[u64; 2]>(0x4003), Ok([0xdead_beef_0000_0000, 0x0506_0708_0102_0304]));
    assert_eq!(
        *log.borrow(),
        vec![('w', 4, 4), ('r', 4, 4), ('r', 7, 1), ('r', 4, 2), ('w', 8, 8), ('r', 0, 16)]
    );
    assert_eq!(mem.read::<u8>(0x5000), Err(Error::UnmappedAccess));
    assert_eq!(mem.is_read_only(0x4000), Ok(false));
}

#[test]
fn io_span_offsets_count_from_the_start_of_the_span() {
    struct Echo;
    impl IOPage for Echo {
        fn read(&mut self, o: usize, b: &mut [u8]) {
            b.copy_from_slice(&(o as u32).to_le_bytes()[..b.len()]);
        }
        fn write(&mut self, _o: usize, _b: &[u8]) {}
    }
    let mut mem = MemoryImpl::new();
    mem.map_io(0x7123, 3, Box::new(Echo), true).unwrap();
    assert_eq!(mem.read::<u32>(0x7000), Ok(0));
    assert_eq!(mem.read::<u32>(0x7ffc), Ok(0xffc));
    assert_eq!(mem.read::<u32>(0x8000), Ok(0x1000));
    assert_eq!(mem.read::<u32>(0x9abf), Ok(0x2abc));
    assert_eq!(mem.read::<u16>(0x9abf), Ok(0x2abe));
    assert_eq!(mem.read::<u32>(0xa000), Err(Error::UnmappedAccess));
    assert_eq!(mem.is_read_only(0x9000), Ok(true));
}

#[test]
fn io_span_refuses_overlap() {
    let log = Rc::new(RefCell::new(Vec::new()));
    let mut mem = MemoryImpl::new();
    mem.map_memory(0x1000, 1, false).unwrap();
    let device = Device { bytes: [0; 16], log: log.clone() };
    assert_eq!(mem.map_io(0x0, 2, Box::new(device), false), Err(Error::OverlapMapping));
    assert!(!mem.is_mapped(0));
    let device = Device { bytes: [0; 16], log: log.clone() };
    assert_eq!(mem.map_io(0x0, 0, Box::new(device), false), Ok(()));
    assert!(!mem.is_mapped(0));
    let device = Device { bytes: [0; 16], log: log.clone() };
    assert_eq!(mem.map_io(0x0, 1, Box::new(device), false), Ok(()));
    assert_eq!(mem.map_memory(0x0, 1, false), Err(Error::OverlapMapping));
    assert!(log.borrow().is_empty());
}

#[test]
fn empty_handler_slot_is_a_reentrant_access() {
    let mut kind = PageSpanKind::MMIO { handler: None };
    assert_eq!(kind.read::<u32>(0), Err(Error::ReentrantAccess));
    assert_eq!(kind.write(0, 1u32), Err(Error::ReentrantAccess));
    assert!(matches!(kind, PageSpanKind::MMIO { handler: None }));
}

#[test]
fn handler_stays_in_its_slot() {
    let log = Rc::new(RefCell::new(Vec::new()));
    let device = Device { bytes: [7; 16], log: log.clone() };
    let mut kind = PageSpanKind::MMIO { handler: Some(Box::new(device)) };
    assert_eq!(kind.read::<u16>(3), Ok(0x0707));
    assert!(matches!(kind, PageSpanKind::MMIO { handler: Some(_) }));
    assert_eq!(kind.write(9, 0x0102u16), Ok(()));
    assert!(matches!(kind, PageSpanKind::MMIO { handler: Some(_) }));
    assert_eq!(kind.read::<u32>(8), Ok(0x0707_0102));
    assert_eq!(*log.borrow(), vec![('r', 2, 2), ('w', 8, 2), ('r', 8, 4)]);
}

#[test]
fn storage_access_outside_the_storage_is_unmapped() {
    let mut kind = PageSpanKind::Normal { backing: vec![1, 2, 3, 4, 5, 6] };
    assert_eq!(kind.read::<u32>(0), Ok(0x0403_0201));
    assert_eq!(kind.read::<u16>(5), Ok(0x0605));
    assert_eq!(kind.read::<u32>(4), Err(Error::UnmappedAccess));
    assert_eq!(kind.read::<u64>(0), Err(Error::UnmappedAccess));
    assert_eq!(kind.read::<u8>(6), Err(Error::UnmappedAccess));
    assert_eq!(kind.read::<u8>(usize::MAX), Err(Error::UnmappedAccess));
    assert_eq!(kind.write(6, 9u8), Err(Error::UnmappedAccess));
    assert_eq!(kind.write(4, 9u32), Err(Error::UnmappedAccess));
    assert_eq!(kind.write(3, 0xaabbu16), Ok(()));
    assert!(matches!(&kind, PageSpanKind::Normal { backing } if backing[..] == [1, 2, 0xbb, 0xaa, 5, 6]));
}

#[test]
fn flag_survives_accesses_and_registrations() {
    let mut mem = MemoryImpl::new();
    mem.map_memory(0x3000, 2, true).unwrap();
    mem.map_memory(0x8000, 1, false).unwrap();
    for round in 0..50u32 {
        mem.write(0x3000 + round * 8, round as u64).unwrap();
        mem.write(0x8000 + round, round as u8).unwrap();
        assert_eq!(mem.read::<u64>(0x3000 + round * 8), Ok(round as u64));
        assert_eq!(mem.read::<u8>(0x2fff), Err(Error::UnmappedAccess));
        assert_eq!(mem.map_memory(0x4000, 1, false), Err(Error::OverlapMapping));
        assert_eq!(mem.map_memory(0x10000 + round * 0x1000, 1, round % 2 == 0), Ok(()));
        for addr in [0x3000u32, 0x3fff, 0x4000, 0x4fff] {
            assert_eq!(mem.is_read_only(addr), Ok(true));
        }
        assert_eq!(mem.is_read_only(0x8000), Ok(false));
        assert_eq!(mem.is_read_only(0x10000 + round * 0x1000), Ok(round % 2 == 0));
    }
    assert_eq!(mem.is_read_only(0x10000), Ok(true));
    assert_eq!(mem.is_read_only(0x11000), Ok(false));
}

#[test]
fn first_registration_maps_its_pages_alone() {
    for (a0, n) in [(0u32, 1u32), (0x7000, 3), (0x7abc, 3), (0xffff_e000, 2)] {
        let mut mem = MemoryImpl::new();
        mem.map_memory(a0, n, false).unwrap();
        let first = a0 >> 12;
        for a in [0u32, a0, a0 & !0xfff, (a0 & !0xfff).wrapping_sub(1), a0 | 0xfff, 0xffff_ffff] {
            let inside = first <= (a >> 12) && ((a >> 12) as u64) < first as u64 + n as u64;
            assert_eq!(mem.is_mapped(a), inside);
            assert_eq!(mem.lookup(a >> 12).is_some(), inside);
        }
        let last = ((first as u64 + n as u64) * 4096 - 1) as u32;
        assert!(mem.is_mapped(last));
        if last != u32::MAX {
            assert!(!mem.is_mapped(last + 1));
        }
    }
}
