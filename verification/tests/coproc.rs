use std::cell::Cell;
use std::rc::Rc;

use dynarmic::coproc::Callback;
use dynarmic::coproc::CallbackHandler;
use dynarmic::coproc::CallbackOrAccess;
use dynarmic::coproc::CoprocReg;
use dynarmic::coproc::Coprocessor;
use dynarmic::coproc::CoprocessorCallbacks;
use dynarmic::coproc::RawCallback;
use dynarmic::memory::MemoryImpl;
use dynarmic::Handlers;

type Word = Rc<Cell<u32>>;

/// A coprocessor that answers nothing.
struct Silent;

impl Coprocessor<u32, Word> for Silent {}

/// A system-control coprocessor with one thread register.
struct Cp15 {
    tpidrurw: Word,
    pair: [Word; 2],
    asked: Cell<u32>,
    dropped: Rc<Cell<u32>>,
}

impl Drop for Cp15 {
    fn drop(&mut self) {
        self.dropped.set(self.dropped.get() + 1);
    }
}

impl Coprocessor<u32, Word> for Cp15 {
    fn compile_get_one_word(
        &self,
        two: bool,
        opc1: u32,
        cr_n: CoprocReg,
        cr_m: CoprocReg,
        opc2: u32,
    ) -> CallbackOrAccess<u32, Word> {
        self.asked.set(self.asked.get() + 1);
        if !two && opc1 == 0 && cr_n == CoprocReg::C13 && cr_m == CoprocReg::C0 && opc2 == 2 {
            CallbackOrAccess::Access(self.tpidrurw.clone())
        } else {
            CallbackOrAccess::Callback(opc2)
        }
    }

    fn compile_get_two_words(
        &self,
        _two: bool,
        _opc: u32,
        _cr_m: CoprocReg,
    ) -> CallbackOrAccess<u32, [Word; 2]> {
        CallbackOrAccess::Access(self.pair.clone())
    }

    fn compile_load_words(
        &self,
        _two: bool,
        long_transfer: bool,
        _cr_d: CoprocReg,
        option: Option<u8>,
    ) -> Callback<u32> {
        match option {
            Some(n) if long_transfer => Callback::Deferred(n as u32),
            _ => Callback::Unimplemented,
        }
    }
}

fn cp15(dropped: &Rc<Cell<u32>>) -> Cp15 {
    Cp15 {
        tpidrurw: Rc::new(Cell::new(0xAFFFA)),
        pair: [Rc::new(Cell::new(1)), Rc::new(Cell::new(2))],
        asked: Cell::new(0),
        dropped: dropped.clone(),
    }
}

#[test]
fn every_operation_is_unimplemented_by_default() {
    let unit = Silent;
    assert!(matches!(
        unit.compile_internal_operation(false, 0, CoprocReg::C0, CoprocReg::C1, CoprocReg::C2, 0),
        Callback::Unimplemented
    ));
    assert!(matches!(
        unit.compile_send_one_word(false, 0, CoprocReg::C0, CoprocReg::C1, 0),
        CallbackOrAccess::Unimplemented
    ));
    assert!(matches!(
        unit.compile_send_two_words(true, 1, CoprocReg::C3),
        CallbackOrAccess::Unimplemented
    ));
    assert!(matches!(
        unit.compile_get_one_word(false, 0, CoprocReg::C13, CoprocReg::C0, 2),
        CallbackOrAccess::Unimplemented
    ));
    assert!(matches!(
        unit.compile_get_two_words(true, 1, CoprocReg::C3),
        CallbackOrAccess::Unimplemented
    ));
    assert!(matches!(
        unit.compile_load_words(false, true, CoprocReg::C15, Some(4)),
        Callback::Unimplemented
    ));
    assert!(matches!(
        unit.compile_store_words(false, true, CoprocReg::C15, None),
        Callback::Unimplemented
    ));
}

#[test]
fn record_of_a_silent_unit_answers_unimplemented() {
    let record: CoprocessorCallbacks<u32, Word> = CoprocessorCallbacks::callbacks_from(Box::new(Silent));
    assert!(record.is_live());
    assert!(matches!(
        record.compile_internal_operation(false, 0, CoprocReg::C0, CoprocReg::C1, CoprocReg::C2, 0),
        Callback::Unimplemented
    ));
    assert!(matches!(
        record.compile_send_one_word(false, 0, CoprocReg::C0, CoprocReg::C1, 0),
        CallbackOrAccess::Unimplemented
    ));
    assert!(matches!(
        record.compile_send_two_words(true, 1, CoprocReg::C3),
        CallbackOrAccess::Unimplemented
    ));
    assert!(matches!(
        record.compile_get_one_word(false, 0, CoprocReg::C13, CoprocReg::C0, 2),
        CallbackOrAccess::Unimplemented
    ));
    assert!(matches!(
        record.compile_get_two_words(true, 1, CoprocReg::C3),
        CallbackOrAccess::Unimplemented
    ));
    assert!(matches!(
        record.compile_load_words(false, true, CoprocReg::C15, Some(4)),
        Callback::Unimplemented
    ));
    assert!(matches!(
        record.compile_store_words(false, true, CoprocReg::C15, None),
        Callback::Unimplemented
    ));
}

#[test]
fn record_hands_operations_to_its_unit() {
    let dropped = Rc::new(Cell::new(0));
    let unit = cp15(&dropped);
    let cell = unit.tpidrurw.clone();
    let record: CoprocessorCallbacks<u32, Word> = CoprocessorCallbacks::callbacks_from(Box::new(unit));
    match record.compile_get_one_word(false, 0, CoprocReg::C13, CoprocReg::C0, 2) {
        CallbackOrAccess::Access(word) => {
            // direct access is to the storage that the unit holds
            assert!(Rc::ptr_eq(&word, &cell));
            assert_eq!(word.get(), 0xAFFFA);
            word.set(0x1234);
            assert_eq!(cell.get(), 0x1234);
        }
        _ => panic!("the thread register is served by direct access"),
    }
    assert!(matches!(
        record.compile_get_one_word(false, 0, CoprocReg::C13, CoprocReg::C0, 3),
        CallbackOrAccess::Callback(3)
    ));
    assert!(matches!(
        record.compile_get_one_word(true, 0, CoprocReg::C13, CoprocReg::C0, 2),
        CallbackOrAccess::Callback(2)
    ));
    match record.compile_get_two_words(false, 0, CoprocReg::C2) {
        CallbackOrAccess::Access([lo, hi]) => {
            assert_eq!((lo.get(), hi.get()), (1, 2));
        }
        _ => panic!("the register pair is served by direct access"),
    }
    assert!(matches!(
        record.compile_load_words(false, true, CoprocReg::C1, Some(9)),
        Callback::Deferred(9)
    ));
    assert!(matches!(
        record.compile_load_words(false, false, CoprocReg::C1, Some(9)),
        Callback::Unimplemented
    ));
    assert!(matches!(
        record.compile_load_words(false, true, CoprocReg::C1, None),
        Callback::Unimplemented
    ));
    assert!(matches!(
        record.compile_send_one_word(false, 0, CoprocReg::C13, CoprocReg::C0, 2),
        CallbackOrAccess::Unimplemented
    ));
    assert!(matches!(
        record.compile_store_words(false, true, CoprocReg::C1, Some(9)),
        Callback::Unimplemented
    ));
}

#[test]
fn unit_is_released_once() {
    let dropped = Rc::new(Cell::new(0));
    let mut record: CoprocessorCallbacks<u32, Word> =
        CoprocessorCallbacks::callbacks_from(Box::new(cp15(&dropped)));
    assert!(record.is_live());
    assert_eq!(dropped.get(), 0);
    assert!(record.destroy());
    assert_eq!(dropped.get(), 1);
    assert!(!record.is_live());
    assert!(!record.destroy());
    assert!(!record.destroy());
    assert_eq!(dropped.get(), 1);
    assert!(matches!(
        record.compile_get_one_word(false, 0, CoprocReg::C13, CoprocReg::C0, 2),
        CallbackOrAccess::Unimplemented
    ));
    assert!(matches!(
        record.compile_get_two_words(false, 0, CoprocReg::C2),
        CallbackOrAccess::Unimplemented
    ));
    assert!(matches!(
        record.compile_load_words(false, true, CoprocReg::C1, Some(9)),
        Callback::Unimplemented
    ));
    drop(record);
    assert_eq!(dropped.get(), 1);
}

#[test]
fn unit_is_released_with_its_record() {
    let dropped = Rc::new(Cell::new(0));
    let record: CoprocessorCallbacks<u32, Word> =
        CoprocessorCallbacks::callbacks_from(Box::new(cp15(&dropped)));
    assert_eq!(dropped.get(), 0);
    drop(record);
    assert_eq!(dropped.get(), 1);
}

struct Adder;

impl CallbackHandler<u8, u64> for Adder {
    fn handle(jit: u8, context: &u64, arg0: u32, arg1: u32) -> u64 {
        *context + ((arg0 as u64) << 32) + arg1 as u64 + jit as u64
    }
}

#[test]
fn deferred_callback_runs_its_handler_on_the_bound_state() {
    let state = 0x100u64;
    let callback: RawCallback<u8, u64, Adder> = RawCallback::from(&state);
    assert_eq!(callback.invoke(1, 2, 3), 0x0000_0002_0000_0104);
    assert_eq!(callback.invoke(0, 0, 0), 0x100);
    assert_eq!(callback.invoke(0, 1, u32::MAX), 0x0000_0002_0000_00ff);
}

struct Board {
    memory: MemoryImpl,
    dropped: Rc<Cell<u32>>,
}

impl Handlers for Board {
    type Memory = MemoryImpl;
    type Deferred = u32;
    type Word = Word;

    fn memory(&self) -> &MemoryImpl {
        &self.memory
    }

    fn memory_mut(&mut self) -> &mut MemoryImpl {
        &mut self.memory
    }

    fn make_coprocessors(&mut self) -> Option<[Option<CoprocessorCallbacks<u32, Word>>; 16]> {
        let mut units: [Option<CoprocessorCallbacks<u32, Word>>; 16] = Default::default();
        units[15] = Some(CoprocessorCallbacks::callbacks_from(Box::new(cp15(&self.dropped))));
        Some(units)
    }
}

#[test]
fn host_registers_up_to_sixteen_units() {
    let dropped = Rc::new(Cell::new(0));
    let mut host = Board { memory: MemoryImpl::new(), dropped: dropped.clone() };
    let units = host.make_coprocessors().unwrap();
    assert_eq!(units.len(), 16);
    for unit in units.iter().take(15) {
        assert!(unit.is_none());
    }
    match units[15].as_ref().unwrap().compile_get_one_word(false, 0, CoprocReg::C13, CoprocReg::C0, 2)
    {
        CallbackOrAccess::Access(word) => assert_eq!(word.get(), 0xAFFFA),
        _ => panic!("unit fifteen serves the thread register"),
    }
    assert_eq!(dropped.get(), 0);
    drop(units);
    assert_eq!(dropped.get(), 1);
}
