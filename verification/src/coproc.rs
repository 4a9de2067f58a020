//! Coprocessors: auxiliary units that the guest addresses with dedicated
//! instructions, each modelled as a capability object of the host.
//!
//! The engine asks a coprocessor, while it compiles an instruction, how the
//! instruction is to be carried out. The answer is one of three: nothing,
//! and the engine faults on the instruction; a deferred callback, which the
//! engine compiles into the instruction stream and invokes later with two
//! operands; or, for a register transfer, direct access to the storage
//! behind the register.

use vstd::prelude::*;
use std::marker::PhantomData;

verus! {

/// A coprocessor register.
#[derive(Copy, Clone, Debug, PartialEq, Eq, Structural)]
pub enum CoprocReg {
    C0,
    C1,
    C2,
    C3,
    C4,
    C5,
    C6,
    C7,
    C8,
    C9,
    C10,
    C11,
    C12,
    C13,
    C14,
    C15,
}

/// The host's side of a deferred callback: `handle` is what runs when the
/// engine reaches the compiled instruction. `J` is the host's view of the
/// engine and `C` the state that the callback was bound to.
pub trait CallbackHandler<J, C> {
    /// Whether `handle` may return `result` for these operands and this state.
    open spec fn handles(context: &C, arg0: u32, arg1: u32, result: u64) -> bool {
        true
    }

    fn handle(jit: J, context: &C, arg0: u32, arg1: u32) -> (result: u64)
        ensures
            Self::handles(context, arg0, arg1, result),
    ;
}

/// A deferred callback: the handler `H` bound to the state it works on.
pub struct RawCallback<'a, J, C, H> {
    context: &'a C,
    _phantom: PhantomData<(J, H)>,
}

impl<'a, J, C, H: CallbackHandler<J, C>> RawCallback<'a, J, C, H> {
    /// The state that the callback is bound to.
    pub closed spec fn context(&self) -> &'a C {
        self.context
    }

    /// Binds the handler `H` to `context`.
    pub fn from(context: &'a C) -> (callback: Self)
        ensures
            callback.context() == context,
    {
        RawCallback { context, _phantom: PhantomData }
    }

    /// Runs the callback on two operands: the handler is handed the engine
    /// view, the bound state and the operands, and its result is returned.
    pub fn invoke(&self, jit: J, arg0: u32, arg1: u32) -> (result: u64)
        ensures
            H::handles(self.context(), arg0, arg1, result),
    {
        H::handle(jit, self.context, arg0, arg1)
    }
}

/// What a coprocessor answers for an instruction that moves no register.
pub enum Callback<F> {
    /// Nothing: the engine faults on the instruction.
    Unimplemented,
    /// A deferred callback.
    Deferred(F),
}

/// What a coprocessor answers for a register transfer.
pub enum CallbackOrAccess<F, T> {
    /// Nothing: the engine faults on the instruction.
    Unimplemented,
    /// A deferred callback.
    Callback(F),
    /// Direct access to the storage behind the register, which the engine
    /// reads and writes without calling back.
    Access(T),
}

/// A capability object for one coprocessor. `F` is the host's form of a
/// deferred callback and `W` its handle to one word of storage.
///
/// Every operation answers `Unimplemented` unless the object says otherwise.
/// To each operation belongs a spec function, named `answers_` and the
/// operation's name without `compile_`, in which an object says which other
/// answers it gives; an object that says nothing there gives none, and an
/// object that implements the operation says there what the operation may
/// answer, `true` at the least.
pub trait Coprocessor<F, W> {
    /// Whether the object may give the answer `r` to `compile_internal_operation`.
    open spec fn answers_internal_operation(
        &self,
        two: bool,
        opc1: u32,
        cr_d: CoprocReg,
        cr_n: CoprocReg,
        cr_m: CoprocReg,
        opc2: u32,
        r: Callback<F>,
    ) -> bool {
        false
    }

    /// Whether the object may give the answer `r` to `compile_send_one_word`.
    open spec fn answers_send_one_word(
        &self,
        two: bool,
        opc1: u32,
        cr_n: CoprocReg,
        cr_m: CoprocReg,
        opc2: u32,
        r: CallbackOrAccess<F, W>,
    ) -> bool {
        false
    }

    /// Whether the object may give the answer `r` to `compile_send_two_words`.
    open spec fn answers_send_two_words(
        &self,
        two: bool,
        opc: u32,
        cr_m: CoprocReg,
        r: CallbackOrAccess<F, [W; 2]>,
    ) -> bool {
        false
    }

    /// Whether the object may give the answer `r` to `compile_get_one_word`.
    open spec fn answers_get_one_word(
        &self,
        two: bool,
        opc1: u32,
        cr_n: CoprocReg,
        cr_m: CoprocReg,
        opc2: u32,
        r: CallbackOrAccess<F, W>,
    ) -> bool {
        false
    }

    /// Whether the object may give the answer `r` to `compile_get_two_words`.
    open spec fn answers_get_two_words(
        &self,
        two: bool,
        opc: u32,
        cr_m: CoprocReg,
        r: CallbackOrAccess<F, [W; 2]>,
    ) -> bool {
        false
    }

    /// Whether the object may give the answer `r` to `compile_load_words`.
    open spec fn answers_load_words(
        &self,
        two: bool,
        long_transfer: bool,
        cr_d: CoprocReg,
        option: Option<u8>,
        r: Callback<F>,
    ) -> bool {
        false
    }

    /// Whether the object may give the answer `r` to `compile_store_words`.
    open spec fn answers_store_words(
        &self,
        two: bool,
        long_transfer: bool,
        cr_d: CoprocReg,
        option: Option<u8>,
        r: Callback<F>,
    ) -> bool {
        false
    }

    /// How the coprocessor carries out an operation on its own registers.
    fn compile_internal_operation(
        &self,
        two: bool,
        opc1: u32,
        cr_d: CoprocReg,
        cr_n: CoprocReg,
        cr_m: CoprocReg,
        opc2: u32,
    ) -> (r: Callback<F>)
        ensures
            r is Unimplemented || self.answers_internal_operation(two, opc1, cr_d, cr_n, cr_m, opc2, r),
        default_ensures
            r is Unimplemented,
    {
        Callback::Unimplemented
    }

    /// How the coprocessor takes one word from the guest.
    fn compile_send_one_word(
        &self,
        two: bool,
        opc1: u32,
        cr_n: CoprocReg,
        cr_m: CoprocReg,
        opc2: u32,
    ) -> (r: CallbackOrAccess<F, W>)
        ensures
            r is Unimplemented || self.answers_send_one_word(two, opc1, cr_n, cr_m, opc2, r),
        default_ensures
            r is Unimplemented,
    {
        CallbackOrAccess::Unimplemented
    }

    /// How the coprocessor takes two words from the guest.
    fn compile_send_two_words(
        &self,
        two: bool,
        opc: u32,
        cr_m: CoprocReg,
    ) -> (r: CallbackOrAccess<F, [W; 2]>)
        ensures
            r is Unimplemented || self.answers_send_two_words(two, opc, cr_m, r),
        default_ensures
            r is Unimplemented,
    {
        CallbackOrAccess::Unimplemented
    }

    /// How the coprocessor gives one word to the guest.
    fn compile_get_one_word(
        &self,
        two: bool,
        opc1: u32,
        cr_n: CoprocReg,
        cr_m: CoprocReg,
        opc2: u32,
    ) -> (r: CallbackOrAccess<F, W>)
        ensures
            r is Unimplemented || self.answers_get_one_word(two, opc1, cr_n, cr_m, opc2, r),
        default_ensures
            r is Unimplemented,
    {
        CallbackOrAccess::Unimplemented
    }

    /// How the coprocessor gives two words to the guest.
    fn compile_get_two_words(
        &self,
        two: bool,
        opc: u32,
        cr_m: CoprocReg,
    ) -> (r: CallbackOrAccess<F, [W; 2]>)
        ensures
            r is Unimplemented || self.answers_get_two_words(two, opc, cr_m, r),
        default_ensures
            r is Unimplemented,
    {
        CallbackOrAccess::Unimplemented
    }

    /// How the coprocessor loads words from memory.
    fn compile_load_words(
        &self,
        two: bool,
        long_transfer: bool,
        cr_d: CoprocReg,
        option: Option<u8>,
    ) -> (r: Callback<F>)
        ensures
            r is Unimplemented || self.answers_load_words(two, long_transfer, cr_d, option, r),
        default_ensures
            r is Unimplemented,
    {
        Callback::Unimplemented
    }

    /// How the coprocessor stores words to memory.
    fn compile_store_words(
        &self,
        two: bool,
        long_transfer: bool,
        cr_d: CoprocReg,
        option: Option<u8>,
    ) -> (r: Callback<F>)
        ensures
            r is Unimplemented || self.answers_store_words(two, long_transfer, cr_d, option, r),
        default_ensures
            r is Unimplemented,
    {
        Callback::Unimplemented
    }
}

/// The record of one registered coprocessor. It owns the capability object
/// from registration until `destroy` releases it; the engine reaches the
/// object only through the record. After the release every operation
/// answers `Unimplemented`.
#[verifier::reject_recursive_types(F)]
#[verifier::reject_recursive_types(W)]
pub struct CoprocessorCallbacks<F, W> {
    this: Option<Box<dyn Coprocessor<F, W>>>,
}

impl<F, W> CoprocessorCallbacks<F, W> {
    /// The capability object that the record owns, if it still owns one.
    pub closed spec fn object(&self) -> Option<Box<dyn Coprocessor<F, W>>> {
        self.this
    }

    /// Whether the record still owns its capability object.
    pub open spec fn live(&self) -> bool {
        self.object() is Some
    }

    /// Registers a capability object: the record takes it over, and asks it
    /// from now on.
    pub fn callbacks_from<T: Coprocessor<F, W> + 'static>(coproc: Box<T>) -> (record: Self)
        ensures
            ({
                let registered: Box<dyn Coprocessor<F, W>> = coproc;
                record.object() matches Some(object) && object == registered
            }),
    {
        let object: Box<dyn Coprocessor<F, W>> = coproc;
        let slot = Some(object);
        CoprocessorCallbacks { this: slot }
    }

    /// Whether the record still owns its capability object.
    pub fn is_live(&self) -> (live: bool)
        ensures
            live == self.live(),
    {
        self.this.is_some()
    }

    /// Releases the capability object. Only the first call finds one to
    /// release and reports so; the record is empty afterwards.
    pub fn destroy(&mut self) -> (released: bool)
        ensures
            released == old(self).live(),
            !final(self).live(),
    {
        match self.this.take() {
            Some(_) => true,
            None => false,
        }
    }

    /// Asks the capability object; a record that has released its object
    /// answers `Unimplemented`. The object is asked with the arguments as
    /// they came, and its answer is returned as it is.
    pub fn compile_internal_operation(
        &self,
        two: bool,
        opc1: u32,
        cr_d: CoprocReg,
        cr_n: CoprocReg,
        cr_m: CoprocReg,
        opc2: u32,
    ) -> (r: Callback<F>)
        ensures
            r is Unimplemented || (self.object() matches Some(object)
                && object.answers_internal_operation(two, opc1, cr_d, cr_n, cr_m, opc2, r)),
    {
        match &self.this {
            Some(object) => object.compile_internal_operation(two, opc1, cr_d, cr_n, cr_m, opc2),
            None => Callback::Unimplemented,
        }
    }

    /// Asks the capability object; a record that has released its object
    /// answers `Unimplemented`. The object is asked with the arguments as
    /// they came, and its answer is returned as it is.
    pub fn compile_send_one_word(
        &self,
        two: bool,
        opc1: u32,
        cr_n: CoprocReg,
        cr_m: CoprocReg,
        opc2: u32,
    ) -> (r: CallbackOrAccess<F, W>)
        ensures
            r is Unimplemented || (self.object() matches Some(object)
                && object.answers_send_one_word(two, opc1, cr_n, cr_m, opc2, r)),
    {
        match &self.this {
            Some(object) => object.compile_send_one_word(two, opc1, cr_n, cr_m, opc2),
            None => CallbackOrAccess::Unimplemented,
        }
    }

    /// Asks the capability object; a record that has released its object
    /// answers `Unimplemented`. The object is asked with the arguments as
    /// they came, and its answer is returned as it is.
    pub fn compile_send_two_words(
        &self,
        two: bool,
        opc: u32,
        cr_m: CoprocReg,
    ) -> (r: CallbackOrAccess<F, [W; 2]>)
        ensures
            r is Unimplemented || (self.object() matches Some(object)
                && object.answers_send_two_words(two, opc, cr_m, r)),
    {
        match &self.this {
            Some(object) => object.compile_send_two_words(two, opc, cr_m),
            None => CallbackOrAccess::Unimplemented,
        }
    }

    /// Asks the capability object; a record that has released its object
    /// answers `Unimplemented`. The object is asked with the arguments as
    /// they came, and its answer is returned as it is.
    pub fn compile_get_one_word(
        &self,
        two: bool,
        opc1: u32,
        cr_n: CoprocReg,
        cr_m: CoprocReg,
        opc2: u32,
    ) -> (r: CallbackOrAccess<F, W>)
        ensures
            r is Unimplemented || (self.object() matches Some(object)
                && object.answers_get_one_word(two, opc1, cr_n, cr_m, opc2, r)),
    {
        match &self.this {
            Some(object) => object.compile_get_one_word(two, opc1, cr_n, cr_m, opc2),
            None => CallbackOrAccess::Unimplemented,
        }
    }

    /// Asks the capability object; a record that has released its object
    /// answers `Unimplemented`. The object is asked with the arguments as
    /// they came, and its answer is returned as it is.
    pub fn compile_get_two_words(
        &self,
        two: bool,
        opc: u32,
        cr_m: CoprocReg,
    ) -> (r: CallbackOrAccess<F, [W; 2]>)
        ensures
            r is Unimplemented || (self.object() matches Some(object)
                && object.answers_get_two_words(two, opc, cr_m, r)),
    {
        match &self.this {
            Some(object) => object.compile_get_two_words(two, opc, cr_m),
            None => CallbackOrAccess::Unimplemented,
        }
    }

    /// Asks the capability object; a record that has released its object
    /// answers `Unimplemented`. The object is asked with the arguments as
    /// they came, and its answer is returned as it is.
    pub fn compile_load_words(
        &self,
        two: bool,
        long_transfer: bool,
        cr_d: CoprocReg,
        option: Option<u8>,
    ) -> (r: Callback<F>)
        ensures
            r is Unimplemented || (self.object() matches Some(object)
                && object.answers_load_words(two, long_transfer, cr_d, option, r)),
    {
        match &self.this {
            Some(object) => object.compile_load_words(two, long_transfer, cr_d, option),
            None => Callback::Unimplemented,
        }
    }

    /// Asks the capability object; a record that has released its object
    /// answers `Unimplemented`. The object is asked with the arguments as
    /// they came, and its answer is returned as it is.
    pub fn compile_store_words(
        &self,
        two: bool,
        long_transfer: bool,
        cr_d: CoprocReg,
        option: Option<u8>,
    ) -> (r: Callback<F>)
        ensures
            r is Unimplemented || (self.object() matches Some(object)
                && object.answers_store_words(two, long_transfer, cr_d, option, r)),
    {
        match &self.this {
            Some(object) => object.compile_store_words(two, long_transfer, cr_d, option),
            None => Callback::Unimplemented,
        }
    }
}

} // verus!
