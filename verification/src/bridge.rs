//! The host callback bridge: what the host answers when the engine calls
//! back for memory, supervisor calls, exceptions and its tick budget.

use vstd::prelude::*;
use crate::codec::decoded;
use crate::codec::Primitive;
use crate::coproc::CoprocessorCallbacks;
use crate::error::Error;
use crate::jit::JitContext;
use crate::jit::JitState;
use crate::memory::Memory;

verus! {

/// The class of a fault that the engine reports.
#[derive(Clone, Copy, Debug, PartialEq, Eq, Structural)]
pub enum Exception {
    UndefinedInstruction,
    UnpredictableInstruction,
    Breakpoint,
}

/// The answer to a call that nothing handles: `MissingHandler`, with the
/// host and the engine view as they were.
pub open spec fn missing_handler<H>(
    host: H,
    before: JitState,
    host_after: H,
    after: JitState,
    r: Result<(), Error>,
) -> bool {
    &&& r == Err::<(), Error>(Error::MissingHandler)
    &&& host_after == host
    &&& after == before
}

/// What the host supplies: the guest's memory, and, if it wants them, a
/// handler for supervisor calls, one for exceptions, and up to sixteen
/// coprocessors.
pub trait Handlers: Sized {
    /// The provider of guest memory.
    type Memory: Memory;

    /// The host's form of a coprocessor's deferred callback.
    type Deferred;

    /// The host's handle to one word of a coprocessor's storage.
    type Word;

    /// The host's invariant, which every operation needs and keeps. It
    /// covers the validity of the host's memory.
    open spec fn valid(&self) -> bool {
        true
    }

    /// Whether `memory` is the memory that the host holds. A host that says
    /// nothing here may hold any.
    open spec fn holds(&self, memory: &Self::Memory) -> bool {
        true
    }

    /// The guest's memory.
    fn memory(&self) -> (memory: &Self::Memory)
        requires
            self.valid(),
        ensures
            memory.valid(),
            self.holds(memory),
    ;

    /// The guest's memory, for access by the engine. The host holds
    /// afterwards what the borrower made of it, and is valid if that is.
    fn memory_mut(&mut self) -> (memory: &mut Self::Memory)
        requires
            old(self).valid(),
        ensures
            memory.valid(),
            old(self).holds(memory),
            final(memory).valid() ==> final(self).valid() && final(self).holds(final(memory)),
    ;

    /// What the host's handler makes of the supervisor call `swi`: the engine
    /// view before and after, the host afterwards, and the result. A host
    /// that says nothing here has no handler: nothing is an outcome, and a
    /// supervisor call is answered with `MissingHandler`. A host that
    /// installs a handler says here what the handler may do, `true` at the
    /// least.
    open spec fn svc_outcome(
        &self,
        before: JitState,
        swi: u32,
        host: Self,
        after: JitState,
        r: Result<(), Error>,
    ) -> bool {
        false
    }

    /// What the host's handler makes of a fault of class `exception` at
    /// `addr`: the engine view before and after, the host afterwards, and the
    /// result. A host that says nothing here has no handler: nothing is an
    /// outcome, and an exception is answered with `MissingHandler`. A host
    /// that installs a handler says here what the handler may do, `true` at
    /// the least.
    open spec fn exception_outcome(
        &self,
        before: JitState,
        addr: u32,
        exception: Exception,
        host: Self,
        after: JitState,
        r: Result<(), Error>,
    ) -> bool {
        false
    }

    /// Handles the supervisor call `swi`. The handler may inspect and change
    /// the engine's registers and ask for a halt through `context`. A host
    /// without a handler leaves this as it is: the call is then answered with
    /// `MissingHandler`, and the host and the registers stay as they were.
    fn handle_svc(&mut self, context: &mut JitContext, swi: u32) -> (r: Result<(), Error>)
        requires
            old(self).valid(),
        ensures
            final(self).valid(),
            missing_handler(*old(self), old(context)@, *final(self), final(context)@, r) || old(
                self,
            ).svc_outcome(
                old(context)@,
                swi,
                *final(self),
                final(context)@,
                r,
            ),
        default_ensures
            missing_handler(*old(self), old(context)@, *final(self), final(context)@, r),
    {
        Err(Error::MissingHandler)
    }

    /// Handles a fault of class `exception` at `addr`. The handler decides
    /// whether the guest goes on (`Ok`), stops (a halt request and `Ok`) or
    /// the run is given up (`Err`). A host without a handler leaves this as
    /// it is: every exception is then answered with `MissingHandler`, and the
    /// host and the registers stay as they were.
    fn handle_exception(&mut self, context: &mut JitContext, addr: u32, exception: Exception) -> (r:
        Result<(), Error>)
        requires
            old(self).valid(),
        ensures
            final(self).valid(),
            missing_handler(*old(self), old(context)@, *final(self), final(context)@, r) || old(
                self,
            ).exception_outcome(
                old(context)@,
                addr,
                exception,
                *final(self),
                final(context)@,
                r,
            ),
        default_ensures
            missing_handler(*old(self), old(context)@, *final(self), final(context)@, r),
    {
        Err(Error::MissingHandler)
    }

    /// The host's coprocessors by number, or `None` where it has none.
    fn make_coprocessors(&mut self) -> (units: Option<
        [Option<CoprocessorCallbacks<Self::Deferred, Self::Word>>; 16],
    >)
        requires
            old(self).valid(),
        ensures
            final(self).valid(),
        default_ensures
            units is None,
    {
        None
    }
}

/// The budget that is left of `budget` ticks after `ticks` were spent: the
/// difference, and nothing where more was spent than was there.
pub open spec fn remaining_after(budget: u64, ticks: u64) -> u64 {
    if ticks <= budget {
        (budget - ticks) as u64
    } else {
        0
    }
}

/// A debit from the full budget leaves the full budget less the debit.
pub proof fn lemma_debit_from_full(ticks: u64)
    ensures
        remaining_after(u64::MAX, ticks) == u64::MAX - ticks,
{
}

/// The sum of a run of debits.
pub open spec fn spent(debits: Seq<u64>) -> nat
    decreases debits.len(),
{
    if debits.len() == 0 {
        0
    } else {
        spent(debits.drop_last()) + debits.last() as nat
    }
}

/// The budget that is left of `budget` ticks after the debits were taken off
/// one after the other.
pub open spec fn remaining_after_all(budget: u64, debits: Seq<u64>) -> u64
    decreases debits.len(),
{
    if debits.len() == 0 {
        budget
    } else {
        remaining_after(remaining_after_all(budget, debits.drop_last()), debits.last())
    }
}

/// Debits taken off one after the other leave the budget less their sum,
/// and nothing where the sum is more than the budget: the budget never
/// wraps around.
pub proof fn lemma_debits_add_up(budget: u64, debits: Seq<u64>)
    ensures
        remaining_after_all(budget, debits) == if spent(debits) <= budget {
            budget - spent(debits)
        } else {
            0
        },
    decreases debits.len(),
{
    if debits.len() > 0 {
        lemma_debits_add_up(budget, debits.drop_last());
    }
}

/// The state of one execution: the host's handlers and the ticks that the
/// guest may still run.
pub struct Context<H: Handlers> {
    handlers: H,
    ticks: u64,
}

impl<H: Handlers> Context<H> {
    /// The ticks that are left.
    pub closed spec fn ticks(&self) -> u64 {
        self.ticks
    }

    /// The host's handlers.
    pub closed spec fn host(&self) -> H {
        self.handlers
    }

    /// The context's invariant, which is the host's.
    pub open spec fn wf(&self) -> bool {
        self.host().valid()
    }

    /// The context of a new execution, with the largest budget there is.
    pub fn new(handlers: H) -> (context: Self)
        ensures
            context.ticks() == u64::MAX,
            context.host() == handlers,
    {
        Context { handlers, ticks: u64::MAX }
    }

    /// The host's handlers.
    pub fn handlers(&self) -> (handlers: &H)
        ensures
            *handlers == self.host(),
    {
        &self.handlers
    }

    /// The host's handlers, for change. The budget stays.
    pub fn handlers_mut(&mut self) -> (handlers: &mut H)
        ensures
            *handlers == old(self).host(),
            final(self).host() == *final(handlers),
            final(self).ticks() == old(self).ticks(),
    {
        &mut self.handlers
    }

    /// Ends the execution and hands the handlers back to the host.
    pub fn into_handlers(self) -> (handlers: H)
        ensures
            handlers == self.host(),
    {
        self.handlers
    }

    /// Sets the budget for the next run. The handlers stay.
    pub fn set_ticks(&mut self, ticks: u64)
        ensures
            final(self).ticks() == ticks,
            final(self).host() == old(self).host(),
    {
        self.ticks = ticks;
    }

    /// Answers a memory read of the engine from the host's memory: the
    /// result is what the memory that the host holds gives for `addr`, and
    /// the host holds afterwards what the read left of it. The budget stays.
    pub fn read<T: Primitive>(&mut self, addr: u32) -> (r: Result<T, Error>)
        requires
            old(self).wf(),
        ensures
            final(self).wf(),
            final(self).ticks() == old(self).ticks(),
            exists|before: H::Memory, after: H::Memory, bytes: Result<Seq<u8>, Error>|
                {
                    &&& old(self).host().holds(&before)
                    &&& #[trigger] before.reads(addr, T::SIZE, T::ALIGN, &after, bytes)
                    &&& r == decoded::<T>(bytes)
                    &&& final(self).host().holds(&after)
                },
    {
        let memory = self.handlers.memory_mut();
        let ghost before = *memory;
        let r = memory.read(addr);
        proof {
            let bytes = choose|bytes: Result<Seq<u8>, Error>| #[trigger]
                before.reads(addr, T::SIZE, T::ALIGN, &*memory, bytes) && r == decoded::<T>(bytes);
            assert(before.reads(addr, T::SIZE, T::ALIGN, &*memory, bytes));
        }
        r
    }

    /// Answers a memory write of the engine to the host's memory: the
    /// result is what the memory that the host holds gives for `addr` and
    /// `value`, and the host holds afterwards what the write left of it. The
    /// budget stays.
    pub fn write<T: Primitive>(&mut self, addr: u32, value: T) -> (r: Result<(), Error>)
        requires
            old(self).wf(),
        ensures
            final(self).wf(),
            final(self).ticks() == old(self).ticks(),
            exists|before: H::Memory, after: H::Memory|
                {
                    &&& old(self).host().holds(&before)
                    &&& #[trigger] before.writes(addr, T::ALIGN, value.encode(), &after, r)
                    &&& final(self).host().holds(&after)
                },
    {
        let memory = self.handlers.memory_mut();
        let ghost before = *memory;
        let r = memory.write(addr, value);
        proof {
            assert(before.writes(addr, T::ALIGN, value.encode(), &*memory, r));
        }
        r
    }

    /// Answers the engine's question whether `addr` is read-only with what
    /// the memory that the host holds answers.
    pub fn is_read_only_memory(&self, addr: u32) -> (r: Result<bool, Error>)
        requires
            self.wf(),
        ensures
            exists|memory: H::Memory| self.host().holds(&memory) && #[trigger] memory.flags(addr, r),
    {
        let memory = self.handlers.memory();
        let r = memory.is_read_only(addr);
        proof {
            assert(memory.flags(addr, r));
        }
        r
    }

    /// Hands a supervisor call to the host's handler, together with the
    /// engine view for the time of the call, and returns the handler's
    /// answer. A host without a handler answers `MissingHandler` and stays as
    /// it was, and so do the registers. The budget stays.
    pub fn call_svc(&mut self, context: &mut JitContext, svc: u32) -> (r: Result<(), Error>)
        requires
            old(self).wf(),
        ensures
            final(self).wf(),
            final(self).ticks() == old(self).ticks(),
            missing_handler(
                old(self).host(),
                old(context)@,
                final(self).host(),
                final(context)@,
                r,
            ) || old(self).host().svc_outcome(
                old(context)@,
                svc,
                final(self).host(),
                final(context)@,
                r,
            ),
    {
        self.handlers.handle_svc(context, svc)
    }

    /// Reports a fault of class `exception` at `addr` to the host's handler
    /// and returns the handler's answer. A host without a handler answers
    /// `MissingHandler` and stays as it was, and so do the registers. The
    /// budget stays.
    pub fn exception_raised(&mut self, context: &mut JitContext, addr: u32, exception: Exception) -> (r:
        Result<(), Error>)
        requires
            old(self).wf(),
        ensures
            final(self).wf(),
            final(self).ticks() == old(self).ticks(),
            missing_handler(
                old(self).host(),
                old(context)@,
                final(self).host(),
                final(context)@,
                r,
            ) || old(self).host().exception_outcome(
                old(context)@,
                addr,
                exception,
                final(self).host(),
                final(context)@,
                r,
            ),
    {
        self.handlers.handle_exception(context, addr, exception)
    }

    /// Takes `ticks` off the budget. The budget stops at zero, and the
    /// handlers stay.
    pub fn add_ticks(&mut self, ticks: u64)
        ensures
            final(self).ticks() == remaining_after(old(self).ticks(), ticks),
            final(self).host() == old(self).host(),
    {
        self.ticks = self.ticks.saturating_sub(ticks);
    }

    /// The ticks that are left.
    pub fn get_ticks_remaining(&self) -> (ticks: u64)
        ensures
            ticks == self.ticks(),
    {
        self.ticks
    }
}

} // verus!
