//! The engine-access view: the engine's registers and control words, held
//! for the time of one callback or one inspection by the host.

use vstd::prelude::*;

verus! {

/// The mathematical content of a `JitContext`.
pub struct JitState {
    /// The sixteen general registers; the last one is the program counter.
    pub regs: Seq<u32>,
    /// The sixty-four extension registers.
    pub extregs: Seq<u32>,
    /// The current program status word.
    pub cpsr: u32,
    /// The floating-point status and control word.
    pub fpscr: u32,
    /// Whether the holder has asked the engine to stop at its next poll.
    pub halt_requested: bool,
}

/// The register file and control state of the engine, checked out to one
/// holder. Reading takes a shared borrow and changing an exclusive one, so
/// at most one change is under way at a time; whoever checked the state out
/// hands it back to the engine when the holder is done.
pub struct JitContext {
    regs: [u32; 16],
    extregs: [u32; 64],
    cpsr: u32,
    fpscr: u32,
    halt_requested: bool,
}

impl View for JitContext {
    type V = JitState;

    closed spec fn view(&self) -> JitState {
        JitState {
            regs: self.regs@,
            extregs: self.extregs@,
            cpsr: self.cpsr,
            fpscr: self.fpscr,
            halt_requested: self.halt_requested,
        }
    }
}

impl JitContext {
    /// The view of an engine with the given registers and control words, in
    /// which no halt has been asked for.
    pub fn new(regs: [u32; 16], extregs: [u32; 64], cpsr: u32, fpscr: u32) -> (context: JitContext)
        ensures
            context@ == (JitState {
                regs: regs@,
                extregs: extregs@,
                cpsr,
                fpscr,
                halt_requested: false,
            }),
    {
        JitContext { regs, extregs, cpsr, fpscr, halt_requested: false }
    }

    /// The general registers.
    pub fn regs(&self) -> (regs: &[u32; 16])
        ensures
            regs@ == self@.regs,
    {
        &self.regs
    }

    /// The general registers, for change. Nothing else changes.
    pub fn regs_mut(&mut self) -> (regs: &mut [u32; 16])
        ensures
            regs@ == old(self)@.regs,
            final(self)@ == (JitState { regs: final(regs)@, ..old(self)@ }),
    {
        &mut self.regs
    }

    /// The extension registers.
    pub fn extregs(&self) -> (extregs: &[u32; 64])
        ensures
            extregs@ == self@.extregs,
    {
        &self.extregs
    }

    /// The extension registers, for change. Nothing else changes.
    pub fn extregs_mut(&mut self) -> (extregs: &mut [u32; 64])
        ensures
            extregs@ == old(self)@.extregs,
            final(self)@ == (JitState { extregs: final(extregs)@, ..old(self)@ }),
    {
        &mut self.extregs
    }

    /// The current program status word.
    pub fn cpsr(&self) -> (cpsr: u32)
        ensures
            cpsr == self@.cpsr,
    {
        self.cpsr
    }

    /// Sets the current program status word. Nothing else changes.
    pub fn set_cpsr(&mut self, cpsr: u32)
        ensures
            final(self)@ == (JitState { cpsr, ..old(self)@ }),
    {
        self.cpsr = cpsr;
    }

    /// The floating-point status and control word.
    pub fn fpscr(&self) -> (fpscr: u32)
        ensures
            fpscr == self@.fpscr,
    {
        self.fpscr
    }

    /// Sets the floating-point status and control word. Nothing else changes.
    pub fn set_fpscr(&mut self, fpscr: u32)
        ensures
            final(self)@ == (JitState { fpscr, ..old(self)@ }),
    {
        self.fpscr = fpscr;
    }

    /// Asks the engine to stop at its next poll. The request stays.
    pub fn halt(&mut self)
        ensures
            final(self)@ == (JitState { halt_requested: true, ..old(self)@ }),
    {
        self.halt_requested = true;
    }

    /// Whether a halt has been asked for.
    pub fn halt_requested(&self) -> (requested: bool)
        ensures
            requested == self@.halt_requested,
    {
        self.halt_requested
    }
}

} // verus!
