//! The instruction memory: queues finalized programs until the processor is
//! ready for them, and records which peers confirmed execution.

use vstd::prelude::*;

use crate::instructions::{Program, ProgramIdentifier};
use crate::types::PeerId;

verus! {

/// The instruction memory as a subsystem.
pub struct Module;

impl crate::module::Module for Module {
    type InEvent = InstructionMemoryInEvent;

    type OutEvent = InstructionMemoryOutEvent;

    type SharedState = crate::module::AlwaysReady;
}

/// What the instruction memory is told.
#[derive(Debug, Clone)]
pub enum InstructionMemoryInEvent {
    /// A program reached finality and awaits execution.
    FinalizedProgram(Program),
    /// A peer confirmed that it executed the program.
    ExecutedProgram { peer: PeerId, program_id: ProgramIdentifier },
}

/// What the instruction memory reports.
#[derive(Debug, Clone)]
pub enum InstructionMemoryOutEvent {
    /// The next program awaiting execution.
    NextProgram(Program),
    /// Every known peer confirmed execution of the program.
    FinishedExecution(ProgramIdentifier),
}

/// Queues finalized programs in finalization order and keeps the log of
/// execution confirmations.
pub struct InstructionMemory {
    programs: Vec<Program>,
    confirmations: Vec<(ProgramIdentifier, PeerId)>,
}

impl InstructionMemory {
    /// The queued programs, oldest first.
    pub closed spec fn programs_seq(&self) -> Seq<Program> {
        self.programs@
    }

    /// The log of execution confirmations, in arrival order.
    pub closed spec fn confirmations_seq(&self) -> Seq<(ProgramIdentifier, PeerId)> {
        self.confirmations@
    }

    /// An empty instruction memory.
    pub fn new() -> (r: Self)
        ensures
            r.programs_seq().len() == 0,
            r.confirmations_seq().len() == 0,
    {
        InstructionMemory { programs: Vec::new(), confirmations: Vec::new() }
    }

    /// Takes one event in: a finalized program joins the queue, a
    /// confirmation joins the log.
    pub fn handle_event(&mut self, event: InstructionMemoryInEvent)
        ensures
            match event {
                InstructionMemoryInEvent::FinalizedProgram(p) => final(self).programs_seq()
                    == old(self).programs_seq().push(p) && final(self).confirmations_seq()
                    == old(self).confirmations_seq(),
                InstructionMemoryInEvent::ExecutedProgram { peer, program_id } => final(self).programs_seq() == old(self).programs_seq() && final(self).confirmations_seq() == old(self).confirmations_seq().push(
                    (program_id, peer),
                ),
            },
    {
        match event {
            InstructionMemoryInEvent::FinalizedProgram(p) => {
                self.programs.push(p);
            },
            InstructionMemoryInEvent::ExecutedProgram { peer, program_id } => {
                self.confirmations.push((program_id, peer));
            },
        }
    }

    /// Hands out the oldest queued program, if any.
    pub fn poll_next_program(&mut self) -> (r: Option<InstructionMemoryOutEvent>)
        ensures
            final(self).confirmations_seq() == old(self).confirmations_seq(),
            match r {
                Some(e) => {
                    &&& old(self).programs_seq().len() > 0
                    &&& e matches InstructionMemoryOutEvent::NextProgram(p) && p == old(self).programs_seq()[0]
                    &&& final(self).programs_seq() == old(self).programs_seq().subrange(
                        1,
                        old(self).programs_seq().len() as int,
                    )
                },
                None => old(self).programs_seq().len() == 0 && *final(self) == *old(self),
            },
    {
        if self.programs.len() == 0 {
            return None;
        }
        let p = self.programs.remove(0);
        proof {
            assert(self.programs@ =~= old(self).programs@.subrange(
                1,
                old(self).programs@.len() as int,
            ));
        }
        Some(InstructionMemoryOutEvent::NextProgram(p))
    }
}

} // verus!
