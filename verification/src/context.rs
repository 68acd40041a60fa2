//! Saved trap context of a process.
//!
//! The hardware pushes an interrupt stack frame and the trap stub saves the
//! general registers; the model keeps the registers the kernel logic reads
//! or writes: the return-value register `rax`, the three syscall argument
//! registers, and the interrupt frame's stack and instruction pointers.

use vstd::prelude::*;

verus! {

/// The register snapshot saved for a process while it is not running.
#[derive(Clone, Copy, PartialEq, Eq, Structural, Debug)]
pub struct ProcessContext {
    /// Return-value register; syscall results are written here.
    pub rax: usize,
    /// First syscall argument register.
    pub rdi: usize,
    /// Second syscall argument register.
    pub rsi: usize,
    /// Third syscall argument register.
    pub rdx: usize,
    /// Saved stack pointer of the interrupt stack frame.
    pub stack_pointer: u64,
    /// Saved instruction pointer of the interrupt stack frame.
    pub instruction_pointer: u64,
}

impl ProcessContext {
    /// The all-zero context.
    pub open spec fn spec_default() -> ProcessContext {
        ProcessContext { rax: 0, rdi: 0, rsi: 0, rdx: 0, stack_pointer: 0, instruction_pointer: 0 }
    }

    /// An all-zero context, the state of a process before its first run.
    pub fn new() -> (r: ProcessContext)
        ensures
            r == (ProcessContext {
                rax: 0,
                rdi: 0,
                rsi: 0,
                rdx: 0,
                stack_pointer: 0,
                instruction_pointer: 0,
            }),
    {
        ProcessContext { rax: 0, rdi: 0, rsi: 0, rdx: 0, stack_pointer: 0, instruction_pointer: 0 }
    }

    /// Write the return-value register.
    pub fn set_rax(&mut self, value: usize)
        ensures
            *final(self) == (ProcessContext { rax: value, ..*old(self) }),
    {
        self.rax = value;
    }

    /// Overwrite this saved context with the trapped one.
    pub fn save(&mut self, context: &ProcessContext)
        ensures
            *final(self) == *context,
    {
        *self = *context;
    }

    /// Write this saved context back into the trapped one.
    pub fn restore(&self, context: &mut ProcessContext)
        ensures
            *final(context) == *self,
    {
        *context = *self;
    }

    /// Point the context at a program entry and a fresh stack top, as done
    /// when a process is first spawned.
    pub fn init_stack_frame(&mut self, entry: u64, stack_top: u64)
        ensures
            *final(self) == (ProcessContext {
                instruction_pointer: entry,
                stack_pointer: stack_top,
                ..*old(self)
            }),
    {
        self.instruction_pointer = entry;
        self.stack_pointer = stack_top;
    }
}

impl Default for ProcessContext {
    /// The default context is the all-zero context.
    fn default() -> (r: ProcessContext)
        ensures
            r == (ProcessContext {
                rax: 0,
                rdi: 0,
                rsi: 0,
                rdx: 0,
                stack_pointer: 0,
                instruction_pointer: 0,
            }),
    {
        ProcessContext::new()
    }
}

} // verus!
