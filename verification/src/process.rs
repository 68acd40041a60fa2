//! One process: its identity, tree links, run accounting, saved context,
//! status, and its virtual memory and shared data.

use vstd::prelude::*;
use crate::pid::ProcessId;
use crate::context::ProcessContext;
use crate::memory::MemoryModel;
use crate::vm::ProcessVm;
use crate::stack::STACK_MAX_PAGES;

verus! {

/// What the scheduler may do with a process.
#[derive(Debug, Copy, Clone, Eq, PartialEq, Structural)]
pub enum ProgramStatus {
    /// Its context is the one loaded on the CPU.
    Running,
    /// Waiting in the ready queue for the CPU.
    Ready,
    /// Waiting for a wake-up; never scheduled.
    Blocked,
    /// Terminal: resources released, only the exit code remains.
    Dead,
}

/// The mutable inner state of a process.
pub struct ProcessInner {
    /// The process's name.
    pub name: String,
    /// The parent, if it still exists; a weak link, never keeping the
    /// parent alive.
    pub parent: Option<ProcessId>,
    /// The children this process forked.
    pub children: Vec<ProcessId>,
    /// How many timer ticks the process has consumed.
    pub ticks_passed: usize,
    /// The scheduling status.
    pub status: ProgramStatus,
    /// The saved register context.
    pub context: ProcessContext,
    /// The exit code, set exactly once, at kill time.
    pub exit_code: Option<isize>,
    /// Handle on the family's shared data; `None` exactly when dead.
    pub proc_data: Option<usize>,
    /// The virtual memory; `None` exactly when dead.
    pub proc_vm: Option<ProcessVm>,
}

/// A process: its identity and its inner state.
pub struct Process {
    /// The process id, fixed at creation.
    pub pid: ProcessId,
    /// The inner state.
    pub inner: ProcessInner,
}

impl ProcessInner {
    /// Alive and dead states are consistent: the heavy resources exist
    /// exactly while the process is not dead, and a live process has a
    /// well-formed address space.
    pub open spec fn wf(self, mem: MemoryModel) -> bool {
        &&& (self.status is Dead <==> self.proc_vm is None)
        &&& (self.status is Dead <==> self.proc_data is None)
        &&& (self.status is Dead ==> self.exit_code is Some)
        &&& (self.proc_vm matches Some(vm) ==> vm.wf(mem) && vm.stack.usage > 0)
        &&& self.children@.len() < 0x10000
    }

    /// The process's name.
    pub fn name(&self) -> &String {
        &self.name
    }

    /// Count one consumed timer tick; the counter saturates rather than
    /// wrapping.
    pub fn tick(&mut self)
        ensures
            *final(self) == (ProcessInner {
                ticks_passed: (if old(self).ticks_passed < usize::MAX {
                    (old(self).ticks_passed + 1) as usize
                } else {
                    old(self).ticks_passed
                }),
                ..*old(self)
            }),
    {
        if self.ticks_passed < usize::MAX {
            self.ticks_passed = self.ticks_passed + 1;
        }
    }

    /// How many ticks the process has consumed.
    pub fn ticks_passed(&self) -> (r: usize)
        ensures
            r == self.ticks_passed,
    {
        self.ticks_passed
    }

    /// The scheduling status.
    pub fn status(&self) -> (r: ProgramStatus)
        ensures
            r == self.status,
    {
        self.status
    }

    /// Force a status.
    pub fn set_status(&mut self, status: ProgramStatus)
        ensures
            *final(self) == (ProcessInner { status, ..*old(self) }),
    {
        self.status = status;
    }

    /// Back to the ready queue's state.
    pub fn pause(&mut self)
        ensures
            *final(self) == (ProcessInner { status: ProgramStatus::Ready, ..*old(self) }),
    {
        self.status = ProgramStatus::Ready;
    }

    /// Onto the CPU.
    pub fn resume(&mut self)
        ensures
            *final(self) == (ProcessInner { status: ProgramStatus::Running, ..*old(self) }),
    {
        self.status = ProgramStatus::Running;
    }

    /// Off the schedule until woken.
    pub fn block(&mut self)
        ensures
            *final(self) == (ProcessInner { status: ProgramStatus::Blocked, ..*old(self) }),
    {
        self.status = ProgramStatus::Blocked;
    }

    /// The exit code, if the process has died.
    pub fn exit_code(&self) -> (r: Option<isize>)
        ensures
            r == self.exit_code,
    {
        self.exit_code
    }

    /// Whether the scheduler may pick this process.
    pub fn is_ready(&self) -> (r: bool)
        ensures
            r == (self.status is Ready),
    {
        self.status == ProgramStatus::Ready
    }

    /// Write the return-value register of the saved context.
    pub fn set_rax(&mut self, value: usize)
        ensures
            *final(self) == (ProcessInner {
                context: (ProcessContext { rax: value, ..old(self).context }),
                ..*old(self)
            }),
    {
        self.context.set_rax(value);
    }

    /// Point the saved context at an entry point and stack top.
    pub fn init_stack_frame(&mut self, entry: u64, stack_top: u64)
        ensures
            *final(self) == (ProcessInner {
                context: (ProcessContext {
                    instruction_pointer: entry,
                    stack_pointer: stack_top,
                    ..old(self).context
                }),
                ..*old(self)
            }),
    {
        self.context.init_stack_frame(entry, stack_top);
    }

    /// Save the trapped context and yield the CPU: a running process
    /// becomes ready; any other status is left alone, defensively.
    pub fn save(&mut self, context: &ProcessContext)
        ensures
            final(self).context == *context,
            old(self).status is Running ==> final(self).status is Ready,
            !(old(self).status is Running) ==> final(self).status == old(self).status,
            *final(self) == (ProcessInner {
                context: *context,
                status: final(self).status,
                ..*old(self)
            }),
    {
        self.context.save(context);
        if self.status == ProgramStatus::Running {
            self.pause();
        }
    }

    /// Restore the saved context into the trapped one and take the CPU:
    /// a ready process becomes running; any other status is left alone,
    /// defensively.
    pub fn restore(&mut self, context: &mut ProcessContext)
        ensures
            *final(context) == old(self).context,
            old(self).status is Ready ==> final(self).status is Running,
            !(old(self).status is Ready) ==> final(self).status == old(self).status,
            *final(self) == (ProcessInner { status: final(self).status, ..*old(self) }),
    {
        self.context.restore(context);
        if self.status == ProgramStatus::Ready {
            self.resume();
        }
    }

    /// The parent link.
    pub fn parent(&self) -> (r: Option<ProcessId>)
        ensures
            r == self.parent,
    {
        self.parent
    }

    /// Kill this process: record the exit code, go `Dead`, tear the
    /// address space down and let go of the shared data, handing its
    /// handle back for the family table.  Idempotence lives one level
    /// up: the manager never calls this on a dead process.
    pub fn kill(&mut self, ret: isize, mem: &mut MemoryModel, dealloc_stack: bool,
        last_owner: bool) -> (r: Option<usize>)
        requires
            old(self).wf(*old(mem)),
            !(old(self).status is Dead),
            old(mem).wf(),
        ensures
            final(mem).wf(),
            final(self).status is Dead,
            final(self).exit_code == Some(ret),
            final(self).proc_vm is None,
            final(self).proc_data is None,
            final(self).wf(*final(mem)),
            final(self).children == old(self).children,
            final(self).parent == old(self).parent,
            r == old(self).proc_data,
            final(mem).avail() >= old(mem).avail(),
            final(mem).same_tables_except(
                *old(mem),
                old(self).proc_vm.unwrap().page_table.addr,
            ),
            !last_owner ==> {
                let root = old(self).proc_vm.unwrap().page_table.addr;
                &&& final(mem).has_table(root)
                &&& final(mem).mapped(root) == old(mem).mapped(root) - old(
                    self,
                ).proc_vm.unwrap().stack.range.pages()
                &&& final(mem).users_of(root) >= 1
            },
    {
        self.exit_code = Some(ret);
        self.status = ProgramStatus::Dead;
        match self.proc_vm.take() {
            Some(mut vm) => {
                vm.clean_up(mem, dealloc_stack, last_owner);
            },
            None => {},
        }
        self.proc_data.take()
    }

    /// Fork this process: duplicate the address space (sharing the page
    /// table, copying the stack into a fresh slot), relocate the child's
    /// saved stack pointer into its slot, zero the child's return
    /// register, and share the family data handle.  `None` when memory
    /// is exhausted; nothing observable changes then.
    pub fn fork(&mut self, parent: ProcessId, mem: &mut MemoryModel) -> (r: Option<ProcessInner>)
        requires
            old(self).wf(*old(mem)),
            !(old(self).status is Dead),
            old(mem).wf(),
        ensures
            final(mem).wf(),
            *final(self) == *old(self),
            match r {
                Some(child) => {
                    let vm = old(self).proc_vm.unwrap();
                    let child_vm = child.proc_vm.unwrap();
                    &&& child.wf(*final(mem))
                    &&& child.status is Ready
                    &&& child.parent == Some(parent)
                    &&& child.children@.len() == 0
                    &&& child.exit_code is None
                    &&& child.proc_data == old(self).proc_data
                    &&& child.context.rax == 0
                    &&& child.ticks_passed == 0
                    &&& child.proc_vm is Some
                    &&& child_vm.root() == vm.root()
                    &&& child_vm.code@.len() == 0
                    &&& child_vm.stack.usage == vm.stack.usage
                    &&& child_vm.stack.words@ == vm.stack.words@
                    &&& old(mem).mapped(vm.root()).disjoint(child_vm.stack.range.pages())
                    &&& final(mem).mapped(vm.root()) == old(mem).mapped(vm.root())
                        + child_vm.stack.range.pages()
                    &&& final(mem).users_of(vm.root()) == old(mem).users_of(vm.root()) + 1
                    &&& final(mem).same_tables_except(*old(mem), vm.root())
                    &&& child.context.stack_pointer % crate::stack::STACK_MAX_SIZE == old(
                        self,
                    ).context.stack_pointer % crate::stack::STACK_MAX_SIZE
                },
                None => {
                    let vm = old(self).proc_vm.unwrap();
                    let offset = (old(self).children@.len() + 1) * STACK_MAX_PAGES;
                    &&& final(mem).same_view(*old(mem))
                    &&& (old(mem).users_of(vm.page_table.addr) == u64::MAX
                        || vm.stack.range.start < offset + crate::stack::STACK_AREA_BOT_PAGE
                        || old(mem).avail() < vm.stack.usage || exists|p: u64|
                        p < vm.stack.range.start && old(mem).mapped(vm.page_table.addr).contains(
                            p,
                        ))
                },
            },
    {
        let vm = match &self.proc_vm {
            Some(vm) => vm,
            None => {
                proof {
                    assert(false);
                }
                return None;
            },
        };
        let child_count: u64 = self.children.len() as u64;
        let stack_offset_count: u64 = (child_count + 1) * STACK_MAX_PAGES;
        proof {
            assert(stack_offset_count % STACK_MAX_PAGES == 0 && stack_offset_count
                >= STACK_MAX_PAGES) by (nonlinear_arith)
                requires
                    stack_offset_count == (child_count + 1) * STACK_MAX_PAGES && child_count
                        < 0x10000 && STACK_MAX_PAGES == 0x100000,
            ;
        }
        let child_vm = match vm.fork(stack_offset_count, mem) {
            Some(cv) => cv,
            None => {
                return None;
            },
        };
        // The child resumes on its own stack: keep the offset inside the
        // slot, swap the slot base for the child's.
        proof {
            lemma_slot_base(child_vm.stack.range.start);
        }
        let child_slot_base: u64 = child_vm.stack.range.start * crate::memory::PAGE_SIZE;
        let high: u64 = (child_slot_base / crate::stack::STACK_MAX_SIZE)
            * crate::stack::STACK_MAX_SIZE;
        let low: u64 = self.context.stack_pointer % crate::stack::STACK_MAX_SIZE;
        let child_sp: u64 = high + low;
        proof {
            vstd::arithmetic::div_mod::lemma_fundamental_div_mod(
                self.context.stack_pointer as int,
                crate::stack::STACK_MAX_SIZE as int,
            );
            vstd::arithmetic::div_mod::lemma_fundamental_div_mod_converse(
                child_sp as int,
                crate::stack::STACK_MAX_SIZE as int,
                child_slot_base as int / crate::stack::STACK_MAX_SIZE as int,
                low as int,
            );
        }
        let mut child_context = self.context;
        child_context.stack_pointer = child_sp;
        child_context.set_rax(0);
        Some(
            ProcessInner {
                name: self.name.clone(),
                parent: Some(parent),
                children: Vec::new(),
                ticks_passed: 0,
                status: ProgramStatus::Ready,
                context: child_context,
                exit_code: None,
                proc_data: self.proc_data,
                proc_vm: Some(child_vm),
            },
        )
    }
}

/// A page's byte address, rounded down to its slot base, leaves room
/// for a whole in-slot offset.
proof fn lemma_slot_base(start: u64)
    requires
        start < 0x10000000000000,
    ensures
        start * crate::memory::PAGE_SIZE <= 0xFFFFFFFFFFFFF000,
        (((start * crate::memory::PAGE_SIZE) as u64 as int) / crate::stack::STACK_MAX_SIZE as int)
            * crate::stack::STACK_MAX_SIZE <= 0xFFFFFFFF00000000,
{
    assert(start * crate::memory::PAGE_SIZE <= 0xFFFFFFFFFFFFF000) by (nonlinear_arith)
        requires
            start <= 0xFFFFFFFFFFFFF && crate::memory::PAGE_SIZE == 4096,
    ;
    let base = (start * crate::memory::PAGE_SIZE) as u64;
    assert((base as int / crate::stack::STACK_MAX_SIZE as int) * crate::stack::STACK_MAX_SIZE
        <= 0xFFFFFFFF00000000) by (nonlinear_arith)
        requires
            base <= 0xFFFFFFFFFFFFF000 && crate::stack::STACK_MAX_SIZE == 0x100000000,
    ;
}

impl Process {
    /// The process id.
    pub fn pid(&self) -> (r: ProcessId)
        ensures
            r == self.pid,
    {
        self.pid
    }

    /// A fresh process around the given address space and shared-data
    /// handle, ready to be scheduled.  The name is stored as given,
    /// without case folding.
    pub fn new(pid: ProcessId, name: String, parent: Option<ProcessId>, proc_vm: ProcessVm,
        proc_data: usize, mem: &MemoryModel) -> (r: Process)
        requires
            proc_vm.wf(*mem),
            proc_vm.stack.usage > 0,
        ensures
            r.pid == pid,
            r.inner.name == name,
            r.inner.wf(*mem),
            r.inner.status is Ready,
            r.inner.parent == parent,
            r.inner.children@.len() == 0,
            r.inner.exit_code is None,
            r.inner.proc_vm == Some(proc_vm),
            r.inner.proc_data == Some(proc_data),
            r.inner.context == ProcessContext::spec_default(),
            r.inner.ticks_passed == 0,
    {
        Process {
            pid,
            inner: ProcessInner {
                name,
                parent,
                children: Vec::new(),
                ticks_passed: 0,
                status: ProgramStatus::Ready,
                context: ProcessContext::new(),
                exit_code: None,
                proc_data: Some(proc_data),
                proc_vm: Some(proc_vm),
            },
        }
    }
}

} // verus!
