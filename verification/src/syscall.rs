//! The system-call boundary: the syscall numbering, the decoded argument
//! record, the flows that may replace the running context, and the
//! dispatcher that ties them together.

use vstd::prelude::*;
use crate::manager::ProcessManager;
use crate::memory::{MemoryModel, PageRange};
use crate::context::ProcessContext;
use crate::pid::{ProcessId, KERNEL_PID};
use crate::process::ProgramStatus;
use crate::sync::SemaphoreResult;
use crate::input::InputBuffer;
use crate::boot::AppInfo;

verus! {

/// The system calls the kernel answers.
///
/// The break call has no trap number in this table: the numbering is
/// closed over the values below, and the break is driven through
/// [`crate::manager::ProcessManager::brk`] instead of a trapped kind.
#[derive(Clone, Copy, Debug, PartialEq, Eq, Structural)]
pub enum Syscall {
    /// Read from a descriptor.
    Read,
    /// Write to a descriptor.
    Write,
    /// The current time.
    GetTime,
    /// The caller's pid.
    GetPid,
    /// Semaphore operations, selected by the first argument.
    Sem,
    /// List a directory (diagnostic text).
    ListDir,
    /// Open a file by path.
    OpenFile,
    /// Close a descriptor.
    CloseFile,
    /// Duplicate the calling process.
    Fork,
    /// Start a pre-loaded application.
    Spawn,
    /// End the calling process.
    Exit,
    /// Wait for a process to exit.
    WaitPid,
    /// List pre-loaded applications (diagnostic text).
    ListApp,
    /// List processes (diagnostic text).
    Stat,
    /// Allocate user-heap memory.
    Allocate,
    /// Free user-heap memory.
    Deallocate,
    /// Anything else.
    Unknown,
}

/// The syscall a trapped number selects.
pub open spec fn spec_syscall_of(num: usize) -> Syscall {
    if num == 0 {
        Syscall::Read
    } else if num == 1 {
        Syscall::Write
    } else if num == 2 {
        Syscall::GetTime
    } else if num == 39 {
        Syscall::GetPid
    } else if num == 40 {
        Syscall::Sem
    } else if num == 42 {
        Syscall::ListDir
    } else if num == 43 {
        Syscall::OpenFile
    } else if num == 44 {
        Syscall::CloseFile
    } else if num == 58 {
        Syscall::Fork
    } else if num == 59 {
        Syscall::Spawn
    } else if num == 60 {
        Syscall::Exit
    } else if num == 61 {
        Syscall::WaitPid
    } else if num == 65531 {
        Syscall::ListApp
    } else if num == 65532 {
        Syscall::Stat
    } else if num == 65533 {
        Syscall::Allocate
    } else if num == 65534 {
        Syscall::Deallocate
    } else {
        Syscall::Unknown
    }
}

/// The syscall a trapped number selects; unrecognized numbers fall back
/// to `Unknown`.
#[verifier::when_used_as_spec(spec_syscall_of)]
pub fn syscall_of(num: usize) -> (r: Syscall)
    ensures
        r == spec_syscall_of(num),
{
    if num == 0 {
        Syscall::Read
    } else if num == 1 {
        Syscall::Write
    } else if num == 2 {
        Syscall::GetTime
    } else if num == 39 {
        Syscall::GetPid
    } else if num == 40 {
        Syscall::Sem
    } else if num == 42 {
        Syscall::ListDir
    } else if num == 43 {
        Syscall::OpenFile
    } else if num == 44 {
        Syscall::CloseFile
    } else if num == 58 {
        Syscall::Fork
    } else if num == 59 {
        Syscall::Spawn
    } else if num == 60 {
        Syscall::Exit
    } else if num == 61 {
        Syscall::WaitPid
    } else if num == 65531 {
        Syscall::ListApp
    } else if num == 65532 {
        Syscall::Stat
    } else if num == 65533 {
        Syscall::Allocate
    } else if num == 65534 {
        Syscall::Deallocate
    } else {
        Syscall::Unknown
    }
}

/// The fixed argument record decoded from the trapped registers.
#[derive(Clone, Copy, Debug, PartialEq, Eq, Structural)]
pub struct SyscallArgs {
    /// Which call.
    pub syscall: Syscall,
    /// First argument.
    pub arg0: usize,
    /// Second argument.
    pub arg1: usize,
    /// Third argument.
    pub arg2: usize,
}

impl SyscallArgs {
    /// Bundle the decoded registers.
    pub fn new(syscall: Syscall, arg0: usize, arg1: usize, arg2: usize) -> (r: SyscallArgs)
        ensures
            r == (SyscallArgs { syscall, arg0, arg1, arg2 }),
    {
        SyscallArgs { syscall, arg0, arg1, arg2 }
    }
}

/// The user heap hander behind the allocate and deallocate calls: a
/// bump pointer, so every granted block is fresh; freeing reclaims
/// nothing in this model.
pub struct UserAllocator {
    /// The next address to hand out.
    pub next: u64,
}

impl UserAllocator {
    /// An allocator starting at the given base.
    pub fn new(base: u64) -> (r: UserAllocator)
        ensures
            r.next == base,
    {
        UserAllocator { next: base }
    }

    /// Grant `size` bytes aligned to `align`; a zero size or impossible
    /// request answers the null address.
    pub fn allocate(&mut self, size: usize, align: usize) -> (r: usize)
        ensures
            final(self).next >= old(self).next,
            size == 0 ==> r == 0 && *final(self) == *old(self),
            r != 0 ==> r >= old(self).next && r as int + size <= final(self).next,
    {
        if size == 0 {
            return 0;
        }
        let align: u64 = if align == 0 {
            1
        } else {
            align as u64
        };
        if self.next > u64::MAX - align {
            return 0;
        }
        let rem = self.next % align;
        let base = if rem == 0 {
            self.next
        } else {
            self.next + (align - rem)
        };
        if base == 0 || base > u64::MAX - (size as u64) || base > usize::MAX as u64 || base + (
        size as u64) > usize::MAX as u64 {
            return 0;
        }
        self.next = base + (size as u64);
        base as usize
    }

    /// Release a granted block.  The bump pointer reclaims nothing, so
    /// freed memory is never reused; the request changes nothing.
    pub fn deallocate(&mut self, addr: usize, size: usize)
        ensures
            *final(self) == *old(self),
    {
        let _ = addr;
        let _ = size;
    }
}

/// Save the running process, requeue it while it lives, and hand the
/// CPU to the next ready process: the timer path.
pub fn switch(pm: &mut ProcessManager, context: &mut ProcessContext, mem: &MemoryModel)
    requires
        old(pm).wf(*mem),
    ensures
        final(pm).wf(*mem),
        ({
            // Round-robin fairness: with the head of the queue ready, it
            // is chosen and the saved current process joins the tail.
            let q = old(pm).ready_queue@;
            let c = old(pm).current;
            (q.len() > 0 && old(pm).has_proc(q[0]) && old(pm).proc_of(q[0]).inner.status
                is Ready && q[0] != c && old(pm).live(c)) ==> final(pm).current == q[0] && final(pm).ready_queue@ == q.drop_first().push(c)
        }),
{
    let ghost q0 = pm.ready_queue@;
    pm.save_current(context, mem);
    let cur = pm.current;
    let alive = match pm.get_proc(cur) {
        Some(p) => p.inner.status != ProgramStatus::Dead,
        None => false,
    };
    if alive {
        pm.push_ready(cur);
    }
    let ghost before_switch = *pm;
    let r = pm.switch_next(context, mem);
    proof {
        if q0.len() > 0 && old(pm).has_proc(q0[0]) && old(pm).proc_of(q0[0]).inner.status
            is Ready && q0[0] != old(pm).current && old(pm).live(old(pm).current) {
            assert(before_switch.ready_queue@ == q0.push(old(pm).current));
            assert(before_switch.ready_queue@[0] == q0[0]);
            assert(before_switch.proc_of(q0[0]).inner.status is Ready);
            assert(final(pm).ready_queue@ == before_switch.ready_queue@.drop_first());
            assert(final(pm).ready_queue@ =~= q0.drop_first().push(old(pm).current));
        }
    }
}

/// End the calling process with an exit code and schedule away: the
/// `exit` syscall never returns to its caller.
pub fn exit_process(pm: &mut ProcessManager, ret: isize, context: &mut ProcessContext,
    mem: &mut MemoryModel)
    requires
        old(pm).wf(*old(mem)),
        old(pm).current != KERNEL_PID,
        old(pm).live(old(pm).current),
    ensures
        final(pm).wf(*final(mem)),
        final(mem).wf(),
        final(pm).has_proc(old(pm).current),
        final(pm).proc_of(old(pm).current).inner.status is Dead,
        final(pm).proc_of(old(pm).current).inner.exit_code == Some(ret),
{
    let cur = pm.current;
    pm.kill(cur, ret, mem);
    let ghost killed = *pm;
    let r = pm.switch_next(context, mem);
    proof {
        assert(final(pm).procs@.contains_key(old(pm).current));
        if r != old(pm).current {
            assert(killed.procs@[old(pm).current] == final(pm).procs@[old(pm).current]);
        } else {
            assert(killed.proc_of(r).inner.status is Dead);
            assert(!(killed.proc_of(r).inner.status is Ready));
            assert(final(pm).procs@ == killed.procs@);
        }
    }
}

/// Wait for a process: an already dead target answers its exit code at
/// once, without ever blocking the caller; a live one records the
/// caller as a waiter, blocks it and schedules away.
pub fn wait_process(pm: &mut ProcessManager, pid: u16, context: &mut ProcessContext,
    mem: &MemoryModel)
    requires
        old(pm).wf(*mem),
        old(pm).live(old(pm).current),
    ensures
        final(pm).wf(*mem),
        ({
            let target = old(pm).proc_of(pid);
            &&& (old(pm).has_proc(pid) && target.inner.status is Dead && target.inner.exit_code
                is Some) ==> {
                // The caller keeps its status and its place: it is never
                // blocked here, and only the return register moves.
                &&& final(context).rax == target.inner.exit_code.unwrap() as usize
                &&& *final(context) == (ProcessContext {
                    rax: target.inner.exit_code.unwrap() as usize,
                    ..*old(context)
                })
                &&& final(pm).procs@ == old(pm).procs@
                &&& final(pm).current == old(pm).current
                &&& final(pm).ready_queue == old(pm).ready_queue
                &&& final(pm).wait_queue == old(pm).wait_queue
                &&& final(pm).proc_of(old(pm).current).inner.status == old(pm).proc_of(
                    old(pm).current,
                ).inner.status
            }
            &&& !(old(pm).has_proc(pid) && target.inner.status is Dead && target.inner.exit_code
                is Some) ==> final(pm).waiters_of(pid).contains(old(pm).current)
        }),
{
    match pm.get_exit_code(pid) {
        Some(ret) => {
            context.set_rax(ret as usize);
        },
        None => {
            let cur = pm.current;
            pm.wait_pid(pid, cur);
            pm.save_current(context, mem);
            pm.block(cur, mem);
            let ghost blocked = *pm;
            let r = pm.switch_next(context, mem);
            proof {
                assert(final(pm).waiters_of(pid) == blocked.waiters_of(pid));
            }
        },
    }
}

/// The fork syscall flow: save the parent, duplicate it, requeue the
/// parent and schedule.  The parent's saved return register holds the
/// child's pid, the child's holds zero.
pub fn fork(pm: &mut ProcessManager, context: &mut ProcessContext, mem: &mut MemoryModel)
    requires
        old(pm).wf(*old(mem)),
        old(pm).live(old(pm).current),
    ensures
        final(pm).wf(*final(mem)),
        final(mem).wf(),
        ({
            let parent = old(pm).current;
            // Success shows as the pid counter moving: exactly one child
            // then exists, fresh, ready to run, with the return-register
            // convention; the parent was saved with the child's pid.
            &&& final(pm).next_pid == old(pm).next_pid + 1 || final(pm).next_pid == old(
                pm,
            ).next_pid
            &&& final(pm).next_pid == old(pm).next_pid + 1 ==> ({
                let child = old(pm).next_pid;
                &&& !old(pm).has_proc(child)
                &&& final(pm).has_proc(child)
                &&& (final(pm).proc_of(child).inner.status is Ready || final(pm).proc_of(
                    child,
                ).inner.status is Running)
                &&& final(pm).proc_of(child).inner.context.rax == 0
                &&& final(pm).proc_of(parent).inner.context.rax == child as usize
                &&& final(pm).proc_of(parent).inner.context == (ProcessContext {
                    rax: child as usize,
                    ..*old(context)
                })
            })
            // Either way the CPU went to the next ready process, or back
            // to the parent when none was ready.
            &&& final(pm).proc_of(final(pm).current).inner.status is Running || final(pm).current
                == parent
            // A child is owed whenever nothing is exhausted: pids and
            // children below their bounds, the table sharable, a free
            // slot under the parent's, and frames for the stack copy.
            &&& ({
                let vm = old(pm).proc_of(parent).inner.proc_vm.unwrap();
                let offset = (old(pm).proc_of(parent).inner.children@.len() + 1)
                    * crate::stack::STACK_MAX_PAGES;
                (old(pm).next_pid < u16::MAX && old(pm).proc_of(parent).inner.children@.len()
                    < 0xFFFF && old(mem).users_of(vm.page_table.addr) < u64::MAX
                    && vm.stack.range.start >= offset + crate::stack::STACK_AREA_BOT_PAGE && old(
                    mem,
                ).avail() >= vm.stack.usage && (forall|p: u64|
                    p < vm.stack.range.start ==> !old(mem).mapped(vm.page_table.addr).contains(
                        p,
                    ))) ==> final(pm).next_pid == old(pm).next_pid + 1
            })
        }),
{
    let cur = pm.current;
    pm.save_current(context, mem);
    let ghost saved = *pm;
    let forked = pm.fork(mem);
    proof {
        assert(!(saved.proc_of(cur).inner.status is Running));
        assert(pm.current == cur);
        assert(pm.procs@.contains_key(cur));
        match forked {
            Some(child) => {
                assert(pm.proc_of(cur).inner.status == saved.proc_of(cur).inner.status);
            },
            None => {
                assert(pm.procs@[cur] == saved.procs@[cur]);
                let vm = old(pm).proc_of(cur).inner.proc_vm.unwrap();
                let offset = (old(pm).proc_of(cur).inner.children@.len() + 1)
                    * crate::stack::STACK_MAX_PAGES;
                if old(pm).next_pid < u16::MAX && old(pm).proc_of(cur).inner.children@.len()
                    < 0xFFFF && old(mem).users_of(vm.page_table.addr) < u64::MAX
                    && vm.stack.range.start >= offset + crate::stack::STACK_AREA_BOT_PAGE && old(
                    mem,
                ).avail() >= vm.stack.usage && (forall|p: u64|
                    p < vm.stack.range.start ==> !old(mem).mapped(vm.page_table.addr).contains(
                        p,
                    )) {
                    // Nothing was exhausted, so the fork cannot have
                    // refused: contradict every cause.
                    assert(saved.proc_of(cur).inner.proc_vm == Some(vm));
                    assert(saved.proc_of(cur).inner.children@ == old(pm).proc_of(
                        cur,
                    ).inner.children@);
                    assert(saved.next_pid == old(pm).next_pid);
                    assert(saved.next_pid != u16::MAX);
                    assert(saved.proc_of(cur).inner.children@.len() < 0xFFFF);
                    assert(old(mem).users_of(vm.page_table.addr) != u64::MAX);
                    assert(!(vm.stack.range.start < offset
                        + crate::stack::STACK_AREA_BOT_PAGE));
                    assert(!(old(mem).avail() < vm.stack.usage));
                    if exists|p: u64|
                        p < vm.stack.range.start && old(mem).mapped(vm.page_table.addr).contains(
                            p,
                        ) {
                        let p = choose|p: u64|
                            p < vm.stack.range.start && old(mem).mapped(
                                vm.page_table.addr,
                            ).contains(p);
                        assert(false);
                    }
                    assert(false);
                }
            },
        }
        assert(!(pm.proc_of(cur).inner.status is Running));
    }
    match forked {
        Some(_) => {},
        None => {},
    }
    pm.push_ready(cur);
    let r = pm.switch_next(context, mem);
}

/// The semaphore-wait syscall flow: an immediate grant or a missing key
/// answers in the return register; a blocking wait saves the caller,
/// blocks it and schedules away, to resume later as a success.
pub fn sem_wait(pm: &mut ProcessManager, key: u32, context: &mut ProcessContext,
    mem: &MemoryModel)
    requires
        old(pm).wf(*mem),
        old(pm).live(old(pm).current),
    ensures
        final(pm).wf(*mem),
        !old(pm).current_sems().contains_key(key) ==> final(context).rax == 1,
        old(pm).current_sems().contains_key(key) && old(pm).current_sems()[key].count > 0
            ==> final(context).rax == 0 && final(pm).data_table@[old(pm).proc_of(
            old(pm).current,
        ).inner.proc_data.unwrap()].data.semaphores.sems@[key].count == old(pm).current_sems()[
            key].count - 1,
        old(pm).current_sems().contains_key(key) && old(pm).current_sems()[key].count == 0 ==> {
            // The caller was pushed onto the semaphore's queue and
            // blocked.
            &&& final(pm).data_table@[old(pm).proc_of(
                old(pm).current,
            ).inner.proc_data.unwrap()].data.semaphores.sems@[key].wait_queue@ == old(
                pm,
            ).current_sems()[key].wait_queue@.push(ProcessId(old(pm).current))
            &&& final(pm).proc_of(old(pm).current).inner.status is Blocked
        },
{
    let cur = pm.current;
    let r = pm.sem_wait(key, cur, mem);
    match r {
        SemaphoreResult::Done => {
            context.set_rax(0);
        },
        SemaphoreResult::NotExist => {
            context.set_rax(1);
        },
        SemaphoreResult::Block(_) => {
            pm.save_current(context, mem);
            pm.block(cur, mem);
            let r2 = pm.switch_next(context, mem);
        },
        SemaphoreResult::WakeUp(_) => {
            proof {
                assert(false);
            }
        },
    }
}

/// The semaphore-signal syscall flow: a missing key or a plain increment
/// answer in the return register; a pending waiter is woken and requeued
/// with its own wait completing as a success.
pub fn sem_signal(pm: &mut ProcessManager, key: u32, context: &mut ProcessContext,
    mem: &MemoryModel)
    requires
        old(pm).wf(*mem),
        old(pm).live(old(pm).current),
    ensures
        final(pm).wf(*mem),
        !old(pm).current_sems().contains_key(key) ==> final(context).rax == 1,
        old(pm).current_sems().contains_key(key) && old(pm).current_sems()[
            key].wait_queue@.len() == 0 ==> final(context).rax == 0,
        old(pm).current_sems().contains_key(key) && old(pm).current_sems()[key].wait_queue@.len()
            > 0 ==> {
            // FIFO wakeup: the oldest waiter leaves the queue and, if it
            // still lives, runs again as ready.
            let woken = old(pm).current_sems()[key].wait_queue@[0];
            &&& final(context).rax == 2
            &&& final(pm).data_table@[old(pm).proc_of(
                old(pm).current,
            ).inner.proc_data.unwrap()].data.semaphores.sems@[key].wait_queue@ == old(
                pm,
            ).current_sems()[key].wait_queue@.drop_first()
            &&& (old(pm).has_proc(woken.0) && !(old(pm).proc_of(woken.0).inner.status is Dead)
                ==> final(pm).proc_of(woken.0).inner.status is Ready
                    && final(pm).proc_of(woken.0).inner.context.rax == old(pm).proc_of(
                    woken.0,
                ).inner.context.rax && final(pm).ready_queue@.contains(woken.0))
        },
{
    let r = pm.sem_signal(key, mem);
    match r {
        SemaphoreResult::Done => {
            context.set_rax(0);
        },
        SemaphoreResult::NotExist => {
            context.set_rax(1);
        },
        SemaphoreResult::WakeUp(pid) => {
            context.set_rax(2);
            let ghost before = *pm;
            pm.wake_up(pid.0, None, mem);
            proof {
                if before.has_proc(pid.0) && !(before.proc_of(pid.0).inner.status is Dead) {
                    assert(pm.ready_queue@ == before.ready_queue@.push(pid.0));
                    assert(pm.ready_queue@[pm.ready_queue@.len() - 1] == pid.0);
                }
            }
        },
        SemaphoreResult::Block(_) => {
            proof {
                assert(false);
            }
        },
    }
}

/// Decode and perform one system call.  The caller has already pulled
/// the argument record out of the trapped registers and resolved the
/// user pointers: `buf` is the read or write buffer, `name` the path or
/// application name, `opened` a file the storage stack resolved for an
/// open call, and `now` the clock's answer for a time call.  The result
/// lands in the trapped context's return register; fork, exit and a
/// blocking semaphore wait may replace the whole context.
pub fn dispatcher(
    pm: &mut ProcessManager,
    mem: &mut MemoryModel,
    input: &mut InputBuffer,
    ualloc: &mut UserAllocator,
    args: &SyscallArgs,
    buf: &mut Vec<u8>,
    name: &String,
    opened: Option<crate::resource::Resource>,
    now: usize,
    context: &mut ProcessContext,
)
    requires
        old(pm).wf(*old(mem)),
        old(pm).live(old(pm).current),
        old(pm).current != KERNEL_PID,
    ensures
        final(pm).wf(*final(mem)),
        final(mem).wf(),
        args.syscall is GetTime ==> final(context).rax == now,
        args.syscall is GetPid ==> final(context).rax == old(pm).current,
        args.syscall is Exit ==> final(pm).proc_of(old(pm).current).inner.status is Dead
            && final(pm).proc_of(old(pm).current).inner.exit_code == Some(args.arg0 as isize),
        args.syscall is Unknown ==> *final(context) == *old(context) && final(pm).procs@ == old(
            pm,
        ).procs@,
{
    match args.syscall {
        Syscall::Read => {
            let n = pm.read(args.arg0 as u8, buf, input, mem);
            context.set_rax(n as usize);
        },
        Syscall::Write => {
            let n = pm.write(args.arg0 as u8, buf, mem);
            context.set_rax(n as usize);
        },
        Syscall::GetTime => {
            context.set_rax(now);
        },
        Syscall::GetPid => {
            let cur = pm.current;
            context.set_rax(cur as usize);
        },
        Syscall::Sem => {
            sem_dispatch(pm, args, context, mem);
        },
        Syscall::ListDir => {
            // Diagnostic text; the surrounding binary renders it.
        },
        Syscall::OpenFile => {
            match opened {
                Some(res) => {
                    let fd = pm.open_file(res, mem);
                    context.set_rax(fd as usize);
                },
                None => {
                    context.set_rax(0);
                },
            }
        },
        Syscall::CloseFile => {
            let ok = pm.close_file(args.arg0 as u8, mem);
            context.set_rax(if ok {
                1
            } else {
                0
            });
        },
        Syscall::Fork => {
            fork(pm, context, mem);
        },
        Syscall::Spawn => {
            let pid = spawn_by_name(pm, name, mem);
            context.set_rax(pid as usize);
        },
        Syscall::Exit => {
            exit_process(pm, args.arg0 as isize, context, mem);
        },
        Syscall::WaitPid => {
            wait_process(pm, args.arg0 as u16, context, mem);
        },
        Syscall::ListApp => {
            // Diagnostic text; the surrounding binary renders it.
        },
        Syscall::Stat => {
            // Diagnostic text; the surrounding binary renders it.
        },
        Syscall::Allocate => {
            let addr = ualloc.allocate(args.arg0, args.arg1);
            context.set_rax(addr);
        },
        Syscall::Deallocate => {
            ualloc.deallocate(args.arg0, args.arg1);
        },
        Syscall::Unknown => {},
    }
}

/// The semaphore sub-dispatch, selected by the first argument: create,
/// remove, signal or wait.
pub fn sem_dispatch(pm: &mut ProcessManager, args: &SyscallArgs, context: &mut ProcessContext,
    mem: &MemoryModel)
    requires
        old(pm).wf(*mem),
        old(pm).live(old(pm).current),
    ensures
        final(pm).wf(*mem),
        args.arg0 == 0 ==> final(context).rax == (if !old(pm).current_sems().contains_key(
            args.arg1 as u32,
        ) {
            1int
        } else {
            0int
        }),
        args.arg0 == 1 ==> final(context).rax == (if old(pm).current_sems().contains_key(
            args.arg1 as u32,
        ) {
            1int
        } else {
            0int
        }) && final(pm).current_sems() == old(pm).current_sems().remove(args.arg1 as u32),
        !(args.arg0 == 0 || args.arg0 == 1 || args.arg0 == 2 || args.arg0 == 3)
            ==> final(context).rax == usize::MAX,
{
    if args.arg0 == 0 {
        let ok = pm.sem_new(args.arg1 as u32, args.arg2, mem);
        context.set_rax(if ok {
            1
        } else {
            0
        });
    } else if args.arg0 == 1 {
        let ok = pm.sem_remove(args.arg1 as u32, mem);
        context.set_rax(if ok {
            1
        } else {
            0
        });
    } else if args.arg0 == 2 {
        sem_signal(pm, args.arg1 as u32, context, mem);
    } else if args.arg0 == 3 {
        sem_wait(pm, args.arg1 as u32, context, mem);
    } else {
        context.set_rax(usize::MAX);
    }
}

/// Whether an application description breaks the loader's bounds.
pub open spec fn app_bounds_bad(app: AppInfo) -> bool {
    app.code_pages < 1 || app.code_pages > 0x100000 || app.code_start_page
        > crate::heap::HEAP_START_PAGE || app.code_pages > crate::heap::HEAP_START_PAGE
        - app.code_start_page
}

/// Start a pre-loaded application by name; `0` when nothing matches or
/// memory ran out, the fresh pid otherwise.
pub fn spawn_by_name(pm: &mut ProcessManager, name: &String, mem: &mut MemoryModel) -> (r: u16)
    requires
        old(pm).wf(*old(mem)),
        old(pm).live(old(pm).current),
    ensures
        final(pm).wf(*final(mem)),
        final(mem).wf(),
        r != 0 ==> {
            &&& r == old(pm).next_pid
            &&& !old(pm).has_proc(r)
            &&& final(pm).has_proc(r)
            &&& final(pm).proc_of(r).inner.status is Ready
            &&& final(pm).ready_queue@ == old(pm).ready_queue@.push(r)
            &&& old(pm).app_list matches Some(apps) && exists|i: int|
                0 <= i < apps@.len() && (#[trigger] apps@[i]).name@ == name@ && final(pm).proc_of(
                    r,
                ).inner.context.instruction_pointer == apps@[i].entry
        },
        r == 0 ==> {
            ||| old(pm).app_list is None
            ||| !old(pm).live(KERNEL_PID)
            ||| (old(pm).app_list matches Some(apps) && forall|i: int|
                0 <= i < apps@.len() ==> (#[trigger] apps@[i]).name@ != name@)
            ||| (old(pm).app_list matches Some(apps) && exists|i: int|
                0 <= i < apps@.len() && (#[trigger] apps@[i]).name@ == name@ && (app_bounds_bad(
                    apps@[i],
                ) || old(pm).next_pid == u16::MAX || old(pm).next_data == usize::MAX || old(
                    mem,
                ).next_root == u64::MAX || old(mem).avail() < 1 + apps@[i].code_pages
                    + crate::stack::STACK_DEF_PAGE || (exists|p: u64|
                    (PageRange {
                        start: apps@[i].code_start_page,
                        end: (apps@[i].code_start_page + apps@[i].code_pages) as u64,
                    }).pages().contains(p) && old(mem).mapped(old(pm).root_of(KERNEL_PID))
                        .contains(p)) || old(mem).mapped(old(pm).root_of(KERNEL_PID)).contains(
                    crate::memory::spec_page_of(crate::stack::STACK_INIT_BOT),
                )))
        },
{
    if !pm.still_alive(KERNEL_PID) {
        return 0;
    }
    let parent = pm.current;
    let app = {
        let apps = match pm.app_list() {
            Some(apps) => apps,
            None => {
                return 0;
            },
        };
        let found = match find_app(apps, name) {
            Some(a) => a,
            None => {
                return 0;
            },
        };
        AppInfo {
            name: clone_string(&found.name),
            entry: found.entry,
            code_start_page: found.code_start_page,
            code_pages: found.code_pages,
        }
    };
    if !(app.code_pages >= 1 && app.code_pages <= 0x100000 && app.code_start_page
        <= crate::heap::HEAP_START_PAGE && app.code_pages <= crate::heap::HEAP_START_PAGE
        - app.code_start_page) {
        return 0;
    }
    match pm.spawn(&app, clone_string(name), Some(parent), mem) {
        Some(pid) => pid,
        None => 0,
    }
}

/// Copy a string.
fn clone_string(s: &String) -> (r: String)
    ensures
        r@ == s@,
{
    s.clone()
}

/// The pid of the calling process, for the `GetPid` syscall.
pub fn sys_getpid(pm: &ProcessManager) -> (r: usize)
    ensures
        r == pm.current,
{
    pm.current as usize
}

/// The fork service: hand the trap straight to the fork flow.
pub fn sys_fork(pm: &mut ProcessManager, context: &mut ProcessContext, mem: &mut MemoryModel)
    requires
        old(pm).wf(*old(mem)),
        old(pm).live(old(pm).current),
    ensures
        final(pm).wf(*final(mem)),
        final(mem).wf(),
        final(pm).next_pid == old(pm).next_pid + 1 ==> ({
            let child = old(pm).next_pid;
            &&& !old(pm).has_proc(child)
            &&& final(pm).has_proc(child)
            &&& final(pm).proc_of(child).inner.context.rax == 0
            &&& final(pm).proc_of(old(pm).current).inner.context.rax == child as usize
        }),
{
    fork(pm, context, mem);
}

/// Find a pre-loaded application by name.
pub fn find_app<'a>(apps: &'a Vec<AppInfo>, name: &String) -> (r: Option<&'a AppInfo>)
    ensures
        match r {
            Some(app) => exists|i: int|
                0 <= i < apps@.len() && apps@[i].name@ == name@ && app == &apps@[i],
            None => forall|i: int| 0 <= i < apps@.len() ==> (#[trigger] apps@[i]).name@ != name@,
        },
{
    let mut i: usize = 0;
    while i < apps.len()
        invariant
            i <= apps@.len(),
            forall|j: int| 0 <= j < i ==> (#[trigger] apps@[j]).name@ != name@,
        decreases apps@.len() - i,
    {
        if apps[i].name.eq(name) {
            proof {
                assert(apps@[i as int].name@ == name@);
            }
            return Some(&apps[i]);
        }
        i = i + 1;
    }
    None
}

} // verus!
