//! The process manager: the registry of processes, the FIFO ready
//! queue, the wait queues of processes waiting on another's exit, and
//! every state transition the scheduler performs.

use vstd::prelude::*;
use std::collections::BTreeMap;
use std::collections::VecDeque;
use crate::pid::{ProcessId, KERNEL_PID};
use crate::context::ProcessContext;
use crate::memory::{MemoryModel, PageRange, spec_page_of};
use crate::process::{Process, ProcessInner, ProgramStatus};
use crate::vm::ProcessVm;
use crate::data::ProcessData;
use crate::boot::AppInfo;

verus! {

/// One fork family's shared data and how many processes hold it.  A
/// record is retained after its last holder dies; only the count drops.
pub struct DataSlot {
    /// How many live processes hold the record.
    pub refs: u64,
    /// The shared data itself.
    pub data: ProcessData,
}

/// The scheduler's whole state.
pub struct ProcessManager {
    /// Every process ever registered, by pid.
    pub procs: BTreeMap<u16, Process>,
    /// Runnable pids, FIFO.
    pub ready_queue: VecDeque<u16>,
    /// For each pid, who waits for its exit.
    pub wait_queue: BTreeMap<u16, Vec<u16>>,
    /// The applications the bootloader pre-loaded.
    pub app_list: Option<Vec<AppInfo>>,
    /// The pid whose context is loaded on the CPU.
    pub current: u16,
    /// The next pid to assign; monotone.
    pub next_pid: u16,
    /// The fork families' shared data.
    pub data_table: BTreeMap<usize, DataSlot>,
    /// The next family handle to assign; monotone.
    pub next_data: usize,
}

/// Both processes either lack an address space or have one with the
/// same root, the same committed stack range and the same code ranges.
pub open spec fn same_footprint(p: Process, q: Process) -> bool {
    &&& (p.inner.proc_vm is Some <==> q.inner.proc_vm is Some)
    &&& (p.inner.proc_vm is Some ==> {
        let pv = p.inner.proc_vm.unwrap();
        let qv = q.inner.proc_vm.unwrap();
        pv.page_table.addr == qv.page_table.addr && pv.stack.range == qv.stack.range && pv.code@
            == qv.code@
    })
}

impl ProcessManager {
    /// The registered process under a pid.
    pub open spec fn proc_of(self, pid: u16) -> Process {
        self.procs@[pid]
    }

    /// Whether a pid is registered.
    pub open spec fn has_proc(self, pid: u16) -> bool {
        self.procs@.contains_key(pid)
    }

    /// Whether a pid is registered and not dead.
    pub open spec fn live(self, pid: u16) -> bool {
        self.has_proc(pid) && !(self.proc_of(pid).inner.status is Dead)
    }

    /// The root of a live process's paging structure.
    pub open spec fn root_of(self, pid: u16) -> u64 {
        self.proc_of(pid).inner.proc_vm.unwrap().page_table.addr
    }

    /// Per-process soundness: ids are consistent and below the counter,
    /// inner states are well formed, only the current process runs, data
    /// handles resolve, and the ready queue names only registered pids.
    pub open spec fn procs_wf(self, mem: MemoryModel) -> bool {
        &&& self.procs@.contains_key(self.current)
        &&& forall|k: u16|
            #[trigger] self.procs@.contains_key(k) ==> {
                let p = self.procs@[k];
                &&& p.pid == ProcessId(k)
                &&& k < self.next_pid
                &&& p.inner.wf(mem)
                &&& (p.inner.status is Running ==> k == self.current)
                &&& (p.inner.proc_data matches Some(h) ==> self.data_table@.contains_key(h))
            }
        &&& forall|i: int|
            0 <= i < self.ready_queue@.len() ==> self.procs@.contains_key(
                #[trigger] self.ready_queue@[i],
            )
    }

    /// No two live processes sharing a paging structure have overlapping
    /// stack slots, and no stack overlaps another's code.
    pub open spec fn stacks_isolated(self) -> bool {
        forall|a: u16, b: u16|
            #![trigger self.procs@[a], self.procs@[b]]
            (self.procs@.contains_key(a) && self.procs@.contains_key(b) && a != b
                && self.procs@[a].inner.proc_vm is Some && self.procs@[b].inner.proc_vm is Some
                && self.procs@[a].inner.proc_vm.unwrap().page_table.addr
                == self.procs@[b].inner.proc_vm.unwrap().page_table.addr) ==> {
                let va = self.procs@[a].inner.proc_vm.unwrap();
                let vb = self.procs@[b].inner.proc_vm.unwrap();
                &&& va.stack.range.pages().disjoint(vb.stack.range.pages())
                &&& forall|i: int|
                    0 <= i < vb.code@.len() ==> va.stack.range.pages().disjoint(
                        (#[trigger] vb.code@[i]).pages(),
                    )
            }
    }

    /// The manager's whole invariant.
    pub open spec fn wf(self, mem: MemoryModel) -> bool {
        &&& mem.wf()
        &&& self.procs_wf(mem)
        &&& self.stacks_isolated()
    }

    /// The pre-loaded application list, if the bootloader found one.
    pub fn app_list(&self) -> (r: &Option<Vec<AppInfo>>)
        ensures
            r == &self.app_list,
    {
        &self.app_list
    }

    /// Append a pid to the ready queue.
    pub fn push_ready(&mut self, pid: u16)
        requires
            old(self).has_proc(pid),
        ensures
            *final(self) == (ProcessManager {
                ready_queue: final(self).ready_queue,
                ..*old(self)
            }),
            final(self).ready_queue@ == old(self).ready_queue@.push(pid),
    {
        self.ready_queue.push_back(pid);
    }

    /// Look a process up.
    pub fn get_proc(&self, pid: u16) -> (r: Option<&Process>)
        ensures
            match r {
                Some(p) => self.has_proc(pid) && *p == self.proc_of(pid),
                None => !self.has_proc(pid),
            },
    {
        self.procs.get(&pid)
    }

    /// Whether a process is registered and not yet dead.
    pub fn still_alive(&self, pid: u16) -> (r: bool)
        ensures
            r == self.live(pid),
    {
        match self.procs.get(&pid) {
            Some(p) => p.inner.status != ProgramStatus::Dead,
            None => false,
        }
    }

    /// A dead process's exit code; `None` while it lives or never
    /// existed.
    pub fn get_exit_code(&self, pid: u16) -> (r: Option<isize>)
        ensures
            match r {
                Some(code) => self.has_proc(pid) && self.proc_of(pid).inner.status is Dead
                    && self.proc_of(pid).inner.exit_code == Some(code),
                None => !self.has_proc(pid) || !(self.proc_of(pid).inner.status is Dead)
                    || self.proc_of(pid).inner.exit_code is None,
            },
    {
        match self.procs.get(&pid) {
            Some(p) => {
                if p.inner.status == ProgramStatus::Dead {
                    p.inner.exit_code
                } else {
                    None
                }
            },
            None => None,
        }
    }

    /// Count the tick and save the trapped context into the current
    /// process, flipping it from running back to ready.  An unregistered
    /// current pid is tolerated with a no-op.
    pub fn save_current(&mut self, context: &ProcessContext, mem: &MemoryModel)
        requires
            old(self).wf(*mem),
        ensures
            final(self).wf(*mem),
            final(self).current == old(self).current,
            final(self).ready_queue == old(self).ready_queue,
            final(self).wait_queue == old(self).wait_queue,
            final(self).data_table == old(self).data_table,
            final(self).next_pid == old(self).next_pid,
            final(self).has_proc(old(self).current),
            final(self).proc_of(old(self).current).inner.context == *context,
            final(self).proc_of(old(self).current).inner.ticks_passed == (if old(self).proc_of(
                old(self).current,
            ).inner.ticks_passed < usize::MAX {
                old(self).proc_of(old(self).current).inner.ticks_passed + 1
            } else {
                old(self).proc_of(old(self).current).inner.ticks_passed as int
            }),
            old(self).proc_of(old(self).current).inner.status is Running ==> final(self).proc_of(
                old(self).current,
            ).inner.status is Ready,
            !(old(self).proc_of(old(self).current).inner.status is Running) ==> final(self).proc_of(old(self).current).inner.status == old(self).proc_of(
                old(self).current,
            ).inner.status,
            forall|k: u16|
                k != old(self).current ==> ((#[trigger] final(self).procs@.contains_key(k) <==> old(self).procs@.contains_key(k)) && (old(self).procs@.contains_key(k) ==> final(self).procs@[k] == old(self).procs@[k])),
            final(self).proc_of(old(self).current).inner.proc_vm == old(self).proc_of(
                old(self).current,
            ).inner.proc_vm,
            final(self).proc_of(old(self).current).inner == (ProcessInner {
                context: *context,
                status: final(self).proc_of(old(self).current).inner.status,
                ticks_passed: final(self).proc_of(old(self).current).inner.ticks_passed,
                ..old(self).proc_of(old(self).current).inner
            }),
    {
        let cur_pid = self.current;
        let mut p = self.procs.remove(&cur_pid).unwrap();
        p.inner.tick();
        p.inner.save(context);
        self.procs.insert(cur_pid, p);
        proof {
            assert(self.procs@ =~= old(self).procs@.insert(cur_pid, self.procs@[cur_pid]));
            self.lemma_after_inner_update(*old(self), *mem, cur_pid);
        }
    }

    /// Set a registered process blocked; an unknown pid is a no-op.
    pub fn block(&mut self, pid: u16, mem: &MemoryModel)
        requires
            old(self).wf(*mem),
            !(old(self).has_proc(pid) && old(self).proc_of(pid).inner.status is Dead),
        ensures
            final(self).wf(*mem),
            final(self).current == old(self).current,
            final(self).ready_queue == old(self).ready_queue,
            final(self).wait_queue == old(self).wait_queue,
            final(self).data_table == old(self).data_table,
            final(self).next_pid == old(self).next_pid,
            !old(self).has_proc(pid) ==> final(self).procs@ == old(self).procs@,
            old(self).has_proc(pid) ==> final(self).procs@ == old(self).procs@.insert(
                pid,
                final(self).procs@[pid],
            ) && final(self).proc_of(pid).inner == (ProcessInner {
                status: ProgramStatus::Blocked,
                ..old(self).proc_of(pid).inner
            }),
    {
        match self.procs.remove(&pid) {
            Some(mut p) => {
                p.inner.block();
                self.procs.insert(pid, p);
                proof {
                    assert(self.procs@ =~= old(self).procs@.insert(pid, self.procs@[pid]));
                    self.lemma_after_inner_update(*old(self), *mem, pid);
                }
            },
            None => {},
        }
    }

    /// Wake a process up: write the return value, if given, into its
    /// saved return register, set it ready and re-enqueue it.  An
    /// unknown pid is a no-op, and so is a dead one: dead is terminal,
    /// and reviving it would dangle its released resources.
    pub fn wake_up(&mut self, pid: u16, ret: Option<isize>, mem: &MemoryModel)
        requires
            old(self).wf(*mem),
        ensures
            final(self).wf(*mem),
            final(self).current == old(self).current,
            final(self).wait_queue == old(self).wait_queue,
            final(self).data_table == old(self).data_table,
            final(self).next_pid == old(self).next_pid,
            forall|k: u16|
                #[trigger] final(self).procs@.contains_key(k) <==> old(self).procs@.contains_key(
                    k,
                ),
            forall|k: u16|
                k != pid && old(self).procs@.contains_key(k) ==> #[trigger] final(self).procs@[k]
                    == old(self).procs@[k],
            !(old(self).has_proc(pid) && !(old(self).proc_of(pid).inner.status is Dead)) ==> final(self).procs@ == old(self).procs@ && final(self).ready_queue == old(self).ready_queue,
            (old(self).has_proc(pid) && !(old(self).proc_of(pid).inner.status is Dead)) ==> {
                &&& final(self).ready_queue@ == old(self).ready_queue@.push(pid)
                &&& final(self).procs@ == old(self).procs@.insert(pid, final(self).procs@[pid])
                &&& final(self).proc_of(pid).inner.status is Ready
                &&& final(self).proc_of(pid).inner.context.rax == (match ret {
                    Some(v) => v as usize,
                    None => old(self).proc_of(pid).inner.context.rax,
                })
                &&& final(self).proc_of(pid).inner.proc_vm == old(self).proc_of(
                    pid,
                ).inner.proc_vm
            },
            forall|k: u16|
                old(self).procs@.contains_key(k) ==> ((#[trigger] final(self).procs@[k].inner.status
                    is Dead) <==> old(self).procs@[k].inner.status is Dead),
    {
        match self.procs.remove(&pid) {
            Some(mut p) => {
                if p.inner.status == ProgramStatus::Dead {
                    self.procs.insert(pid, p);
                    proof {
                        assert(self.procs@ =~= old(self).procs@);
                    }
                    return ;
                }
                match ret {
                    Some(v) => {
                        p.inner.set_rax(v as usize);
                    },
                    None => {},
                }
                p.inner.pause();
                self.procs.insert(pid, p);
                proof {
                    assert(self.procs@ =~= old(self).procs@.insert(pid, self.procs@[pid]));
                    self.lemma_after_inner_update(*old(self), *mem, pid);
                }
                self.ready_queue.push_back(pid);
            },
            None => {},
        }
    }

    /// Register the calling process as a waiter for `pid`'s exit.  The
    /// caller does not block here; the syscall layer blocks it after
    /// this returns.
    pub fn wait_pid(&mut self, pid: u16, waiter: u16)
        ensures
            *final(self) == (ProcessManager { wait_queue: final(self).wait_queue, ..*old(self) }),
            final(self).waiters_of(pid).contains(waiter),
            forall|q: u16|
                q != pid ==> #[trigger] final(self).wait_queue@.contains_key(q) == old(self).wait_queue@.contains_key(q) && (old(self).wait_queue@.contains_key(q) ==> final(self).wait_queue@[q] == old(self).wait_queue@[q]),
            forall|w: u16|
                #[trigger] final(self).waiters_of(pid).contains(w) <==> (old(self).waiters_of(
                    pid,
                ).contains(w) || w == waiter),
    {
        let ghost oldset = self.waiters_of(pid);
        let mut entry = match self.wait_queue.remove(&pid) {
            Some(v) => v,
            None => Vec::new(),
        };
        let ghost entry0 = entry@;
        proof {
            assert forall|w: u16| entry0.contains(w) <==> oldset.contains(w) by {}
        }
        if !vec_contains(&entry, waiter) {
            entry.push(waiter);
            proof {
                lemma_seq_push_contains(entry0, waiter);
            }
        }
        let ghost entry1 = entry@;
        self.wait_queue.insert(pid, entry);
        proof {
            assert(self.wait_queue@[pid]@ == entry1);
            assert forall|w: u16|
                #[trigger] self.waiters_of(pid).contains(w) <==> (oldset.contains(w) || w
                    == waiter) by {
                assert(self.waiters_of(pid).contains(w) <==> entry1.contains(w));
                assert(entry1.contains(w) <==> (entry0.contains(w) || w == waiter));
            }
        }
    }

    /// The set of processes waiting for `pid`'s exit.
    pub open spec fn waiters_of(self, pid: u16) -> Set<u16> {
        if self.wait_queue@.contains_key(pid) {
            self.wait_queue@[pid]@.to_set()
        } else {
            Set::empty()
        }
    }

    /// A manager around the bootstrap process, which must hold the
    /// family-data handle `0` matching `init_data`.
    pub fn new(init: Process, app_list: Option<Vec<AppInfo>>, init_data: ProcessData,
        mem: &MemoryModel) -> (r: ProcessManager)
        requires
            mem.wf(),
            init.inner.wf(*mem),
            init.inner.proc_data == Some(0usize),
            init.pid.0 < u16::MAX,
        ensures
            r.wf(*mem),
            r.current == init.pid.0,
            r.has_proc(init.pid.0),
            r.proc_of(init.pid.0).inner.proc_vm == init.inner.proc_vm,
            r.proc_of(init.pid.0).inner.proc_data == init.inner.proc_data,
            init.inner.status is Ready || init.inner.status is Running ==> r.proc_of(
                init.pid.0,
            ).inner.status is Ready,
            r.next_pid == init.pid.0 + 1,
            r.ready_queue@.len() == 0,
            r.app_list == app_list,
            forall|k: u16| #[trigger] r.has_proc(k) ==> k == init.pid.0,
    {
        let pid = init.pid.0;
        let mut init = init;
        if init.inner.status == ProgramStatus::Running {
            init.inner.pause();
        }
        let mut procs: BTreeMap<u16, Process> = BTreeMap::new();
        let fixed = Process { pid: ProcessId(pid), inner: init.inner };
        procs.insert(pid, fixed);
        let mut data_table: BTreeMap<usize, DataSlot> = BTreeMap::new();
        data_table.insert(0, DataSlot { refs: 1, data: init_data });
        let r = ProcessManager {
            procs,
            ready_queue: VecDeque::new(),
            wait_queue: BTreeMap::new(),
            app_list,
            current: pid,
            next_pid: pid + 1,
            data_table,
            next_data: 1,
        };
        proof {
            assert forall|a: u16, b: u16|
                #![trigger r.procs@[a], r.procs@[b]]
                (r.procs@.contains_key(a) && r.procs@.contains_key(b) && a != b
                    && r.procs@[a].inner.proc_vm is Some && r.procs@[b].inner.proc_vm is Some
                    && r.procs@[a].inner.proc_vm.unwrap().page_table.addr
                    == r.procs@[b].inner.proc_vm.unwrap().page_table.addr) implies false by {
                assert(a == pid && b == pid);
            }
        }
        r
    }

    /// Pop the ready queue until a ready process appears: dead entries
    /// are dropped, not-yet-ready ones go to the tail, and each entry is
    /// looked at once.  The chosen process's context and page table are
    /// restored and it becomes the running one; with no candidate the
    /// current pid is returned unchanged.
    pub fn switch_next(&mut self, context: &mut ProcessContext, mem: &MemoryModel) -> (r: u16)
        requires
            old(self).wf(*mem),
            !(old(self).proc_of(old(self).current).inner.status is Running),
        ensures
            final(self).wf(*mem),
            final(self).has_proc(r),
            final(self).current == r,
            final(self).wait_queue == old(self).wait_queue,
            final(self).data_table == old(self).data_table,
            final(self).next_pid == old(self).next_pid,
            forall|k: u16|
                #[trigger] final(self).procs@.contains_key(k) <==> old(self).procs@.contains_key(
                    k,
                ),
            forall|k: u16|
                k != r && old(self).procs@.contains_key(k) ==> #[trigger] final(self).procs@[k]
                    == old(self).procs@[k],
            ({
                ||| {
                    &&& old(self).ready_queue@.contains(r)
                    &&& old(self).has_proc(r)
                    &&& old(self).proc_of(r).inner.status is Ready
                    &&& final(self).proc_of(r).inner.status is Running
                    &&& *final(context) == old(self).proc_of(r).inner.context
                    &&& final(self).proc_of(r).inner.context == old(self).proc_of(
                        r,
                    ).inner.context
                    &&& final(self).proc_of(r).inner.proc_vm == old(self).proc_of(
                        r,
                    ).inner.proc_vm
                }
                ||| {
                    &&& r == old(self).current
                    &&& final(self).procs@ == old(self).procs@
                    &&& *final(context) == *old(context)
                }
            }),
            // With no ready pid anywhere in the queue, the switch is a
            // no-op on the current process.
            (forall|i: int|
                0 <= i < old(self).ready_queue@.len() ==> !(old(self).has_proc(
                    #[trigger] old(self).ready_queue@[i],
                ) && old(self).proc_of(old(self).ready_queue@[i]).inner.status is Ready)) ==> r
                == old(self).current && final(self).procs@ == old(self).procs@ && *final(context)
                == *old(context),
            old(self).ready_queue@.len() > 0 && old(self).has_proc(old(self).ready_queue@[0])
                && old(self).proc_of(old(self).ready_queue@[0]).inner.status is Ready ==> {
                &&& r == old(self).ready_queue@[0]
                &&& final(self).ready_queue@ == old(self).ready_queue@.drop_first()
            },
    {
        let ghost pre = *self;
        let mut remaining: usize = self.ready_queue.len();
        let mut chosen: Option<u16> = None;
        while remaining > 0 && chosen.is_none()
            invariant
                self.procs@ == pre.procs@,
                self.wait_queue == pre.wait_queue,
                self.data_table == pre.data_table,
                self.next_pid == pre.next_pid,
                self.current == pre.current,
                self.app_list == pre.app_list,
                self.next_data == pre.next_data,
                pre.wf(*mem),
                remaining <= self.ready_queue@.len(),
                forall|i: int|
                    0 <= i < self.ready_queue@.len() ==> pre.procs@.contains_key(
                        #[trigger] self.ready_queue@[i],
                    ),
                forall|i: int|
                    0 <= i < self.ready_queue@.len() ==> pre.ready_queue@.contains(
                        #[trigger] self.ready_queue@[i],
                    ),
                match chosen {
                    Some(p) => pre.ready_queue@.contains(p) && pre.procs@.contains_key(p)
                        && pre.procs@[p].inner.status is Ready,
                    None => true,
                },
                (pre.ready_queue@.len() > 0 && pre.procs@.contains_key(pre.ready_queue@[0])
                    && pre.procs@[pre.ready_queue@[0]].inner.status is Ready) ==> (match chosen {
                    Some(p) => p == pre.ready_queue@[0] && self.ready_queue@
                        == pre.ready_queue@.drop_first(),
                    None => remaining == pre.ready_queue@.len() && self.ready_queue@
                        == pre.ready_queue@,
                }),
            decreases remaining,
        {
            let popped = self.ready_queue.pop_front();
            let pid = match popped {
                Some(p) => p,
                None => {
                    proof {
                        assert(false);
                    }
                    0
                },
            };
            match self.procs.get(&pid) {
                Some(p) => {
                    if p.inner.status == ProgramStatus::Ready {
                        chosen = Some(pid);
                    } else if p.inner.status != ProgramStatus::Dead {
                        self.ready_queue.push_back(pid);
                    }
                },
                None => {},
            }
            remaining = remaining - 1;
        }
        match chosen {
            Some(pid) => {
                let mut p = self.procs.remove(&pid).unwrap();
                p.inner.restore(context);
                self.procs.insert(pid, p);
                self.current = pid;
                proof {
                    assert(self.procs@ =~= pre.procs@.insert(pid, self.procs@[pid]));
                    assert forall|j: u16| #[trigger] self.procs@.contains_key(j) implies {
                        let q = self.procs@[j];
                        &&& q.pid == ProcessId(j)
                        &&& j < self.next_pid
                        &&& q.inner.wf(*mem)
                        &&& (q.inner.status is Running ==> j == self.current)
                        &&& (q.inner.proc_data matches Some(h) ==> self.data_table@.contains_key(
                            h,
                        ))
                    } by {
                        assert(pre.procs@.contains_key(j));
                        if j != pid {
                            assert(self.procs@[j] == pre.procs@[j]);
                            assert(pre.procs@[j].inner.status is Running ==> j == pre.current);
                        }
                    }
                    assert forall|i: int|
                        0 <= i < self.ready_queue@.len() implies self.procs@.contains_key(
                        #[trigger] self.ready_queue@[i],
                    ) by {}
                    lemma_isolated_same_footprints(pre, *self);
                }
                pid
            },
            None => self.current,
        }
    }

    /// Page-fault error-code bit: a protection violation.
    pub fn pf_rejected(err_code: u64) -> (r: bool)
        ensures
            r == (err_code & 0x1 != 0 || err_code & 0x8 != 0 || err_code & 0x10 != 0 || err_code
                & 0x20 != 0 || err_code & 0x40 != 0 || err_code & 0x8000 != 0 || err_code
                & 0x80000000 != 0),
    {
        // Protection violation, malformed table, instruction fetch,
        // protection key, shadow stack, SGX and RMP faults are never
        // delegated to the memory layer.
        err_code & 0x1 != 0 || err_code & 0x8 != 0 || err_code & 0x10 != 0 || err_code & 0x20 != 0
            || err_code & 0x40 != 0 || err_code & 0x8000 != 0 || err_code & 0x80000000 != 0
    }

    /// Decide a page fault for the current process: error-code classes
    /// the memory layer can never satisfy are rejected outright, and the
    /// rest go to the faulting process's stack.
    pub fn handle_page_fault(&mut self, addr: u64, err_code: u64, mem: &mut MemoryModel) -> (r:
        bool)
        requires
            old(self).wf(*old(mem)),
            old(self).live(old(self).current),
        ensures
            final(self).wf(*final(mem)),
            final(mem).wf(),
            final(self).current == old(self).current,
            final(self).next_pid == old(self).next_pid,
            final(self).ready_queue == old(self).ready_queue,
            final(self).wait_queue == old(self).wait_queue,
            forall|k: u16|
                #[trigger] final(self).procs@.contains_key(k) <==> old(self).procs@.contains_key(
                    k,
                ),
            (err_code & 0x1 != 0 || err_code & 0x8 != 0 || err_code & 0x10 != 0 || err_code & 0x20
                != 0 || err_code & 0x40 != 0 || err_code & 0x8000 != 0 || err_code & 0x80000000
                != 0) ==> !r && final(self).procs@ == old(self).procs@ && final(mem).unchanged(
                *old(mem),
            ),
            // Delegation: for every other error code the outcome is the
            // faulting process's stack decision.
            !(err_code & 0x1 != 0 || err_code & 0x8 != 0 || err_code & 0x10 != 0 || err_code
                & 0x20 != 0 || err_code & 0x40 != 0 || err_code & 0x8000 != 0 || err_code
                & 0x80000000 != 0) ==> ({
                let vm0 = old(self).proc_of(old(self).current).inner.proc_vm.unwrap();
                let root = vm0.page_table.addr;
                let grown = (PageRange { start: spec_page_of(addr), end: vm0.stack.range.start });
                &&& !vm0.stack.spec_is_on_stack(addr) ==> !r && final(self).procs@ == old(
                    self,
                ).procs@ && final(mem).unchanged(*old(mem))
                &&& vm0.stack.spec_is_on_stack(addr) && spec_page_of(addr) >= vm0.stack.range.start
                    ==> r && final(self).procs@ == old(self).procs@ && final(mem).unchanged(
                    *old(mem),
                )
                &&& vm0.stack.spec_is_on_stack(addr) && spec_page_of(addr) < vm0.stack.range.start
                    ==> {
                    &&& r ==> {
                        let nstack = final(self).proc_of(
                            old(self).current,
                        ).inner.proc_vm.unwrap().stack;
                        &&& nstack.range.start == spec_page_of(addr)
                        &&& nstack.range.end == vm0.stack.range.end
                        &&& old(mem).mapped(root).disjoint(grown.pages())
                        &&& final(mem).mapped(root) == old(mem).mapped(root) + grown.pages()
                        &&& final(mem).avail() == old(mem).avail() - (vm0.stack.range.start
                            - spec_page_of(addr))
                    }
                    &&& !r ==> final(self).procs@ == old(self).procs@ && final(mem).unchanged(
                        *old(mem),
                    ) && (old(mem).avail() < grown.end - grown.start || exists|p: u64|
                        grown.pages().contains(p) && old(mem).mapped(root).contains(p))
                }
            }),
    {
        if Self::pf_rejected(err_code) {
            return false;
        }
        let cur = self.current;
        let is_user = cur != KERNEL_PID;
        let mut p = self.procs.remove(&cur).unwrap();
        let mut vm = p.inner.proc_vm.take().unwrap();
        let ghost vm0 = vm;
        let ghost mem0 = *mem;
        let handled = vm.handle_page_fault(addr, mem, is_user);
        p.inner.proc_vm = Some(vm);
        self.procs.insert(cur, p);
        proof {
            let root = vm0.page_table.addr;
            assert(self.procs@ =~= old(self).procs@.insert(cur, self.procs@[cur]));
            if self.procs@[cur].inner.proc_vm == old(self).procs@[cur].inner.proc_vm {
                assert(self.procs@[cur] == old(self).procs@[cur]);
                assert(self.procs@ =~= old(self).procs@);
            }
            assert forall|j: u16| #[trigger] self.procs@.contains_key(j) implies {
                let q = self.procs@[j];
                &&& q.pid == ProcessId(j)
                &&& j < self.next_pid
                &&& q.inner.wf(*mem)
                &&& (q.inner.status is Running ==> j == self.current)
                &&& (q.inner.proc_data matches Some(h) ==> self.data_table@.contains_key(h))
            } by {
                assert(old(self).procs@.contains_key(j));
                if j != cur {
                    assert(self.procs@[j] == old(self).procs@[j]);
                    match self.procs@[j].inner.proc_vm {
                        Some(qvm) => {
                            if qvm.page_table.addr == root {
                                lemma_vm_wf_grown(qvm, mem0, *mem);
                            } else {
                                lemma_vm_wf_other_root(qvm, mem0, *mem, root);
                            }
                        },
                        None => {},
                    }
                } else {
                    assert(old(self).proc_of(cur).inner.wf(mem0));
                    assert(old(self).proc_of(cur).inner.proc_vm == Some(vm0));
                    assert(vm0.stack.wf() && vm0.stack.usage > 0);
                    assert(self.procs@[cur].inner.proc_vm.unwrap().stack.wf());
                    assert(self.procs@[cur].inner.proc_vm.unwrap().stack.words@.len()
                        >= vm0.stack.words@.len());
                    lemma_stack_stays_committed(
                        vm0.stack,
                        self.procs@[cur].inner.proc_vm.unwrap().stack,
                    );
                }
            }
            assert forall|i: int| 0 <= i < self.ready_queue@.len() implies self.procs@.contains_key(
                #[trigger] self.ready_queue@[i],
            ) by {
                assert(old(self).procs@.contains_key(old(self).ready_queue@[i]));
            }
            assert forall|a: u16, b: u16|
                #![trigger self.procs@[a], self.procs@[b]]
                (self.procs@.contains_key(a) && self.procs@.contains_key(b) && a != b
                    && self.procs@[a].inner.proc_vm is Some && self.procs@[b].inner.proc_vm is Some
                    && self.procs@[a].inner.proc_vm.unwrap().page_table.addr
                    == self.procs@[b].inner.proc_vm.unwrap().page_table.addr) implies {
                let va = self.procs@[a].inner.proc_vm.unwrap();
                let vb = self.procs@[b].inner.proc_vm.unwrap();
                &&& va.stack.range.pages().disjoint(vb.stack.range.pages())
                &&& forall|i: int|
                    0 <= i < vb.code@.len() ==> va.stack.range.pages().disjoint(
                        (#[trigger] vb.code@[i]).pages(),
                    )
            } by {
                let va = self.procs@[a].inner.proc_vm.unwrap();
                let vb = self.procs@[b].inner.proc_vm.unwrap();
                let wa = old(self).procs@[a].inner.proc_vm.unwrap();
                let wb = old(self).procs@[b].inner.proc_vm.unwrap();
                assert(old(self).procs@.contains_key(a) && old(self).procs@.contains_key(b));
                if a != cur && b != cur {
                    assert(va == wa && vb == wb);
                } else if a == cur {
                    // The faulting stack only gained pages no one held.
                    assert(vb == wb);
                    assert forall|x: u64| va.stack.range.pages().contains(x) implies !vb.stack.range.pages().contains(x) by {
                        if wa.stack.range.pages().contains(x) {
                            assert(!wb.stack.range.pages().contains(x));
                        } else {
                            assert(!mem0.mapped(root).contains(x));
                            assert(wb.stack.backed(mem0, root));
                        }
                    }
                    assert forall|i: int| 0 <= i < vb.code@.len() implies va.stack.range.pages().disjoint(
                        (#[trigger] vb.code@[i]).pages(),
                    ) by {
                        assert forall|x: u64| va.stack.range.pages().contains(x) implies !vb.code@[i].pages().contains(x) by {
                            if wa.stack.range.pages().contains(x) {
                                assert(!wb.code@[i].pages().contains(x));
                            } else {
                                assert(!mem0.mapped(root).contains(x));
                                assert(vb.code@[i].pages() <= mem0.mapped(root));
                            }
                        }
                    }
                } else {
                    // Only the faulting process's stack moved; its code
                    // did not.
                    assert(va == wa && vb.code@ == wb.code@);
                    assert forall|x: u64| va.stack.range.pages().contains(x) implies !vb.stack.range.pages().contains(x) by {
                        assert(mem0.mapped(root).contains(x));
                        if vb.stack.range.pages().contains(x) {
                            assert(wb.stack.range.pages().contains(x));
                            assert(false);
                        }
                    }
                }
            }
        }
        handled
    }

    /// Move the current process's heap break.
    pub fn brk(&mut self, addr: Option<u64>, mem: &mut MemoryModel) -> (r: Option<u64>)
        requires
            old(self).wf(*old(mem)),
            old(self).live(old(self).current),
        ensures
            final(self).wf(*final(mem)),
            final(mem).wf(),
            final(self).current == old(self).current,
            final(self).ready_queue == old(self).ready_queue,
            final(self).wait_queue == old(self).wait_queue,
            final(self).next_pid == old(self).next_pid,
            forall|k: u16|
                #[trigger] final(self).procs@.contains_key(k) <==> old(self).procs@.contains_key(
                    k,
                ),
            ({
                let heap = old(self).proc_of(old(self).current).inner.proc_vm.unwrap().heap;
                match addr {
                    None => r == Some(heap.end),
                    Some(a) => {
                        &&& (a < crate::heap::HEAP_START || a > crate::heap::HEAP_END) ==> r
                            is None
                        &&& (crate::heap::HEAP_START <= a <= crate::heap::HEAP_END) ==> (r
                            is Some ==> r == Some(a) && final(self).proc_of(
                            old(self).current,
                        ).inner.proc_vm.unwrap().heap.end == a)
                    },
                }
            }),
    {
        let cur = self.current;
        let is_user = cur != KERNEL_PID;
        let mut p = self.procs.remove(&cur).unwrap();
        let mut vm = p.inner.proc_vm.take().unwrap();
        let ghost vm0 = vm;
        let ghost mem0 = *mem;
        let r = vm.brk(addr, mem, is_user);
        p.inner.proc_vm = Some(vm);
        self.procs.insert(cur, p);
        proof {
            let root = vm0.page_table.addr;
            assert(self.procs@ =~= old(self).procs@.insert(cur, self.procs@[cur]));
            assert forall|j: u16| #[trigger] self.procs@.contains_key(j) implies {
                let q = self.procs@[j];
                &&& q.pid == ProcessId(j)
                &&& j < self.next_pid
                &&& q.inner.wf(*mem)
                &&& (q.inner.status is Running ==> j == self.current)
                &&& (q.inner.proc_data matches Some(h) ==> self.data_table@.contains_key(h))
            } by {
                assert(old(self).procs@.contains_key(j));
                if j != cur {
                    assert(self.procs@[j] == old(self).procs@[j]);
                    match self.procs@[j].inner.proc_vm {
                        Some(qvm) => {
                            if qvm.page_table.addr == root {
                                lemma_vm_wf_window_change(qvm, mem0, *mem);
                            } else {
                                lemma_vm_wf_other_root(qvm, mem0, *mem, root);
                            }
                        },
                        None => {},
                    }
                } else {
                    assert(self.procs@[cur].inner.proc_vm.unwrap().stack == vm0.stack);
                }
            }
            assert forall|i: int| 0 <= i < self.ready_queue@.len() implies self.procs@.contains_key(
                #[trigger] self.ready_queue@[i],
            ) by {
                assert(old(self).procs@.contains_key(old(self).ready_queue@[i]));
            }
            lemma_isolated_same_footprints(*old(self), *self);
        }
        r
    }

    /// Whether some live process other than `pid` shares `pid`'s paging
    /// structure (a forked relative still alive).
    fn has_live_sharer(&self, pid: u16) -> (r: bool)
        requires
            self.wf_procs_only(),
            self.live(pid),
            self.proc_of(pid).inner.proc_vm is Some,
        ensures
            r == exists|k: u16|
                #[trigger] self.procs@.contains_key(k) && k != pid && !(
                self.procs@[k].inner.status is Dead) && self.procs@[k].inner.proc_vm is Some
                    && self.procs@[k].inner.proc_vm.unwrap().page_table.addr == self.proc_of(
                    pid,
                ).inner.proc_vm.unwrap().page_table.addr,
    {
        let root = match self.procs.get(&pid) {
            Some(p) => {
                match &p.inner.proc_vm {
                    Some(vm) => vm.page_table.addr,
                    None => {
                        proof {
                            assert(false);
                        }
                        0
                    },
                }
            },
            None => {
                proof {
                    assert(false);
                }
                0
            },
        };
        let mut k: u32 = 0;
        while k < self.next_pid as u32
            invariant
                k <= self.next_pid as u32,
                forall|j: u16|
                    #[trigger] self.procs@.contains_key(j) && j != pid && (j as u32) < k ==> (
                    self.procs@[j].inner.status is Dead || self.procs@[j].inner.proc_vm is None
                        || self.procs@[j].inner.proc_vm.unwrap().page_table.addr != root),
                root == self.proc_of(pid).inner.proc_vm.unwrap().page_table.addr,
                self.live(pid),
                self.proc_of(pid).inner.proc_vm is Some,
            decreases self.next_pid as u32 - k,
        {
            let j = k as u16;
            if j != pid {
                match self.procs.get(&j) {
                    Some(q) => {
                        if q.inner.status != ProgramStatus::Dead {
                            match &q.inner.proc_vm {
                                Some(qvm) => {
                                    if qvm.page_table.addr == root {
                                        return true;
                                    }
                                },
                                None => {},
                            }
                        }
                    },
                    None => {},
                }
            }
            k = k + 1;
        }
        proof {
            assert forall|j: u16|
                #[trigger] self.procs@.contains_key(j) && j != pid && !(self.procs@[j].inner.status
                    is Dead) && self.procs@[j].inner.proc_vm is Some implies self.procs@[
                j].inner.proc_vm.unwrap().page_table.addr != root by {
                assert((j as u32) < self.next_pid as u32);
            }
        }
        false
    }

    /// The per-process clauses alone, for helpers that read but do not
    /// change the registry.
    pub open spec fn wf_procs_only(self) -> bool {
        forall|k: u16|
            #[trigger] self.procs@.contains_key(k) ==> self.procs@[k].pid == ProcessId(k) && k
                < self.next_pid
    }

    /// Kill a process: idempotent on unknown or already dead pids.
    /// Otherwise the exit code is recorded, the process goes `Dead`, its
    /// address space is torn down (the whole paging structure when no
    /// live relative shares it), its hold on the family data ends, and
    /// every process waiting on it is woken with the exit code.
    pub fn kill(&mut self, pid: u16, ret: isize, mem: &mut MemoryModel)
        requires
            old(self).wf(*old(mem)),
        ensures
            final(self).wf(*final(mem)),
            final(mem).wf(),
            final(self).current == old(self).current,
            final(self).next_pid == old(self).next_pid,
            !old(self).live(pid) ==> final(self).procs@ == old(self).procs@ && final(mem).unchanged(
                *old(mem),
            ) && final(self).wait_queue == old(self).wait_queue && final(self).ready_queue == old(
                self,
            ).ready_queue,
            old(self).live(pid) ==> {
                &&& final(self).has_proc(pid)
                &&& final(self).proc_of(pid).inner.status is Dead
                &&& final(self).proc_of(pid).inner.exit_code == Some(ret)
                &&& final(self).proc_of(pid).inner.proc_vm is None
                &&& !final(self).wait_queue@.contains_key(pid)
                &&& forall|w: u16|
                    old(self).waiters_of(pid).contains(w) && #[trigger] old(self).procs@.contains_key(w) && !(old(self).procs@[w].inner.status is Dead) && w
                        != pid ==> final(self).procs@[w].inner.status is Ready && final(self).procs@[w].inner.context.rax == ret as usize
                        && final(self).ready_queue@.contains(w)
                &&& final(self).ready_queue@.subrange(
                    0,
                    old(self).ready_queue@.len() as int,
                ) == old(self).ready_queue@
            },
            forall|k: u16|
                #[trigger] final(self).procs@.contains_key(k) <==> old(self).procs@.contains_key(
                    k,
                ),
    {
        match self.procs.get(&pid) {
            Some(p) => {
                if p.inner.status == ProgramStatus::Dead {
                    return ;
                }
            },
            None => {
                return ;
            },
        }
        let last_owner = !self.has_live_sharer(pid);
        let ghost pre = *self;
        let ghost mem0 = *mem;
        let mut p = self.procs.remove(&pid).unwrap();
        let ghost vm0 = p.inner.proc_vm.unwrap();
        let data_handle = p.inner.kill(ret, mem, pid != KERNEL_PID, last_owner);
        self.procs.insert(pid, p);
        // Let the family data go.
        match data_handle {
            Some(h) => {
                match self.data_table.remove(&h) {
                    Some(mut slot) => {
                        if slot.refs > 0 {
                            slot.refs = slot.refs - 1;
                        }
                        self.data_table.insert(h, slot);
                    },
                    None => {},
                }
            },
            None => {},
        }
        proof {
            let root = vm0.page_table.addr;
            assert(self.procs@ =~= pre.procs@.insert(pid, self.procs@[pid]));
            assert forall|h2: usize|
                #[trigger] pre.data_table@.contains_key(h2) implies self.data_table@.contains_key(
                h2,
            ) by {}
            assert forall|j: u16| #[trigger] self.procs@.contains_key(j) implies {
                let q = self.procs@[j];
                &&& q.pid == ProcessId(j)
                &&& j < self.next_pid
                &&& q.inner.wf(*mem)
                &&& (q.inner.status is Running ==> j == self.current)
                &&& (q.inner.proc_data matches Some(h) ==> self.data_table@.contains_key(h))
            } by {
                assert(pre.procs@.contains_key(j));
                if j != pid {
                    assert(self.procs@[j] == pre.procs@[j]);
                    match self.procs@[j].inner.proc_vm {
                        Some(qvm) => {
                            if qvm.page_table.addr == root {
                                // A live relative shares the table, so
                                // only the victim's stack pages went
                                // away, and those belong to no one else.
                                assert(pre.procs@[pid].inner.proc_vm == Some(vm0));
                                assert(!(pre.procs@[j].inner.status is Dead));
                                assert(!last_owner);
                                assert(qvm.stack.range.pages().disjoint(
                                    vm0.stack.range.pages(),
                                ));
                                assert(vm0.stack.range.pages().disjoint(qvm.stack.range.pages()));
                                assert forall|i: int|
                                    0 <= i < qvm.code@.len() implies (
                                #[trigger] qvm.code@[i]).pages().disjoint(
                                    vm0.stack.range.pages(),
                                ) by {
                                    assert(vm0.stack.range.pages().disjoint(
                                        qvm.code@[i].pages(),
                                    ));
                                    assert forall|x: u64|
                                        qvm.code@[i].pages().contains(x) implies !vm0.stack.range
                                        .pages().contains(x) by {
                                        if vm0.stack.range.pages().contains(x) {
                                            assert(!qvm.code@[i].pages().contains(x));
                                        }
                                    }
                                }
                                lemma_vm_wf_removed(qvm, mem0, *mem, vm0.stack.range.pages());
                            } else {
                                lemma_vm_wf_other_root(qvm, mem0, *mem, root);
                            }
                        },
                        None => {},
                    }
                }
            }
            assert forall|i: int| 0 <= i < self.ready_queue@.len() implies self.procs@.contains_key(
                #[trigger] self.ready_queue@[i],
            ) by {
                assert(pre.procs@.contains_key(pre.ready_queue@[i]));
            }
            lemma_isolated_dead_update(pre, *self, pid);
        }
        // Wake everyone who waited on this pid.
        let waiters = match self.wait_queue.remove(&pid) {
            Some(v) => v,
            None => Vec::new(),
        };
        let ghost after_kill = *self;
        let mut i: usize = 0;
        while i < waiters.len()
            invariant
                i <= waiters@.len(),
                self.wf(*mem),
                self.current == after_kill.current,
                self.next_pid == after_kill.next_pid,
                self.wait_queue == after_kill.wait_queue,
                self.data_table == after_kill.data_table,
                after_kill.ready_queue == old(self).ready_queue,
                old(self).ready_queue@.len() <= self.ready_queue@.len(),
                self.ready_queue@.subrange(0, old(self).ready_queue@.len() as int) == old(
                    self,
                ).ready_queue@,
                forall|k: u16|
                    #[trigger] self.procs@.contains_key(k) <==> after_kill.procs@.contains_key(k),
                forall|k: u16|
                    after_kill.procs@.contains_key(k) ==> ((#[trigger] self.procs@[k].inner.status
                        is Dead) <==> after_kill.procs@[k].inner.status is Dead),
                after_kill.procs@.contains_key(pid) && self.procs@[pid]
                    == after_kill.procs@[pid],
                after_kill.procs@[pid].inner.status is Dead,
                forall|j: int|
                    0 <= j < i ==> (after_kill.procs@.contains_key(#[trigger] waiters@[j]) && !(
                    after_kill.procs@[waiters@[j]].inner.status is Dead) ==> self.procs@[waiters@[j]].inner.status is Ready && self.procs@[waiters@[j]].inner.context.rax == (
                    ret as usize) && self.ready_queue@.contains(waiters@[j])),
            decreases waiters@.len() - i,
        {
            let w = waiters[i];
            let ghost before = *self;
            self.wake_up(w, Some(ret), mem);
            proof {
                if self.ready_queue@ != before.ready_queue@ {
                    lemma_seq_push_contains(before.ready_queue@, w);
                    assert forall|k2: int|
                        0 <= k2 < old(self).ready_queue@.len() implies self.ready_queue@[k2]
                        == old(self).ready_queue@[k2] by {
                        assert(before.ready_queue@[k2] == before.ready_queue@.subrange(
                            0,
                            old(self).ready_queue@.len() as int,
                        )[k2]);
                    }
                    assert(self.ready_queue@.subrange(
                        0,
                        old(self).ready_queue@.len() as int,
                    ) =~= old(self).ready_queue@);
                }
                assert forall|j: int|
                    0 <= j < i + 1 implies (after_kill.procs@.contains_key(
                    #[trigger] waiters@[j]) && !(after_kill.procs@[waiters@[j]].inner.status
                        is Dead) ==> self.procs@[waiters@[j]].inner.status is Ready
                        && self.procs@[waiters@[j]].inner.context.rax == (ret as usize)
                        && self.ready_queue@.contains(waiters@[j])) by {
                    if j < i && waiters@[j] != w {
                        assert(self.procs@[waiters@[j]] == before.procs@[waiters@[j]]);
                    }
                    if j == i && after_kill.procs@.contains_key(w) && !(
                    after_kill.procs@[w].inner.status is Dead) {
                        assert(self.ready_queue@ == before.ready_queue@.push(w));
                        assert(self.ready_queue@[self.ready_queue@.len() - 1] == w);
                    }
                }
                if w != pid {
                    assert(self.procs@[pid] == before.procs@[pid]);
                } else {
                    assert(before.procs@[pid].inner.status is Dead);
                    assert(self.procs@ == before.procs@);
                }
            }
            i = i + 1;
        }
    }

    /// Fork the current process.  The child gets a fresh pid, distinct
    /// from every currently registered pid, a copy of the parent's
    /// committed stack in its own slot, the shared family data, a zeroed
    /// return register, and a place at the tail of the ready queue; the
    /// parent's saved return register becomes the child's pid.  `None`
    /// when pids or memory ran out; nothing observable changes then.
    pub fn fork(&mut self, mem: &mut MemoryModel) -> (r: Option<u16>)
        requires
            old(self).wf(*old(mem)),
            old(self).live(old(self).current),
        ensures
            final(self).wf(*final(mem)),
            final(mem).wf(),
            final(self).current == old(self).current,
            final(self).wait_queue == old(self).wait_queue,
            match r {
                Some(child) => {
                    &&& !old(self).has_proc(child)
                    &&& child == old(self).next_pid
                    &&& final(self).next_pid == old(self).next_pid + 1
                    &&& final(self).has_proc(child)
                    &&& final(self).proc_of(child).inner.status is Ready
                    &&& final(self).proc_of(child).inner.context.rax == 0
                    &&& final(self).proc_of(child).inner.parent == Some(
                        ProcessId(old(self).current),
                    )
                    &&& final(self).proc_of(child).inner.proc_data == old(self).proc_of(
                        old(self).current,
                    ).inner.proc_data
                    &&& final(self).proc_of(old(self).current).inner.context.rax == child as usize
                    &&& final(self).proc_of(old(self).current).inner.context == (ProcessContext {
                        rax: child as usize,
                        ..old(self).proc_of(old(self).current).inner.context
                    })
                    &&& final(self).proc_of(old(self).current).inner.status == old(self).proc_of(
                        old(self).current,
                    ).inner.status
                    &&& final(self).proc_of(old(self).current).inner.children@ == old(
                        self,
                    ).proc_of(old(self).current).inner.children@.push(ProcessId(child))
                    &&& final(self).proc_of(old(self).current).inner.proc_data == old(
                        self,
                    ).proc_of(old(self).current).inner.proc_data
                    &&& final(self).ready_queue@ == old(self).ready_queue@.push(child)
                    &&& final(self).proc_of(child).inner.proc_vm.unwrap().stack.words@ == old(
                        self,
                    ).proc_of(old(self).current).inner.proc_vm.unwrap().stack.words@
                    &&& final(self).proc_of(child).inner.proc_vm.unwrap().stack.range.pages()
                        .disjoint(
                        old(self).proc_of(
                            old(self).current,
                        ).inner.proc_vm.unwrap().stack.range.pages(),
                    )
                    &&& forall|k: u16|
                        k != child && k != old(self).current && old(self).procs@.contains_key(k)
                            ==> #[trigger] final(self).procs@[k] == old(self).procs@[k]
                },
                None => {
                    let vm = old(self).proc_of(old(self).current).inner.proc_vm.unwrap();
                    let offset = (old(self).proc_of(old(self).current).inner.children@.len() + 1)
                        * crate::stack::STACK_MAX_PAGES;
                    &&& final(self).next_pid == old(self).next_pid
                    &&& forall|k: u16|
                        #[trigger] final(self).procs@.contains_key(k) <==> old(
                        self,
                    ).procs@.contains_key(k)
                    &&& forall|k: u16|
                        old(self).procs@.contains_key(k) ==> #[trigger] final(self).procs@[k]
                            == old(self).procs@[k]
                    &&& final(self).ready_queue == old(self).ready_queue
                    // Every refusal has a cause: no pid or child slot
                    // left, the table unsharable, no stack slot under
                    // the parent's, the pool short, or a taken page
                    // below the parent's stack.
                    &&& (old(self).next_pid == u16::MAX || old(self).proc_of(
                        old(self).current,
                    ).inner.children@.len() >= 0xFFFF || old(mem).users_of(vm.page_table.addr)
                        == u64::MAX || vm.stack.range.start < offset
                        + crate::stack::STACK_AREA_BOT_PAGE || old(mem).avail()
                        < vm.stack.usage || exists|p: u64|
                        p < vm.stack.range.start && old(mem).mapped(vm.page_table.addr).contains(
                            p,
                        ))
                },
            },
    {
        if self.next_pid == u16::MAX {
            return None;
        }
        let child_pid = self.next_pid;
        let cur = self.current;
        let ghost pre = *self;
        let ghost mem0 = *mem;
        let mut p = self.procs.remove(&cur).unwrap();
        if p.inner.children.len() >= 0xFFFF {
            self.procs.insert(cur, p);
            proof {
                assert(self.procs@ =~= pre.procs@);
                assert forall|i: int|
                    0 <= i < self.ready_queue@.len() implies self.procs@.contains_key(
                    #[trigger] self.ready_queue@[i],
                ) by {
                    assert(pre.procs@.contains_key(pre.ready_queue@[i]));
                }
                lemma_isolated_same_footprints(pre, *self);
            }
            return None;
        }
        let ghost parent_vm = p.inner.proc_vm.unwrap();
        let child_inner = match p.inner.fork(ProcessId(cur), mem) {
            Some(ci) => ci,
            None => {
                self.procs.insert(cur, p);
                proof {
                    assert(self.procs@ =~= pre.procs@);
                    assert forall|j: u16| #[trigger] self.procs@.contains_key(j) implies {
                        let q = self.procs@[j];
                        &&& q.pid == ProcessId(j)
                        &&& j < self.next_pid
                        &&& q.inner.wf(*mem)
                        &&& (q.inner.status is Running ==> j == self.current)
                        &&& (q.inner.proc_data matches Some(h) ==> self.data_table@.contains_key(
                            h,
                        ))
                    } by {
                        assert(pre.procs@.contains_key(j));
                        match self.procs@[j].inner.proc_vm {
                            Some(qvm) => {
                                lemma_vm_wf_same_view(qvm, mem0, *mem);
                            },
                            None => {},
                        }
                    }
                    assert forall|i: int|
                        0 <= i < self.ready_queue@.len() implies self.procs@.contains_key(
                        #[trigger] self.ready_queue@[i],
                    ) by {
                        assert(pre.procs@.contains_key(pre.ready_queue@[i]));
                    }
                    lemma_isolated_same_footprints(pre, *self);
                }
                return None;
            },
        };
        p.inner.children.push(ProcessId(child_pid));
        p.inner.set_rax(child_pid as usize);
        self.procs.insert(cur, p);
        let child = Process { pid: ProcessId(child_pid), inner: child_inner };
        self.procs.insert(child_pid, child);
        // The child holds the family data too.
        match child_inner_data(&self.procs, child_pid) {
            Some(h) => {
                match self.data_table.remove(&h) {
                    Some(mut slot) => {
                        if slot.refs < u64::MAX {
                            slot.refs = slot.refs + 1;
                        }
                        self.data_table.insert(h, slot);
                    },
                    None => {
                        proof {
                            assert(pre.procs@.contains_key(cur));
                            assert(pre.data_table@.contains_key(h));
                            assert(false);
                        }
                    },
                }
            },
            None => {
                proof {
                    assert(pre.procs@.contains_key(cur));
                    assert(false);
                }
            },
        }
        self.next_pid = self.next_pid + 1;
        self.ready_queue.push_back(child_pid);
        proof {
            let root = parent_vm.page_table.addr;
            let child_vm = self.procs@[child_pid].inner.proc_vm.unwrap();
            assert(self.procs@ =~= pre.procs@.insert(cur, self.procs@[cur]).insert(
                child_pid,
                self.procs@[child_pid],
            ));
            assert forall|h2: usize|
                #[trigger] pre.data_table@.contains_key(h2) implies self.data_table@.contains_key(
                h2,
            ) by {}
            assert forall|j: u16| #[trigger] self.procs@.contains_key(j) implies {
                let q = self.procs@[j];
                &&& q.pid == ProcessId(j)
                &&& j < self.next_pid
                &&& q.inner.wf(*mem)
                &&& (q.inner.status is Running ==> j == self.current)
                &&& (q.inner.proc_data matches Some(h) ==> self.data_table@.contains_key(h))
            } by {
                if j == child_pid {
                } else {
                    assert(pre.procs@.contains_key(j));
                    if j != cur {
                        assert(self.procs@[j] == pre.procs@[j]);
                    }
                    match self.procs@[j].inner.proc_vm {
                        Some(qvm) => {
                            if qvm.page_table.addr == root {
                                lemma_vm_wf_grown(qvm, mem0, *mem);
                            } else {
                                lemma_vm_wf_other_root(qvm, mem0, *mem, root);
                            }
                        },
                        None => {},
                    }
                }
            }
            assert forall|i: int| 0 <= i < self.ready_queue@.len() implies self.procs@.contains_key(
                #[trigger] self.ready_queue@[i],
            ) by {
                if i < pre.ready_queue@.len() {
                    assert(pre.procs@.contains_key(pre.ready_queue@[i]));
                }
            }
            assert forall|a: u16, b: u16|
                #![trigger self.procs@[a], self.procs@[b]]
                (self.procs@.contains_key(a) && self.procs@.contains_key(b) && a != b
                    && self.procs@[a].inner.proc_vm is Some && self.procs@[b].inner.proc_vm is Some
                    && self.procs@[a].inner.proc_vm.unwrap().page_table.addr
                    == self.procs@[b].inner.proc_vm.unwrap().page_table.addr) implies {
                let va = self.procs@[a].inner.proc_vm.unwrap();
                let vb = self.procs@[b].inner.proc_vm.unwrap();
                &&& va.stack.range.pages().disjoint(vb.stack.range.pages())
                &&& forall|i: int|
                    0 <= i < vb.code@.len() ==> va.stack.range.pages().disjoint(
                        (#[trigger] vb.code@[i]).pages(),
                    )
            } by {
                let va = self.procs@[a].inner.proc_vm.unwrap();
                let vb = self.procs@[b].inner.proc_vm.unwrap();
                if a != child_pid && b != child_pid {
                    assert(pre.procs@.contains_key(a) && pre.procs@.contains_key(b));
                    assert(self.procs@[a].inner.proc_vm == pre.procs@[a].inner.proc_vm);
                    assert(self.procs@[b].inner.proc_vm == pre.procs@[b].inner.proc_vm);
                } else if a == child_pid {
                    // The child's stack pages were free before the fork;
                    // everyone else's stacks and code were mapped.
                    assert(pre.procs@.contains_key(b));
                    assert(vb == pre.procs@[b].inner.proc_vm.unwrap());
                    assert(!(pre.procs@[b].inner.status is Dead));
                    assert forall|x: u64|
                        va.stack.range.pages().contains(x) implies !vb.stack.range.pages()
                        .contains(x) by {
                        assert(!mem0.mapped(root).contains(x));
                        assert(vb.stack.backed(mem0, root));
                    }
                    assert forall|i: int|
                        0 <= i < vb.code@.len() implies va.stack.range.pages().disjoint(
                        (#[trigger] vb.code@[i]).pages(),
                    ) by {
                        assert forall|x: u64|
                            va.stack.range.pages().contains(x) implies !vb.code@[i].pages()
                            .contains(x) by {
                            assert(!mem0.mapped(root).contains(x));
                            assert(vb.code@[i].pages() <= mem0.mapped(root));
                        }
                    }
                } else {
                    // The other side is the child: its code list is
                    // empty and its stack was free.
                    assert(pre.procs@.contains_key(a));
                    assert(va == pre.procs@[a].inner.proc_vm.unwrap());
                    assert(vb.code@.len() == 0);
                    assert forall|x: u64|
                        va.stack.range.pages().contains(x) implies !vb.stack.range.pages()
                        .contains(x) by {
                        if vb.stack.range.pages().contains(x) {
                            assert(!mem0.mapped(root).contains(x));
                            assert(va.stack.backed(mem0, root));
                            assert(false);
                        }
                    }
                }
            }
        }
        Some(child_pid)
    }

    /// Spawn a process from a pre-loaded application: clone the kernel's
    /// level-4 table, commit the app's code and a first stack page, point
    /// the context at the entry, give it fresh family data, register it
    /// and queue it.  `None` when pids or memory ran out.
    pub fn spawn(&mut self, app: &AppInfo, name: String, parent: Option<u16>,
        mem: &mut MemoryModel) -> (r: Option<u16>)
        requires
            old(self).wf(*old(mem)),
            old(self).has_proc(KERNEL_PID),
            old(self).live(KERNEL_PID),
            app.wf(),
        ensures
            final(self).wf(*final(mem)),
            final(mem).wf(),
            final(self).current == old(self).current,
            final(self).wait_queue == old(self).wait_queue,
            match r {
                Some(pid) => {
                    &&& !old(self).has_proc(pid)
                    &&& pid == old(self).next_pid
                    &&& final(self).has_proc(pid)
                    &&& final(self).proc_of(pid).inner.status is Ready
                    &&& final(self).proc_of(pid).inner.context.instruction_pointer == app.entry
                    &&& final(self).proc_of(pid).inner.context.stack_pointer
                        == crate::stack::STACK_INIT_TOP
                    &&& final(self).ready_queue@ == old(self).ready_queue@.push(pid)
                    &&& forall|k: u16|
                        k != pid && old(self).procs@.contains_key(k)
                            ==> #[trigger] final(self).procs@[k] == old(self).procs@[k]
                    // The fresh address space starts as a copy of the
                    // kernel's level-4 table.
                    &&& forall|p: u64|
                        #[trigger] old(mem).mapped(old(self).root_of(KERNEL_PID)).contains(p)
                            ==> final(mem).mapped(
                            final(self).proc_of(pid).inner.proc_vm.unwrap().page_table.addr,
                        ).contains(p)
                },
                None => {
                    let code = (PageRange {
                        start: app.code_start_page,
                        end: (app.code_start_page + app.code_pages) as u64,
                    });
                    let kroot = old(self).root_of(KERNEL_PID);
                    ||| old(self).next_pid == u16::MAX
                    ||| old(self).next_data == usize::MAX
                    ||| old(mem).next_root == u64::MAX
                    ||| old(mem).avail() < 1 + app.code_pages + crate::stack::STACK_DEF_PAGE
                    ||| exists|p: u64|
                        code.pages().contains(p) && old(mem).mapped(kroot).contains(p)
                    ||| old(mem).mapped(kroot).contains(
                        spec_page_of(crate::stack::STACK_INIT_BOT),
                    )
                },
            },
    {
        if self.next_pid == u16::MAX || self.next_data == usize::MAX {
            return None;
        }
        let pid = self.next_pid;
        let ghost pre = *self;
        let ghost mem0 = *mem;
        let kernel_root = match self.procs.get(&KERNEL_PID) {
            Some(k) => {
                match &k.inner.proc_vm {
                    Some(kvm) => kvm.page_table.addr,
                    None => {
                        proof {
                            assert(false);
                        }
                        0
                    },
                }
            },
            None => {
                proof {
                    assert(false);
                }
                0
            },
        };
        let kernel_table = crate::paging::PageTableContext { addr: kernel_root };
        let page_table = match kernel_table.clone_level_4(mem) {
            Some(pt) => pt,
            None => {
                proof {
                    crate::memory::lemma_unchanged_implies_same_view(*mem, mem0);
                    self.lemma_wf_same_view_step(pre, mem0, *mem);
                }
                return None;
            },
        };
        let fresh_root = page_table.addr;
        let ghost mem_cloned = *mem;
        let mut vm = ProcessVm::new(page_table, mem);
        match vm.load_elf(app, mem, true) {
            Ok(()) => {},
            Err(_) => {
                // Discard the half-built address space.
                let ghost mem_failed = *mem;
                mem.release_table(fresh_root);
                proof {
                    crate::memory::lemma_same_tables_trans(mem0, mem_cloned, mem_failed, fresh_root);
                    crate::memory::lemma_same_tables_trans(mem0, mem_failed, *mem, fresh_root);
                    assert forall|j: u16|
                        #[trigger] pre.procs@.contains_key(j) && pre.procs@[j].inner.proc_vm
                            is Some implies pre.procs@[j].inner.proc_vm.unwrap().page_table.addr
                        != fresh_root by {
                        let qvm = pre.procs@[j].inner.proc_vm.unwrap();
                        assert(mem0.has_table(qvm.page_table.addr));
                    }
                    self.lemma_wf_mem_step(pre, mem0, *mem, fresh_root, pid);
                }
                return None;
            },
        }
        let data = ProcessData::new();
        let handle = self.next_data;
        self.data_table.insert(handle, DataSlot { refs: 1, data });
        self.next_data = self.next_data + 1;
        let mut proc = Process::new(ProcessId(pid), name, match parent {
            Some(pp) => Some(ProcessId(pp)),
            None => None,
        }, vm, handle, mem);
        proc.inner.init_stack_frame(app.entry, crate::stack::STACK_INIT_TOP);
        self.procs.insert(pid, proc);
        self.next_pid = self.next_pid + 1;
        self.ready_queue.push_back(pid);
        proof {
            assert(self.procs@ =~= pre.procs@.insert(pid, self.procs@[pid]));
            assert forall|h2: usize|
                #[trigger] pre.data_table@.contains_key(h2) implies self.data_table@.contains_key(
                h2,
            ) by {}
            assert forall|j: u16| #[trigger] self.procs@.contains_key(j) implies {
                let q = self.procs@[j];
                &&& q.pid == ProcessId(j)
                &&& j < self.next_pid
                &&& q.inner.wf(*mem)
                &&& (q.inner.status is Running ==> j == self.current)
                &&& (q.inner.proc_data matches Some(h) ==> self.data_table@.contains_key(h))
            } by {
                if j != pid {
                    assert(pre.procs@.contains_key(j));
                    assert(self.procs@[j] == pre.procs@[j]);
                    match self.procs@[j].inner.proc_vm {
                        Some(qvm) => {
                            assert(mem0.has_table(qvm.page_table.addr));
                            assert(qvm.page_table.addr != fresh_root);
                            crate::memory::lemma_same_tables_trans(
                                mem0,
                                mem_cloned,
                                *mem,
                                fresh_root,
                            );
                            lemma_vm_wf_other_root(qvm, mem0, *mem, fresh_root);
                        },
                        None => {},
                    }
                }
            }
            assert forall|i: int| 0 <= i < self.ready_queue@.len() implies self.procs@.contains_key(
                #[trigger] self.ready_queue@[i],
            ) by {
                if i < pre.ready_queue@.len() {
                    assert(pre.procs@.contains_key(pre.ready_queue@[i]));
                }
            }
            assert forall|a: u16, b: u16|
                #![trigger self.procs@[a], self.procs@[b]]
                (self.procs@.contains_key(a) && self.procs@.contains_key(b) && a != b
                    && self.procs@[a].inner.proc_vm is Some && self.procs@[b].inner.proc_vm is Some
                    && self.procs@[a].inner.proc_vm.unwrap().page_table.addr
                    == self.procs@[b].inner.proc_vm.unwrap().page_table.addr) implies {
                let va = self.procs@[a].inner.proc_vm.unwrap();
                let vb = self.procs@[b].inner.proc_vm.unwrap();
                &&& va.stack.range.pages().disjoint(vb.stack.range.pages())
                &&& forall|i: int|
                    0 <= i < vb.code@.len() ==> va.stack.range.pages().disjoint(
                        (#[trigger] vb.code@[i]).pages(),
                    )
            } by {
                if a != pid && b != pid {
                    assert(pre.procs@.contains_key(a) && pre.procs@.contains_key(b));
                    assert(self.procs@[a].inner.proc_vm == pre.procs@[a].inner.proc_vm);
                    assert(self.procs@[b].inner.proc_vm == pre.procs@[b].inner.proc_vm);
                } else if a == pid {
                    // The fresh root is no one else's.
                    assert(pre.procs@.contains_key(b));
                    let wb = pre.procs@[b].inner.proc_vm.unwrap();
                    assert(mem0.has_table(wb.page_table.addr));
                    assert(!mem0.has_table(fresh_root));
                    assert(wb.page_table.addr != fresh_root);
                    assert(false);
                } else {
                    assert(pre.procs@.contains_key(a));
                    let wa = pre.procs@[a].inner.proc_vm.unwrap();
                    assert(mem0.has_table(wa.page_table.addr));
                    assert(!mem0.has_table(fresh_root));
                    assert(wa.page_table.addr != fresh_root);
                    assert(false);
                }
            }
        }
        Some(pid)
    }

    /// Re-establish the invariant when the memory is observationally
    /// the same.
    proof fn lemma_wf_same_view_step(self, pre: ProcessManager, m1: MemoryModel, m2: MemoryModel)
        requires
            pre.wf(m1),
            m2.wf(),
            m2.same_view(m1),
            self.procs@ == pre.procs@,
            self.ready_queue@ == pre.ready_queue@,
            self.data_table@ == pre.data_table@,
            self.current == pre.current,
            self.next_pid == pre.next_pid,
        ensures
            self.wf(m2),
    {
        assert forall|j: u16| #[trigger] self.procs@.contains_key(j) implies {
            let q = self.procs@[j];
            &&& q.pid == ProcessId(j)
            &&& j < self.next_pid
            &&& q.inner.wf(m2)
            &&& (q.inner.status is Running ==> j == self.current)
            &&& (q.inner.proc_data matches Some(h) ==> self.data_table@.contains_key(h))
        } by {
            assert(pre.procs@.contains_key(j));
            match self.procs@[j].inner.proc_vm {
                Some(qvm) => {
                    lemma_vm_wf_same_view(qvm, m1, m2);
                },
                None => {},
            }
        }
        assert forall|i: int| 0 <= i < self.ready_queue@.len() implies self.procs@.contains_key(
            #[trigger] self.ready_queue@[i],
        ) by {
            assert(pre.procs@.contains_key(pre.ready_queue@[i]));
        }
        lemma_isolated_same_footprints(pre, self);
    }

    /// Re-establish the invariant when only the memory changed, in one
    /// root no live process owns.
    proof fn lemma_wf_mem_step(
        self,
        pre: ProcessManager,
        m1: MemoryModel,
        m2: MemoryModel,
        root: u64,
        fresh: u16,
    )
        requires
            pre.wf(m1),
            m2.wf(),
            self.procs@ == pre.procs@,
            self.ready_queue@ == pre.ready_queue@,
            self.data_table@ == pre.data_table@,
            self.current == pre.current,
            self.next_pid == pre.next_pid,
            forall|j: u16|
                #[trigger] pre.procs@.contains_key(j) && pre.procs@[j].inner.proc_vm is Some
                    ==> pre.procs@[j].inner.proc_vm.unwrap().page_table.addr != root,
            m2.same_tables_except(m1, root),
        ensures
            self.wf(m2),
    {
        assert forall|j: u16| #[trigger] self.procs@.contains_key(j) implies {
            let q = self.procs@[j];
            &&& q.pid == ProcessId(j)
            &&& j < self.next_pid
            &&& q.inner.wf(m2)
            &&& (q.inner.status is Running ==> j == self.current)
            &&& (q.inner.proc_data matches Some(h) ==> self.data_table@.contains_key(h))
        } by {
            assert(pre.procs@.contains_key(j));
            match self.procs@[j].inner.proc_vm {
                Some(qvm) => {
                    lemma_vm_wf_other_root(qvm, m1, m2, root);
                },
                None => {},
            }
        }
        assert forall|i: int| 0 <= i < self.ready_queue@.len() implies self.procs@.contains_key(
            #[trigger] self.ready_queue@[i],
        ) by {
            assert(pre.procs@.contains_key(pre.ready_queue@[i]));
        }
        lemma_isolated_same_footprints(pre, self);
    }

    /// The family-data handle of the current process.
    fn current_data_handle(&self) -> (r: usize)
        requires
            self.wf_procs_only(),
            self.has_proc(self.current),
            self.proc_of(self.current).inner.proc_data is Some,
        ensures
            Some(r) == self.proc_of(self.current).inner.proc_data,
    {
        match self.procs.get(&self.current) {
            Some(p) => {
                match p.inner.proc_data {
                    Some(h) => h,
                    None => {
                        proof {
                            assert(false);
                        }
                        0
                    },
                }
            },
            None => {
                proof {
                    assert(false);
                }
                0
            },
        }
    }

    /// The semaphore map of the current process's family.
    pub open spec fn current_sems(self) -> Map<u32, crate::sync::Semaphore> {
        self.data_table@[self.proc_of(self.current).inner.proc_data.unwrap()].data.semaphores.sems@
    }

    /// Create a semaphore in the current family.
    pub fn sem_new(&mut self, key: u32, value: usize, mem: &MemoryModel) -> (r: bool)
        requires
            old(self).wf(*mem),
            old(self).live(old(self).current),
        ensures
            final(self).wf(*mem),
            *final(self) == (ProcessManager { data_table: final(self).data_table, ..*old(self) }),
            r == !old(self).current_sems().contains_key(key),
            r ==> final(self).current_sems().contains_key(key) && final(self).current_sems()[
                key].count == value && final(self).current_sems()[key].wait_queue@.len() == 0,
            !r ==> final(self).current_sems() == old(self).current_sems(),
    {
        let h = self.current_data_handle();
        let mut slot = self.data_table.remove(&h).unwrap();
        let r = slot.data.sem_new(key, value);
        self.data_table.insert(h, slot);
        proof {
            self.lemma_after_data_update(*old(self), *mem, h);
        }
        r
    }

    /// Drop a semaphore of the current family.
    pub fn sem_remove(&mut self, key: u32, mem: &MemoryModel) -> (r: bool)
        requires
            old(self).wf(*mem),
            old(self).live(old(self).current),
        ensures
            final(self).wf(*mem),
            *final(self) == (ProcessManager { data_table: final(self).data_table, ..*old(self) }),
            r == old(self).current_sems().contains_key(key),
            final(self).current_sems() == old(self).current_sems().remove(key),
    {
        let h = self.current_data_handle();
        let mut slot = self.data_table.remove(&h).unwrap();
        let r = slot.data.sem_remove(key);
        self.data_table.insert(h, slot);
        proof {
            self.lemma_after_data_update(*old(self), *mem, h);
        }
        r
    }

    /// Wait on a semaphore of the current family for `pid`.
    pub fn sem_wait(&mut self, key: u32, pid: u16, mem: &MemoryModel) -> (r:
        crate::sync::SemaphoreResult)
        requires
            old(self).wf(*mem),
            old(self).live(old(self).current),
        ensures
            final(self).wf(*mem),
            *final(self) == (ProcessManager { data_table: final(self).data_table, ..*old(self) }),
            !old(self).current_sems().contains_key(key) ==> r
                == crate::sync::SemaphoreResult::NotExist && final(self).current_sems() == old(
                self,
            ).current_sems(),
            old(self).current_sems().contains_key(key) ==> {
                let s = old(self).current_sems()[key];
                let stepped = crate::sync::wait_step(
                    s.count as nat,
                    s.wait_queue@,
                    ProcessId(pid),
                );
                &&& final(self).current_sems().contains_key(key)
                &&& final(self).current_sems()[key].count == stepped.0
                &&& final(self).current_sems()[key].wait_queue@ == stepped.1
                &&& r == stepped.2
            },
    {
        let h = self.current_data_handle();
        let mut slot = self.data_table.remove(&h).unwrap();
        let r = slot.data.sem_wait(key, ProcessId(pid));
        self.data_table.insert(h, slot);
        proof {
            self.lemma_after_data_update(*old(self), *mem, h);
        }
        r
    }

    /// Signal a semaphore of the current family.
    pub fn sem_signal(&mut self, key: u32, mem: &MemoryModel) -> (r:
        crate::sync::SemaphoreResult)
        requires
            old(self).wf(*mem),
            old(self).live(old(self).current),
        ensures
            final(self).wf(*mem),
            *final(self) == (ProcessManager { data_table: final(self).data_table, ..*old(self) }),
            !old(self).current_sems().contains_key(key) ==> r
                == crate::sync::SemaphoreResult::NotExist && final(self).current_sems() == old(
                self,
            ).current_sems(),
            old(self).current_sems().contains_key(key) ==> {
                let s = old(self).current_sems()[key];
                let stepped = crate::sync::signal_step(s.count as nat, s.wait_queue@);
                &&& final(self).current_sems().contains_key(key)
                &&& final(self).current_sems()[key].count == stepped.0
                &&& final(self).current_sems()[key].wait_queue@ == stepped.1
                &&& r == stepped.2
            },
    {
        let h = self.current_data_handle();
        let mut slot = self.data_table.remove(&h).unwrap();
        let r = slot.data.sem_signal(key);
        self.data_table.insert(h, slot);
        proof {
            self.lemma_after_data_update(*old(self), *mem, h);
        }
        r
    }

    /// Read from a descriptor of the current family.
    pub fn read(&mut self, fd: u8, buf: &mut Vec<u8>, input: &mut crate::input::InputBuffer,
        mem: &MemoryModel) -> (r: isize)
        requires
            old(self).wf(*mem),
            old(self).live(old(self).current),
        ensures
            final(self).wf(*mem),
            *final(self) == (ProcessManager { data_table: final(self).data_table, ..*old(self) }),
            final(buf)@.len() == old(buf)@.len(),
            ({
                let h = old(self).proc_of(old(self).current).inner.proc_data.unwrap();
                let handles = old(self).data_table@[h].data.resources.handles@;
                let handles2 = final(self).data_table@[h].data.resources.handles@;
                &&& !handles.contains_key(fd) ==> r == -1 && handles2 == handles
                    && crate::input::input_contents(*final(input))
                    == crate::input::input_contents(*old(input)) && final(buf)@ == old(buf)@
                &&& handles.contains_key(fd) ==> {
                    &&& handles2 == handles.insert(fd, handles2[fd])
                    &&& exists|rop: Option<usize>|
                        #[trigger] crate::resource::spec_read(
                            handles[fd],
                            handles2[fd],
                            old(buf)@,
                            final(buf)@,
                            crate::input::input_contents(*old(input)),
                            crate::input::input_contents(*final(input)),
                            rop,
                        ) && r == (match rop {
                            Some(n) => if n <= isize::MAX as usize {
                                n as isize
                            } else {
                                -1isize
                            },
                            None => -1isize,
                        })
                }
            }),
    {
        let h = self.current_data_handle();
        let mut slot = self.data_table.remove(&h).unwrap();
        let r = slot.data.read(fd, buf, input);
        self.data_table.insert(h, slot);
        proof {
            self.lemma_after_data_update(*old(self), *mem, h);
        }
        r
    }

    /// Write to a descriptor of the current family.
    pub fn write(&mut self, fd: u8, buf: &Vec<u8>, mem: &MemoryModel) -> (r: isize)
        requires
            old(self).wf(*mem),
            old(self).live(old(self).current),
        ensures
            final(self).wf(*mem),
            *final(self) == (ProcessManager { data_table: final(self).data_table, ..*old(self) }),
            ({
                let handles = old(self).data_table@[old(self).proc_of(
                    old(self).current,
                ).inner.proc_data.unwrap()].data.resources.handles@;
                &&& !handles.contains_key(fd) ==> r == -1
                &&& handles.contains_key(fd) && (handles[fd]
                    matches crate::resource::Resource::Console(crate::resource::StdIO::Stdout))
                    && buf@.len() <= isize::MAX ==> r == buf@.len()
            }),
    {
        let h = self.current_data_handle();
        let mut slot = self.data_table.remove(&h).unwrap();
        let r = slot.data.write(fd, buf);
        self.data_table.insert(h, slot);
        proof {
            self.lemma_after_data_update(*old(self), *mem, h);
        }
        r
    }

    /// Open a resource in the current family, as the storage stack hands
    /// a file over; a full table refuses with the largest descriptor.
    pub fn open_file(&mut self, res: crate::resource::Resource, mem: &MemoryModel) -> (r: u8)
        requires
            old(self).wf(*mem),
            old(self).live(old(self).current),
        ensures
            final(self).wf(*mem),
            *final(self) == (ProcessManager { data_table: final(self).data_table, ..*old(self) }),
            ({
                let handles = old(self).data_table@[old(self).proc_of(
                    old(self).current,
                ).inner.proc_data.unwrap()].data.resources.handles@;
                let handles2 = final(self).data_table@[old(self).proc_of(
                    old(self).current,
                ).inner.proc_data.unwrap()].data.resources.handles@;
                &&& handles.dom().len() < 256 ==> r == handles.dom().len() && handles2
                    == handles.insert(r, res)
                &&& handles.dom().len() >= 256 ==> r == 255 && handles2 == handles
            }),
    {
        let h = self.current_data_handle();
        let mut slot = self.data_table.remove(&h).unwrap();
        let ghost slot0 = slot;
        proof {
            assert(slot0 == old(self).data_table@[h]);
            vstd::std_specs::btree::axiom_spec_btree_map_len(&slot.data.resources.handles);
            vstd::std_specs::btree::axiom_btree_map_view_finite_dom(slot.data.resources.handles);
        }
        let full = slot.data.resources.handles.len() >= 256;
        let r = if full {
            255
        } else {
            slot.data.open(res)
        };
        proof {
            if !full {
                assert(r == slot0.data.resources.handles@.dom().len());
            }
        }
        self.data_table.insert(h, slot);
        proof {
            self.lemma_after_data_update(*old(self), *mem, h);
        }
        r
    }

    /// Close a descriptor of the current family.
    pub fn close_file(&mut self, fd: u8, mem: &MemoryModel) -> (r: bool)
        requires
            old(self).wf(*mem),
            old(self).live(old(self).current),
        ensures
            final(self).wf(*mem),
            *final(self) == (ProcessManager { data_table: final(self).data_table, ..*old(self) }),
            r == old(self).data_table@[old(self).proc_of(
                old(self).current,
            ).inner.proc_data.unwrap()].data.resources.handles@.contains_key(fd),
            final(self).data_table@[old(self).proc_of(
                old(self).current,
            ).inner.proc_data.unwrap()].data.resources.handles@ == old(self).data_table@[old(
                self,
            ).proc_of(old(self).current).inner.proc_data.unwrap()].data.resources.handles@.remove(
                fd,
            ),
    {
        let h = self.current_data_handle();
        let mut slot = self.data_table.remove(&h).unwrap();
        let r = slot.data.close_file(fd);
        self.data_table.insert(h, slot);
        proof {
            self.lemma_after_data_update(*old(self), *mem, h);
        }
        r
    }

    /// Look an environment variable of the current family up.
    pub fn env(&self, key: &String, mem: &MemoryModel) -> (r: Option<String>)
        requires
            self.wf(*mem),
            self.live(self.current),
        ensures
            match r {
                Some(v) => crate::data::env_lookup(
                    self.data_table@[self.proc_of(
                        self.current,
                    ).inner.proc_data.unwrap()].data.env@,
                    key@,
                ) == Some(v@),
                None => crate::data::env_lookup(
                    self.data_table@[self.proc_of(
                        self.current,
                    ).inner.proc_data.unwrap()].data.env@,
                    key@,
                ) is None,
            },
    {
        let h = self.current_data_handle();
        match self.data_table.get(&h) {
            Some(slot) => slot.data.env(key),
            None => {
                proof {
                    assert(false);
                }
                None
            },
        }
    }

    /// Re-establish the invariant after one family-data record changed.
    proof fn lemma_after_data_update(self, pre: ProcessManager, mem: MemoryModel, h: usize)
        requires
            pre.wf(mem),
            pre.data_table@.contains_key(h),
            self.data_table@ == pre.data_table@.remove(h).insert(h, self.data_table@[h]),
            self.procs@ == pre.procs@,
            self.ready_queue@ == pre.ready_queue@,
            self.current == pre.current,
            self.next_pid == pre.next_pid,
        ensures
            self.wf(mem),
    {
        assert forall|j: u16| #[trigger] self.procs@.contains_key(j) implies {
            let q = self.procs@[j];
            &&& q.pid == ProcessId(j)
            &&& j < self.next_pid
            &&& q.inner.wf(mem)
            &&& (q.inner.status is Running ==> j == self.current)
            &&& (q.inner.proc_data matches Some(h2) ==> self.data_table@.contains_key(h2))
        } by {
            assert(pre.procs@.contains_key(j));
        }
        assert forall|i: int| 0 <= i < self.ready_queue@.len() implies self.procs@.contains_key(
            #[trigger] self.ready_queue@[i],
        ) by {
            assert(pre.procs@.contains_key(pre.ready_queue@[i]));
        }
        lemma_isolated_same_footprints(pre, self);
    }

    /// Write one word of the current process's committed stack, as a
    /// store through the loaded address space does.
    pub fn write_stack_word(&mut self, addr: u64, value: u64, mem: &MemoryModel) -> (r: bool)
        requires
            old(self).wf(*mem),
            old(self).live(old(self).current),
        ensures
            final(self).wf(*mem),
            final(self).current == old(self).current,
            ({
                let stack = old(self).proc_of(old(self).current).inner.proc_vm.unwrap().stack;
                &&& r == stack.word_addr(addr)
                &&& r ==> final(self).proc_of(old(self).current).inner.proc_vm.unwrap().stack.words@
                    == stack.words@.update(stack.word_index(addr), value)
                &&& !r ==> final(self).procs@ == old(self).procs@
            }),
    {
        let cur = self.current;
        let mut p = self.procs.remove(&cur).unwrap();
        let mut vm = p.inner.proc_vm.take().unwrap();
        proof {
            lemma_stack_byte_bounds(vm.stack);
        }
        let ok = addr % 8 == 0 && addr <= u64::MAX - 8 && vm.stack.range.start
            * crate::memory::PAGE_SIZE <= addr && addr + 8 <= vm.stack.range.end
            * crate::memory::PAGE_SIZE;
        if ok {
            vm.stack.write_word(addr, value);
        }
        p.inner.proc_vm = Some(vm);
        self.procs.insert(cur, p);
        proof {
            assert(self.procs@ =~= old(self).procs@.insert(cur, self.procs@[cur]));
            if !ok {
                assert(self.procs@ =~= old(self).procs@);
            }
            assert forall|j: u16| #[trigger] self.procs@.contains_key(j) implies {
                let q = self.procs@[j];
                &&& q.pid == ProcessId(j)
                &&& j < self.next_pid
                &&& q.inner.wf(*mem)
                &&& (q.inner.status is Running ==> j == self.current)
                &&& (q.inner.proc_data matches Some(h) ==> self.data_table@.contains_key(h))
            } by {
                assert(old(self).procs@.contains_key(j));
                if j != cur {
                    assert(self.procs@[j] == old(self).procs@[j]);
                }
            }
            assert forall|i: int| 0 <= i < self.ready_queue@.len() implies self.procs@.contains_key(
                #[trigger] self.ready_queue@[i],
            ) by {
                assert(old(self).procs@.contains_key(old(self).ready_queue@[i]));
            }
            lemma_isolated_same_footprints(*old(self), *self);
        }
        ok
    }

    /// Read one word of the current process's committed stack, as a load
    /// through the loaded address space does; an address outside the
    /// committed stack reads as zero.
    pub fn read_stack_word(&self, addr: u64, mem: &MemoryModel) -> (r: u64)
        requires
            self.wf(*mem),
            self.live(self.current),
        ensures
            ({
                let stack = self.proc_of(self.current).inner.proc_vm.unwrap().stack;
                stack.word_addr(addr) ==> r == stack.words@[stack.word_index(addr)]
            }),
    {
        match self.procs.get(&self.current) {
            Some(p) => {
                match &p.inner.proc_vm {
                    Some(vm) => {
                        proof {
                            lemma_stack_byte_bounds(vm.stack);
                        }
                        if addr % 8 == 0 && addr <= u64::MAX - 8 && vm.stack.range.start
                            * crate::memory::PAGE_SIZE <= addr && addr + 8 <= vm.stack.range.end
                            * crate::memory::PAGE_SIZE {
                            vm.stack.read_word(addr)
                        } else {
                            0
                        }
                    },
                    None => 0,
                }
            },
            None => 0,
        }
    }

    /// Re-establish the invariant after one process's inner state
    /// changed without touching its address-space footprint or the other
    /// book-keeping.
    proof fn lemma_after_inner_update(self, pre: ProcessManager, mem: MemoryModel, k: u16)
        requires
            pre.wf(mem),
            pre.procs@.contains_key(k),
            self.procs@ == pre.procs@.insert(k, self.procs@[k]),
            self.procs@.contains_key(k),
            self.proc_of(k).pid == pre.proc_of(k).pid,
            self.proc_of(k).inner.proc_vm == pre.proc_of(k).inner.proc_vm,
            self.proc_of(k).inner.proc_data == pre.proc_of(k).inner.proc_data,
            self.proc_of(k).inner.status is Dead <==> pre.proc_of(k).inner.status is Dead,
            self.proc_of(k).inner.exit_code is Some <==> pre.proc_of(k).inner.exit_code is Some,
            self.proc_of(k).inner.children == pre.proc_of(k).inner.children,
            self.proc_of(k).inner.status is Running ==> k == self.current,
            self.current == pre.current || self.current == k,
            self.current == pre.current ==> forall|j: u16|
                #[trigger] self.procs@.contains_key(j) && self.procs@[j].inner.status is Running
                    ==> (j == k ==> k == self.current),
            self.ready_queue == pre.ready_queue,
            self.data_table == pre.data_table,
            self.next_pid == pre.next_pid,
            self.current == pre.current,
        ensures
            self.wf(mem),
    {
        assert forall|j: u16| #[trigger] self.procs@.contains_key(j) implies {
            let p = self.procs@[j];
            &&& p.pid == ProcessId(j)
            &&& j < self.next_pid
            &&& p.inner.wf(mem)
            &&& (p.inner.status is Running ==> j == self.current)
            &&& (p.inner.proc_data matches Some(h) ==> self.data_table@.contains_key(h))
        } by {
            assert(pre.procs@.contains_key(j));
            if j != k {
                assert(self.procs@[j] == pre.procs@[j]);
            } else {
                assert(pre.proc_of(k).inner.wf(mem));
            }
        }
        assert forall|i: int| 0 <= i < self.ready_queue@.len() implies self.procs@.contains_key(
            #[trigger] self.ready_queue@[i],
        ) by {
            assert(pre.procs@.contains_key(pre.ready_queue@[i]));
        }
        lemma_isolated_same_footprints(pre, self);
    }

    /// At most one process is `Running` at any instant: any two running
    /// pids are the same (namely the current one).
    pub open spec fn at_most_one_running(self) -> bool {
        forall|a: u16, b: u16|
            #![trigger self.procs@[a], self.procs@[b]]
            (self.procs@.contains_key(a) && self.procs@.contains_key(b)
                && self.procs@[a].inner.status is Running && self.procs@[b].inner.status
                is Running) ==> a == b
    }
}

/// A pushed element joins a sequence's membership, nothing else does.
proof fn lemma_seq_push_contains(s: Seq<u16>, x: u16)
    ensures
        forall|w: u16| s.push(x).contains(w) <==> (s.contains(w) || w == x),
{
    assert forall|w: u16| s.push(x).contains(w) implies (s.contains(w) || w == x) by {
        let i = choose|i: int| 0 <= i < s.push(x).len() && s.push(x)[i] == w;
        if i < s.len() {
            assert(s[i] == w);
        }
    }
    assert forall|w: u16| s.contains(w) || w == x implies s.push(x).contains(w) by {
        if s.contains(w) {
            let i = choose|i: int| 0 <= i < s.len() && s[i] == w;
            assert(s.push(x)[i] == w);
        } else {
            assert(s.push(x)[s.len() as int] == w);
        }
    }
}

/// The family-data handle of a registered process.
fn child_inner_data(procs: &BTreeMap<u16, Process>, pid: u16) -> (r: Option<usize>)
    requires
        procs@.contains_key(pid),
    ensures
        r == procs@[pid].inner.proc_data,
{
    match procs.get(&pid) {
        Some(p) => p.inner.proc_data,
        None => None,
    }
}

/// A well-formed stack's byte bounds fit the address space with room
/// for a word.
proof fn lemma_stack_byte_bounds(s: crate::stack::Stack)
    requires
        s.wf(),
    ensures
        s.range.start * crate::memory::PAGE_SIZE <= s.range.end * crate::memory::PAGE_SIZE,
        s.range.end * crate::memory::PAGE_SIZE <= 0xFFFFFFFFFFFFF000,
{
    assert(s.range.start * 4096 <= s.range.end * 4096 && s.range.end * 4096
        <= 0xFFFFFFFFFFFFF000) by (nonlinear_arith)
        requires
            s.range.start <= s.range.end && s.range.end < 0x10000000000000,
    ;
}

/// Whether a vector holds a value.
fn vec_contains(v: &Vec<u16>, x: u16) -> (r: bool)
    ensures
        r == v@.contains(x),
{
    let mut i: usize = 0;
    while i < v.len()
        invariant
            i <= v@.len(),
            forall|j: int| 0 <= j < i ==> v@[j] != x,
        decreases v@.len() - i,
    {
        if v[i] == x {
            return true;
        }
        i = i + 1;
    }
    false
}

/// A stack that had committed pages and whose words did not shrink
/// still has committed pages.
pub proof fn lemma_stack_stays_committed(s1: crate::stack::Stack, s2: crate::stack::Stack)
    requires
        s1.wf(),
        s2.wf(),
        s1.usage > 0,
        s2.words@.len() >= s1.words@.len(),
    ensures
        s2.usage > 0,
{
    vstd::arithmetic::mul::lemma_mul_inequality(1, s1.usage as int, 512);
}

/// A process's address space stays well formed under an observationally
/// equal memory.
pub proof fn lemma_vm_wf_same_view(vm: ProcessVm, m1: MemoryModel, m2: MemoryModel)
    requires
        vm.wf(m1),
        m2.wf(),
        m2.same_view(m1),
    ensures
        vm.wf(m2),
{
    let root = vm.page_table.addr;
    assert(m2.tables@.contains_key(root) <==> m1.tables@.contains_key(root));
    assert(m1.tables@.contains_key(root));
    assert(m2.mapped(root) == m1.mapped(root));
}

/// Stack isolation carries over when one process went dead and lost
/// its address space, everything else unchanged.
pub proof fn lemma_isolated_dead_update(m1: ProcessManager, m2: ProcessManager, pid: u16)
    requires
        m1.stacks_isolated(),
        forall|k: u16| #[trigger] m2.procs@.contains_key(k) <==> m1.procs@.contains_key(k),
        forall|k: u16|
            k != pid && m1.procs@.contains_key(k) ==> #[trigger] m2.procs@[k] == m1.procs@[k],
        m2.procs@.contains_key(pid) ==> m2.procs@[pid].inner.proc_vm is None,
    ensures
        m2.stacks_isolated(),
{
    assert forall|a: u16, b: u16|
        #![trigger m2.procs@[a], m2.procs@[b]]
        (m2.procs@.contains_key(a) && m2.procs@.contains_key(b) && a != b
            && m2.procs@[a].inner.proc_vm is Some && m2.procs@[b].inner.proc_vm is Some
            && m2.procs@[a].inner.proc_vm.unwrap().page_table.addr
            == m2.procs@[b].inner.proc_vm.unwrap().page_table.addr) implies {
        let va = m2.procs@[a].inner.proc_vm.unwrap();
        let vb = m2.procs@[b].inner.proc_vm.unwrap();
        &&& va.stack.range.pages().disjoint(vb.stack.range.pages())
        &&& forall|i: int|
            0 <= i < vb.code@.len() ==> va.stack.range.pages().disjoint(
                (#[trigger] vb.code@[i]).pages(),
            )
    } by {
        assert(a != pid && b != pid);
        assert(m2.procs@[a] == m1.procs@[a] && m2.procs@[b] == m1.procs@[b]);
        assert(m1.procs@[a].inner.proc_vm is Some && m1.procs@[b].inner.proc_vm is Some);
    }
}

/// A well-formed manager never has two processes running at once.
pub proof fn lemma_wf_at_most_one_running(m: ProcessManager, mem: MemoryModel)
    requires
        m.wf(mem),
    ensures
        m.at_most_one_running(),
{
    assert forall|a: u16, b: u16|
        #![trigger m.procs@[a], m.procs@[b]]
        (m.procs@.contains_key(a) && m.procs@.contains_key(b) && m.procs@[a].inner.status
            is Running && m.procs@[b].inner.status is Running) implies a == b by {
        assert(a == m.current && b == m.current);
    }
}

/// Stack isolation carries over to a manager whose processes all kept
/// their memory footprint.
pub proof fn lemma_isolated_same_footprints(m1: ProcessManager, m2: ProcessManager)
    requires
        m1.stacks_isolated(),
        forall|k: u16| #[trigger] m2.procs@.contains_key(k) <==> m1.procs@.contains_key(k),
        forall|k: u16|
            m2.procs@.contains_key(k) ==> same_footprint(
                #[trigger] m2.procs@[k],
                m1.procs@[k],
            ),
    ensures
        m2.stacks_isolated(),
{
    assert forall|a: u16, b: u16|
        #![trigger m2.procs@[a], m2.procs@[b]]
        (m2.procs@.contains_key(a) && m2.procs@.contains_key(b) && a != b
            && m2.procs@[a].inner.proc_vm is Some && m2.procs@[b].inner.proc_vm is Some
            && m2.procs@[a].inner.proc_vm.unwrap().page_table.addr
            == m2.procs@[b].inner.proc_vm.unwrap().page_table.addr) implies {
        let va = m2.procs@[a].inner.proc_vm.unwrap();
        let vb = m2.procs@[b].inner.proc_vm.unwrap();
        &&& va.stack.range.pages().disjoint(vb.stack.range.pages())
        &&& forall|i: int|
            0 <= i < vb.code@.len() ==> va.stack.range.pages().disjoint(
                (#[trigger] vb.code@[i]).pages(),
            )
    } by {
        assert(same_footprint(m2.procs@[a], m1.procs@[a]));
        assert(same_footprint(m2.procs@[b], m1.procs@[b]));
        let w1 = m1.procs@[a].inner.proc_vm.unwrap();
        let w2 = m1.procs@[b].inner.proc_vm.unwrap();
        assert(w1.stack.range.pages().disjoint(w2.stack.range.pages()));
    }
}

/// A process's address space stays well formed when the memory changes
/// only in some other paging structure.
pub proof fn lemma_vm_wf_other_root(vm: ProcessVm, m1: MemoryModel, m2: MemoryModel, changed: u64)
    requires
        vm.wf(m1),
        m2.wf(),
        m2.same_tables_except(m1, changed),
        vm.page_table.addr != changed,
    ensures
        vm.wf(m2),
{
    let root = vm.page_table.addr;
    assert(m1.tables@.contains_key(root));
    assert(m2.tables@.contains_key(root) <==> m1.tables@.contains_key(root));
    assert(m2.tables@[root] == m1.tables@[root]);
}

/// A process's address space stays well formed when its own paging
/// structure only gained pages.
pub proof fn lemma_vm_wf_grown(vm: ProcessVm, m1: MemoryModel, m2: MemoryModel)
    requires
        vm.wf(m1),
        m2.wf(),
        m2.has_table(vm.page_table.addr),
        forall|p: u64|
            #[trigger] m1.mapped(vm.page_table.addr).contains(p) ==> m2.mapped(
                vm.page_table.addr,
            ).contains(p),
    ensures
        vm.wf(m2),
{
    let root = vm.page_table.addr;
    assert forall|p: u64| vm.stack.range.pages().contains(p) implies m2.mapped(root).contains(
        p,
    ) by {
        assert(m1.mapped(root).contains(p));
    }
    assert forall|i: int| 0 <= i < vm.code@.len() implies (#[trigger] vm.code@[i]).pages()
        <= m2.mapped(root) by {
        assert forall|p: u64| vm.code@[i].pages().contains(p) implies m2.mapped(root).contains(
            p,
        ) by {
            assert(m1.mapped(root).contains(p));
        }
    }
}

/// A process's address space stays well formed when pages disjoint from
/// its stack and code were removed from its paging structure.
pub proof fn lemma_vm_wf_removed(
    vm: ProcessVm,
    m1: MemoryModel,
    m2: MemoryModel,
    removed: Set<u64>,
)
    requires
        vm.wf(m1),
        m2.wf(),
        m2.has_table(vm.page_table.addr),
        m2.mapped(vm.page_table.addr) == m1.mapped(vm.page_table.addr) - removed,
        vm.stack.range.pages().disjoint(removed),
        forall|i: int|
            0 <= i < vm.code@.len() ==> (#[trigger] vm.code@[i]).pages().disjoint(removed),
    ensures
        vm.wf(m2),
{
    let root = vm.page_table.addr;
    assert forall|p: u64| vm.stack.range.pages().contains(p) implies m2.mapped(root).contains(
        p,
    ) by {
        assert(m1.mapped(root).contains(p));
        assert(!removed.contains(p));
    }
    assert forall|i: int| 0 <= i < vm.code@.len() implies (#[trigger] vm.code@[i]).pages()
        <= m2.mapped(root) by {
        assert forall|p: u64| vm.code@[i].pages().contains(p) implies m2.mapped(root).contains(
            p,
        ) by {
            assert(m1.mapped(root).contains(p));
            assert(!removed.contains(p));
        }
    }
}

/// A process's address space stays well formed when only pages of the
/// heap window were removed from its paging structure: the stack area
/// floor keeps every stack clear of the window, and code ranges avoid
/// it by construction.
pub proof fn lemma_vm_wf_window_change(vm: ProcessVm, m1: MemoryModel, m2: MemoryModel)
    requires
        vm.wf(m1),
        m2.wf(),
        m2.has_table(vm.page_table.addr),
        forall|p: u64|
            #[trigger] m1.mapped(vm.page_table.addr).contains(p) && !(
            crate::heap::HEAP_START_PAGE <= p < crate::heap::HEAP_START_PAGE
                + crate::heap::HEAP_PAGES) ==> m2.mapped(vm.page_table.addr).contains(p),
    ensures
        vm.wf(m2),
{
    let root = vm.page_table.addr;
    assert forall|p: u64| vm.stack.range.pages().contains(p) implies m2.mapped(root).contains(
        p,
    ) by {
        assert(m1.mapped(root).contains(p));
        if vm.stack.usage > 0 {
            assert(p >= crate::stack::STACK_AREA_BOT_PAGE);
        }
    }
    assert forall|i: int| 0 <= i < vm.code@.len() implies (#[trigger] vm.code@[i]).pages()
        <= m2.mapped(root) by {
        assert forall|p: u64| vm.code@[i].pages().contains(p) implies m2.mapped(root).contains(
            p,
        ) by {
            assert(m1.mapped(root).contains(p));
            assert(crate::heap::outside_heap_window(vm.code@[i]));
        }
    }
}

/// Boot the process subsystem: wrap the kernel itself in the first
/// process, with its fixed stack, the code pages the bootloader
/// established, and fresh family data, and make it the current process.
/// `None` when the frame pool cannot back the kernel's own memory.
pub fn init(boot_info: crate::boot::BootInfo, mem: &mut MemoryModel) -> (r: Option<ProcessManager>)
    requires
        old(mem).wf(),
        forall|i: int|
            0 <= i < boot_info.kernel_pages@.len() ==> (#[trigger] boot_info.kernel_pages@[
                i]).start <= boot_info.kernel_pages@[i].end && boot_info.kernel_pages@[i].end
                < 0x10000000000000 && crate::heap::outside_heap_window(boot_info.kernel_pages@[i])
                && boot_info.kernel_pages@[i].pages().disjoint(
                crate::vm::kstack_page_range().pages(),
            ),
        forall|i: int, j: int|
            0 <= i < j < boot_info.kernel_pages@.len() ==> boot_info.kernel_pages@[i].pages()
                .disjoint(boot_info.kernel_pages@[j].pages()),
    ensures
        final(mem).wf(),
        match r {
            Some(pm) => {
                &&& pm.wf(*final(mem))
                &&& pm.current == KERNEL_PID
                &&& pm.has_proc(KERNEL_PID)
                &&& pm.live(KERNEL_PID)
                &&& pm.ready_queue@.len() == 0
                &&& pm.next_pid == KERNEL_PID + 1
            },
            None => {
                ||| old(mem).next_root == u64::MAX
                ||| old(mem).avail() < 1 + crate::stack::KSTACK_DEF_PAGE + crate::vm::total_pages(
                    boot_info.kernel_pages@,
                )
                ||| exists|i: int|
                    0 <= i < boot_info.kernel_pages@.len() && (#[trigger] boot_info.kernel_pages@[
                        i]).end - boot_info.kernel_pages@[i].start > 0x100000
                ||| crate::vm::total_pages(boot_info.kernel_pages@) * 4096
                    > crate::vm::CODE_USAGE_MAX
            },
        },
{
    proof {
        crate::vm::lemma_total_pages_nonneg(boot_info.kernel_pages@);
    }
    let page_table = match crate::paging::PageTableContext::new(mem) {
        Some(pt) => pt,
        None => {
            return None;
        },
    };
    let ghost mem_created = *mem;
    let vm = ProcessVm::new(page_table, mem);
    let kvm = match vm.init_kernel_vm(&boot_info.kernel_pages, mem) {
        Some(v) => v,
        None => {
            proof {
                // The fresh table was empty and the given layout is
                // disjoint, so only size or the pool can be at fault.
                assert(crate::vm::kernel_layout_clear(
                    mem_created,
                    vm.root(),
                    boot_info.kernel_pages@,
                )) by {
                    assert(crate::vm::kstack_page_range().pages().disjoint(
                        mem_created.mapped(vm.root()),
                    )) by {
                        assert forall|p: u64|
                            crate::vm::kstack_page_range().pages().contains(p)
                                implies !mem_created.mapped(vm.root()).contains(p) by {}
                    }
                    assert forall|i: int|
                        0 <= i < boot_info.kernel_pages@.len() implies (
                    #[trigger] boot_info.kernel_pages@[i]).pages().disjoint(
                        mem_created.mapped(vm.root()),
                    ) && boot_info.kernel_pages@[i].pages().disjoint(
                        crate::vm::kstack_page_range().pages(),
                    ) by {
                        assert forall|p: u64|
                            boot_info.kernel_pages@[i].pages().contains(p)
                                implies !mem_created.mapped(vm.root()).contains(p) by {}
                    }
                }
            }
            return None;
        },
    };
    let mut kproc_data = ProcessData::new();
    kproc_data.set_env("kernel_version".to_string(), "1.0".to_string());
    kproc_data.set_env("boot_mode".to_string(), "direct".to_string());
    let kproc = Process::new(
        ProcessId(KERNEL_PID),
        "kernel".to_string(),
        None,
        kvm,
        0,
        mem,
    );
    Some(ProcessManager::new(kproc, boot_info.loaded_apps, kproc_data, mem))
}

/// The queue after one round-robin rotation: the head was chosen and
/// the previously running pid joined the tail, exactly as `switch`
/// leaves the ready queue when the head is ready.
pub open spec fn round_robin_next(q: Seq<u16>, c: u16) -> Seq<u16> {
    q.drop_first().push(c)
}

/// The pids chosen by `k` successive rotations starting from queue `q`
/// with `c` running.
pub open spec fn round_robin_chosen(q: Seq<u16>, c: u16, k: nat) -> Seq<u16>
    decreases k,
{
    if k == 0 || q.len() == 0 {
        Seq::empty()
    } else {
        seq![q[0]].add(round_robin_chosen(round_robin_next(q, c), q[0], (k - 1) as nat))
    }
}

/// Round-robin liveness: with `k` processes in the ready queue that are
/// always ready when scheduled and never block, `k` consecutive switches
/// choose exactly the queued processes in order, so each of them is
/// chosen at least once within any `k` consecutive calls.
pub proof fn lemma_round_robin_liveness(q: Seq<u16>, c: u16, k: nat)
    requires
        k <= q.len(),
    ensures
        round_robin_chosen(q, c, k).len() == k,
        forall|i: int| 0 <= i < k ==> round_robin_chosen(q, c, k)[i] == q[i],
    decreases k,
{
    if k > 0 {
        let q2 = round_robin_next(q, c);
        lemma_round_robin_liveness(q2, q[0], (k - 1) as nat);
        let rest = round_robin_chosen(q2, q[0], (k - 1) as nat);
        assert forall|i: int| 0 <= i < k implies round_robin_chosen(q, c, k)[i] == q[i] by {
            if i > 0 {
                assert(rest[i - 1] == q2[i - 1]);
                assert(q2[i - 1] == q[i]);
            }
        }
    }
}

} // verus!
