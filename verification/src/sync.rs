//! Counting semaphores with FIFO wait queues.
//!
//! A semaphore set lives inside a process's shared data, so a semaphore
//! created before a fork is visible to, and shared by, every descendant.

use vstd::prelude::*;
use std::collections::BTreeMap;
use std::collections::VecDeque;
use crate::pid::ProcessId;

verus! {

/// The key a semaphore is registered under.
#[derive(Clone, Copy, Debug, Eq, PartialEq, Structural)]
pub struct SemaphoreId(pub u32);

impl SemaphoreId {
    /// Wrap a user-chosen key.
    pub fn new(key: u32) -> (r: SemaphoreId)
        ensures
            r == SemaphoreId(key),
    {
        SemaphoreId(key)
    }
}

/// A counting semaphore: the available count and the FIFO queue of
/// processes waiting for it.
pub struct Semaphore {
    /// How many resources are available.
    pub count: usize,
    /// Processes blocked on the semaphore, oldest first.
    pub wait_queue: VecDeque<ProcessId>,
}

/// What a semaphore operation asks the scheduler to do.
#[derive(Clone, Copy, Debug, Eq, PartialEq, Structural)]
pub enum SemaphoreResult {
    /// The operation completed by itself.
    Done,
    /// No semaphore is registered under the key.
    NotExist,
    /// The calling process must block.
    Block(ProcessId),
    /// The named process must be woken.
    WakeUp(ProcessId),
}

/// The state a wait leaves a semaphore in, and what it answers.
pub open spec fn wait_step(count: nat, queue: Seq<ProcessId>, pid: ProcessId) -> (
    nat,
    Seq<ProcessId>,
    SemaphoreResult,
) {
    if count == 0 {
        (0nat, queue.push(pid), SemaphoreResult::Block(pid))
    } else {
        ((count - 1) as nat, queue, SemaphoreResult::Done)
    }
}

/// The state a signal leaves a semaphore in, and what it answers.  The
/// count saturates at the machine limit instead of wrapping.
pub open spec fn signal_step(count: nat, queue: Seq<ProcessId>) -> (
    nat,
    Seq<ProcessId>,
    SemaphoreResult,
) {
    if queue.len() > 0 {
        (count, queue.drop_first(), SemaphoreResult::WakeUp(queue[0]))
    } else if count < usize::MAX {
        (count + 1, queue, SemaphoreResult::Done)
    } else {
        (count, queue, SemaphoreResult::Done)
    }
}

impl Semaphore {
    /// The semaphore's abstract state.
    pub open spec fn view(self) -> (nat, Seq<ProcessId>) {
        (self.count as nat, self.wait_queue@)
    }

    /// A semaphore holding `value` resources and no waiters.
    pub fn new(value: usize) -> (r: Semaphore)
        ensures
            r.count == value,
            r.wait_queue@ == Seq::<ProcessId>::empty(),
    {
        Semaphore { count: value, wait_queue: VecDeque::new() }
    }

    /// Wait (acquire / down / P): take a resource when one is available,
    /// else join the wait queue and ask to be blocked.
    pub fn wait(&mut self, pid: ProcessId) -> (r: SemaphoreResult)
        ensures
            (final(self).count as nat, final(self).wait_queue@, r) == wait_step(
                old(self).count as nat,
                old(self).wait_queue@,
                pid,
            ),
    {
        if self.count == 0 {
            self.wait_queue.push_back(pid);
            SemaphoreResult::Block(pid)
        } else {
            self.count = self.count - 1;
            SemaphoreResult::Done
        }
    }

    /// Signal (release / up / V): hand the resource to the oldest waiter
    /// if one exists, else put it back on the count.
    pub fn signal(&mut self) -> (r: SemaphoreResult)
        ensures
            (final(self).count as nat, final(self).wait_queue@, r) == signal_step(
                old(self).count as nat,
                old(self).wait_queue@,
            ),
    {
        match self.wait_queue.pop_front() {
            Some(pid) => SemaphoreResult::WakeUp(pid),
            None => {
                if self.count < usize::MAX {
                    self.count = self.count + 1;
                }
                SemaphoreResult::Done
            },
        }
    }
}

/// The semaphores of one process family, keyed by the user's key.
pub struct SemaphoreSet {
    /// The registered semaphores.
    pub sems: BTreeMap<u32, Semaphore>,
}

impl SemaphoreSet {
    /// A set with no semaphores registered.
    pub fn new() -> (r: SemaphoreSet)
        ensures
            r.sems@ == Map::<u32, Semaphore>::empty(),
    {
        SemaphoreSet { sems: BTreeMap::new() }
    }

    /// Register a semaphore under `key` holding `value` resources.  The
    /// key must be free; an existing semaphore stays untouched and the
    /// call reports failure.
    pub fn insert(&mut self, key: u32, value: usize) -> (r: bool)
        ensures
            r == !old(self).sems@.contains_key(key),
            r ==> final(self).sems@ == old(self).sems@.insert(
                key,
                (Semaphore { count: value, wait_queue: final(self).sems@[key].wait_queue }),
            ) && final(self).sems@[key].count == value && final(self).sems@[key].wait_queue@
                == Seq::<ProcessId>::empty(),
            !r ==> final(self).sems@ == old(self).sems@,
    {
        if self.sems.contains_key(&key) {
            return false;
        }
        let sem = Semaphore::new(value);
        self.sems.insert(key, sem);
        true
    }

    /// Drop the semaphore under `key`, reporting whether one was there.
    pub fn remove(&mut self, key: u32) -> (r: bool)
        ensures
            r == old(self).sems@.contains_key(key),
            final(self).sems@ == old(self).sems@.remove(key),
    {
        self.sems.remove(&key).is_some()
    }

    /// Wait on the semaphore under `key` for `pid`.
    pub fn wait(&mut self, key: u32, pid: ProcessId) -> (r: SemaphoreResult)
        ensures
            !old(self).sems@.contains_key(key) ==> r == SemaphoreResult::NotExist
                && final(self).sems@ == old(self).sems@,
            old(self).sems@.contains_key(key) ==> {
                let s = old(self).sems@[key];
                let stepped = wait_step(s.count as nat, s.wait_queue@, pid);
                &&& final(self).sems@.contains_key(key)
                &&& final(self).sems@[key].count == stepped.0
                &&& final(self).sems@[key].wait_queue@ == stepped.1
                &&& r == stepped.2
                &&& final(self).sems@.remove(key) == old(self).sems@.remove(key)
            },
    {
        match self.sems.remove(&key) {
            Some(mut sem) => {
                let r = sem.wait(pid);
                self.sems.insert(key, sem);
                proof {
                    assert(self.sems@.remove(key) =~= old(self).sems@.remove(key));
                }
                r
            },
            None => SemaphoreResult::NotExist,
        }
    }

    /// Signal the semaphore under `key`.
    pub fn signal(&mut self, key: u32) -> (r: SemaphoreResult)
        ensures
            !old(self).sems@.contains_key(key) ==> r == SemaphoreResult::NotExist
                && final(self).sems@ == old(self).sems@,
            old(self).sems@.contains_key(key) ==> {
                let s = old(self).sems@[key];
                let stepped = signal_step(s.count as nat, s.wait_queue@);
                &&& final(self).sems@.contains_key(key)
                &&& final(self).sems@[key].count == stepped.0
                &&& final(self).sems@[key].wait_queue@ == stepped.1
                &&& r == stepped.2
                &&& final(self).sems@.remove(key) == old(self).sems@.remove(key)
            },
    {
        match self.sems.remove(&key) {
            Some(mut sem) => {
                let r = sem.signal();
                self.sems.insert(key, sem);
                proof {
                    assert(self.sems@.remove(key) =~= old(self).sems@.remove(key));
                }
                r
            },
            None => SemaphoreResult::NotExist,
        }
    }
}

/// The state of a semaphore after a sequence of waits, with no signal in
/// between.
pub open spec fn wait_many(count: nat, queue: Seq<ProcessId>, pids: Seq<ProcessId>) -> (
    nat,
    Seq<ProcessId>,
)
    decreases pids.len(),
{
    if pids.len() == 0 {
        (count, queue)
    } else {
        let stepped = wait_step(count, queue, pids[0]);
        wait_many(stepped.0, stepped.1, pids.drop_first())
    }
}

/// Whether every wait of the sequence succeeded by itself.
pub open spec fn all_waits_ok(count: nat, queue: Seq<ProcessId>, pids: Seq<ProcessId>) -> bool
    decreases pids.len(),
{
    if pids.len() == 0 {
        true
    } else {
        let stepped = wait_step(count, queue, pids[0]);
        stepped.2 == SemaphoreResult::Done && all_waits_ok(stepped.0, stepped.1, pids.drop_first())
    }
}

/// A semaphore created with value `n` admits exactly `n` concurrent
/// waits: the first `n` calls, with no signal in between, each succeed by
/// themselves, and the `(n + 1)`-th call blocks its caller instead.
pub proof fn lemma_semaphore_capacity(n: nat, pids: Seq<ProcessId>, extra: ProcessId)
    requires
        pids.len() == n,
    ensures
        all_waits_ok(n, Seq::<ProcessId>::empty(), pids),
        wait_many(n, Seq::<ProcessId>::empty(), pids).0 == 0,
        wait_step(
            wait_many(n, Seq::<ProcessId>::empty(), pids).0,
            wait_many(n, Seq::<ProcessId>::empty(), pids).1,
            extra,
        ).2 == SemaphoreResult::Block(extra),
{
    lemma_waits_drain(n, Seq::<ProcessId>::empty(), pids);
}

/// Waiting as many times as the count drains it to zero, each wait
/// succeeding by itself.
proof fn lemma_waits_drain(count: nat, queue: Seq<ProcessId>, pids: Seq<ProcessId>)
    requires
        pids.len() == count,
    ensures
        all_waits_ok(count, queue, pids),
        wait_many(count, queue, pids).0 == 0,
        wait_many(count, queue, pids).1 == queue,
    decreases pids.len(),
{
    if pids.len() > 0 {
        lemma_waits_drain((count - 1) as nat, queue, pids.drop_first());
    }
}

} // verus!
