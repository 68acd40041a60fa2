//! Concurrency scenarios driven through the syscall layer: a protected
//! counter and a bounded producer/consumer ring, with the kernel's
//! semaphores doing the coordination.

use std::collections::HashMap;
use std::collections::VecDeque;

use ysos::boot::BootInfo;
use ysos::context::ProcessContext;
use ysos::manager::{init, ProcessManager};
use ysos::memory::MemoryModel;
use ysos::pid::KERNEL_PID;
use ysos::process::ProgramStatus;
use ysos::syscall;

const MUTEX: u32 = 1;
const EMPTY: u32 = 2;
const FULL: u32 = 3;

fn boot() -> (ProcessManager, MemoryModel) {
    let mut mem = MemoryModel::new(0, 4_000_000);
    let info = BootInfo {
        kernel_pages: Vec::new(),
        loaded_apps: None,
        first_frame: 0,
        frame_count: 4_000_000,
    };
    let pm = init(info, &mut mem).expect("boot");
    (pm, mem)
}

fn schedule_until(pm: &mut ProcessManager, mem: &MemoryModel, ctx: &mut ProcessContext, pid: u16) {
    let mut guard = 0;
    while pm.current != pid {
        syscall::switch(pm, ctx, mem);
        guard += 1;
        assert!(guard < 10_000, "pid {} never scheduled", pid);
    }
}

/// Fork `n` children off the kernel and return their pids.
fn fork_children(
    pm: &mut ProcessManager,
    mem: &mut MemoryModel,
    ctx: &mut ProcessContext,
    n: u16,
) -> Vec<u16> {
    let mut pids = Vec::new();
    for _ in 0..n {
        schedule_until(pm, mem, ctx, KERNEL_PID);
        let before = pm.next_pid;
        syscall::fork(pm, ctx, mem);
        pids.push(before);
    }
    pids
}

/// Eight forked children each perform one hundred increments of a
/// shared counter under a mutex semaphore; the final value is exact.
#[test]
fn protected_counter_reaches_exactly_its_total() {
    let (mut pm, mut mem) = boot();
    let mut ctx = ProcessContext::new();
    assert!(pm.sem_new(MUTEX, 1, &mem));

    let children = fork_children(&mut pm, &mut mem, &mut ctx, 8);

    // Per child: how many increments remain, and whether it already
    // holds the mutex when it next runs.
    let mut remaining: HashMap<u16, u32> = children.iter().map(|p| (*p, 100u32)).collect();
    let mut holding: HashMap<u16, bool> = children.iter().map(|p| (*p, false)).collect();
    let mut counter: u32 = 0;

    let mut guard = 0u32;
    while remaining.values().any(|r| *r > 0) {
        guard += 1;
        assert!(guard < 1_000_000, "scenario wedged");
        let cur = pm.current;
        if cur == KERNEL_PID || remaining.get(&cur).copied().unwrap_or(0) == 0 {
            syscall::switch(&mut pm, &mut ctx, &mem);
            continue;
        }
        if !holding[&cur] {
            // The child asks for the mutex.  A refusal blocks it; when
            // it is scheduled again the wait has completed, so either
            // way it holds the mutex the next time it runs.
            holding.insert(cur, true);
            syscall::sem_wait(&mut pm, MUTEX, &mut ctx, &mem);
            if pm.current != cur {
                // It blocked; someone else runs now.
                continue;
            }
        }
        // It holds the mutex: one protected increment, then release.
        counter += 1;
        holding.insert(cur, false);
        *remaining.get_mut(&cur).unwrap() -= 1;
        syscall::sem_signal(&mut pm, MUTEX, &mut ctx, &mem);
        // A timer tick between iterations forces interleavings.
        syscall::switch(&mut pm, &mut ctx, &mem);
    }

    assert_eq!(counter, 800);
    for p in children {
        assert_ne!(pm.get_proc(p).unwrap().inner.status, ProgramStatus::Dead);
    }
}

/// What one producer or consumer does next.
#[derive(Clone, Copy, PartialEq, Eq)]
enum Step {
    /// Acquire the first semaphore (slots for a producer, items for a
    /// consumer).
    Outer,
    /// Acquire the ring mutex.
    Lock,
    /// Move an item and release both semaphores.
    Move,
}

/// Eight producers each write ten items and eight consumers each read
/// ten, through a ring of capacity ten guarded by counting semaphores;
/// every item moves exactly once and the ring never overfills.
#[test]
fn producer_consumer_moves_every_item_once() {
    let (mut pm, mut mem) = boot();
    let mut ctx = ProcessContext::new();
    assert!(pm.sem_new(EMPTY, 10, &mem));
    assert!(pm.sem_new(FULL, 0, &mem));
    assert!(pm.sem_new(MUTEX, 1, &mem));

    let pids = fork_children(&mut pm, &mut mem, &mut ctx, 16);
    let producers: Vec<u16> = pids[0..8].to_vec();

    let mut remaining: HashMap<u16, u32> = pids.iter().map(|p| (*p, 10u32)).collect();
    let mut step: HashMap<u16, Step> = pids.iter().map(|p| (*p, Step::Outer)).collect();
    let mut ring: VecDeque<u32> = VecDeque::new();
    let mut produced: u32 = 0;
    let mut consumed: u32 = 0;

    let mut guard = 0u32;
    while remaining.values().any(|r| *r > 0) {
        guard += 1;
        assert!(guard < 2_000_000, "scenario wedged");
        let cur = pm.current;
        if cur == KERNEL_PID || remaining.get(&cur).copied().unwrap_or(0) == 0 {
            syscall::switch(&mut pm, &mut ctx, &mem);
            continue;
        }
        let is_producer = producers.contains(&cur);
        match step[&cur] {
            Step::Outer => {
                // Producers wait for a free slot, consumers for an item.
                let key = if is_producer { EMPTY } else { FULL };
                step.insert(cur, Step::Lock);
                syscall::sem_wait(&mut pm, key, &mut ctx, &mem);
                if pm.current != cur {
                    continue;
                }
            },
            _ => {},
        }
        if step[&cur] == Step::Lock {
            step.insert(cur, Step::Move);
            syscall::sem_wait(&mut pm, MUTEX, &mut ctx, &mem);
            if pm.current != cur {
                continue;
            }
        }
        if step[&cur] == Step::Move {
            if is_producer {
                ring.push_back(produced);
                produced += 1;
                assert!(ring.len() <= 10, "ring overfilled");
            } else {
                assert!(!ring.is_empty(), "consumer found nothing");
                ring.pop_front();
                consumed += 1;
            }
            step.insert(cur, Step::Outer);
            *remaining.get_mut(&cur).unwrap() -= 1;
            syscall::sem_signal(&mut pm, MUTEX, &mut ctx, &mem);
            let key = if is_producer { FULL } else { EMPTY };
            syscall::sem_signal(&mut pm, key, &mut ctx, &mem);
            syscall::switch(&mut pm, &mut ctx, &mem);
        }
    }

    assert_eq!(produced, 80);
    assert_eq!(consumed, 80);
    assert!(ring.is_empty());
}
