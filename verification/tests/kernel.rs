//! The process subsystem end to end: booting, forking, scheduling,
//! killing, waiting, the heap break, and the semaphore protocol driven
//! the way the syscall layer drives it.

use ysos::boot::BootInfo;
use ysos::context::ProcessContext;
use ysos::manager::{init, ProcessManager};
use ysos::memory::MemoryModel;
use ysos::pid::KERNEL_PID;
use ysos::process::ProgramStatus;
use ysos::stack::KSTACK_INIT_BOT;
use ysos::heap::{HEAP_START, HEAP_SIZE};
use ysos::syscall;

fn boot() -> (ProcessManager, MemoryModel) {
    let mut mem = MemoryModel::new(0, 1_000_000);
    let info = BootInfo {
        kernel_pages: Vec::new(),
        loaded_apps: None,
        first_frame: 0,
        frame_count: 1_000_000,
    };
    let pm = init(info, &mut mem).expect("boot");
    (pm, mem)
}

/// At most one process is running, and it is the current one.
fn assert_one_running(pm: &ProcessManager) {
    let mut running = 0;
    for pid in 0..pm.next_pid {
        if let Some(p) = pm.get_proc(pid) {
            if p.inner.status == ProgramStatus::Running {
                running += 1;
                assert_eq!(pid, pm.current);
            }
        }
    }
    assert!(running <= 1);
}

/// Keep switching until the given pid runs.
fn schedule_until(pm: &mut ProcessManager, mem: &MemoryModel, ctx: &mut ProcessContext, pid: u16) {
    let mut guard = 0;
    while pm.current != pid {
        syscall::switch(pm, ctx, mem);
        assert_one_running(pm);
        guard += 1;
        assert!(guard < 1000, "pid {} never scheduled", pid);
    }
}

#[test]
fn fork_gives_fresh_pid_and_split_return_values() {
    let (mut pm, mut mem) = boot();
    let mut ctx = ProcessContext::new();
    assert_eq!(pm.current, KERNEL_PID);

    syscall::fork(&mut pm, &mut ctx, &mut mem);
    assert_one_running(&pm);

    // The child got a pid no registered process had, and runs now.
    let child = 2u16;
    assert!(pm.get_proc(child).is_some());
    assert_eq!(pm.current, child);
    // The child's return register reads zero, the parent's the child's
    // pid.
    assert_eq!(ctx.rax, 0);
    assert_eq!(pm.get_proc(KERNEL_PID).unwrap().inner.context.rax, child as usize);
}

#[test]
fn forked_stacks_never_overlap() {
    let (mut pm, mut mem) = boot();
    let mut ctx = ProcessContext::new();
    syscall::fork(&mut pm, &mut ctx, &mut mem);
    schedule_until(&mut pm, &mem, &mut ctx, KERNEL_PID);
    syscall::fork(&mut pm, &mut ctx, &mut mem);

    let ranges: Vec<(u64, u64)> = [1u16, 2, 3]
        .iter()
        .map(|pid| {
            let vm = pm.get_proc(*pid).unwrap().inner.proc_vm.as_ref().unwrap();
            (vm.stack.range.start, vm.stack.range.end)
        })
        .collect();
    for a in 0..ranges.len() {
        for b in 0..ranges.len() {
            if a != b {
                let (s1, e1) = ranges[a];
                let (s2, e2) = ranges[b];
                assert!(e1 <= s2 || e2 <= s1, "stacks overlap: {:?} {:?}", ranges[a], ranges[b]);
            }
        }
    }
}

#[test]
fn fork_copies_the_stack_and_keeps_copies_private() {
    let (mut pm, mut mem) = boot();
    let mut ctx = ProcessContext::new();

    // The parent stores a known value into a stack slot.
    let parent_addr = KSTACK_INIT_BOT + 64;
    assert!(pm.write_stack_word(parent_addr, 0xDEAD_BEEF, &mem));
    assert_eq!(pm.read_stack_word(parent_addr, &mem), 0xDEAD_BEEF);

    syscall::fork(&mut pm, &mut ctx, &mut mem);
    let child = pm.current;
    assert_ne!(child, KERNEL_PID);

    // The child reads the identical value at the same offset within its
    // own relocated range: the bulk copy preserved the contents.
    let child_vm = pm.get_proc(child).unwrap().inner.proc_vm.as_ref().unwrap();
    let child_base = child_vm.stack.range.start * 4096;
    let child_addr = child_base + (parent_addr - KSTACK_INIT_BOT);
    assert_eq!(pm.read_stack_word(child_addr, &mem), 0xDEAD_BEEF);

    // A write on the child stays invisible to the parent.
    assert!(pm.write_stack_word(child_addr, 0x1234, &mem));
    schedule_until(&mut pm, &mem, &mut ctx, KERNEL_PID);
    assert_eq!(pm.read_stack_word(parent_addr, &mem), 0xDEAD_BEEF);
}

#[test]
fn heap_break_moves_and_rejects() {
    let (mut pm, mut mem) = boot();

    // Scenario: set the break to the base, grow it three pages, and
    // query it.
    assert_eq!(pm.brk(Some(HEAP_START), &mut mem), Some(HEAP_START));
    let three = HEAP_START + 3 * 4096;
    assert_eq!(pm.brk(Some(three), &mut mem), Some(three));
    assert_eq!(pm.brk(None, &mut mem), Some(three));

    // An address past the window is rejected and moves nothing.
    assert_eq!(pm.brk(Some(HEAP_START + HEAP_SIZE + 1), &mut mem), None);
    assert_eq!(pm.brk(None, &mut mem), Some(three));

    // Shrinking back releases the pages.
    assert_eq!(pm.brk(Some(HEAP_START), &mut mem), Some(HEAP_START));
    assert_eq!(pm.brk(None, &mut mem), Some(HEAP_START));
}

#[test]
fn semaphore_admits_its_count_then_blocks() {
    let (mut pm, mem) = boot();
    // A semaphore of two admits two waits; the third blocks the caller.
    assert!(pm.sem_new(7, 2, &mem));
    assert!(!pm.sem_new(7, 9, &mem));
    assert_eq!(pm.sem_wait(7, 10, &mem), ysos::sync::SemaphoreResult::Done);
    assert_eq!(pm.sem_wait(7, 11, &mem), ysos::sync::SemaphoreResult::Done);
    assert_eq!(
        pm.sem_wait(7, 12, &mem),
        ysos::sync::SemaphoreResult::Block(ysos::pid::ProcessId(12))
    );
    // A signal hands the resource to the oldest waiter, FIFO.
    assert_eq!(
        pm.sem_signal(7, &mem),
        ysos::sync::SemaphoreResult::WakeUp(ysos::pid::ProcessId(12))
    );
    assert_eq!(pm.sem_signal(7, &mem), ysos::sync::SemaphoreResult::Done);
    assert!(pm.sem_remove(7, &mem));
    assert!(!pm.sem_remove(7, &mem));
    assert_eq!(pm.sem_wait(7, 10, &mem), ysos::sync::SemaphoreResult::NotExist);
    assert_eq!(pm.sem_signal(7, &mem), ysos::sync::SemaphoreResult::NotExist);
}

#[test]
fn waiting_on_a_dead_process_returns_its_code_without_blocking() {
    let (mut pm, mut mem) = boot();
    let mut ctx = ProcessContext::new();
    syscall::fork(&mut pm, &mut ctx, &mut mem);
    let child = pm.current;
    schedule_until(&mut pm, &mem, &mut ctx, KERNEL_PID);

    pm.kill(child, 42, &mut mem);
    assert_eq!(pm.get_exit_code(child), Some(42));

    let before = pm.get_proc(KERNEL_PID).unwrap().inner.status;
    syscall::wait_process(&mut pm, child, &mut ctx, &mem);
    assert_eq!(ctx.rax, 42);
    // The caller never became blocked.
    assert_eq!(pm.get_proc(KERNEL_PID).unwrap().inner.status, before);
}

#[test]
fn kill_wakes_every_waiter_with_the_exit_code() {
    let (mut pm, mut mem) = boot();
    let mut ctx = ProcessContext::new();
    // Three processes: the kernel forks 2, then 3, then 4.
    for _ in 0..3 {
        schedule_until(&mut pm, &mem, &mut ctx, KERNEL_PID);
        syscall::fork(&mut pm, &mut ctx, &mut mem);
    }
    // 2 and 3 wait for 4.
    schedule_until(&mut pm, &mem, &mut ctx, 2);
    syscall::wait_process(&mut pm, 4, &mut ctx, &mem);
    assert_eq!(pm.get_proc(2).unwrap().inner.status, ProgramStatus::Blocked);
    schedule_until(&mut pm, &mem, &mut ctx, 3);
    syscall::wait_process(&mut pm, 4, &mut ctx, &mem);
    assert_eq!(pm.get_proc(3).unwrap().inner.status, ProgramStatus::Blocked);

    // 4 exits; both waiters wake with its code.
    schedule_until(&mut pm, &mem, &mut ctx, 4);
    syscall::exit_process(&mut pm, 7, &mut ctx, &mut mem);
    assert_eq!(pm.get_proc(4).unwrap().inner.status, ProgramStatus::Dead);
    assert_eq!(pm.get_proc(2).unwrap().inner.status, ProgramStatus::Ready);
    assert_eq!(pm.get_proc(3).unwrap().inner.status, ProgramStatus::Ready);
    assert_eq!(pm.get_proc(2).unwrap().inner.context.rax, 7);
    assert_eq!(pm.get_proc(3).unwrap().inner.context.rax, 7);
}

#[test]
fn round_robin_schedules_everyone_within_a_lap() {
    let (mut pm, mut mem) = boot();
    let mut ctx = ProcessContext::new();
    for _ in 0..2 {
        schedule_until(&mut pm, &mem, &mut ctx, KERNEL_PID);
        syscall::fork(&mut pm, &mut ctx, &mut mem);
    }
    // Three processes now exist and stay ready; within any three
    // consecutive switches each runs at least once.
    let mut seen = [false; 4];
    seen[pm.current as usize] = true;
    for _ in 0..3 {
        syscall::switch(&mut pm, &mut ctx, &mem);
        assert_one_running(&pm);
        seen[pm.current as usize] = true;
    }
    assert!(seen[1] && seen[2] && seen[3]);
}

#[test]
fn killing_is_idempotent_and_releases_resources() {
    let (mut pm, mut mem) = boot();
    let mut ctx = ProcessContext::new();
    syscall::fork(&mut pm, &mut ctx, &mut mem);
    let child = pm.current;
    schedule_until(&mut pm, &mem, &mut ctx, KERNEL_PID);

    let before = mem.frames.frames_recycled();
    pm.kill(child, -1, &mut mem);
    let p = pm.get_proc(child).unwrap();
    assert_eq!(p.inner.status, ProgramStatus::Dead);
    assert!(p.inner.proc_vm.is_none());
    assert!(p.inner.proc_data.is_none());
    assert!(mem.frames.frames_recycled() > before);

    // A second kill, or one on an unknown pid, changes nothing.
    pm.kill(child, -2, &mut mem);
    assert_eq!(pm.get_exit_code(child), Some(-1));
    pm.kill(999, 0, &mut mem);
}
