//! A verified model of a teaching operating-system kernel for x86_64.
//!
//! The library covers process management (creation, fork, kill, wait),
//! round-robin scheduling, per-process virtual memory (a page-fault-grown
//! stack, an explicitly grown heap, reference-counted page tables backed by
//! a physical frame pool), counting semaphores with FIFO wait queues, and
//! the system-call dispatcher that drives all of them.  It also verifies
//! the on-disk structures the kernel's storage collaborators hand it:
//! FAT16 directory entries and MBR partition records.
//!
//! Hardware is modelled with plain values: addresses and frames are `u64`,
//! the saved trap context is a struct of registers, and the surrounding
//! binary performs the actual privileged operations.

pub mod pid;
pub mod context;
pub mod memory;
pub mod paging;
pub mod stack;
pub mod heap;
pub mod boot;
pub mod vm;
pub mod sync;
pub mod input;
pub mod resource;
pub mod data;
pub mod process;
pub mod manager;
pub mod syscall;
pub mod block;
pub mod mbr;
pub mod direntry;
pub mod fat16;
