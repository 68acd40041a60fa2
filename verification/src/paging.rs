//! Reference-counted handle on a root paging structure.
//!
//! A `PageTableContext` names one live root in the [`MemoryModel`]; forking
//! clones the handle and raises the owner count, so the frames of the
//! structure are freed only when the last owner lets go.

use vstd::prelude::*;
use crate::memory::MemoryModel;

verus! {

/// A handle on a root paging structure, shared between a process and the
/// children it forked.
#[derive(Clone, Copy, PartialEq, Eq, Structural, Debug)]
pub struct PageTableContext {
    /// The root id of the paging structure this handle names.
    pub addr: u64,
}

impl PageTableContext {
    /// The handle is well formed while its root is live.
    pub open spec fn wf(self, mem: MemoryModel) -> bool {
        mem.has_table(self.addr)
    }

    /// Create a brand-new, empty paging structure with this handle as its
    /// only owner.  `None` when the frame pool is exhausted.
    pub fn new(mem: &mut MemoryModel) -> (r: Option<PageTableContext>)
        requires
            old(mem).wf(),
        ensures
            final(mem).wf(),
            match r {
                Some(pt) => {
                    &&& pt.wf(*final(mem))
                    &&& !old(mem).has_table(pt.addr)
                    &&& final(mem).mapped(pt.addr) == Set::<u64>::empty()
                    &&& final(mem).users_of(pt.addr) == 1
                    &&& final(mem).avail() == old(mem).avail() - 1
                    &&& final(mem).same_tables_except(*old(mem), pt.addr)
                },
                None => final(mem).unchanged(*old(mem)) && (old(mem).avail() == 0 || old(
                    mem,
                ).next_root == u64::MAX),
            },
    {
        match mem.create_table() {
            Some(root) => Some(PageTableContext { addr: root }),
            None => None,
        }
    }

    /// Copy the level-4 table: a fresh structure with the same leaf
    /// mappings and this handle's copy as its only owner, as done when
    /// spawning a process from the kernel's address space.
    pub fn clone_level_4(&self, mem: &mut MemoryModel) -> (r: Option<PageTableContext>)
        requires
            old(mem).wf(),
            self.wf(*old(mem)),
        ensures
            final(mem).wf(),
            match r {
                Some(pt) => {
                    &&& pt.wf(*final(mem))
                    &&& pt.addr != self.addr && !old(mem).has_table(pt.addr)
                    &&& final(mem).mapped(pt.addr) == old(mem).mapped(self.addr)
                    &&& final(mem).users_of(pt.addr) == 1
                    &&& final(mem).avail() == old(mem).avail() - 1
                    &&& final(mem).same_tables_except(*old(mem), pt.addr)
                },
                None => final(mem).unchanged(*old(mem)) && (old(mem).avail() == 0 || old(
                    mem,
                ).next_root == u64::MAX),
            },
    {
        match mem.clone_level_4(self.addr) {
            Some(root) => Some(PageTableContext { addr: root }),
            None => None,
        }
    }

    /// Share the structure with one more owner, as fork does: the child
    /// gets a handle on the same root.
    pub fn fork(&self, mem: &mut MemoryModel) -> (r: Option<PageTableContext>)
        requires
            old(mem).wf(),
            self.wf(*old(mem)),
        ensures
            final(mem).wf(),
            match r {
                Some(pt) => {
                    &&& pt.addr == self.addr
                    &&& final(mem).users_of(self.addr) == old(mem).users_of(self.addr) + 1
                    &&& final(mem).mapped(self.addr) == old(mem).mapped(self.addr)
                    &&& final(mem).avail() == old(mem).avail()
                    &&& final(mem).has_table(self.addr)
                    &&& final(mem).same_tables_except(*old(mem), self.addr)
                    &&& final(mem).next_root == old(mem).next_root
                    &&& final(mem).frames.st() == old(mem).frames.st()
                },
                None => final(mem).unchanged(*old(mem)) && old(mem).users_of(self.addr)
                    == u64::MAX,
            },
    {
        if mem.fork_table(self.addr) {
            Some(PageTableContext { addr: self.addr })
        } else {
            None
        }
    }

    /// How many owners currently share the structure.
    pub fn using_count(&self, mem: &MemoryModel) -> (r: u64)
        requires
            self.wf(*mem),
        ensures
            r == mem.users_of(self.addr),
    {
        mem.table_users(self.addr)
    }
}

} // verus!
