//! The per-process runtime heap: a fixed 4 GiB virtual window whose
//! committed size changes only through an explicit break call, never
//! through a page fault.

use vstd::prelude::*;
use crate::memory::{MemoryModel, UnmapError, PageRange, PAGE_SIZE, spec_page_of, page_of};

verus! {

/// First address of the heap window.
pub const HEAP_START: u64 = 0x2000_0000_0000;

/// Pages in the heap window.
pub const HEAP_PAGES: u64 = 0x100000;

/// Bytes in the heap window.
pub const HEAP_SIZE: u64 = HEAP_PAGES * 4096;

/// Last address a break may name.
pub const HEAP_END: u64 = HEAP_START + HEAP_SIZE - 8;

/// First page of the heap window.
pub const HEAP_START_PAGE: u64 = 0x2000_0000_0000 / 4096;

/// Whether a page range stays clear of the heap window.
pub open spec fn outside_heap_window(r: PageRange) -> bool {
    r.end <= HEAP_START_PAGE || r.start >= HEAP_START_PAGE + HEAP_PAGES
}

/// A break address's page lies inside the heap window's pages.
pub proof fn lemma_window_pages(addr: u64)
    requires
        HEAP_START <= addr <= HEAP_END,
    ensures
        HEAP_START_PAGE <= spec_page_of(addr) < HEAP_START_PAGE + HEAP_PAGES,
{
    assert(HEAP_START / PAGE_SIZE <= addr / PAGE_SIZE && addr / PAGE_SIZE < HEAP_START_PAGE
        + HEAP_PAGES) by (nonlinear_arith)
        requires
            HEAP_START <= addr <= HEAP_END,
            PAGE_SIZE == 4096,
            HEAP_START == 0x2000_0000_0000,
            HEAP_START_PAGE == 0x2000_0000_0000u64 / 4096,
            HEAP_PAGES == 0x100000,
            HEAP_END == HEAP_START + HEAP_PAGES * 4096 - 8,
    ;
}

/// A process heap: a fixed base and a movable end, with the whole pages
/// of `[base, end)` committed.  The break is per-process bookkeeping:
/// forked relatives share the window through their common paging
/// structure, and a relative's committed pages simply refuse a
/// conflicting break.
#[derive(Clone, Copy, PartialEq, Eq, Structural, Debug)]
pub struct Heap {
    /// The base address; immutable after initialization.
    pub base: u64,
    /// The current end address.
    pub end: u64,
}

impl Heap {
    /// The base is the fixed window start and the end stays inside the
    /// window.
    pub open spec fn wf(self) -> bool {
        &&& self.base == HEAP_START
        &&& self.base <= self.end <= HEAP_END
    }

    /// The whole pages between base and end.
    pub open spec fn committed(self) -> Set<u64> {
        (PageRange { start: spec_page_of(self.base), end: spec_page_of(self.end) }).pages()
    }

    /// An empty heap: nothing committed, end at base.
    pub fn empty() -> (r: Heap)
        ensures
            r.wf(),
            r.end == r.base,
    {
        Heap { base: HEAP_START, end: HEAP_START }
    }

    /// The child's view of the heap after a fork.
    pub fn fork(&self) -> (r: Heap)
        ensures
            r == *self,
    {
        Heap { base: self.base, end: self.end }
    }

    /// Bytes between base and end.
    pub open spec fn spec_memory_usage(self) -> int {
        self.end - self.base
    }

    /// Bytes between base and end.
    pub fn memory_usage(&self) -> (r: u64)
        requires
            self.wf(),
        ensures
            r == self.spec_memory_usage(),
    {
        self.end - self.base
    }

    /// Move the break.  `None` as the argument queries the current end.
    /// An address outside `[HEAP_START, HEAP_END]` is rejected without
    /// any change.  Otherwise the whole pages between the old and the new
    /// end are mapped or unmapped and the end moves to exactly the named
    /// address; a mapping or unmapping failure leaves the heap and the
    /// tables as they were and reports failure by returning `None`.
    pub fn brk(&mut self, new_end: Option<u64>, mem: &mut MemoryModel, root: u64,
        user_access: bool) -> (r: Option<u64>)
        requires
            old(self).wf(),
            old(mem).wf(),
            old(mem).has_table(root),
        ensures
            final(self).wf(),
            final(mem).wf(),
            final(mem).has_table(root),
            final(self).base == old(self).base,
            final(mem).users_of(root) == old(mem).users_of(root),
            final(mem).same_tables_except(*old(mem), root),
            forall|p: u64|
                #[trigger] old(mem).mapped(root).contains(p) && !(HEAP_START_PAGE <= p
                    < HEAP_START_PAGE + HEAP_PAGES) ==> final(mem).mapped(root).contains(p),
            match new_end {
                None => r == Some(old(self).end) && *final(self) == *old(self)
                    && final(mem).unchanged(*old(mem)),
                Some(addr) => {
                    &&& (addr < HEAP_START || addr > HEAP_END) ==> r is None && *final(self)
                        == *old(self) && final(mem).unchanged(*old(mem))
                    &&& (HEAP_START <= addr <= HEAP_END) ==> {
                        let grown = (PageRange {
                            start: spec_page_of(old(self).end),
                            end: spec_page_of(addr),
                        });
                        let shrunk = (PageRange {
                            start: spec_page_of(addr),
                            end: spec_page_of(old(self).end),
                        });
                        &&& r is Some ==> {
                            &&& r == Some(addr)
                            &&& final(self).end == addr
                            &&& addr >= old(self).end ==> final(mem).mapped(root)
                                == old(mem).mapped(root) + grown.pages() && final(mem).avail()
                                == old(mem).avail() - grown.pages().len()
                            &&& addr < old(self).end ==> final(mem).mapped(root)
                                == old(mem).mapped(root) - shrunk.pages() && final(mem).avail()
                                == old(mem).avail() + shrunk.pages().len()
                        }
                        &&& r is None ==> {
                            &&& *final(self) == *old(self)
                            &&& final(mem).unchanged(*old(mem))
                            &&& addr != old(self).end
                            &&& addr > old(self).end ==> (old(mem).avail() < spec_page_of(addr)
                                - spec_page_of(old(self).end) || exists|p: u64|
                                grown.pages().contains(p) && old(mem).mapped(root).contains(p))
                            &&& addr < old(self).end ==> exists|p: u64|
                                shrunk.pages().contains(p) && !old(mem).mapped(root).contains(p)
                        }
                    }
                },
            },
    {
        let addr = match new_end {
            None => {
                return Some(self.end);
            },
            Some(a) => a,
        };
        if addr < HEAP_START || addr > HEAP_END {
            return None;
        }
        let current = self.end;
        if addr > current {
            let start_page: u64 = page_of(current);
            let end_page: u64 = page_of(addr);
            proof {
                lemma_page_monotone(current, addr);
            }
            let count: u64 = end_page - start_page;
            match mem.map_range(root, current, count, user_access) {
                Ok(range) => {
                    proof {
                        lemma_range_len(range);
                    }
                },
                Err(crate::memory::MapError::AlreadyMapped) => {
                    proof {
                        let p = choose|p: u64|
                            spec_page_of(current) <= p < spec_page_of(current) + count && old(mem).mapped(root).contains(p);
                        assert((PageRange {
                            start: spec_page_of(current),
                            end: spec_page_of(addr),
                        }).pages().contains(p));
                    }
                    return None;
                },
                Err(_) => {
                    return None;
                },
            }
        } else if addr < current {
            let start_page: u64 = page_of(addr);
            let end_page: u64 = page_of(current);
            proof {
                lemma_page_monotone(addr, current);
            }
            let count: u64 = end_page - start_page;
            match mem.unmap_range(root, start_page, count, true) {
                Ok(()) => {
                    proof {
                        lemma_range_len(PageRange { start: start_page, end: end_page });
                        lemma_window_pages(addr);
                        lemma_window_pages(current);
                        assert forall|p: u64|
                            old(mem).mapped(root).contains(p) && !(HEAP_START_PAGE <= p
                                < HEAP_START_PAGE + HEAP_PAGES) implies mem.mapped(root).contains(
                            p,
                        ) by {
                            assert(!(start_page <= p < end_page));
                        }
                    }
                },
                Err(_) => {
                    proof {
                        let p = choose|p: u64|
                            start_page <= p < start_page + count && !old(mem).mapped(
                                root,
                            ).contains(p);
                        assert((PageRange { start: start_page, end: end_page }).pages().contains(
                            p,
                        ));
                    }
                    return None;
                },
            }
        } else {
            proof {
                let grown = PageRange { start: spec_page_of(current), end: spec_page_of(addr) };
                lemma_range_len(grown);
                assert(mem.mapped(root) =~= mem.mapped(root) + grown.pages());
            }
        }
        self.end = addr;
        Some(addr)
    }

    /// Pull the end back to the base and unmap what was committed, as
    /// done once when the last owner of the address space exits.  A page
    /// found missing leaves the remaining pages behind, as the teardown
    /// cannot recover.
    pub fn clean_up(&mut self, mem: &mut MemoryModel, root: u64) -> (r: Result<(), UnmapError>)
        requires
            old(self).wf(),
            old(mem).wf(),
            old(mem).has_table(root),
        ensures
            final(self).wf(),
            final(mem).wf(),
            final(mem).has_table(root),
            final(self).end == final(self).base,
            final(mem).users_of(root) == old(mem).users_of(root),
            final(mem).same_tables_except(*old(mem), root),
            final(mem).avail() >= old(mem).avail(),
            forall|p: u64|
                #[trigger] old(mem).mapped(root).contains(p) && !(HEAP_START_PAGE <= p
                    < HEAP_START_PAGE + HEAP_PAGES) ==> final(mem).mapped(root).contains(p),
            r is Ok ==> final(mem).mapped(root) == old(mem).mapped(root) - old(self).committed()
                && final(mem).avail() == old(mem).avail() + old(self).committed().len(),
            r is Err ==> final(mem).unchanged(*old(mem)),
    {
        if self.end == self.base {
            proof {
                lemma_page_monotone(self.base, self.end);
                lemma_range_len(
                    PageRange { start: spec_page_of(self.base), end: spec_page_of(self.end) },
                );
                assert(mem.mapped(root) =~= mem.mapped(root) - self.committed());
            }
            return Ok(());
        }
        let start_page: u64 = page_of(self.base);
        let end_page: u64 = page_of(self.end);
        proof {
            lemma_page_monotone(self.base, self.end);
        }
        let count: u64 = end_page - start_page;
        let r = mem.unmap_range(root, start_page, count, true);
        match r {
            Ok(()) => {
                proof {
                    lemma_range_len(PageRange { start: start_page, end: end_page });
                    lemma_window_pages(self.base);
                    lemma_window_pages(self.end);
                    assert forall|p: u64|
                        old(mem).mapped(root).contains(p) && !(HEAP_START_PAGE <= p
                            < HEAP_START_PAGE + HEAP_PAGES) implies mem.mapped(root).contains(
                        p,
                    ) by {
                        assert(!(start_page <= p < end_page));
                    }
                }
                self.end = self.base;
                Ok(())
            },
            Err(e) => {
                self.end = self.base;
                Err(e)
            },
        }
    }
}

/// Page indices follow address order.
proof fn lemma_page_monotone(lo: u64, hi: u64)
    requires
        lo <= hi,
    ensures
        spec_page_of(lo) <= spec_page_of(hi),
{
    assert(lo / PAGE_SIZE <= hi / PAGE_SIZE) by (nonlinear_arith)
        requires
            lo <= hi && PAGE_SIZE == 4096,
    ;
}

/// The number of pages a range covers.
proof fn lemma_range_len(r: PageRange)
    requires
        r.start <= r.end,
    ensures
        r.pages().len() == r.end - r.start,
        r.pages().finite(),
    decreases r.end - r.start,
{
    let f = |p: u64| r.start <= p < r.end;
    if r.start == r.end {
        assert(r.pages() =~= Set::<u64>::empty());
    } else {
        let sub = PageRange { start: r.start, end: (r.end - 1) as u64 };
        lemma_range_len(sub);
        assert(r.pages() =~= sub.pages().insert((r.end - 1) as u64));
    }
    assert(r.pages().len() == r.end - r.start);
}

} // verus!
