//! The virtual memory of one process: its page-table handle, its stack,
//! its heap, and (for the kernel process only) the code page ranges it
//! owns.

use vstd::prelude::*;
use crate::memory::{MemoryModel, MapError, UnmapError, PageRange, PAGE_SIZE, spec_page_of};
use crate::paging::PageTableContext;
use crate::stack::Stack;
use crate::heap::{Heap, outside_heap_window};
use crate::boot::AppInfo;

verus! {

/// Upper bound kept on recorded code bytes, so that memory totals fit.
pub const CODE_USAGE_MAX: u64 = 0x1000_0000_0000;

/// The total page count of a list of ranges.
pub open spec fn total_pages(s: Seq<PageRange>) -> int
    decreases s.len(),
{
    if s.len() == 0 {
        0
    } else {
        total_pages(s.drop_last()) + (s.last().end - s.last().start)
    }
}

/// One more range adds exactly its count.
proof fn lemma_total_pages_snoc(s: Seq<PageRange>, k: int)
    requires
        0 <= k < s.len(),
        forall|i: int| 0 <= i < s.len() ==> (#[trigger] s[i]).start <= s[i].end,
    ensures
        total_pages(s.subrange(0, k + 1)) == total_pages(s.subrange(0, k)) + (s[k].end
            - s[k].start),
{
    let t = s.subrange(0, k + 1);
    assert(t.drop_last() =~= s.subrange(0, k));
    assert(t.last() == s[k]);
}

/// A prefix never counts more pages than the whole.
proof fn lemma_total_pages_prefix(s: Seq<PageRange>, k: int)
    requires
        0 <= k <= s.len(),
        forall|i: int| 0 <= i < s.len() ==> (#[trigger] s[i]).start <= s[i].end,
    ensures
        total_pages(s.subrange(0, k)) <= total_pages(s),
        total_pages(s.subrange(0, k)) >= 0,
    decreases s.len() - k,
{
    assert forall|i: int| 0 <= i < s.subrange(0, k).len() implies (#[trigger] s.subrange(0, k)[
    i]).start <= s.subrange(0, k)[i].end by {
        assert(s.subrange(0, k)[i] == s[i]);
    }
    lemma_total_pages_nonneg(s.subrange(0, k));
    if k == s.len() {
        assert(s.subrange(0, k) =~= s);
    } else {
        lemma_total_pages_snoc(s, k);
        lemma_total_pages_prefix(s, k + 1);
    }
}

/// Page counts never go negative.
pub proof fn lemma_total_pages_nonneg(s: Seq<PageRange>)
    requires
        forall|i: int| 0 <= i < s.len() ==> (#[trigger] s[i]).start <= s[i].end,
    ensures
        total_pages(s) >= 0,
    decreases s.len(),
{
    if s.len() > 0 {
        assert forall|i: int| 0 <= i < s.drop_last().len() implies (#[trigger] s.drop_last()[
        i]).start <= s.drop_last()[i].end by {
            assert(s.drop_last()[i] == s[i]);
        }
        lemma_total_pages_nonneg(s.drop_last());
    }
}

/// The kernel stack and every given code range land on free, mutually
/// distinct pages: the shape a correct boot hands over.
pub open spec fn kernel_layout_clear(mem: MemoryModel, root: u64, pages: Seq<PageRange>) -> bool {
    let kstack = kstack_page_range();
    &&& kstack.pages().disjoint(mem.mapped(root))
    &&& forall|i: int|
        0 <= i < pages.len() ==> (#[trigger] pages[i]).pages().disjoint(mem.mapped(root))
            && pages[i].pages().disjoint(kstack.pages())
    &&& forall|i: int, j: int|
        0 <= i < j < pages.len() ==> pages[i].pages().disjoint(pages[j].pages())
}

/// The pages of the kernel's fixed stack.
pub open spec fn kstack_page_range() -> PageRange {
    PageRange {
        start: spec_page_of(crate::stack::KSTACK_INIT_BOT),
        end: (spec_page_of(crate::stack::KSTACK_INIT_BOT) + crate::stack::KSTACK_DEF_PAGE) as u64,
    }
}

/// The address space of one process.
pub struct ProcessVm {
    /// The root paging structure, shared with forked children.
    pub page_table: PageTableContext,
    /// The per-process stack.
    pub stack: Stack,
    /// The per-process heap, adjusted only by explicit break calls.
    pub heap: Heap,
    /// Code page ranges; only the first process records its own.
    pub code: Vec<PageRange>,
    /// Bytes of recorded code.
    pub code_usage: u64,
}

impl ProcessVm {
    /// The root of the owning table.
    pub open spec fn root(self) -> u64 {
        self.page_table.addr
    }

    /// Structurally sound and fully backed by the owning table.  The
    /// code ranges stay clear of the stack and of the heap window, so
    /// tearing one region down cannot strand another.
    pub open spec fn wf(self, mem: MemoryModel) -> bool {
        &&& mem.has_table(self.root())
        &&& self.stack.wf()
        &&& self.stack.backed(mem, self.root())
        &&& self.heap.wf()
        &&& self.code_usage <= CODE_USAGE_MAX
        &&& forall|i: int|
            0 <= i < self.code@.len() ==> (#[trigger] self.code@[i]).start <= self.code@[i].end
                && self.code@[i].pages() <= mem.mapped(self.root())
                && self.code@[i].pages().disjoint(self.stack.range.pages())
                && outside_heap_window(self.code@[i])
    }

    /// A fresh address space over the given table: empty stack, empty
    /// heap, no code recorded.
    pub fn new(page_table: PageTableContext, mem: &MemoryModel) -> (r: ProcessVm)
        requires
            page_table.wf(*mem),
        ensures
            r.wf(*mem),
            r.page_table == page_table,
            r.stack.usage == 0,
            r.heap.end == r.heap.base,
            r.code@.len() == 0,
            r.code_usage == 0,
    {
        ProcessVm {
            page_table,
            stack: Stack::empty(),
            heap: Heap::empty(),
            code: Vec::new(),
            code_usage: 0,
        }
    }

    /// Turn a fresh address space into the kernel's own: commit the fixed
    /// kernel stack and record the kernel code pages the bootloader
    /// established.  On failure the half-built table is left for the
    /// caller to discard.
    pub fn init_kernel_vm(self, pages: &Vec<PageRange>, mem: &mut MemoryModel) -> (r: Option<
        ProcessVm,
    >)
        requires
            old(mem).wf(),
            self.wf(*old(mem)),
            self.stack.usage == 0,
            forall|i: int|
                0 <= i < pages@.len() ==> (#[trigger] pages@[i]).start <= pages@[i].end
                    && pages@[i].end < 0x10000000000000 && outside_heap_window(pages@[i]),
        ensures
            final(mem).wf(),
            final(mem).has_table(self.root()),
            final(mem).users_of(self.root()) == old(mem).users_of(self.root()),
            final(mem).same_tables_except(*old(mem), self.root()),
            match r {
                Some(vm) => {
                    &&& vm.wf(*final(mem))
                    &&& vm.root() == self.root()
                    &&& vm.page_table == self.page_table
                    &&& vm.stack.usage == crate::stack::KSTACK_DEF_PAGE
                    &&& vm.heap == self.heap
                    &&& vm.code@ == pages@
                },
                None => true,
            },
            // Success is owed whenever the boot layout is clear and the
            // pool holds enough frames.
            (kernel_layout_clear(*old(mem), self.root(), pages@) && old(mem).avail()
                >= crate::stack::KSTACK_DEF_PAGE + total_pages(pages@) && (forall|i: int|
                0 <= i < pages@.len() ==> (#[trigger] pages@[i]).end - pages@[i].start
                    <= 0x100000) && total_pages(pages@) * 4096 <= CODE_USAGE_MAX) ==> r is Some,
    {
        proof {
            lemma_total_pages_nonneg(pages@);
        }
        let ghost hyp = kernel_layout_clear(*old(mem), self.root(), pages@) && old(mem).avail()
            >= crate::stack::KSTACK_DEF_PAGE + total_pages(pages@) && (forall|i: int|
            0 <= i < pages@.len() ==> (#[trigger] pages@[i]).end - pages@[i].start <= 0x100000)
            && total_pages(pages@) * 4096 <= CODE_USAGE_MAX;
        let root = self.page_table.addr;
        let kstack = Stack::kstack();
        // The fixed kernel stack must be committed in the fresh table.
        match mem.map_range(
            root,
            crate::stack::KSTACK_INIT_BOT,
            crate::stack::KSTACK_DEF_PAGE,
            false,
        ) {
            Ok(_) => {},
            Err(e) => {
                proof {
                    if hyp {
                        if e is AlreadyMapped {
                            let p = choose|p: u64|
                                spec_page_of(crate::stack::KSTACK_INIT_BOT) <= p < spec_page_of(
                                    crate::stack::KSTACK_INIT_BOT,
                                ) + crate::stack::KSTACK_DEF_PAGE && old(mem).mapped(
                                root,
                            ).contains(p);
                            assert(kstack_page_range().pages().contains(p));
                            assert(false);
                        } else {
                            assert(false);
                        }
                    }
                }
                return None;
            },
        }
        proof {
            assert(spec_page_of(crate::stack::KSTACK_INIT_BOT) == kstack.range.start);
            assert(kstack.range.pages() <= mem.mapped(root));
            if hyp {
                assert forall|j: int|
                    0 <= j < pages@.len() implies (#[trigger] pages@[j]).pages().disjoint(
                    mem.mapped(root)) by {
                    assert forall|p: u64|
                        pages@[j].pages().contains(p) implies !mem.mapped(root).contains(p) by {
                        assert(!old(mem).mapped(root).contains(p));
                        assert(!kstack_page_range().pages().contains(p));
                    }
                }
            }
        }
        // Record the code ranges the bootloader established, committing
        // each so the table really backs them.
        let mut code: Vec<PageRange> = Vec::new();
        let mut code_usage: u64 = 0;
        let mut i: usize = 0;
        while i < pages.len()
            invariant
                i <= pages@.len(),
                root == self.page_table.addr,
                mem.wf(),
                mem.has_table(root),
                code@ == pages@.subrange(0, i as int),
                code_usage <= CODE_USAGE_MAX + 0x100000 * 4096,
                code_usage == total_pages(pages@.subrange(0, i as int)) * 4096,
                hyp == (kernel_layout_clear(*old(mem), root, pages@) && old(mem).avail()
                    >= crate::stack::KSTACK_DEF_PAGE + total_pages(pages@) && (forall|j: int|
                    0 <= j < pages@.len() ==> (#[trigger] pages@[j]).end - pages@[j].start
                        <= 0x100000) && total_pages(pages@) * 4096 <= CODE_USAGE_MAX),
                hyp ==> mem.avail() == old(mem).avail() - crate::stack::KSTACK_DEF_PAGE
                    - total_pages(pages@.subrange(0, i as int)),
                hyp ==> forall|j: int|
                    i <= j < pages@.len() ==> (#[trigger] pages@[j]).pages().disjoint(
                        mem.mapped(root),
                    ),
                forall|j: int|
                    0 <= j < code@.len() ==> (#[trigger] code@[j]).start <= code@[j].end
                        && code@[j].pages() <= mem.mapped(root) && code@[j].pages().disjoint(
                        kstack.range.pages(),
                    ) && outside_heap_window(code@[j]),
                forall|j: int|
                    0 <= j < pages@.len() ==> (#[trigger] pages@[j]).start <= pages@[j].end
                        && pages@[j].end < 0x10000000000000 && outside_heap_window(pages@[j]),
                kstack.wf(),
                kstack.usage == crate::stack::KSTACK_DEF_PAGE,
                kstack.range.start == spec_page_of(crate::stack::KSTACK_INIT_BOT),
                kstack.range.end == spec_page_of(crate::stack::KSTACK_INIT_BOT)
                    + crate::stack::KSTACK_DEF_PAGE,
                kstack.backed(*mem, root),
                self.heap.wf(),
                mem.users_of(root) == old(mem).users_of(root),
                mem.same_tables_except(*old(mem), root),
            decreases pages@.len() - i,
        {
            let range = pages[i];
            let count = range.count();
            if count > 0x100000 || code_usage > CODE_USAGE_MAX {
                proof {
                    if hyp {
                        lemma_total_pages_prefix(pages@, i as int);
                        assert(false);
                    }
                }
                return None;
            }
            let ghost mem_pre = *mem;
            proof {
                assert(range.start * PAGE_SIZE < 0x10000000000000 * 4096) by (nonlinear_arith)
                    requires
                        range.start < 0x10000000000000 && PAGE_SIZE == 4096,
                ;
            }
            match mem.map_range(root, range.start * PAGE_SIZE, count, false) {
                Ok(mapped) => {
                    proof {
                        assert(spec_page_of((range.start * PAGE_SIZE) as u64) == range.start)
                            by (nonlinear_arith)
                            requires
                                PAGE_SIZE == 4096 && range.start < 0x10000000000000,
                        ;
                        assert(mapped.pages() =~= range.pages());
                        crate::memory::lemma_subset_union(
                            kstack.range.pages(),
                            mem_pre.mapped(root),
                            mapped.pages(),
                        );
                    }
                    code.push(range);
                    proof {
                        assert(code@ =~= pages@.subrange(0, i + 1));
                        assert forall|j: int|
                            0 <= j < code@.len() implies (#[trigger] code@[j]).start
                            <= code@[j].end && code@[j].pages() <= mem.mapped(root) && code@[
                            j].pages().disjoint(kstack.range.pages()) && outside_heap_window(
                            code@[j]) by {
                            if j < code@.len() - 1 {
                                assert(code@[j].pages() <= mem_pre.mapped(root));
                                crate::memory::lemma_subset_union(
                                    code@[j].pages(),
                                    mem_pre.mapped(root),
                                    mapped.pages(),
                                );
                            } else {
                                assert(code@[j] == range);
                                assert forall|x: u64| range.pages().contains(x) implies (
                                mem_pre.mapped(root) + mapped.pages()).contains(x) by {
                                    assert(mapped.pages().contains(x));
                                }
                                assert forall|x: u64|
                                    range.pages().contains(x) implies !kstack.range.pages()
                                    .contains(x) by {
                                    assert(mapped.pages().contains(x));
                                    assert(!mem_pre.mapped(root).contains(x));
                                }
                            }
                        }
                    }
                },
                Err(e) => {
                    proof {
                        if hyp {
                            lemma_total_pages_snoc(pages@, i as int);
                            lemma_total_pages_prefix(pages@, i + 1);
                            if e is AlreadyMapped {
                                let p = choose|p: u64|
                                    spec_page_of((range.start * PAGE_SIZE) as u64) <= p
                                        < spec_page_of((range.start * PAGE_SIZE) as u64) + count
                                        && mem_pre.mapped(root).contains(p);
                                assert(range.pages().contains(p));
                                assert(false);
                            } else {
                                assert(false);
                            }
                        }
                    }
                    return None;
                },
            }
            proof {
                lemma_total_pages_snoc(pages@, i as int);
                if hyp {
                    assert forall|j: int|
                        i + 1 <= j < pages@.len() implies (#[trigger] pages@[j]).pages().disjoint(
                        mem.mapped(root)) by {
                        assert forall|x: u64|
                            pages@[j].pages().contains(x) implies !mem.mapped(root).contains(
                            x,
                        ) by {
                            assert(!mem_pre.mapped(root).contains(x));
                            assert(pages@[i as int].pages().disjoint(pages@[j].pages()));
                            assert(!range.pages().contains(x));
                        }
                    }
                }
            }
            code_usage = code_usage + count * PAGE_SIZE;
            i = i + 1;
        }
        if code_usage > CODE_USAGE_MAX {
            proof {
                if hyp {
                    assert(pages@.subrange(0, pages@.len() as int) =~= pages@);
                }
            }
            return None;
        }
        proof {
            assert(code@ =~= pages@);
            assert forall|j: int|
                0 <= j < code@.len() implies (#[trigger] code@[j]).pages().disjoint(
                kstack.range.pages()) by {
            }
        }
        Some(
            ProcessVm {
                page_table: self.page_table,
                stack: kstack,
                heap: self.heap,
                code,
                code_usage,
            },
        )
    }

    /// Move the heap break; see [`Heap::brk`].  Only pages of the heap
    /// window are touched, so the stack and the code stay backed.
    pub fn brk(&mut self, addr: Option<u64>, mem: &mut MemoryModel, is_user: bool) -> (r: Option<
        u64,
    >)
        requires
            old(self).wf(*old(mem)),
            old(mem).wf(),
        ensures
            final(self).wf(*final(mem)),
            final(mem).wf(),
            final(self).page_table == old(self).page_table,
            final(self).stack == old(self).stack,
            final(self).code == old(self).code,
            final(self).code_usage == old(self).code_usage,
            final(self).heap.base == old(self).heap.base,
            final(mem).users_of(old(self).root()) == old(mem).users_of(old(self).root()),
            final(mem).same_tables_except(*old(mem), old(self).root()),
            forall|p: u64|
                #[trigger] old(mem).mapped(old(self).root()).contains(p) && !(
                crate::heap::HEAP_START_PAGE <= p < crate::heap::HEAP_START_PAGE
                    + crate::heap::HEAP_PAGES) ==> final(mem).mapped(old(self).root()).contains(
                    p,
                ),
            match addr {
                None => r == Some(old(self).heap.end) && *final(self) == *old(self)
                    && final(mem).unchanged(*old(mem)),
                Some(a) => {
                    &&& (a < crate::heap::HEAP_START || a > crate::heap::HEAP_END) ==> r is None
                        && *final(self) == *old(self) && final(mem).unchanged(*old(mem))
                    &&& (crate::heap::HEAP_START <= a <= crate::heap::HEAP_END) ==> {
                        &&& r is Some ==> r == Some(a) && final(self).heap.end == a
                        &&& r is None ==> *final(self) == *old(self) && final(mem).unchanged(
                            *old(mem),
                        ) && a != old(self).heap.end
                    }
                },
            },
    {
        let root = self.page_table.addr;
        let ghost pre = *mem;
        let r = self.heap.brk(addr, mem, root, is_user);
        proof {
            assert(self.stack.backed(*mem, root)) by {
                assert forall|p: u64| self.stack.range.pages().contains(p) implies mem.mapped(
                    root,
                ).contains(p) by {
                    assert(pre.mapped(root).contains(p));
                    if self.stack.usage > 0 {
                        assert(p >= crate::stack::STACK_AREA_BOT_PAGE);
                    }
                }
            }
            assert forall|i: int| 0 <= i < self.code@.len() implies (
            #[trigger] self.code@[i]).pages() <= mem.mapped(root) by {
                assert forall|p: u64| self.code@[i].pages().contains(p) implies mem.mapped(
                    root,
                ).contains(p) by {
                    assert(pre.mapped(root).contains(p));
                    assert(outside_heap_window(self.code@[i]));
                }
            }
        }
        r
    }

    /// Bytes the process holds: committed stack plus heap span plus
    /// recorded code.
    pub fn memory_usage(&self) -> (r: u64)
        requires
            self.stack.wf(),
            self.heap.wf(),
            self.code_usage <= CODE_USAGE_MAX,
        ensures
            r == self.stack.spec_memory_usage() + self.heap.spec_memory_usage() + self.code_usage,
    {
        self.stack.memory_usage() + self.heap.memory_usage() + self.code_usage
    }

    /// Commit an application image: map its code pages, then the first
    /// stack page, and record the code range.  A failure after the code
    /// was mapped rolls the code mapping back, so nothing of the request
    /// stays committed.
    pub fn load_elf(&mut self, app: &AppInfo, mem: &mut MemoryModel, is_user: bool) -> (r: Result<
        (),
        MapError,
    >)
        requires
            old(self).wf(*old(mem)),
            old(self).stack.usage == 0,
            old(self).code@.len() == 0,
            old(mem).wf(),
            app.wf(),
        ensures
            final(self).wf(*final(mem)),
            final(mem).wf(),
            final(self).page_table == old(self).page_table,
            final(self).heap == old(self).heap,
            final(mem).users_of(old(self).root()) == old(mem).users_of(old(self).root()),
            final(mem).same_tables_except(*old(mem), old(self).root()),
            match r {
                Ok(()) => {
                    &&& final(self).stack.usage == crate::stack::STACK_DEF_PAGE
                    &&& final(self).stack.range.start == spec_page_of(
                        crate::stack::STACK_INIT_BOT,
                    )
                    &&& final(self).code@.len() == 1
                    &&& final(self).code@[0] == (PageRange {
                        start: app.code_start_page,
                        end: (app.code_start_page + app.code_pages) as u64,
                    })
                    &&& final(self).code_usage == app.code_pages * PAGE_SIZE
                    &&& forall|p: u64|
                        #[trigger] old(mem).mapped(old(self).root()).contains(p) ==> final(mem).mapped(old(self).root()).contains(p)
                },
                Err(_) => {
                    let code = (PageRange {
                        start: app.code_start_page,
                        end: (app.code_start_page + app.code_pages) as u64,
                    });
                    &&& *final(self) == *old(self)
                    &&& final(mem).mapped(old(self).root()) == old(mem).mapped(old(self).root())
                    &&& final(mem).avail() == old(mem).avail()
                    &&& (old(mem).avail() < app.code_pages + crate::stack::STACK_DEF_PAGE || (
                    exists|p: u64|
                        code.pages().contains(p) && old(mem).mapped(old(self).root()).contains(
                            p,
                        )) || old(mem).mapped(old(self).root()).contains(
                        spec_page_of(crate::stack::STACK_INIT_BOT),
                    ))
                },
            },
    {
        let root = self.page_table.addr;
        proof {
            assert(app.code_start_page * PAGE_SIZE < 0x10000000000000 * 4096) by (nonlinear_arith)
                requires
                    app.code_start_page < 0x10000000000000 && PAGE_SIZE == 4096,
            ;
        }
        let code_range = match mem.map_range(
            root,
            app.code_start_page * PAGE_SIZE,
            app.code_pages,
            is_user,
        ) {
            Ok(rg) => rg,
            Err(e) => {
                proof {
                    assert(spec_page_of((app.code_start_page * PAGE_SIZE) as u64)
                        == app.code_start_page) by (nonlinear_arith)
                        requires
                            PAGE_SIZE == 4096 && app.code_start_page < 0x10000000000000,
                    ;
                    if e is AlreadyMapped {
                        let p = choose|p: u64|
                            app.code_start_page <= p < app.code_start_page + app.code_pages
                                && old(mem).mapped(root).contains(p);
                        assert((PageRange {
                            start: app.code_start_page,
                            end: (app.code_start_page + app.code_pages) as u64,
                        }).pages().contains(p));
                    }
                }
                return Err(e);
            },
        };
        proof {
            assert(spec_page_of((app.code_start_page * PAGE_SIZE) as u64) == app.code_start_page)
                by (nonlinear_arith)
                requires
                    PAGE_SIZE == 4096 && app.code_start_page < 0x10000000000000,
            ;
        }
        let ghost mem_after_code = *mem;
        match self.stack.init(mem, root, is_user) {
            Ok(()) => {},
            Err(e) => {
                // Roll the code mapping back so a failed load leaves
                // nothing behind.
                let start = code_range.start;
                let count = code_range.count();
                match mem.unmap_range(root, start, count, true) {
                    Ok(()) => {},
                    Err(_) => {
                        proof {
                            let p = choose|p: u64|
                                start <= p < start + count && !mem_after_code.mapped(
                                    root,
                                ).contains(p);
                            assert(code_range.pages().contains(p));
                            assert(false);
                        }
                    },
                }
                proof {
                    assert(mem.mapped(root) =~= old(mem).mapped(root));
                    assert(self.stack.backed(*mem, root)) by {
                        assert(self.stack.usage == 0);
                        assert(self.stack.range.pages() =~= Set::<u64>::empty());
                    }
                    crate::memory::lemma_same_tables_trans(*old(mem), mem_after_code, *mem, root);
                    // The first stack page lies far above the code, so a
                    // collision there was present before the code went in.
                    if e is AlreadyMapped {
                        assert(mem_after_code.mapped(root).contains(
                            spec_page_of(crate::stack::STACK_INIT_BOT),
                        ));
                        assert(!code_range.pages().contains(
                            spec_page_of(crate::stack::STACK_INIT_BOT),
                        ));
                    }
                }
                return Err(e);
            },
        }
        let mut code: Vec<PageRange> = Vec::new();
        code.push(code_range);
        self.code = code;
        self.code_usage = app.code_pages * PAGE_SIZE;
        proof {
            assert(self.code_usage <= CODE_USAGE_MAX) by (nonlinear_arith)
                requires
                    self.code_usage == app.code_pages * PAGE_SIZE && app.code_pages <= 0x100000
                        && PAGE_SIZE == 4096 && CODE_USAGE_MAX == 0x1000_0000_0000,
            ;
            assert(self.stack.range.pages() <= mem.mapped(root));
            assert forall|p: u64| code_range.pages().contains(p) implies mem.mapped(
                root,
            ).contains(p) by {
                assert(mem_after_code.mapped(root).contains(p));
            }
            assert(code_range.pages().disjoint(self.stack.range.pages())) by {
                assert forall|p: u64|
                    code_range.pages().contains(p) implies !self.stack.range.pages().contains(
                    p,
                ) by {
                    assert(mem_after_code.mapped(root).contains(p));
                }
            }
            assert(outside_heap_window(code_range)) by {
                assert(app.code_start_page + app.code_pages <= crate::heap::HEAP_START_PAGE);
            }
            assert forall|p: u64| old(mem).mapped(root).contains(p) implies mem.mapped(
                root,
            ).contains(p) by {
                assert(mem_after_code.mapped(root).contains(p));
            }
        }
        Ok(())
    }

    /// Duplicate this address space for a forked child: share the page
    /// table and copy the committed stack into a free slot below.  `None`
    /// when no slot or no frames are left; nothing changes then.
    pub fn fork(&self, stack_offset_count: u64, mem: &mut MemoryModel) -> (r: Option<ProcessVm>)
        requires
            self.wf(*old(mem)),
            self.stack.usage > 0,
            old(mem).wf(),
            stack_offset_count % crate::stack::STACK_MAX_PAGES == 0,
            stack_offset_count >= crate::stack::STACK_MAX_PAGES,
        ensures
            final(mem).wf(),
            match r {
                Some(child) => {
                    &&& child.wf(*final(mem))
                    &&& self.wf(*final(mem))
                    &&& child.root() == self.root()
                    &&& child.stack.usage == self.stack.usage
                    &&& child.stack.words@ == self.stack.words@
                    &&& child.stack.range.start < self.stack.range.start
                    &&& child.stack.range.start % crate::stack::STACK_MAX_PAGES
                        == self.stack.range.start % crate::stack::STACK_MAX_PAGES
                    &&& old(mem).mapped(self.root()).disjoint(child.stack.range.pages())
                    &&& final(mem).mapped(self.root()) == old(mem).mapped(self.root())
                        + child.stack.range.pages()
                    &&& final(mem).users_of(self.root()) == old(mem).users_of(self.root()) + 1
                    &&& final(mem).same_tables_except(*old(mem), self.root())
                    &&& child.heap == self.heap
                    &&& child.code@.len() == 0
                    &&& child.code_usage == 0
                },
                None => {
                    &&& final(mem).same_view(*old(mem))
                    &&& self.wf(*final(mem))
                    &&& (old(mem).users_of(self.root()) == u64::MAX || self.stack.range.start
                        < stack_offset_count + crate::stack::STACK_AREA_BOT_PAGE || old(
                        mem,
                    ).avail() < self.stack.usage || exists|p: u64|
                        p < self.stack.range.start && old(mem).mapped(self.root()).contains(p))
                },
            },
    {
        let root = self.page_table.addr;
        let owned_page_table = match self.page_table.fork(mem) {
            Some(pt) => pt,
            None => {
                return None;
            },
        };
        let ghost mem_shared = *mem;
        match self.stack.fork(mem, root, stack_offset_count) {
            Some(child_stack) => {
                proof {
                    crate::memory::lemma_same_tables_trans(*old(mem), mem_shared, *mem, root);
                    crate::memory::lemma_subset_union(
                        self.stack.range.pages(),
                        mem_shared.mapped(root),
                        child_stack.range.pages(),
                    );
                    assert forall|i: int| 0 <= i < self.code@.len() implies (
                    #[trigger] self.code@[i]).pages() <= mem.mapped(root)
                        && self.code@[i].pages().disjoint(child_stack.range.pages()) by {
                        crate::memory::lemma_subset_union(
                            self.code@[i].pages(),
                            mem_shared.mapped(root),
                            child_stack.range.pages(),
                        );
                        assert forall|p: u64|
                            self.code@[i].pages().contains(p) implies !child_stack.range.pages()
                            .contains(p) by {
                            assert(mem_shared.mapped(root).contains(p));
                        }
                    }
                }
                Some(
                    ProcessVm {
                        page_table: owned_page_table,
                        stack: child_stack,
                        heap: self.heap.fork(),
                        code: Vec::new(),
                        code_usage: 0,
                    },
                )
            },
            None => {
                // Undo the extra owner taken above.
                let ghost pre_release = *mem;
                mem.release_table(root);
                proof {
                    assert(pre_release.same_tables_except(mem_shared, root));
                    crate::memory::lemma_same_tables_trans(
                        *old(mem),
                        mem_shared,
                        pre_release,
                        root,
                    );
                    crate::memory::lemma_same_tables_trans(*old(mem), pre_release, *mem, root);
                    assert(old(mem).users_of(root) >= 1);
                    assert(pre_release.users_of(root) >= 2);
                    assert(mem.avail() == old(mem).avail());
                    assert(mem.next_root == old(mem).next_root);
                    assert(mem.tables@.contains_key(root));
                    assert(mem.mapped(root) == old(mem).mapped(root));
                    assert(mem.users_of(root) == old(mem).users_of(root));
                    assert(mem.same_view(*old(mem))) by {
                        assert forall|r: u64|
                            #[trigger] mem.tables@.contains_key(r) <==> old(
                            mem,
                        ).tables@.contains_key(r) by {
                            if r != root {
                                assert(mem.tables@.contains_key(r) <==> old(
                                    mem,
                                ).tables@.contains_key(r));
                            }
                        }
                        assert forall|r: u64|
                            #[trigger] old(mem).tables@.contains_key(r) implies mem.mapped(r)
                            == old(mem).mapped(r) && mem.users_of(r) == old(mem).users_of(
                            r,
                        ) by {
                            if r != root {
                                assert(mem.tables@.contains_key(r));
                                assert(mem.tables@[r] == old(mem).tables@[r]);
                            }
                        }
                    }
                    assert(self.stack.backed(*mem, root)) by {
                        assert(mem.mapped(root) == old(mem).mapped(root));
                    }
                    assert forall|i: int| 0 <= i < self.code@.len() implies (
                    #[trigger] self.code@[i]).pages() <= mem.mapped(root) by {
                        assert(mem.mapped(root) == old(mem).mapped(root));
                    }
                }
                None
            },
        }
    }

    /// Decide a page fault: delegate to the stack, which grows when the
    /// address belongs to this process's stack slot.
    pub fn handle_page_fault(&mut self, addr: u64, mem: &mut MemoryModel, is_user: bool) -> (r:
        bool)
        requires
            old(self).wf(*old(mem)),
            old(self).stack.usage > 0,
            old(mem).wf(),
        ensures
            final(self).wf(*final(mem)),
            final(mem).wf(),
            final(self).page_table == old(self).page_table,
            final(self).heap == old(self).heap,
            final(self).code == old(self).code,
            final(self).code_usage == old(self).code_usage,
            final(self).stack.words@.len() >= old(self).stack.words@.len(),
            final(mem).users_of(old(self).root()) == old(mem).users_of(old(self).root()),
            final(mem).same_tables_except(*old(mem), old(self).root()),
            forall|p: u64|
                #[trigger] old(mem).mapped(old(self).root()).contains(p) ==> final(mem).mapped(
                    old(self).root(),
                ).contains(p),
            !old(self).stack.spec_is_on_stack(addr) ==> !r && *final(self) == *old(self)
                && final(mem).unchanged(*old(mem)),
            old(self).stack.spec_is_on_stack(addr) && spec_page_of(addr)
                >= old(self).stack.range.start ==> r && *final(self) == *old(self)
                && final(mem).unchanged(*old(mem)),
            old(self).stack.spec_is_on_stack(addr) && spec_page_of(addr)
                < old(self).stack.range.start ==> ({
                let grown = (PageRange {
                    start: spec_page_of(addr),
                    end: old(self).stack.range.start,
                });
                &&& r ==> {
                    &&& final(self).stack.range.start == spec_page_of(addr)
                    &&& final(self).stack.range.end == old(self).stack.range.end
                    &&& old(mem).mapped(old(self).root()).disjoint(grown.pages())
                    &&& final(mem).mapped(old(self).root()) == old(mem).mapped(old(self).root())
                        + grown.pages()
                    &&& final(mem).avail() == old(mem).avail() - (old(self).stack.range.start
                        - spec_page_of(addr))
                }
                &&& !r ==> *final(self) == *old(self) && final(mem).unchanged(*old(mem)) && (
                old(mem).avail() < grown.end - grown.start || exists|p: u64|
                    grown.pages().contains(p) && old(mem).mapped(old(self).root()).contains(p))
            }),
            r ==> old(self).stack.spec_is_on_stack(addr) && spec_page_of(addr)
                >= final(self).stack.range.start,
            forall|p: u64|
                #[trigger] final(self).stack.range.pages().contains(p) ==> old(self).stack.range.pages().contains(p) || !old(mem).mapped(old(self).root()).contains(
                    p,
                ),
    {
        let root = self.page_table.addr;
        let ghost pre = *mem;
        let handled = self.stack.handle_page_fault(addr, mem, root, is_user);
        proof {
            if self.stack != old(self).stack {
                // The stack grew: the added pages were free, everything
                // else is still mapped.
                assert forall|i: int| 0 <= i < self.code@.len() implies (
                #[trigger] self.code@[i]).pages() <= mem.mapped(root)
                    && self.code@[i].pages().disjoint(self.stack.range.pages()) by {
                    let grown = (PageRange {
                        start: spec_page_of(addr),
                        end: old(self).stack.range.start,
                    });
                    crate::memory::lemma_subset_union(
                        self.code@[i].pages(),
                        pre.mapped(root),
                        grown.pages(),
                    );
                    assert forall|p: u64|
                        self.code@[i].pages().contains(p) implies !self.stack.range.pages()
                        .contains(p) by {
                        assert(pre.mapped(root).contains(p));
                        if old(self).stack.range.pages().contains(p) {
                        } else {
                            assert(!grown.pages().contains(p));
                            assert(!(old(self).stack.range.start <= p
                                < old(self).stack.range.end));
                        }
                    }
                }
            }
        }
        handled
    }

    /// Tear this address space down: unmap the stack, and, when this was
    /// the last owner of the table, unmap the heap and the code and give
    /// the table itself back.  With `dealloc_stack` the stack's frames
    /// return to the pool, as for a user process.
    pub fn clean_up(&mut self, mem: &mut MemoryModel, dealloc_stack: bool, last_owner: bool)
        requires
            old(self).wf(*old(mem)),
            old(mem).wf(),
        ensures
            final(mem).wf(),
            final(mem).avail() >= old(mem).avail(),
            final(mem).same_tables_except(*old(mem), old(self).root()),
            final(self).stack.usage == 0,
            !last_owner ==> {
                &&& final(mem).has_table(old(self).root())
                &&& final(mem).mapped(old(self).root()) == old(mem).mapped(old(self).root())
                    - old(self).stack.range.pages()
                &&& final(mem).users_of(old(self).root()) >= 1
            },
            // The last owner takes the heap, the code and the table
            // itself with it.
            last_owner && old(mem).users_of(old(self).root()) == 1 ==> !final(mem).has_table(
                old(self).root(),
            ),
    {
        let root = self.page_table.addr;
        proof {
            if self.stack.usage == 0 {
                assert(self.stack.range.pages() =~= Set::<u64>::empty());
            }
        }
        match self.stack.clean_up(mem, root, dealloc_stack) {
            Ok(()) => {},
            Err(_) => {},
        }
        let ghost after_stack = *mem;
        proof {
            if old(self).stack.usage == 0 {
                assert(after_stack.mapped(root) =~= old(mem).mapped(root) - old(self).stack.range.pages());
            }
        }
        if last_owner {
            match self.heap.clean_up(mem, root) {
                Ok(()) => {},
                Err(_) => {},
            }
            let ghost after_heap = *mem;
            proof {
                crate::memory::lemma_same_tables_trans(*old(mem), after_stack, after_heap, root);
            }
            let mut i: usize = 0;
            while i < self.code.len()
                invariant
                    i <= self.code@.len(),
                    root == self.page_table.addr,
                    mem.wf(),
                    mem.has_table(root),
                    mem.avail() >= after_heap.avail(),
                    mem.users_of(root) == after_heap.users_of(root),
                    mem.same_tables_except(after_heap, root),
                    after_heap.avail() >= old(mem).avail(),
                    after_heap.same_tables_except(*old(mem), root),
                decreases self.code@.len() - i,
            {
                let range = self.code[i];
                let ghost before = *mem;
                if range.start <= range.end {
                    match mem.unmap_range(root, range.start, range.count(), true) {
                        Ok(()) => {},
                        Err(_) => {},
                    }
                }
                proof {
                    crate::memory::lemma_same_tables_trans(after_heap, before, *mem, root);
                }
                i = i + 1;
            }
            proof {
                crate::memory::lemma_same_tables_trans(*old(mem), after_heap, *mem, root);
            }
            let ghost before_release = *mem;
            proof {
                if old(mem).users_of(root) == 1 {
                    assert(after_stack.users_of(root) == 1);
                    assert(after_heap.users_of(root) == 1);
                    assert(before_release.users_of(root) == 1);
                }
            }
            mem.release_table(root);
            proof {
                crate::memory::lemma_same_tables_trans(*old(mem), before_release, *mem, root);
            }
        } else {
            let users = mem.table_users(root);
            let ghost before_release = *mem;
            if users > 1 {
                mem.release_table(root);
            }
            proof {
                crate::memory::lemma_same_tables_trans(*old(mem), before_release, *mem, root);
            }
        }
        self.code = Vec::new();
        self.code_usage = 0;
    }
}

} // verus!
