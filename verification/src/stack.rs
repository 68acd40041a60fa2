//! The per-process stack: an address-range-bounded region that grows
//! downward on page faults.
//!
//! Every process owns one fixed-size address "slot"; its stack lives
//! entirely inside that slot and only the committed sub-range is mapped.
//! The committed words are part of the model, so that the bulk copy a fork
//! performs is visible: the child reads the same values at the same
//! offsets, and later writes on either side stay private.

use vstd::prelude::*;
use crate::memory::{MemoryModel, MapError, UnmapError, PageRange, PAGE_SIZE, spec_page_of, page_of};

verus! {

/// Top of the user stack area.
pub const STACK_MAX: u64 = 0x4000_0000_0000;

/// Pages per stack slot.
pub const STACK_MAX_PAGES: u64 = 0x100000;

/// Bytes per stack slot.
pub const STACK_MAX_SIZE: u64 = STACK_MAX_PAGES * PAGE_SIZE;

/// Pages committed when a stack is first mapped.
pub const STACK_DEF_PAGE: u64 = 1;

/// Bytes committed when a stack is first mapped.
pub const STACK_DEF_SIZE: u64 = STACK_DEF_PAGE * PAGE_SIZE;

/// Bottom of the initially committed page of the first user stack.
pub const STACK_INIT_BOT: u64 = STACK_MAX - STACK_DEF_SIZE;

/// Initial user stack pointer.
pub const STACK_INIT_TOP: u64 = STACK_MAX - 8;

/// Top of the kernel stack area.
pub const KSTACK_MAX: u64 = 0xffff_ff02_0000_0000;

/// Pages committed for the kernel's own stack.
pub const KSTACK_DEF_PAGE: u64 = 8;

/// Bytes committed for the kernel's own stack.
pub const KSTACK_DEF_SIZE: u64 = KSTACK_DEF_PAGE * PAGE_SIZE;

/// Bottom of the kernel stack.
pub const KSTACK_INIT_BOT: u64 = KSTACK_MAX - KSTACK_DEF_SIZE;

/// Initial kernel stack pointer.
pub const KSTACK_INIT_TOP: u64 = KSTACK_MAX - 8;

/// 64-bit words per page.
pub const WORDS_PER_PAGE: u64 = 512;

/// Stacks never probe below this address: the slot just above the heap
/// window, so a stack and a heap can never contend for a page.
pub const STACK_AREA_BOT: u64 = 0x2001_0000_0000;

/// First page of the stack area.
pub const STACK_AREA_BOT_PAGE: u64 = 0x2001_0000_0000 / 4096;

/// The slot an address belongs to.  Two addresses share a slot exactly
/// when the address bits above the slot size agree.
pub open spec fn spec_slot_of(addr: u64) -> u64 {
    addr / STACK_MAX_SIZE
}

/// The slot an address belongs to.
#[verifier::when_used_as_spec(spec_slot_of)]
pub fn slot_of(addr: u64) -> (r: u64)
    ensures
        r == spec_slot_of(addr),
{
    addr / STACK_MAX_SIZE
}

/// The slot a page belongs to.
pub open spec fn spec_slot_of_page(page: u64) -> u64 {
    page / STACK_MAX_PAGES
}

/// The slot a page belongs to.
#[verifier::when_used_as_spec(spec_slot_of_page)]
pub fn slot_of_page(page: u64) -> (r: u64)
    ensures
        r == spec_slot_of_page(page),
{
    page / STACK_MAX_PAGES
}

/// A page and the addresses on it share a slot.
pub proof fn lemma_slot_page_addr(addr: u64)
    ensures
        spec_slot_of(addr) == spec_slot_of_page(spec_page_of(addr)),
{
    assert(addr / STACK_MAX_SIZE == (addr / PAGE_SIZE) / STACK_MAX_PAGES) by (nonlinear_arith)
        requires
            STACK_MAX_SIZE == STACK_MAX_PAGES * PAGE_SIZE && PAGE_SIZE == 4096
                && STACK_MAX_PAGES == 0x100000,
    ;
}

/// A process stack: the committed page range, its page count, and the
/// words stored on the committed pages, bottom first.
pub struct Stack {
    /// The committed pages.
    pub range: PageRange,
    /// How many pages are committed.
    pub usage: u64,
    /// The words on the committed pages, lowest address first.
    pub words: Vec<u64>,
}

impl Stack {
    /// Structural well-formedness: the range matches the usage, the words
    /// back exactly the committed pages, and a non-empty stack sits inside
    /// one slot.
    pub open spec fn wf(self) -> bool {
        &&& self.range.start <= self.range.end
        &&& self.range.end < 0x10000000000000
        &&& self.usage == self.range.end - self.range.start
        &&& self.words@.len() == self.usage * WORDS_PER_PAGE
        &&& self.usage > 0 ==> (self.range.start % STACK_MAX_PAGES) + self.usage
            <= STACK_MAX_PAGES
        &&& self.usage > 0 ==> self.range.start >= STACK_AREA_BOT_PAGE
    }

    /// The stack is backed while every committed page is mapped in the
    /// owning table.
    pub open spec fn backed(self, mem: MemoryModel, root: u64) -> bool {
        self.range.pages() <= mem.mapped(root)
    }

    /// A stack with nothing committed, parked at the default slot.
    pub fn empty() -> (r: Stack)
        ensures
            r.wf(),
            r.usage == 0,
            r.range.start == spec_page_of(STACK_INIT_TOP),
            r.range.end == spec_page_of(STACK_INIT_TOP),
    {
        let top_page: u64 = page_of(STACK_INIT_TOP);
        Stack { range: PageRange { start: top_page, end: top_page }, usage: 0, words: Vec::new() }
    }

    /// The kernel's own stack, fixed at boot.
    pub fn kstack() -> (r: Stack)
        ensures
            r.wf(),
            r.usage == KSTACK_DEF_PAGE,
            r.range.start == spec_page_of(KSTACK_INIT_BOT),
            r.range.end == spec_page_of(KSTACK_INIT_BOT) + KSTACK_DEF_PAGE,
    {
        let start: u64 = page_of(KSTACK_INIT_BOT);
        let words = zero_words(KSTACK_DEF_PAGE * WORDS_PER_PAGE);
        Stack {
            range: PageRange { start, end: start + KSTACK_DEF_PAGE },
            usage: KSTACK_DEF_PAGE,
            words,
        }
    }

    /// Bytes of committed stack.
    pub open spec fn spec_memory_usage(self) -> int {
        self.usage * PAGE_SIZE
    }

    /// Bytes of committed stack.
    pub fn memory_usage(&self) -> (r: u64)
        requires
            self.usage <= STACK_MAX_PAGES,
        ensures
            r == self.spec_memory_usage(),
    {
        self.usage * PAGE_SIZE
    }

    /// Whether the address falls in this stack's slot: a coarse mask test
    /// against the current bottom, not a test of the committed sub-range.
    pub open spec fn spec_is_on_stack(self, addr: u64) -> bool {
        spec_slot_of(addr) == spec_slot_of_page(self.range.start)
    }

    /// Whether the address falls in this stack's slot.
    pub fn is_on_stack(&self, addr: u64) -> (r: bool)
        ensures
            r == self.spec_is_on_stack(addr),
    {
        slot_of(addr) == slot_of_page(self.range.start)
    }

    /// Map the first page of a fresh user stack.  Fails soft when the
    /// frame pool is exhausted or the page is taken.
    pub fn init(&mut self, mem: &mut MemoryModel, root: u64, user_access: bool) -> (r: Result<
        (),
        MapError,
    >)
        requires
            old(self).wf(),
            old(self).usage == 0,
            old(mem).wf(),
        ensures
            final(self).wf(),
            final(mem).wf(),
            match r {
                Ok(()) => {
                    &&& old(mem).has_table(root)
                    &&& final(mem).has_table(root)
                    &&& final(self).range.start == spec_page_of(STACK_INIT_BOT)
                    &&& final(self).range.end == spec_page_of(STACK_INIT_BOT) + STACK_DEF_PAGE
                    &&& final(self).usage == STACK_DEF_PAGE
                    &&& old(mem).mapped(root).disjoint(final(self).range.pages())
                    &&& final(mem).mapped(root) == old(mem).mapped(root)
                        + final(self).range.pages()
                    &&& final(mem).avail() == old(mem).avail() - STACK_DEF_PAGE
                    &&& final(mem).users_of(root) == old(mem).users_of(root)
                    &&& final(mem).same_tables_except(*old(mem), root)
                    &&& final(self).backed(*final(mem), root)
                },
                Err(MapError::AlreadyMapped) => {
                    &&& *final(self) == *old(self)
                    &&& final(mem).unchanged(*old(mem))
                    &&& old(mem).mapped(root).contains(spec_page_of(STACK_INIT_BOT))
                },
                Err(MapError::FrameExhausted) => {
                    &&& *final(self) == *old(self)
                    &&& final(mem).unchanged(*old(mem))
                    &&& old(mem).avail() < STACK_DEF_PAGE
                },
                Err(MapError::NoSuchTable) => {
                    &&& *final(self) == *old(self)
                    &&& final(mem).unchanged(*old(mem))
                    &&& !old(mem).has_table(root)
                },
            },
    {
        match mem.map_range(root, STACK_INIT_BOT, STACK_DEF_PAGE, user_access) {
            Ok(range) => {
                self.range = range;
                self.usage = STACK_DEF_PAGE;
                self.words = zero_words(STACK_DEF_PAGE * WORDS_PER_PAGE);
                Ok(())
            },
            Err(e) => Err(e),
        }
    }

    /// Handle a page fault at `addr`: reject an address outside the slot;
    /// an address on an already committed page needs no work; otherwise
    /// commit every page from the faulting one up to the old bottom.
    /// Returns whether the fault is handled.
    pub fn handle_page_fault(&mut self, addr: u64, mem: &mut MemoryModel, root: u64,
        user_access: bool) -> (r: bool)
        requires
            old(self).wf(),
            old(self).usage > 0,
            old(self).backed(*old(mem), root),
            old(mem).wf(),
            old(mem).has_table(root),
        ensures
            final(self).wf(),
            final(mem).wf(),
            final(mem).has_table(root),
            final(self).backed(*final(mem), root),
            !old(self).spec_is_on_stack(addr) ==> !r && *final(self) == *old(self)
                && final(mem).unchanged(*old(mem)),
            old(self).spec_is_on_stack(addr) && spec_page_of(addr) >= old(self).range.start ==> r
                && *final(self) == *old(self) && final(mem).unchanged(*old(mem)),
            old(self).spec_is_on_stack(addr) && spec_page_of(addr) < old(self).range.start ==> {
                let grown = (PageRange { start: spec_page_of(addr), end: old(self).range.start });
                &&& r ==> {
                    &&& old(mem).mapped(root).disjoint(grown.pages())
                    &&& final(self).range.start == spec_page_of(addr)
                    &&& final(self).range.end == old(self).range.end
                    &&& final(self).usage == old(self).range.end - spec_page_of(addr)
                    &&& final(self).words@.subrange(
                        final(self).words@.len() - old(self).words@.len(),
                        final(self).words@.len() as int,
                    ) == old(self).words@
                    &&& final(mem).mapped(root) == old(mem).mapped(root) + grown.pages()
                    &&& final(mem).avail() == old(mem).avail() - (old(self).range.start
                        - spec_page_of(addr))
                    &&& final(mem).users_of(root) == old(mem).users_of(root)
                    &&& final(mem).same_tables_except(*old(mem), root)
                }
                &&& !r ==> *final(self) == *old(self) && final(mem).unchanged(*old(mem)) && (
                old(mem).avail() < grown.end - grown.start || exists|p: u64|
                    grown.pages().contains(p) && old(mem).mapped(root).contains(p))
            },
    {
        if !self.is_on_stack(addr) {
            return false;
        }
        let fault_page: u64 = page_of(addr);
        if fault_page >= self.range.start {
            return true;
        }
        match self.grow_stack(addr, mem, root, user_access) {
            Ok(()) => true,
            Err(_) => false,
        }
    }

    /// Commit `[page(addr), range.start)` and move the bottom down.
    fn grow_stack(&mut self, addr: u64, mem: &mut MemoryModel, root: u64, user_access: bool) -> (r:
        Result<(), MapError>)
        requires
            old(self).wf(),
            old(self).usage > 0,
            old(self).backed(*old(mem), root),
            old(self).spec_is_on_stack(addr),
            spec_page_of(addr) < old(self).range.start,
            old(mem).wf(),
            old(mem).has_table(root),
        ensures
            final(self).wf(),
            final(mem).wf(),
            final(mem).has_table(root),
            final(self).backed(*final(mem), root),
            match r {
                Ok(()) => {
                    let grown = (PageRange {
                        start: spec_page_of(addr),
                        end: old(self).range.start,
                    });
                    &&& old(mem).mapped(root).disjoint(grown.pages())
                    &&& final(self).range.start == spec_page_of(addr)
                    &&& final(self).range.end == old(self).range.end
                    &&& final(self).usage == old(self).range.end - spec_page_of(addr)
                    &&& final(self).words@.subrange(
                        final(self).words@.len() - old(self).words@.len(),
                        final(self).words@.len() as int,
                    ) == old(self).words@
                    &&& final(mem).mapped(root) == old(mem).mapped(root) + grown.pages()
                    &&& final(mem).avail() == old(mem).avail() - (old(self).range.start
                        - spec_page_of(addr))
                    &&& final(mem).users_of(root) == old(mem).users_of(root)
                    &&& final(mem).same_tables_except(*old(mem), root)
                },
                Err(_) => {
                    let grown = (PageRange {
                        start: spec_page_of(addr),
                        end: old(self).range.start,
                    });
                    &&& *final(self) == *old(self)
                    &&& final(mem).unchanged(*old(mem))
                    &&& (old(mem).avail() < grown.end - grown.start || exists|p: u64|
                        grown.pages().contains(p) && old(mem).mapped(root).contains(p))
                },
            },
    {
        let fault_page: u64 = page_of(addr);
        proof {
            lemma_slot_page_addr(addr);
            vstd::arithmetic::div_mod::lemma_fundamental_div_mod(
                fault_page as int,
                STACK_MAX_PAGES as int,
            );
            vstd::arithmetic::div_mod::lemma_fundamental_div_mod(
                self.range.start as int,
                STACK_MAX_PAGES as int,
            );
            vstd::arithmetic::div_mod::lemma_div_is_ordered(
                STACK_AREA_BOT_PAGE as int,
                self.range.start as int,
                STACK_MAX_PAGES as int,
            );
            vstd::arithmetic::mul::lemma_mul_inequality(
                STACK_AREA_BOT_PAGE as int / STACK_MAX_PAGES as int,
                fault_page as int / STACK_MAX_PAGES as int,
                STACK_MAX_PAGES as int,
            );
            assert(fault_page >= STACK_AREA_BOT_PAGE);
        }
        let count: u64 = self.range.start - fault_page;
        match mem.map_range(root, addr, count, user_access) {
            Ok(_) => {
                let added: u64 = count * WORDS_PER_PAGE;
                let mut grown_words = zero_words(added);
                let mut i: usize = 0;
                while i < self.words.len()
                    invariant
                        i <= self.words@.len(),
                        grown_words@.len() == added + i,
                        grown_words@.subrange(added as int, grown_words@.len() as int)
                            == self.words@.subrange(0, i as int),
                    decreases self.words@.len() - i,
                {
                    grown_words.push(self.words[i]);
                    proof {
                        assert(grown_words@.subrange(added as int, grown_words@.len() as int)
                            =~= self.words@.subrange(0, i + 1));
                    }
                    i = i + 1;
                }
                proof {
                    assert(self.words@.subrange(0, self.words@.len() as int) =~= self.words@);
                }
                self.words = grown_words;
                self.usage = self.usage + count;
                self.range = PageRange { start: fault_page, end: self.range.end };
                Ok(())
            },
            Err(e) => {
                proof {
                    if e is AlreadyMapped {
                        let p = choose|p: u64|
                            fault_page <= p < fault_page + count && old(mem).mapped(
                                root,
                            ).contains(p);
                        assert((PageRange { start: fault_page, end: old(self).range.start })
                            .pages().contains(p));
                    }
                }
                Err(e)
            },
        }
    }

    /// Duplicate this stack for a forked child: commit a same-sized range
    /// `stack_offset_count` pages below (probing further down slot by slot
    /// while the target is taken), and copy every committed word.  `None`
    /// when no free slot above address zero is found or the pool is
    /// exhausted.
    pub fn fork(&self, mem: &mut MemoryModel, root: u64, stack_offset_count: u64) -> (r: Option<
        Stack,
    >)
        requires
            self.wf(),
            self.usage > 0,
            self.backed(*old(mem), root),
            old(mem).wf(),
            old(mem).has_table(root),
            stack_offset_count % STACK_MAX_PAGES == 0,
            stack_offset_count >= STACK_MAX_PAGES,
        ensures
            final(mem).wf(),
            final(mem).has_table(root),
            match r {
                Some(child) => {
                    &&& child.wf()
                    &&& child.usage == self.usage
                    &&& child.words@ == self.words@
                    &&& child.range.start % STACK_MAX_PAGES == self.range.start % STACK_MAX_PAGES
                    &&& child.range.start < self.range.start
                    &&& old(mem).mapped(root).disjoint(child.range.pages())
                    &&& final(mem).mapped(root) == old(mem).mapped(root) + child.range.pages()
                    &&& final(mem).avail() == old(mem).avail() - self.usage
                    &&& final(mem).users_of(root) == old(mem).users_of(root)
                    &&& final(mem).same_tables_except(*old(mem), root)
                    &&& child.backed(*final(mem), root)
                    &&& self.backed(*final(mem), root)
                },
                None => {
                    &&& final(mem).unchanged(*old(mem))
                    &&& (self.range.start < stack_offset_count + STACK_AREA_BOT_PAGE || old(
                        mem,
                    ).avail() < self.usage || exists|p: u64|
                        p < self.range.start && old(mem).mapped(root).contains(p))
                },
            },
    {
        if self.range.start < stack_offset_count {
            return None;
        }
        let mut candidate: u64 = self.range.start - stack_offset_count;
        if candidate < STACK_AREA_BOT_PAGE {
            return None;
        }
        proof {
            lemma_mod_diff(self.range.start, stack_offset_count, STACK_MAX_PAGES);
        }
        loop
            invariant
                self.wf(),
                self.usage > 0,
                self.backed(*old(mem), root),
                mem.wf(),
                mem.has_table(root),
                mem.unchanged(*old(mem)),
                candidate < self.range.start,
                candidate >= STACK_AREA_BOT_PAGE,
                candidate % STACK_MAX_PAGES == self.range.start % STACK_MAX_PAGES,
            decreases candidate,
        {
            proof {
                vstd::arithmetic::div_mod::lemma_fundamental_div_mod(
                    candidate as int,
                    STACK_MAX_PAGES as int,
                );
            }
            match mem.map_range(root, candidate * PAGE_SIZE, self.usage, true) {
                Ok(range) => {
                    proof {
                        assert(spec_page_of((candidate * PAGE_SIZE) as u64) == candidate)
                            by (nonlinear_arith)
                            requires
                                PAGE_SIZE == 4096 && candidate < 0x10000000000000,
                        ;
                        lemma_same_mod_gap(candidate, self.range.start, STACK_MAX_PAGES);
                        assert forall|p: u64| self.range.pages().contains(p) implies mem.mapped(
                            root,
                        ).contains(p) by {
                            assert(old(mem).mapped(root).contains(p));
                        }
                    }
                    let words = clone_words(&self.words);
                    let child = Stack { range, usage: self.usage, words };
                    return Some(child);
                },
                Err(MapError::AlreadyMapped) => {
                    if candidate < STACK_AREA_BOT_PAGE + STACK_MAX_PAGES {
                        return None;
                    }
                    candidate = candidate - STACK_MAX_PAGES;
                    proof {
                        lemma_mod_diff(
                            (candidate + STACK_MAX_PAGES) as u64,
                            STACK_MAX_PAGES,
                            STACK_MAX_PAGES,
                        );
                    }
                },
                Err(_) => {
                    return None;
                },
            }
        }
    }

    /// Tear the committed range down, unmapping every page; with
    /// `dealloc`, the frames return to the pool.
    pub fn clean_up(&mut self, mem: &mut MemoryModel, root: u64, dealloc: bool) -> (r: Result<
        (),
        UnmapError,
    >)
        requires
            old(self).wf(),
            old(self).usage > 0 ==> old(self).backed(*old(mem), root) && old(mem).has_table(root),
            old(mem).wf(),
        ensures
            final(self).wf(),
            final(mem).wf(),
            r is Ok,
            final(self).usage == 0,
            old(self).usage == 0 ==> final(mem).unchanged(*old(mem)),
            old(self).usage > 0 ==> {
                &&& final(mem).has_table(root)
                &&& final(mem).mapped(root) == old(mem).mapped(root) - old(self).range.pages()
                &&& final(mem).avail() == old(mem).avail() + (if dealloc {
                    old(self).usage as int
                } else {
                    0
                })
                &&& final(mem).users_of(root) == old(mem).users_of(root)
                &&& final(mem).same_tables_except(*old(mem), root)
            },
    {
        if self.usage == 0 {
            return Ok(());
        }
        match mem.unmap_range(root, self.range.start, self.usage, dealloc) {
            Ok(()) => {
                self.range = PageRange { start: self.range.start, end: self.range.start };
                self.usage = 0;
                self.words = Vec::new();
                Ok(())
            },
            Err(e) => {
                proof {
                    assert(false);
                }
                Err(e)
            },
        }
    }

    /// The index of the word at `addr` among the committed words.
    pub open spec fn word_index(self, addr: u64) -> int {
        (addr - self.range.start * PAGE_SIZE) / 8
    }

    /// Whether `addr` names a committed, 8-byte-aligned word.
    pub open spec fn word_addr(self, addr: u64) -> bool {
        &&& self.range.start * PAGE_SIZE <= addr
        &&& addr + 8 <= self.range.end * PAGE_SIZE
        &&& addr % 8 == 0
    }

    /// Read the word at `addr`.
    pub fn read_word(&self, addr: u64) -> (r: u64)
        requires
            self.wf(),
            self.word_addr(addr),
        ensures
            r == self.words@[self.word_index(addr)],
    {
        proof {
            lemma_word_index_bound(*self, addr);
        }
        let idx: u64 = (addr - self.range.start * PAGE_SIZE) / 8;
        self.words[idx as usize]
    }

    /// Write the word at `addr`.
    pub fn write_word(&mut self, addr: u64, value: u64)
        requires
            old(self).wf(),
            old(self).word_addr(addr),
        ensures
            final(self).wf(),
            final(self).range == old(self).range,
            final(self).usage == old(self).usage,
            final(self).words@ == old(self).words@.update(old(self).word_index(addr), value),
    {
        proof {
            lemma_word_index_bound(*old(self), addr);
        }
        let idx: u64 = (addr - self.range.start * PAGE_SIZE) / 8;
        self.words.set(idx as usize, value);
    }
}

/// A committed word address indexes into the stack's words.
proof fn lemma_word_index_bound(s: Stack, addr: u64)
    requires
        s.wf(),
        s.word_addr(addr),
    ensures
        0 <= s.word_index(addr) < s.words@.len(),
        s.word_index(addr) == (addr - s.range.start * PAGE_SIZE) as u64 / 8,
{
    let base = s.range.start * PAGE_SIZE;
    assert(0 <= (addr - base) / 8 && (addr - base) / 8 < s.usage * WORDS_PER_PAGE
        && (addr - base) / 8 == (addr - base) as u64 / 8) by (nonlinear_arith)
        requires
            base == s.range.start * PAGE_SIZE,
            base <= addr,
            addr + 8 <= s.range.end * PAGE_SIZE,
            s.usage == s.range.end - s.range.start,
            s.range.end <= 0x10000000000000,
            PAGE_SIZE == 4096,
            WORDS_PER_PAGE == 512,
    ;
}

/// Subtracting a multiple of `n` keeps the remainder.
proof fn lemma_mod_diff(a: u64, b: u64, n: u64)
    requires
        n > 0,
        b <= a,
        b % n == 0,
    ensures
        ((a - b) as u64) % n == a % n,
{
    let q1 = a as int / n as int;
    let q2 = b as int / n as int;
    vstd::arithmetic::div_mod::lemma_fundamental_div_mod(a as int, n as int);
    vstd::arithmetic::div_mod::lemma_fundamental_div_mod(b as int, n as int);
    assert((q1 - q2) * n == q1 * n - q2 * n) by (nonlinear_arith);
    vstd::arithmetic::div_mod::lemma_fundamental_div_mod_converse(
        a - b,
        n as int,
        q1 - q2,
        a as int % n as int,
    );
}

/// Distinct numbers with the same remainder lie at least `n` apart.
proof fn lemma_same_mod_gap(a: u64, b: u64, n: u64)
    requires
        n > 0,
        a < b,
        a % n == b % n,
    ensures
        a + n <= b,
{
    let qa = a as int / n as int;
    let qb = b as int / n as int;
    vstd::arithmetic::div_mod::lemma_fundamental_div_mod(a as int, n as int);
    vstd::arithmetic::div_mod::lemma_fundamental_div_mod(b as int, n as int);
    assert(qb * n - qa * n == (qb - qa) * n) by (nonlinear_arith);
    assert(qb - qa >= 1) by (nonlinear_arith)
        requires
            (qb - qa) * n > 0 && n > 0,
    ;
    vstd::arithmetic::mul::lemma_mul_inequality(1, qb - qa, n as int);
}

/// Copy a word vector.
fn clone_words(words: &Vec<u64>) -> (r: Vec<u64>)
    ensures
        r@ == words@,
{
    let mut out: Vec<u64> = Vec::new();
    let mut i: usize = 0;
    while i < words.len()
        invariant
            i <= words@.len(),
            out@ == words@.subrange(0, i as int),
        decreases words@.len() - i,
    {
        out.push(words[i]);
        i = i + 1;
    }
    proof {
        assert(out@ =~= words@);
    }
    out
}

/// A vector of `n` zero words.
fn zero_words(n: u64) -> (r: Vec<u64>)
    requires
        n <= 0x100000 * 512,
    ensures
        r@.len() == n,
        forall|i: int| 0 <= i < n ==> r@[i] == 0,
{
    let mut out: Vec<u64> = Vec::new();
    let mut i: u64 = 0;
    while i < n
        invariant
            i <= n,
            out@.len() == i,
            forall|j: int| 0 <= j < i ==> out@[j] == 0,
        decreases n - i,
    {
        out.push(0);
        i = i + 1;
    }
    out
}

} // verus!
