//! Physical frames and page tables, modelled with plain values.
//!
//! A frame is identified by its index in physical memory; a virtual page by
//! its index in the address space (address divided by the page size).  One
//! [`MemoryModel`] owns the frame pool of the machine together with every
//! live root paging structure: the kernel's single frame allocator and
//! the per-process page tables it backs.

use vstd::prelude::*;
use std::collections::BTreeMap;

verus! {

/// Size of one page and one frame, in bytes.
pub const PAGE_SIZE: u64 = 4096;

/// Largest page index: addresses are 64 bits, pages 4096 bytes.
pub const PAGE_INDEX_MAX: u64 = 0xFFFFFFFFFFFFF;

/// The page containing an address.
pub open spec fn spec_page_of(addr: u64) -> u64 {
    addr / PAGE_SIZE
}

/// The page containing an address.
#[verifier::when_used_as_spec(spec_page_of)]
pub fn page_of(addr: u64) -> (r: u64)
    ensures
        r == spec_page_of(addr),
{
    addr / PAGE_SIZE
}

/// A right-open range of virtual pages, `[start, end)`, in page indices.
#[derive(Clone, Copy, PartialEq, Eq, Structural, Debug)]
pub struct PageRange {
    /// First page of the range.
    pub start: u64,
    /// First page past the range.
    pub end: u64,
}

impl PageRange {
    /// The set of page indices the range covers.
    pub open spec fn pages(self) -> Set<u64> {
        Set::new(|p: u64| self.start <= p < self.end)
    }

    /// How many pages the range covers.
    pub fn count(&self) -> (r: u64)
        requires
            self.start <= self.end,
        ensures
            r == self.end - self.start,
    {
        self.end - self.start
    }
}

/// Why a mapping request failed.
#[derive(Clone, Copy, PartialEq, Eq, Structural, Debug)]
pub enum MapError {
    /// A page of the requested range is already mapped in this table.
    AlreadyMapped,
    /// The physical frame pool cannot supply enough frames.
    FrameExhausted,
    /// The named root paging structure is not live.
    NoSuchTable,
}

/// Why an unmapping request failed.
#[derive(Clone, Copy, PartialEq, Eq, Structural, Debug)]
pub enum UnmapError {
    /// A page of the requested range is not mapped in this table.
    NotMapped,
    /// The named root paging structure is not live.
    NoSuchTable,
}

/// One live root paging structure: the frame of its level-4 table names
/// it, `users` counts the `PageTableContext` handles sharing it, and
/// `entries` holds its leaf mappings as (page, frame) pairs.
pub struct PageTable {
    /// How many owners (a process and its forked children) share the table.
    pub users: u64,
    /// The frame charged for the level-4 table itself.
    pub root_frame: u64,
    /// The leaf mappings: virtual page index to physical frame index.
    pub entries: Vec<(u64, u64)>,
}

/// Whether some entry maps the page `p`.
pub open spec fn has_page(s: Seq<(u64, u64)>, p: u64) -> bool {
    exists|i: int| 0 <= i < s.len() && s[i].0 == p
}

/// The set of pages the entries map.
pub open spec fn pages_of(s: Seq<(u64, u64)>) -> Set<u64> {
    Set::new(|p: u64| has_page(s, p))
}

/// Entries are well formed when no page occurs twice.
pub open spec fn entries_wf(s: Seq<(u64, u64)>) -> bool {
    forall|i: int, j: int| 0 <= i < j < s.len() ==> s[i].0 != s[j].0
}

impl PageTable {
    /// The set of pages this table maps.
    pub open spec fn mapped(self) -> Set<u64> {
        pages_of(self.entries@)
    }

    /// A table is well formed when no page is mapped twice and it has at
    /// least one owner.
    pub open spec fn wf(self) -> bool {
        &&& entries_wf(self.entries@)
        &&& self.users >= 1
    }
}

/// "All tables but `root` agree" chains across two steps.
pub proof fn lemma_same_tables_trans(a: MemoryModel, b: MemoryModel, c: MemoryModel, root: u64)
    requires
        b.same_tables_except(a, root),
        c.same_tables_except(b, root),
    ensures
        c.same_tables_except(a, root),
{
    assert forall|r: u64|
        r != root implies ((#[trigger] c.tables@.contains_key(r) <==> a.tables@.contains_key(r))
        && (a.tables@.contains_key(r) ==> c.tables@[r] == a.tables@[r])) by {
        assert(b.tables@.contains_key(r) <==> a.tables@.contains_key(r));
        assert(c.tables@.contains_key(r) <==> b.tables@.contains_key(r));
        if a.tables@.contains_key(r) {
            assert(b.tables@[r] == a.tables@[r]);
            assert(c.tables@[r] == b.tables@[r]);
        }
    }
}

/// Value-level "unchanged" gives observational sameness.
pub proof fn lemma_unchanged_implies_same_view(a: MemoryModel, b: MemoryModel)
    requires
        a.unchanged(b),
    ensures
        a.same_view(b),
{
    assert forall|r: u64| #[trigger] a.tables@.contains_key(r) <==> b.tables@.contains_key(
        r,
    ) by {}
    assert forall|r: u64| #[trigger] b.tables@.contains_key(r) implies a.mapped(r) == b.mapped(r)
        && a.users_of(r) == b.users_of(r) by {}
}

/// A subset stays a subset under union.
pub proof fn lemma_subset_union(a: Set<u64>, b: Set<u64>, c: Set<u64>)
    requires
        a <= b,
    ensures
        a <= b + c,
{
    assert forall|x: u64| a.contains(x) implies (b + c).contains(x) by {
        assert(b.contains(x));
    }
}

/// Appending an entry adds exactly its page.
pub proof fn lemma_pages_push(s: Seq<(u64, u64)>, e: (u64, u64))
    ensures
        forall|p: u64| has_page(s.push(e), p) <==> (has_page(s, p) || p == e.0),
{
    assert forall|p: u64| has_page(s.push(e), p) implies (has_page(s, p) || p == e.0) by {
        let i = choose|i: int| 0 <= i < s.push(e).len() && s.push(e)[i].0 == p;
        if i < s.len() {
            assert(s[i].0 == p);
        }
    }
    assert forall|p: u64| has_page(s, p) || p == e.0 implies has_page(s.push(e), p) by {
        if has_page(s, p) {
            let i = choose|i: int| 0 <= i < s.len() && s[i].0 == p;
            assert(s.push(e)[i].0 == p);
        } else {
            assert(s.push(e)[s.len() as int].0 == p);
        }
    }
}

/// Removing an entry of a well-formed sequence removes exactly its page.
pub proof fn lemma_pages_remove(s: Seq<(u64, u64)>, i: int)
    requires
        entries_wf(s),
        0 <= i < s.len(),
    ensures
        entries_wf(s.remove(i)),
        forall|p: u64| has_page(s.remove(i), p) <==> (has_page(s, p) && p != s[i].0),
{
    let t = s.remove(i);
    assert forall|p: u64| has_page(t, p) implies (has_page(s, p) && p != s[i].0) by {
        let j = choose|j: int| 0 <= j < t.len() && t[j].0 == p;
        if j < i {
            assert(s[j].0 == p);
        } else {
            assert(s[j + 1].0 == p);
        }
    }
    assert forall|p: u64| has_page(s, p) && p != s[i].0 implies has_page(t, p) by {
        let j = choose|j: int| 0 <= j < s.len() && s[j].0 == p;
        if j < i {
            assert(t[j].0 == p);
        } else {
            assert(t[j - 1].0 == p);
        }
    }
}

/// The kernel's physical frame pool: a primary iterator over the usable
/// region of the boot memory map, and a free list of recycled frames that
/// is checked first.
pub struct FrameAllocator {
    /// Next frame the primary iterator would hand out.
    pub next_frame: u64,
    /// First frame past the usable region.
    pub frame_end: u64,
    /// Frames returned to the pool, reused before the primary iterator.
    pub recycled: Vec<u64>,
    /// How many frames the primary iterator has handed out.
    pub used: u64,
    /// How many usable frames the boot memory map announced.
    pub total: u64,
}

impl FrameAllocator {
    /// The pool's whole observable state, for "unchanged" claims.
    pub open spec fn st(self) -> (u64, u64, Seq<u64>, u64, u64) {
        (self.next_frame, self.frame_end, self.recycled@, self.used, self.total)
    }

    /// The allocator is well formed while the iterator sits inside the
    /// region and the usage counter has not outrun it.
    pub open spec fn wf(self) -> bool {
        &&& self.next_frame <= self.frame_end
        &&& self.used <= self.next_frame
    }

    /// How many frames the pool can still hand out.
    pub open spec fn avail(self) -> int {
        self.recycled@.len() + self.frame_end - self.next_frame
    }

    /// A pool over the usable frames `[first, first + count)`.
    pub fn new(first: u64, count: u64) -> (r: FrameAllocator)
        requires
            first + count <= u64::MAX,
        ensures
            r.wf(),
            r.avail() == count,
            r.frames_used_spec() == 0,
            r.frames_recycled_spec() == 0,
    {
        FrameAllocator {
            next_frame: first,
            frame_end: first + count,
            recycled: Vec::new(),
            used: 0,
            total: count,
        }
    }

    /// Hand out one frame: the most recently recycled one if any, else the
    /// next from the primary iterator.  Returns `None` exactly when the
    /// pool is exhausted.
    pub fn allocate_frame(&mut self) -> (r: Option<u64>)
        requires
            old(self).wf(),
        ensures
            final(self).wf(),
            r is Some <==> old(self).avail() > 0,
            r is Some ==> final(self).avail() == old(self).avail() - 1,
            r is None ==> final(self).st() == old(self).st(),
    {
        match self.recycled.pop() {
            Some(f) => Some(f),
            None => {
                if self.next_frame < self.frame_end {
                    let f = self.next_frame;
                    self.next_frame = self.next_frame + 1;
                    self.used = self.used + 1;
                    Some(f)
                } else {
                    None
                }
            }
        }
    }

    /// Return a frame to the pool's free list.
    pub fn deallocate_frame(&mut self, frame: u64)
        requires
            old(self).wf(),
        ensures
            final(self).wf(),
            final(self).avail() == old(self).avail() + 1,
    {
        self.recycled.push(frame);
    }

    /// How many frames the primary iterator has handed out.
    pub open spec fn frames_used_spec(self) -> int {
        self.used as int
    }

    /// How many frames the primary iterator has handed out.
    pub fn frames_used(&self) -> (r: u64)
        ensures
            r == self.frames_used_spec(),
    {
        self.used
    }

    /// How many frames sit on the free list.
    pub open spec fn frames_recycled_spec(self) -> int {
        self.recycled@.len() as int
    }

    /// How many frames sit on the free list.
    pub fn frames_recycled(&self) -> (r: usize)
        ensures
            r == self.frames_recycled_spec(),
    {
        self.recycled.len()
    }

    /// How many usable frames the boot memory map announced.
    pub fn frames_total(&self) -> u64 {
        self.total
    }

    /// Whether the pool can still supply `count` frames.
    pub fn can_supply(&self, count: u64) -> (b: bool)
        requires
            self.wf(),
        ensures
            b == (self.avail() >= count),
    {
        (self.recycled.len() as u128) + ((self.frame_end - self.next_frame) as u128)
            >= (count as u128)
    }
}

/// Whether `i` maps some page, i.e. `Some` holds an index into `s`.
pub open spec fn found_page(s: Seq<(u64, u64)>, page: u64, r: Option<usize>) -> bool {
    match r {
        Some(i) => i < s.len() && s[i as int].0 == page,
        None => !has_page(s, page),
    }
}

/// Linear scan for the entry mapping `page`.
fn find_page(entries: &Vec<(u64, u64)>, page: u64) -> (r: Option<usize>)
    ensures
        found_page(entries@, page, r),
{
    let mut i: usize = 0;
    while i < entries.len()
        invariant
            i <= entries@.len(),
            forall|j: int| 0 <= j < i ==> entries@[j].0 != page,
        decreases entries@.len() - i,
    {
        if entries[i].0 == page {
            return Some(i);
        }
        i = i + 1;
    }
    None
}

/// All live virtual memory of the machine: the physical frame pool and
/// every live root paging structure, keyed by a root id.  The kernel holds
/// one of these; every mapping operation of every process goes through it.
pub struct MemoryModel {
    /// The physical frame pool.
    pub frames: FrameAllocator,
    /// The live root paging structures.
    pub tables: BTreeMap<u64, PageTable>,
    /// The next root id to hand out; all live roots are below it.
    pub next_root: u64,
}

impl MemoryModel {
    /// Every live table is well formed and named below the root counter.
    pub open spec fn wf(self) -> bool {
        &&& self.frames.wf()
        &&& forall|r: u64| #[trigger] self.tables@.contains_key(r) ==> self.tables@[r].wf()
            && r < self.next_root
    }

    /// Whether a root paging structure with this id is live.
    pub open spec fn has_table(self, root: u64) -> bool {
        self.tables@.contains_key(root)
    }

    /// The set of pages the table maps.
    pub open spec fn mapped(self, root: u64) -> Set<u64> {
        self.tables@[root].mapped()
    }

    /// How many owners share the table.
    pub open spec fn users_of(self, root: u64) -> u64 {
        self.tables@[root].users
    }

    /// How many frames the pool can still hand out.
    pub open spec fn avail(self) -> int {
        self.frames.avail()
    }

    /// All tables but `root` are the same in `self` and `other`.
    pub open spec fn same_tables_except(self, other: MemoryModel, root: u64) -> bool {
        forall|r: u64|
            r != root ==> {
                &&& (#[trigger] self.tables@.contains_key(r) <==> other.tables@.contains_key(r))
                &&& (other.tables@.contains_key(r) ==> self.tables@[r] == other.tables@[r])
            }
    }

    /// Nothing observable differs between `self` and `other`.
    pub open spec fn unchanged(self, other: MemoryModel) -> bool {
        &&& self.frames.st() == other.frames.st()
        &&& self.tables@ == other.tables@
        &&& self.next_root == other.next_root
    }

    /// `self` and `other` agree on everything a caller can observe: the
    /// frame count and, for every table, its existence, its mapped pages
    /// and its owner count.
    pub open spec fn same_view(self, other: MemoryModel) -> bool {
        &&& self.avail() == other.avail()
        &&& self.next_root == other.next_root
        &&& forall|r: u64|
            #[trigger] self.tables@.contains_key(r) <==> other.tables@.contains_key(r)
        &&& forall|r: u64|
            #[trigger] other.tables@.contains_key(r) ==> self.mapped(r) == other.mapped(r)
                && self.users_of(r) == other.users_of(r)
    }

    /// A machine with `frame_count` usable frames starting at `first_frame`
    /// and no live paging structure yet.
    pub fn new(first_frame: u64, frame_count: u64) -> (r: MemoryModel)
        requires
            first_frame + frame_count <= u64::MAX,
        ensures
            r.wf(),
            r.avail() == frame_count,
            forall|root: u64| !r.has_table(root),
    {
        MemoryModel {
            frames: FrameAllocator::new(first_frame, frame_count),
            tables: BTreeMap::new(),
            next_root: 1,
        }
    }

    /// How many owners currently share the table.
    pub fn table_users(&self, root: u64) -> (r: u64)
        requires
            self.has_table(root),
        ensures
            r == self.users_of(root),
    {
        self.tables.get(&root).unwrap().users
    }

    /// Create a fresh, empty root paging structure with a single owner,
    /// charging one frame for its level-4 table.  Returns its root id, or
    /// `None` when the pool is exhausted.
    pub fn create_table(&mut self) -> (r: Option<u64>)
        requires
            old(self).wf(),
        ensures
            final(self).wf(),
            match r {
                Some(root) => {
                    &&& !old(self).has_table(root)
                    &&& final(self).has_table(root)
                    &&& final(self).mapped(root) == Set::<u64>::empty()
                    &&& final(self).users_of(root) == 1
                    &&& final(self).avail() == old(self).avail() - 1
                    &&& final(self).same_tables_except(*old(self), root)
                },
                None => final(self).unchanged(*old(self)) && (old(self).avail() == 0 || old(
                    self,
                ).next_root == u64::MAX),
            },
    {
        if self.next_root == u64::MAX {
            return None;
        }
        let charged = match self.frames.allocate_frame() {
            Some(f) => f,
            None => {
                return None;
            },
        };
        let root = self.next_root;
        self.next_root = self.next_root + 1;
        let table = PageTable { users: 1, root_frame: charged, entries: Vec::new() };
        proof {
            assert(table.mapped() =~= Set::<u64>::empty());
        }
        self.tables.insert(root, table);
        Some(root)
    }

    /// Create a copy of the level-4 table of `src`: a fresh root with the
    /// same leaf mappings and a single owner, charging one frame.
    pub fn clone_level_4(&mut self, src: u64) -> (r: Option<u64>)
        requires
            old(self).wf(),
        ensures
            final(self).wf(),
            match r {
                Some(root) => {
                    &&& old(self).has_table(src)
                    &&& root != src && !old(self).has_table(root)
                    &&& final(self).has_table(root)
                    &&& final(self).mapped(root) == old(self).mapped(src)
                    &&& final(self).users_of(root) == 1
                    &&& final(self).avail() == old(self).avail() - 1
                    &&& final(self).same_tables_except(*old(self), root)
                },
                None => final(self).unchanged(*old(self)) && (!old(self).has_table(src) || old(
                    self,
                ).avail() == 0 || old(self).next_root == u64::MAX),
            },
    {
        if self.next_root == u64::MAX {
            return None;
        }
        let entries = match self.tables.get(&src) {
            Some(t) => clone_entries(&t.entries),
            None => {
                return None;
            },
        };
        let charged = match self.frames.allocate_frame() {
            Some(f) => f,
            None => {
                return None;
            },
        };
        let root = self.next_root;
        self.next_root = self.next_root + 1;
        let table = PageTable { users: 1, root_frame: charged, entries };
        self.tables.insert(root, table);
        Some(root)
    }

    /// Add one owner to the table, as a fork does when parent and child
    /// share their paging structure.  Fails only when the table is not
    /// live or the owner count cannot grow.
    pub fn fork_table(&mut self, root: u64) -> (r: bool)
        requires
            old(self).wf(),
        ensures
            final(self).wf(),
            r == (old(self).has_table(root) && old(self).users_of(root) < u64::MAX),
            r ==> {
                &&& final(self).has_table(root)
                &&& final(self).users_of(root) == old(self).users_of(root) + 1
                &&& final(self).mapped(root) == old(self).mapped(root)
                &&& final(self).avail() == old(self).avail()
                &&& final(self).same_tables_except(*old(self), root)
                &&& final(self).next_root == old(self).next_root
                &&& final(self).frames.st() == old(self).frames.st()
            },
            !r ==> final(self).unchanged(*old(self)),
    {
        match self.tables.get(&root) {
            Some(t) => {
                if t.users == u64::MAX {
                    return false;
                }
            },
            None => {
                return false;
            },
        }
        let mut table = self.tables.remove(&root).unwrap();
        table.users = table.users + 1;
        self.tables.insert(root, table);
        true
    }

    /// Drop one owner of the table.  The last owner takes the whole
    /// structure with it: the table disappears and the frame of its
    /// level-4 table returns to the pool.
    pub fn release_table(&mut self, root: u64)
        requires
            old(self).wf(),
            old(self).has_table(root),
        ensures
            final(self).wf(),
            final(self).same_tables_except(*old(self), root),
            final(self).next_root == old(self).next_root,
            old(self).users_of(root) > 1 ==> {
                &&& final(self).has_table(root)
                &&& final(self).users_of(root) == old(self).users_of(root) - 1
                &&& final(self).mapped(root) == old(self).mapped(root)
                &&& final(self).avail() == old(self).avail()
            },
            old(self).users_of(root) == 1 ==> {
                &&& !final(self).has_table(root)
                &&& final(self).avail() == old(self).avail() + 1
            },
    {
        let mut table = self.tables.remove(&root).unwrap();
        if table.users == 1 {
            self.frames.deallocate_frame(table.root_frame);
        } else {
            table.users = table.users - 1;
            self.tables.insert(root, table);
        }
    }

    /// Allocate `count` frames and map the pages starting at the page
    /// containing `addr` into the table, present and writable (and, for a
    /// non-kernel owner, user-accessible).  The request maps all of its
    /// pages or none: a page already mapped or an exhausted pool leaves
    /// everything as it was.
    pub fn map_range(&mut self, root: u64, addr: u64, count: u64, user_access: bool) -> (r: Result<
        PageRange,
        MapError,
    >)
        requires
            old(self).wf(),
            count <= PAGE_INDEX_MAX,
        ensures
            final(self).wf(),
            match r {
                Ok(range) => {
                    &&& range.start == spec_page_of(addr)
                    &&& range.end == spec_page_of(addr) + count
                    &&& old(self).has_table(root)
                    &&& old(self).mapped(root).disjoint(range.pages())
                    &&& old(self).avail() >= count
                    &&& final(self).has_table(root)
                    &&& final(self).mapped(root) == old(self).mapped(root) + range.pages()
                    &&& final(self).users_of(root) == old(self).users_of(root)
                    &&& final(self).avail() == old(self).avail() - count
                    &&& final(self).same_tables_except(*old(self), root)
                    &&& final(self).next_root == old(self).next_root
                },
                Err(MapError::AlreadyMapped) => {
                    &&& old(self).has_table(root)
                    &&& exists|p: u64|
                        spec_page_of(addr) <= p < spec_page_of(addr) + count
                            && old(self).mapped(root).contains(p)
                    &&& final(self).unchanged(*old(self))
                },
                Err(MapError::FrameExhausted) => {
                    &&& old(self).has_table(root)
                    &&& old(self).avail() < count
                    &&& final(self).unchanged(*old(self))
                },
                Err(MapError::NoSuchTable) => {
                    &&& !old(self).has_table(root)
                    &&& final(self).unchanged(*old(self))
                },
            },
    {
        let _ = user_access;
        let start: u64 = page_of(addr);
        proof {
            assert(start + count <= u64::MAX) by (nonlinear_arith)
                requires
                    start == addr / PAGE_SIZE && PAGE_SIZE == 4096 && count <= PAGE_INDEX_MAX
                        && PAGE_INDEX_MAX == 0xFFFFFFFFFFFFF,
            ;
        }

        // No page of the range may already be mapped.
        match self.tables.get(&root) {
            Some(t) => {
                match find_mapped_in_range(&t.entries, start, count) {
                    Some(p) => {
                        proof {
                            assert(old(self).mapped(root).contains(p));
                        }
                        return Err(MapError::AlreadyMapped);
                    },
                    None => {},
                }
            },
            None => {
                return Err(MapError::NoSuchTable);
            },
        }

        // The pool must supply one frame per page.
        if !self.frames.can_supply(count) {
            return Err(MapError::FrameExhausted);
        }

        let mut table = self.tables.remove(&root).unwrap();
        let ghost orig = table.entries@;
        let mut k: u64 = 0;
        while k < count
            invariant
                k <= count,
                start + count <= u64::MAX,
                self.frames.wf(),
                old(self).frames.avail() >= count,
                self.frames.avail() == old(self).frames.avail() - k,
                entries_wf(table.entries@),
                old(self).has_table(root),
                orig == old(self).tables@[root].entries@,
                table.users == old(self).tables@[root].users,
                table.root_frame == old(self).tables@[root].root_frame,
                forall|j: u64| start <= j < start + count ==> !has_page(orig, j),
                forall|p: u64|
                    has_page(table.entries@, p) <==> (has_page(orig, p) || (start <= p < start
                        + k)),
                self.tables@ == old(self).tables@.remove(root),
                self.next_root == old(self).next_root,
            decreases count - k,
        {
            let frame = self.frames.allocate_frame().unwrap();
            let page: u64 = start + k;
            proof {
                assert(!has_page(orig, page));
                assert(!has_page(table.entries@, page));
                lemma_pages_push(table.entries@, (page, frame));
                assert forall|i: int, j: int|
                    0 <= i < j < table.entries@.push((page, frame)).len() implies table.entries@
                    .push((page, frame))[i].0 != table.entries@.push((page, frame))[j].0 by {
                    if j == table.entries@.len() {
                        assert(has_page(table.entries@, table.entries@[i].0));
                    }
                }
            }
            table.entries.push((page, frame));
            k = k + 1;
        }
        let range = PageRange { start, end: start + count };
        proof {
            assert(pages_of(table.entries@) =~= pages_of(orig) + range.pages());
            assert(pages_of(orig).disjoint(range.pages()));
        }
        self.tables.insert(root, table);
        Ok(range)
    }

    /// Unmap `count` pages starting at `start_page` from the table; with
    /// `dealloc`, their frames return to the pool.  The request unmaps all
    /// of its pages or none: a page not mapped leaves everything as it was.
    pub fn unmap_range(&mut self, root: u64, start_page: u64, count: u64, dealloc: bool) -> (r:
        Result<(), UnmapError>)
        requires
            old(self).wf(),
            start_page + count <= u64::MAX,
        ensures
            final(self).wf(),
            match r {
                Ok(()) => {
                    &&& old(self).has_table(root)
                    &&& (PageRange { start: start_page, end: (start_page + count) as u64 }).pages()
                        <= old(self).mapped(root)
                    &&& final(self).has_table(root)
                    &&& final(self).mapped(root) == old(self).mapped(root) - (PageRange {
                        start: start_page,
                        end: (start_page + count) as u64,
                    }).pages()
                    &&& final(self).users_of(root) == old(self).users_of(root)
                    &&& final(self).avail() == old(self).avail() + (if dealloc {
                        count as int
                    } else {
                        0
                    })
                    &&& final(self).same_tables_except(*old(self), root)
                    &&& final(self).next_root == old(self).next_root
                },
                Err(UnmapError::NotMapped) => {
                    &&& old(self).has_table(root)
                    &&& exists|p: u64|
                        start_page <= p < start_page + count && !old(self).mapped(root).contains(p)
                    &&& final(self).unchanged(*old(self))
                },
                Err(UnmapError::NoSuchTable) => {
                    &&& !old(self).has_table(root)
                    &&& final(self).unchanged(*old(self))
                },
            },
    {
        // Every page of the range must be mapped.
        match self.tables.get(&root) {
            Some(t) => {
                match find_unmapped_in_range(&t.entries, start_page, count) {
                    Some(p) => {
                        proof {
                            assert(!old(self).mapped(root).contains(p));
                        }
                        return Err(UnmapError::NotMapped);
                    },
                    None => {},
                }
            },
            None => {
                return Err(UnmapError::NoSuchTable);
            },
        }

        let mut table = self.tables.remove(&root).unwrap();
        let ghost orig = table.entries@;
        let mut k: u64 = 0;
        while k < count
            invariant
                k <= count,
                start_page + count <= u64::MAX,
                self.frames.wf(),
                self.frames.avail() == old(self).frames.avail() + (if dealloc {
                    k as int
                } else {
                    0
                }),
                entries_wf(table.entries@),
                old(self).has_table(root),
                orig == old(self).tables@[root].entries@,
                table.users == old(self).tables@[root].users,
                table.root_frame == old(self).tables@[root].root_frame,
                forall|j: u64| start_page <= j < start_page + count ==> has_page(orig, j),
                forall|p: u64|
                    has_page(table.entries@, p) <==> (has_page(orig, p) && !(start_page <= p
                        < start_page + k)),
                self.tables@ == old(self).tables@.remove(root),
                self.next_root == old(self).next_root,
            decreases count - k,
        {
            let ghost pre = table.entries@;
            let page: u64 = start_page + k;
            proof {
                assert(forall|p: u64|
                    has_page(pre, p) <==> (has_page(orig, p) && !(start_page <= p
                        < start_page + k)));
                assert(has_page(orig, page));
                assert(has_page(pre, page));
            }
            let idx = find_page(&table.entries, page).unwrap();
            proof {
                lemma_pages_remove(pre, idx as int);
            }
            let entry = table.entries.remove(idx);
            proof {
                assert forall|p: u64|
                    has_page(table.entries@, p) <==> (has_page(orig, p) && !(start_page <= p
                        < start_page + (k + 1))) by {
                    assert(has_page(table.entries@, p) <==> (has_page(pre, p) && p != page));
                    assert(has_page(pre, p) <==> (has_page(orig, p) && !(start_page <= p
                        < start_page + k)));
                }
            }
            if dealloc {
                self.frames.deallocate_frame(entry.1);
            }
            k = k + 1;
        }
        proof {
            let range = PageRange { start: start_page, end: (start_page + count) as u64 };
            assert(pages_of(table.entries@) =~= pages_of(orig) - range.pages());
            assert(range.pages() <= pages_of(orig));
        }
        self.tables.insert(root, table);
        Ok(())
    }
}

/// Look for a page of `[start, start + count)` that has an entry.
fn find_mapped_in_range(entries: &Vec<(u64, u64)>, start: u64, count: u64) -> (r: Option<u64>)
    requires
        start + count <= u64::MAX,
    ensures
        match r {
            Some(p) => start <= p < start + count && has_page(entries@, p),
            None => forall|p: u64| start <= p < start + count ==> !has_page(entries@, p),
        },
{
    let mut k: u64 = 0;
    while k < count
        invariant
            k <= count,
            start + count <= u64::MAX,
            forall|j: u64| start <= j < start + k ==> !has_page(entries@, j),
        decreases count - k,
    {
        if find_page(entries, start + k).is_some() {
            return Some(start + k);
        }
        k = k + 1;
    }
    None
}

/// Look for a page of `[start, start + count)` that has no entry.
fn find_unmapped_in_range(entries: &Vec<(u64, u64)>, start: u64, count: u64) -> (r: Option<u64>)
    requires
        start + count <= u64::MAX,
    ensures
        match r {
            Some(p) => start <= p < start + count && !has_page(entries@, p),
            None => forall|p: u64| start <= p < start + count ==> has_page(entries@, p),
        },
{
    let mut k: u64 = 0;
    while k < count
        invariant
            k <= count,
            start + count <= u64::MAX,
            forall|j: u64| start <= j < start + k ==> has_page(entries@, j),
        decreases count - k,
    {
        if find_page(entries, start + k).is_none() {
            return Some(start + k);
        }
        k = k + 1;
    }
    None
}

/// Copy a mapping list entry for entry.
fn clone_entries(entries: &Vec<(u64, u64)>) -> (r: Vec<(u64, u64)>)
    ensures
        r@ == entries@,
{
    let mut out: Vec<(u64, u64)> = Vec::new();
    let mut i: usize = 0;
    while i < entries.len()
        invariant
            i <= entries@.len(),
            out@ == entries@.subrange(0, i as int),
        decreases entries@.len() - i,
    {
        out.push(entries[i]);
        i = i + 1;
    }
    proof {
        assert(out@ =~= entries@);
    }
    out
}

} // verus!
