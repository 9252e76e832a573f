//! Three-level page tables: 512 entries to a table, 4 KiB to a page, 39 bits to an address.

use crate::allocator::frame::PhysFrameAllocator;
use crate::config::PAGE_SIZE_4K;
use crate::error::KError;
use crate::error::KResult;
use crate::mem::addr::PhysAddr;
use crate::mem::addr::VirtAddr;
use crate::mem::pte::PTEFlags;
use crate::mem::pte::PageTableEntry;
use crate::mem::pte::word_frame;
use crate::mem::pte::word_is_valid;
use crate::mem::pte::PTE_V;
use crate::mem::table_model::spec_leaf_index;
use crate::mem::table_model::spec_mid_index;
use crate::mem::table_model::spec_top_index;
use crate::mem::table_model::TableModel;
use vstd::prelude::*;

verus! {

/// Number of entries in one table of the three-level scheme.
pub const SV39_TABLE_PTE_COUNT: usize = 512;

/// Index of `vaddr` into the root table.
fn top_index(vaddr: VirtAddr) -> (r: usize)
    ensures
        r == spec_top_index(vaddr.0 as int),
        r < 512,
{
    (vaddr.as_usize() / 0x4000_0000) % SV39_TABLE_PTE_COUNT
}

/// Index of `vaddr` into a second-level table.
fn mid_index(vaddr: VirtAddr) -> (r: usize)
    ensures
        r == spec_mid_index(vaddr.0 as int),
        r < 512,
{
    (vaddr.as_usize() / 0x20_0000) % SV39_TABLE_PTE_COUNT
}

/// Index of `vaddr` into a last-level table.
fn leaf_index(vaddr: VirtAddr) -> (r: usize)
    ensures
        r == spec_leaf_index(vaddr.0 as int),
        r < 512,
{
    (vaddr.as_usize() / PAGE_SIZE_4K) % SV39_TABLE_PTE_COUNT
}

/// A last-level table: the frame it lies in and its entries.
pub struct LeafTable {
    paddr: PhysAddr,
    entries: Vec<PageTableEntry>,
}

/// A second-level table: the frame it lies in, its entries, and the last-level table behind
/// each valid entry.
pub struct MidTable {
    paddr: PhysAddr,
    entries: Vec<PageTableEntry>,
    children: Vec<Option<LeafTable>>,
}

/// A three-level page table.
///
/// It owns the frame of its root table and of every table below it; `intrm_tables` lists them
/// in the order in which they were taken from the frame allocator, the root first.
pub struct PageTable {
    root_paddr: PhysAddr,
    intrm_tables: Vec<PhysAddr>,
    entries: Vec<PageTableEntry>,
    children: Vec<Option<MidTable>>,
}

/// The entry that points to the table in the frame at `paddr`.
pub open spec fn spec_table_pointer(paddr: PhysAddr) -> PageTableEntry {
    PageTableEntry::spec_new(paddr, PTEFlags::spec_from_bits(PTE_V))
}

fn table_pointer(paddr: PhysAddr) -> (r: PageTableEntry)
    ensures
        r == spec_table_pointer(paddr),
{
    PageTableEntry::new(paddr, PTEFlags::from_bits(PTE_V))
}

fn empty_entries() -> (v: Vec<PageTableEntry>)
    ensures
        v.len() == 512,
        forall|i: int| 0 <= i < 512 ==> v[i] == PageTableEntry::spec_empty(),
        PageTableEntry::spec_empty().spec_ppn().0 == 0,
{
    proof {
        PageTableEntry::lemma_new_fields(PhysAddr(0), PTEFlags::spec_empty());
    }
    let mut v: Vec<PageTableEntry> = Vec::new();
    let mut i: usize = 0;
    while i < SV39_TABLE_PTE_COUNT
        invariant
            i <= 512,
            v.len() == i,
            forall|k: int| 0 <= k < i ==> v[k] == PageTableEntry::spec_empty(),
        decreases 512 - i,
    {
        v.push(PageTableEntry::empty());
        i = i + 1;
    }
    v
}

fn no_leaf_tables() -> (v: Vec<Option<LeafTable>>)
    ensures
        v.len() == 512,
        forall|i: int| 0 <= i < 512 ==> v[i] is None,
{
    let mut v: Vec<Option<LeafTable>> = Vec::new();
    let mut i: usize = 0;
    while i < SV39_TABLE_PTE_COUNT
        invariant
            i <= 512,
            v.len() == i,
            forall|k: int| 0 <= k < i ==> v[k] is None,
        decreases 512 - i,
    {
        v.push(None);
        i = i + 1;
    }
    v
}

fn no_mid_tables() -> (v: Vec<Option<MidTable>>)
    ensures
        v.len() == 512,
        forall|i: int| 0 <= i < 512 ==> v[i] is None,
{
    let mut v: Vec<Option<MidTable>> = Vec::new();
    let mut i: usize = 0;
    while i < SV39_TABLE_PTE_COUNT
        invariant
            i <= 512,
            v.len() == i,
            forall|k: int| 0 <= k < i ==> v[k] is None,
        decreases 512 - i,
    {
        v.push(None);
        i = i + 1;
    }
    v
}

impl LeafTable {
    spec fn wf(&self) -> bool {
        &&& self.entries.len() == 512
        &&& forall|k: int|
            0 <= k < 512 ==> (#[trigger] self.entries[k]).spec_ppn().0 % PAGE_SIZE_4K == 0
    }
}

impl MidTable {
    spec fn wf(&self) -> bool {
        &&& self.entries.len() == 512
        &&& self.children.len() == 512
        &&& forall|j: int|
            0 <= j < 512 ==> match #[trigger] self.children[j] {
                Some(leaf) => leaf.wf() && self.entries[j] == spec_table_pointer(leaf.paddr),
                None => self.entries[j] == PageTableEntry::spec_empty(),
            }
    }

    spec fn has_leaf(&self, j: int) -> bool {
        0 <= j < 512 && self.children[j] is Some
    }
}

impl PageTable {
    /// Whether the table has a root: every table but the placeholder has one.
    pub closed spec fn is_active(&self) -> bool {
        self.entries.len() == 512
    }

    pub closed spec fn spec_root_paddr(&self) -> PhysAddr {
        self.root_paddr
    }

    /// The frames the table owns, the root first.
    pub closed spec fn tables(&self) -> Seq<PhysAddr> {
        self.intrm_tables@
    }

    pub closed spec fn wf(&self) -> bool {
        if self.entries.len() == 0 {
            self.children.len() == 0 && self.intrm_tables.len() == 0
        } else {
            &&& self.entries.len() == 512
            &&& self.children.len() == 512
            &&& self.intrm_tables.len() >= 1
            &&& self.intrm_tables[0] == self.root_paddr
            &&& forall|i: int|
                0 <= i < 512 ==> match #[trigger] self.children[i] {
                    Some(mid) => mid.wf() && self.entries[i] == spec_table_pointer(mid.paddr),
                    None => self.entries[i] == PageTableEntry::spec_empty(),
                }
            &&& self.frames_listed()
            &&& self.frames_distinct()
        }
    }

    spec fn mid_paddr(&self, i: int) -> PhysAddr {
        self.children[i]->0.paddr
    }

    spec fn leaf_paddr(&self, i: int, j: int) -> PhysAddr {
        self.children[i]->0.children[j]->0.paddr
    }

    /// The frame of every table is page-aligned and is one of the frames that the table owns.
    spec fn frames_listed(&self) -> bool {
        &&& self.root_paddr.0 % PAGE_SIZE_4K == 0
        &&& forall|i: int|
            self.has_mid(i) ==> self.tables().contains(#[trigger] self.mid_paddr(i))
                && self.mid_paddr(i).0 % PAGE_SIZE_4K == 0
        &&& forall|i: int, j: int|
            self.has_leaf(i, j) ==> self.tables().contains(#[trigger] self.leaf_paddr(i, j))
                && self.leaf_paddr(i, j).0 % PAGE_SIZE_4K == 0
    }

    /// No two tables lie in the same frame.
    spec fn frames_distinct(&self) -> bool {
        &&& forall|i: int| self.has_mid(i) ==> #[trigger] self.mid_paddr(i) != self.root_paddr
        &&& forall|i: int, k: int|
            self.has_mid(i) && self.has_mid(k) && i != k ==> #[trigger] self.mid_paddr(i)
                != #[trigger] self.mid_paddr(k)
        &&& forall|i: int, j: int|
            self.has_leaf(i, j) ==> #[trigger] self.leaf_paddr(i, j) != self.root_paddr
        &&& forall|i: int, j: int, k: int|
            self.has_leaf(i, j) && self.has_mid(k) ==> #[trigger] self.leaf_paddr(i, j)
                != #[trigger] self.mid_paddr(k)
        &&& forall|i: int, j: int, k: int, l: int|
            self.has_leaf(i, j) && self.has_leaf(k, l) && (i != k || j != l)
                ==> #[trigger] self.leaf_paddr(i, j) != #[trigger] self.leaf_paddr(k, l)
    }

    spec fn has_mid(&self, i: int) -> bool {
        0 <= i < self.children.len() && self.children[i] is Some
    }

    spec fn has_leaf(&self, i: int, j: int) -> bool {
        self.has_mid(i) && self.children[i]->0.has_leaf(j)
    }

    spec fn entry_at(&self, i: int, j: int, k: int) -> PageTableEntry {
        self.children[i]->0.children[j]->0.entries[k]
    }

    /// What the table maps.
    pub closed spec fn view(&self) -> TableModel {
        TableModel {
            mids: Set::new(|i: int| self.has_mid(i)),
            leaves: Set::new(|p: (int, int)| self.has_leaf(p.0, p.1)),
            entries: Map::new(
                |k: (int, int, int)| self.has_leaf(k.0, k.1) && 0 <= k.2 < 512,
                |k: (int, int, int)| self.entry_at(k.0, k.1, k.2),
            ),
        }
    }

    /// Every frame the table owns is a frame of `frames` that is allocated, and no frame is
    /// owned twice.
    pub open spec fn backed_by(&self, frames: &PhysFrameAllocator) -> bool {
        &&& self.tables().no_duplicates()
        &&& forall|k: int|
            0 <= k < self.tables().len() ==> {
                let addr = (#[trigger] self.tables()[k]).0 as int;
                &&& frames.owns_frame(addr)
                &&& !frames.free_frames().contains(frames.frame_index(addr))
            }
    }

    /// The placeholder: a table without a root, which maps nothing and owns no frame.
    pub fn empty() -> (r: Self)
        ensures
            r.wf(),
            !r.is_active(),
            r@ == TableModel::empty(),
            r.tables() == Seq::<PhysAddr>::empty(),
            r.spec_root_paddr().0 == usize::MAX,
    {
        let r = Self {
            root_paddr: PhysAddr::new(usize::MAX),
            intrm_tables: Vec::new(),
            entries: Vec::new(),
            children: Vec::new(),
        };
        proof {
            assert(r@.mids =~= Set::<int>::empty());
            assert(r@.leaves =~= Set::<(int, int)>::empty());
            assert(r@.entries =~= Map::<(int, int, int), PageTableEntry>::empty());
        }
        r
    }

    /// What [`Self::try_new`] does: it succeeds exactly when a frame is free, and the new table
    /// then maps nothing and owns one frame, its root, which was free and no longer is.
    pub open spec fn creates(
        frames: &PhysFrameAllocator,
        frames_after: &PhysFrameAllocator,
        r: Option<Self>,
    ) -> bool {
        &&& frames_after.base() == frames.base()
        &&& frames_after.spec_total_frames() == frames.spec_total_frames()
        &&& r is Some <==> frames.spec_available_frames() > 0
        &&& match r {
            Some(table) => {
                let root = frames.frame_index(table.spec_root_paddr().0 as int);
                &&& table.wf()
                &&& table.is_active()
                &&& table@ == TableModel::empty()
                &&& table.tables() == seq![table.spec_root_paddr()]
                &&& table.backed_by(frames_after)
                &&& frames.free_frames().contains(root)
                &&& forall|c: int| #[trigger] frames.free_frames().contains(c) ==> root <= c
                &&& frames_after.free_frames() == frames.free_frames().remove(root)
                &&& frames_after.spec_used_frames() == frames.spec_used_frames() + 1
            },
            None => {
                &&& frames_after.free_frames() == frames.free_frames()
                &&& frames_after.spec_used_frames() == frames.spec_used_frames()
            },
        }
    }

    /// A table with an empty root, in a frame taken from `frames`; `None`, with `frames` as it
    /// was, when no frame is free.
    pub fn try_new(frames: &mut PhysFrameAllocator) -> (r: Option<Self>)
        requires
            old(frames).wf(),
        ensures
            final(frames).wf(),
            Self::creates(old(frames), final(frames), r),
    {
        let root = take_table_frame(frames);
        match root {
            Some(root_paddr) => {
                let mut intrm_tables: Vec<PhysAddr> = Vec::new();
                intrm_tables.push(root_paddr);
                let r = Self {
                    root_paddr,
                    intrm_tables,
                    entries: empty_entries(),
                    children: no_mid_tables(),
                };
                proof {
                    assert(r@.mids =~= Set::<int>::empty());
                    assert(r@.leaves =~= Set::<(int, int)>::empty());
                    assert(r@.entries =~= Map::<(int, int, int), PageTableEntry>::empty());
                    assert(r.tables() =~= seq![root_paddr]);
                }
                Some(r)
            },
            None => None,
        }
    }

    /// Address of the root table's frame; `usize::MAX` for the placeholder.
    #[verifier::when_used_as_spec(spec_root_paddr)]
    pub fn root_paddr(&self) -> (r: PhysAddr)
        ensures
            r == self.spec_root_paddr(),
    {
        self.root_paddr
    }

    /// The last-level entry for `vaddr`, if the tables on the way to it exist.
    fn lookup(&self, vaddr: VirtAddr) -> (r: Option<PageTableEntry>)
        requires
            self.wf(),
        ensures
            r == self@.leaf_entry(vaddr.0 as int),
    {
        if self.entries.len() == 0 {
            return None;
        }
        let top = top_index(vaddr);
        let mid = mid_index(vaddr);
        let leaf = leaf_index(vaddr);
        match &self.children[top] {
            Some(mid_table) => match &mid_table.children[mid] {
                Some(leaf_table) => Some(leaf_table.entries[leaf]),
                None => None,
            },
            None => None,
        }
    }

    /// How many tables are missing on the way to the last-level entry for `vaddr`.
    fn missing(&self, vaddr: VirtAddr) -> (r: usize)
        requires
            self.wf(),
            self.is_active(),
        ensures
            r == self@.missing_tables(vaddr.0 as int),
    {
        let top = top_index(vaddr);
        let mid = mid_index(vaddr);
        match &self.children[top] {
            Some(mid_table) => match &mid_table.children[mid] {
                Some(_) => 0,
                None => 1,
            },
            None => 2,
        }
    }

    /// Walks the table for `vaddr` without creating anything, and returns the physical address
    /// it translates to: the frame of the leaf entry plus the offset of `vaddr` in its page.
    /// Fails with `NotMapped` when a table on the way is missing or the leaf entry is not valid.
    pub fn translate(&self, vaddr: VirtAddr) -> (r: KResult<PhysAddr>)
        requires
            self.wf(),
        ensures
            r == self@.translate(vaddr.0 as int),
    {
        match self.lookup(vaddr) {
            Some(entry) => {
                if entry.is_valid() {
                    let offset: usize = vaddr.as_usize() % PAGE_SIZE_4K;
                    let frame = entry.ppn();
                    Ok(PhysAddr::new(frame.as_usize() + offset))
                } else {
                    Err(KError::NotMapped)
                }
            },
            None => Err(KError::NotMapped),
        }
    }

    /// The numbers, in `frames`, of the frames that `after` owns and `self` does not, in the
    /// order in which they were taken.
    pub open spec fn taken(&self, after: &Self, frames: &PhysFrameAllocator) -> Seq<int> {
        Seq::new(
            (after.tables().len() - self.tables().len()) as nat,
            |k: int| frames.frame_index(after.tables()[self.tables().len() + k].0 as int),
        )
    }

    /// Each of `taken` was, when it was taken, the lowest of `free` that was left.
    pub open spec fn lowest_first(free: Set<int>, taken: Seq<int>) -> bool {
        forall|k: int, c: int|
            0 <= k < taken.len() && #[trigger] free.contains(c) && c < #[trigger] taken[k]
                ==> taken.take(k).contains(c)
    }

    /// The table `after` owns what `self` owns and `count` frames more, which it took from
    /// the free frames of `frames`, each time the lowest one; `frames_after` is the allocator
    /// after that.
    pub open spec fn grows_by(
        &self,
        after: &Self,
        frames: &PhysFrameAllocator,
        frames_after: &PhysFrameAllocator,
        count: nat,
    ) -> bool {
        let taken = self.taken(after, frames);
        &&& after.is_active() == self.is_active()
        &&& after.spec_root_paddr() == self.spec_root_paddr()
        &&& after.tables().len() == self.tables().len() + count
        &&& after.tables().take(self.tables().len() as int) == self.tables()
        &&& forall|k: int| 0 <= k < taken.len() ==> frames.free_frames().contains(#[trigger] taken[k])
        &&& Self::lowest_first(frames.free_frames(), taken)
        &&& frames_after.base() == frames.base()
        &&& frames_after.spec_total_frames() == frames.spec_total_frames()
        &&& frames_after.spec_used_frames() == frames.spec_used_frames() + count
        &&& frames_after.spec_available_frames() + count == frames.spec_available_frames()
        &&& frames_after.free_frames() == frames.free_frames().difference(taken.to_set())
    }

    /// A table that stays as it is has grown by nothing.
    pub proof fn lemma_grows_by_nothing(&self, frames: &PhysFrameAllocator)
        ensures
            self.grows_by(self, frames, frames, 0),
    {
        assert(self.tables().take(self.tables().len() as int) =~= self.tables());
        assert(frames.free_frames().difference(self.taken(self, frames).to_set())
            =~= frames.free_frames());
    }

    /// A table that has taken one frame, the lowest free one, has grown by one.
    proof fn lemma_grows_by_one(
        &self,
        after: &Self,
        frames: &PhysFrameAllocator,
        frames_after: &PhysFrameAllocator,
        paddr: PhysAddr,
    )
        requires
            after.is_active() == self.is_active(),
            after.spec_root_paddr() == self.spec_root_paddr(),
            after.tables() == self.tables().push(paddr),
            frames_after.base() == frames.base(),
            frames_after.spec_total_frames() == frames.spec_total_frames(),
            frames_after.spec_used_frames() == frames.spec_used_frames() + 1,
            frames_after.spec_available_frames() + 1 == frames.spec_available_frames(),
            frames.free_frames().contains(frames.frame_index(paddr.0 as int)),
            forall|c: int| #[trigger]
                frames.free_frames().contains(c) ==> frames.frame_index(paddr.0 as int) <= c,
            frames_after.free_frames() == frames.free_frames().remove(
                frames.frame_index(paddr.0 as int),
            ),
        ensures
            self.grows_by(after, frames, frames_after, 1),
    {
        let taken = self.taken(after, frames);
        let idx = frames.frame_index(paddr.0 as int);
        assert(after.tables().take(self.tables().len() as int) =~= self.tables());
        assert(taken =~= seq![idx]);
        assert(taken[0] == idx);
        assert(frames.free_frames().remove(idx) =~= frames.free_frames().difference(
            taken.to_set(),
        )) by {
            assert forall|c: int| taken.to_set().contains(c) <==> c == idx by {
                if c == idx {
                    assert(taken[0] == c);
                }
            }
        }
    }

    /// Growing in two steps is growing by the sum.
    pub proof fn lemma_grows_by_twice(
        &self,
        mid: &Self,
        after: &Self,
        frames: &PhysFrameAllocator,
        frames_mid: &PhysFrameAllocator,
        frames_after: &PhysFrameAllocator,
        first: nat,
        second: nat,
    )
        requires
            self.grows_by(mid, frames, frames_mid, first),
            mid.grows_by(after, frames_mid, frames_after, second),
        ensures
            self.grows_by(after, frames, frames_after, first + second),
    {
        let n = self.tables().len() as int;
        let m = mid.tables().len() as int;
        let one = self.taken(mid, frames);
        let two = mid.taken(after, frames_mid);
        let both = self.taken(after, frames);
        let free = frames.free_frames();
        assert(after.tables().take(n) =~= self.tables()) by {
            assert forall|k: int| 0 <= k < n implies after.tables().take(n)[k] == self.tables()[k] by {
                assert(after.tables().take(m)[k] == mid.tables()[k]);
                assert(mid.tables().take(n)[k] == self.tables()[k]);
            }
        }
        assert(both =~= one + two) by {
            assert forall|k: int| 0 <= k < both.len() implies both[k] == (one + two)[k] by {
                if k < first {
                    assert(after.tables().take(m)[n + k] == mid.tables()[n + k]);
                }
            }
        }
        assert forall|k: int| 0 <= k < both.len() implies free.contains(#[trigger] both[k]) by {
            if k >= first {
                assert(frames_mid.free_frames().contains(two[k - first]));
            } else {
                assert(free.contains(one[k]));
            }
        }
        assert forall|k: int, c: int|
            0 <= k < both.len() && #[trigger] free.contains(c) && c < #[trigger] both[k]
                implies both.take(k).contains(c) by {
            if k < first {
                assert(c < one[k]);
                let prefix = one.take(k);
                assert(prefix.contains(c));
                let j = choose|j: int| 0 <= j < prefix.len() && prefix[j] == c;
                assert(both.take(k)[j] == c);
            } else {
                assert(c < two[k - first]);
                if frames_mid.free_frames().contains(c) {
                    let prefix = two.take(k - first);
                    assert(prefix.contains(c));
                    let j = choose|j: int| 0 <= j < prefix.len() && prefix[j] == c;
                    assert(both.take(k)[first + j] == c);
                } else {
                    assert(one.to_set().contains(c));
                    let j = choose|j: int| 0 <= j < one.len() && one[j] == c;
                    assert(both.take(k)[j] == c);
                }
            }
        }
        assert(frames_after.free_frames() =~= free.difference(both.to_set())) by {
            assert forall|c: int| both.to_set().contains(c) <==> (one.to_set().contains(c)
                || two.to_set().contains(c)) by {
                if one.to_set().contains(c) {
                    let j = choose|j: int| 0 <= j < one.len() && one[j] == c;
                    assert(both[j] == c);
                }
                if two.to_set().contains(c) {
                    let j = choose|j: int| 0 <= j < two.len() && two[j] == c;
                    assert(both[first + j] == c);
                }
                if both.to_set().contains(c) {
                    let j = choose|j: int| 0 <= j < both.len() && both[j] == c;
                    if j < first {
                        assert(one[j] == c);
                    } else {
                        assert(two[j - first] == c);
                    }
                }
            }
        }
    }

    /// `after` has the tables of `self`, each in the frame it was in, and one table more in the
    /// frame at `paddr`: the second-level table behind root entry `top` if `leaf` is `None`,
    /// else the last-level table behind entry `leaf` of that table.
    spec fn gains_table(&self, after: &Self, top: int, leaf: Option<int>, paddr: PhysAddr) -> bool {
        &&& after.root_paddr == self.root_paddr
        &&& after.tables() == self.tables().push(paddr)
        &&& forall|i: int|
            #[trigger] after.has_mid(i) == (self.has_mid(i) || (leaf is None && i == top))
        &&& forall|i: int|
            after.has_mid(i) ==> #[trigger] after.mid_paddr(i) == if leaf is None && i == top {
                paddr
            } else {
                self.mid_paddr(i)
            }
        &&& forall|i: int, j: int|
            #[trigger] after.has_leaf(i, j) == (self.has_leaf(i, j) || (leaf == Some(j) && i
                == top))
        &&& forall|i: int, j: int|
            after.has_leaf(i, j) ==> #[trigger] after.leaf_paddr(i, j) == if leaf == Some(j) && i
                == top {
                paddr
            } else {
                self.leaf_paddr(i, j)
            }
    }

    /// A table that gains a table in a page-aligned frame that it did not own keeps every
    /// table in a frame of its own.
    proof fn lemma_gains_table(&self, after: &Self, top: int, leaf: Option<int>, paddr: PhysAddr)
        requires
            self.frames_listed(),
            self.frames_distinct(),
            self.gains_table(after, top, leaf, paddr),
            self.tables().len() >= 1,
            self.tables()[0] == self.root_paddr,
            !self.tables().contains(paddr),
            paddr.0 % PAGE_SIZE_4K == 0,
        ensures
            after.frames_listed(),
            after.frames_distinct(),
    {
        let n = self.tables().len() as int;
        assert(after.tables()[n] == paddr);
        assert forall|x: PhysAddr| self.tables().contains(x) implies after.tables().contains(x) by {
            let k = choose|k: int| 0 <= k < n && self.tables()[k] == x;
            assert(after.tables()[k] == x);
        }
        assert forall|i: int| after.has_mid(i) implies after.tables().contains(
            #[trigger] after.mid_paddr(i),
        ) && after.mid_paddr(i).0 % PAGE_SIZE_4K == 0 by {
            if !(leaf is None && i == top) {
                assert(self.tables().contains(self.mid_paddr(i)));
            }
        }
        assert forall|i: int, j: int| after.has_leaf(i, j) implies after.tables().contains(
            #[trigger] after.leaf_paddr(i, j),
        ) && after.leaf_paddr(i, j).0 % PAGE_SIZE_4K == 0 by {
            if !(leaf == Some(j) && i == top) {
                assert(self.tables().contains(self.leaf_paddr(i, j)));
            }
        }
        assert(self.tables().contains(self.root_paddr));
        assert forall|i: int| after.has_mid(i) implies #[trigger] after.mid_paddr(i)
            != after.root_paddr by {
            if !(leaf is None && i == top) {
                assert(self.tables().contains(self.mid_paddr(i)));
            }
        }
        assert forall|i: int, k: int| after.has_mid(i) && after.has_mid(k) && i != k implies #[trigger]
            after.mid_paddr(i) != #[trigger] after.mid_paddr(k) by {
            if !(leaf is None && i == top) {
                assert(self.tables().contains(self.mid_paddr(i)));
            }
            if !(leaf is None && k == top) {
                assert(self.tables().contains(self.mid_paddr(k)));
            }
        }
        assert forall|i: int, j: int| after.has_leaf(i, j) implies #[trigger] after.leaf_paddr(i, j)
            != after.root_paddr by {
            if !(leaf == Some(j) && i == top) {
                assert(self.tables().contains(self.leaf_paddr(i, j)));
            }
        }
        assert forall|i: int, j: int, k: int| after.has_leaf(i, j) && after.has_mid(k) implies #[trigger]
            after.leaf_paddr(i, j) != #[trigger] after.mid_paddr(k) by {
            if !(leaf == Some(j) && i == top) {
                assert(self.tables().contains(self.leaf_paddr(i, j)));
            }
            if !(leaf is None && k == top) {
                assert(self.tables().contains(self.mid_paddr(k)));
            }
        }
        assert forall|i: int, j: int, k: int, l: int|
            after.has_leaf(i, j) && after.has_leaf(k, l) && (i != k || j != l) implies #[trigger]
            after.leaf_paddr(i, j) != #[trigger] after.leaf_paddr(k, l) by {
            if !(leaf == Some(j) && i == top) {
                assert(self.tables().contains(self.leaf_paddr(i, j)));
            }
            if !(leaf == Some(l) && k == top) {
                assert(self.tables().contains(self.leaf_paddr(k, l)));
            }
        }
    }

    /// `after` has the tables of `self`, each in the frame it was in.
    spec fn same_tables(&self, after: &Self) -> bool {
        &&& after.root_paddr == self.root_paddr
        &&& after.tables() == self.tables()
        &&& forall|i: int| #[trigger] after.has_mid(i) == self.has_mid(i)
        &&& forall|i: int| after.has_mid(i) ==> #[trigger] after.mid_paddr(i) == self.mid_paddr(i)
        &&& forall|i: int, j: int| #[trigger] after.has_leaf(i, j) == self.has_leaf(i, j)
        &&& forall|i: int, j: int|
            after.has_leaf(i, j) ==> #[trigger] after.leaf_paddr(i, j) == self.leaf_paddr(i, j)
    }

    /// A table whose tables stay where they are keeps every table in a frame of its own.
    proof fn lemma_same_tables(&self, after: &Self)
        requires
            self.frames_listed(),
            self.frames_distinct(),
            self.same_tables(after),
        ensures
            after.frames_listed(),
            after.frames_distinct(),
    {
        assert forall|i: int| after.has_mid(i) implies after.tables().contains(
            #[trigger] after.mid_paddr(i),
        ) && after.mid_paddr(i).0 % PAGE_SIZE_4K == 0 by {
            assert(self.tables().contains(self.mid_paddr(i)));
        }
        assert forall|i: int, j: int| after.has_leaf(i, j) implies after.tables().contains(
            #[trigger] after.leaf_paddr(i, j),
        ) && after.leaf_paddr(i, j).0 % PAGE_SIZE_4K == 0 by {
            assert(self.tables().contains(self.leaf_paddr(i, j)));
        }
        assert forall|i: int| after.has_mid(i) implies #[trigger] after.mid_paddr(i)
            != after.root_paddr by {
            assert(self.mid_paddr(i) != self.root_paddr);
        }
        assert forall|i: int, k: int| after.has_mid(i) && after.has_mid(k) && i != k implies #[trigger]
            after.mid_paddr(i) != #[trigger] after.mid_paddr(k) by {
            assert(self.mid_paddr(i) != self.mid_paddr(k));
        }
        assert forall|i: int, j: int| after.has_leaf(i, j) implies #[trigger] after.leaf_paddr(i, j)
            != after.root_paddr by {
            assert(self.leaf_paddr(i, j) != self.root_paddr);
        }
        assert forall|i: int, j: int, k: int| after.has_leaf(i, j) && after.has_mid(k) implies #[trigger]
            after.leaf_paddr(i, j) != #[trigger] after.mid_paddr(k) by {
            assert(self.leaf_paddr(i, j) != self.mid_paddr(k));
        }
        assert forall|i: int, j: int, k: int, l: int|
            after.has_leaf(i, j) && after.has_leaf(k, l) && (i != k || j != l) implies #[trigger]
            after.leaf_paddr(i, j) != #[trigger] after.leaf_paddr(k, l) by {
            assert(self.leaf_paddr(i, j) != self.leaf_paddr(k, l));
        }
    }

    /// A frame that is free in `frames` is none of the frames that the table owns.
    proof fn lemma_free_frame_not_owned(&self, frames: &PhysFrameAllocator, paddr: PhysAddr)
        requires
            self.backed_by(frames),
            frames.free_frames().contains(frames.frame_index(paddr.0 as int)),
        ensures
            !self.tables().contains(paddr),
    {
        if self.tables().contains(paddr) {
            let k = choose|k: int| 0 <= k < self.tables().len() && self.tables()[k] == paddr;
            assert(!frames.free_frames().contains(frames.frame_index(self.tables()[k].0 as int)));
        }
    }

    /// Creates the second-level table behind root entry `top` if it is missing.
    fn ensure_mid(&mut self, frames: &mut PhysFrameAllocator, top: usize)
        requires
            old(self).wf(),
            old(self).is_active(),
            old(frames).wf(),
            old(self).backed_by(old(frames)),
            top < 512,
            old(self).has_mid(top as int) || old(frames).spec_available_frames() > 0,
        ensures
            final(self).wf(),
            final(frames).wf(),
            final(self).backed_by(final(frames)),
            final(self).has_mid(top as int),
            final(self)@.mids == old(self)@.mids.insert(top as int),
            final(self)@.leaves == old(self)@.leaves,
            final(self)@.entries == old(self)@.entries,
            old(self).grows_by(
                final(self),
                old(frames),
                final(frames),
                if old(self).has_mid(top as int) {
                    0nat
                } else {
                    1nat
                },
            ),
    {
        if self.children[top].is_none() {
            let got = take_table_frame(frames);
            let paddr = got.unwrap();
            self.intrm_tables.push(paddr);
            self.entries[top] = table_pointer(paddr);
            self.children[top] = Some(
                MidTable { paddr, entries: empty_entries(), children: no_leaf_tables() },
            );
            proof {
                old(self).lemma_free_frame_not_owned(old(frames), paddr);
                assert(old(self).gains_table(self, top as int, None, paddr));
                old(self).lemma_gains_table(self, top as int, None, paddr);
                assert(self.wf());
                assert(self@.mids =~= old(self)@.mids.insert(top as int));
                assert(self@.leaves =~= old(self)@.leaves);
                assert(self@.entries =~= old(self)@.entries);
                old(self).lemma_grows_by_one(self, old(frames), frames, paddr);
                assert forall|a: int, b: int|
                    0 <= a < self.tables().len() && 0 <= b < self.tables().len() && a
                        != b implies self.tables()[a] != self.tables()[b] by {
                    if a < old(self).tables().len() {
                        assert(self.tables()[a] == old(self).tables()[a]);
                    }
                    if b < old(self).tables().len() {
                        assert(self.tables()[b] == old(self).tables()[b]);
                    }
                }
                assert forall|k: int| 0 <= k < self.tables().len() implies {
                    let addr = (#[trigger] self.tables()[k]).0 as int;
                    &&& frames.owns_frame(addr)
                    &&& !frames.free_frames().contains(frames.frame_index(addr))
                } by {
                    if k < old(self).tables().len() {
                        assert(self.tables()[k] == old(self).tables()[k]);
                    }
                }
            }
        } else {
            proof {
                assert(self@.mids =~= old(self)@.mids.insert(top as int));
                old(self).lemma_grows_by_nothing(old(frames));
            }
        }
    }

    /// Creates the last-level table behind entry `mid` of the second-level table behind root
    /// entry `top` if it is missing.
    fn ensure_leaf(&mut self, frames: &mut PhysFrameAllocator, top: usize, mid: usize)
        requires
            old(self).wf(),
            old(self).is_active(),
            old(frames).wf(),
            old(self).backed_by(old(frames)),
            top < 512,
            mid < 512,
            old(self).has_mid(top as int),
            old(self).has_leaf(top as int, mid as int) || old(frames).spec_available_frames() > 0,
        ensures
            final(self).wf(),
            final(frames).wf(),
            final(self).backed_by(final(frames)),
            final(self).has_leaf(top as int, mid as int),
            final(self)@.mids == old(self)@.mids,
            final(self)@.leaves == old(self)@.leaves.insert((top as int, mid as int)),
            final(self)@.entries == Map::new(
                |k: (int, int, int)|
                    old(self)@.entries.contains_key(k) || (k.0 == top && k.1 == mid && 0 <= k.2
                        < 512),
                |k: (int, int, int)|
                    if old(self)@.entries.contains_key(k) {
                        old(self)@.entries[k]
                    } else {
                        PageTableEntry::spec_empty()
                    },
            ),
            old(self).grows_by(
                final(self),
                old(frames),
                final(frames),
                if old(self).has_leaf(top as int, mid as int) {
                    0nat
                } else {
                    1nat
                },
            ),
    {
        let ghost wanted = Map::new(
            |k: (int, int, int)|
                old(self)@.entries.contains_key(k) || (k.0 == top && k.1 == mid && 0 <= k.2 < 512),
            |k: (int, int, int)|
                if old(self)@.entries.contains_key(k) {
                    old(self)@.entries[k]
                } else {
                    PageTableEntry::spec_empty()
                },
        );
        let missing = match &self.children[top] {
            Some(mid_table) => mid_table.children[mid].is_none(),
            None => false,
        };
        if missing {
            let got = take_table_frame(frames);
            let paddr = got.unwrap();
            self.intrm_tables.push(paddr);
            match &mut self.children[top] {
                Some(mid_table) => {
                    mid_table.entries[mid] = table_pointer(paddr);
                    mid_table.children[mid] = Some(LeafTable { paddr, entries: empty_entries() });
                },
                None => {},
            }
            proof {
                assert(self.children[top as int]->0.wf());
                old(self).lemma_free_frame_not_owned(old(frames), paddr);
                assert(old(self).gains_table(self, top as int, Some(mid as int), paddr));
                old(self).lemma_gains_table(self, top as int, Some(mid as int), paddr);
                assert(self.wf());
                assert(self@.mids =~= old(self)@.mids);
                assert(self@.leaves =~= old(self)@.leaves.insert((top as int, mid as int)));
                assert(self@.entries =~= wanted);
                old(self).lemma_grows_by_one(self, old(frames), frames, paddr);
                assert forall|a: int, b: int|
                    0 <= a < self.tables().len() && 0 <= b < self.tables().len() && a
                        != b implies self.tables()[a] != self.tables()[b] by {
                    if a < old(self).tables().len() {
                        assert(self.tables()[a] == old(self).tables()[a]);
                    }
                    if b < old(self).tables().len() {
                        assert(self.tables()[b] == old(self).tables()[b]);
                    }
                }
                assert forall|k: int| 0 <= k < self.tables().len() implies {
                    let addr = (#[trigger] self.tables()[k]).0 as int;
                    &&& frames.owns_frame(addr)
                    &&& !frames.free_frames().contains(frames.frame_index(addr))
                } by {
                    if k < old(self).tables().len() {
                        assert(self.tables()[k] == old(self).tables()[k]);
                    }
                }
            }
        } else {
            proof {
                assert(self@.leaves =~= old(self)@.leaves.insert((top as int, mid as int)));
                assert(self@.entries =~= wanted);
                old(self).lemma_grows_by_nothing(old(frames));
            }
        }
    }

    /// Writes `entry` into slot `leaf` of an existing last-level table.
    fn set_entry(&mut self, top: usize, mid: usize, leaf: usize, entry: PageTableEntry)
        requires
            old(self).wf(),
            old(self).is_active(),
            top < 512,
            mid < 512,
            leaf < 512,
            old(self).has_leaf(top as int, mid as int),
        ensures
            final(self).wf(),
            final(self).is_active(),
            final(self).spec_root_paddr() == old(self).spec_root_paddr(),
            final(self).tables() == old(self).tables(),
            final(self)@.mids == old(self)@.mids,
            final(self)@.leaves == old(self)@.leaves,
            final(self)@.entries == old(self)@.entries.insert(
                (top as int, mid as int, leaf as int),
                entry,
            ),
    {
        match &mut self.children[top] {
            Some(mid_table) => {
                match &mut mid_table.children[mid] {
                    Some(leaf_table) => {
                        let frame = entry.ppn();
                        leaf_table.entries[leaf] = entry;
                    },
                    None => {},
                }
            },
            None => {},
        }
        proof {
            assert(self.children[top as int]->0.wf());
            assert(old(self).same_tables(self));
            old(self).lemma_same_tables(self);
            assert(self.wf());
            assert(self@.mids =~= old(self)@.mids);
            assert(self@.leaves =~= old(self)@.leaves);
            assert(self@.entries =~= old(self)@.entries.insert(
                (top as int, mid as int, leaf as int),
                entry,
            ));
        }
    }

    /// What [`Self::map`] does to the table and to the frame allocator, given what it returns.
    pub open spec fn maps(
        &self,
        after: &Self,
        frames: &PhysFrameAllocator,
        frames_after: &PhysFrameAllocator,
        vaddr: VirtAddr,
        paddr: PhysAddr,
        flags: PTEFlags,
        r: KResult<()>,
    ) -> bool {
        match self@.map_error(frames.spec_available_frames(), vaddr.0 as int, paddr.0 as int) {
            Some(e) => {
                &&& r == Err::<(), KError>(e)
                &&& after@ == self@
                &&& self.grows_by(after, frames, frames_after, 0)
            },
            None => {
                &&& r == Ok::<(), KError>(())
                &&& after@ == self@.mapped(vaddr.0 as int, paddr, flags)
                &&& self.grows_by(
                    after,
                    frames,
                    frames_after,
                    self@.missing_tables(vaddr.0 as int),
                )
            },
        }
    }

    /// Maps the page at `vaddr` to the frame at `paddr` with `flags`, creating the tables on
    /// the way to the leaf entry where they are missing. All or nothing: it fails with
    /// `MisalignedAddress` when either address is not page-aligned, with `AlreadyMapped` when
    /// the leaf entry is valid, and with `AllocationExhausted` when fewer frames are free than
    /// tables are missing, and then changes neither the table nor the allocator.
    pub fn map(
        &mut self,
        frames: &mut PhysFrameAllocator,
        vaddr: VirtAddr,
        paddr: PhysAddr,
        flags: PTEFlags,
    ) -> (r: KResult<()>)
        requires
            old(self).wf(),
            old(self).is_active(),
            old(frames).wf(),
            old(self).backed_by(old(frames)),
        ensures
            final(self).wf(),
            final(frames).wf(),
            final(self).backed_by(final(frames)),
            old(self).maps(final(self), old(frames), final(frames), vaddr, paddr, flags, r),
    {
        proof {
            self.lemma_grows_by_nothing(frames);
        }
        if !vaddr.is_aligned(PAGE_SIZE_4K) || !paddr.is_aligned(PAGE_SIZE_4K) {
            return Err(KError::MisalignedAddress);
        }
        if let Some(entry) = self.lookup(vaddr) {
            if entry.is_valid() {
                return Err(KError::AlreadyMapped);
            }
        }
        let missing = self.missing(vaddr);
        if frames.available_frames() < missing {
            return Err(KError::AllocationExhausted);
        }
        let top = top_index(vaddr);
        let mid = mid_index(vaddr);
        let leaf = leaf_index(vaddr);
        self.ensure_mid(frames, top);
        let ghost with_mid = *self;
        let ghost frames_mid = *frames;
        self.ensure_leaf(frames, top, mid);
        let ghost with_leaf = *self;
        self.set_entry(top, mid, leaf, PageTableEntry::new(paddr, flags));
        proof {
            let model = old(self)@;
            let wanted = model.mapped(vaddr.0 as int, paddr, flags);
            old(self).lemma_grows_by_twice(
                &with_mid,
                &with_leaf,
                old(frames),
                &frames_mid,
                frames,
                if old(self).has_mid(top as int) {
                    0nat
                } else {
                    1nat
                },
                if with_mid.has_leaf(top as int, mid as int) {
                    0nat
                } else {
                    1nat
                },
            );
            assert(with_mid.has_leaf(top as int, mid as int) == old(self).has_leaf(
                top as int,
                mid as int,
            )) by {
                assert(with_mid@.leaves.contains((top as int, mid as int)) == old(
                    self,
                )@.leaves.contains((top as int, mid as int)));
            }
            assert(old(self)@.mids.contains(top as int) == old(self).has_mid(top as int));
            assert(old(self)@.leaves.contains((top as int, mid as int)) == old(self).has_leaf(
                top as int,
                mid as int,
            ));
            assert(self@.mids =~= wanted.mids);
            assert(self@.leaves =~= wanted.leaves);
            assert(self@.entries =~= wanted.entries);
        }
        Ok(())
    }

    /// What a call that maps several pages does to the table and to the frame allocator:
    /// `outcome` is what the model says of it, `r` what the call returns.
    pub open spec fn maps_all(
        &self,
        after: &Self,
        frames: &PhysFrameAllocator,
        frames_after: &PhysFrameAllocator,
        outcome: (TableModel, nat, Option<KError>),
        r: KResult<()>,
    ) -> bool {
        &&& after@ == outcome.0
        &&& frames_after.spec_available_frames() == outcome.1
        &&& r == match outcome.2 {
            Some(e) => Err::<(), KError>(e),
            None => Ok::<(), KError>(()),
        }
        &&& frames.spec_available_frames() >= outcome.1
        &&& self.grows_by(
            after,
            frames,
            frames_after,
            (frames.spec_available_frames() - outcome.1) as nat,
        )
    }

    /// Maps `num_pages` consecutive pages from `vaddr` on to consecutive frames from `paddr`
    /// on, in ascending order, each as [`Self::map`] does. It stops at the first page that
    /// fails and returns that page's error; the pages before it stay mapped. Misaligned
    /// addresses are refused before anything is mapped.
    pub fn map_region(
        &mut self,
        frames: &mut PhysFrameAllocator,
        vaddr: VirtAddr,
        paddr: PhysAddr,
        num_pages: usize,
        flags: PTEFlags,
    ) -> (r: KResult<()>)
        requires
            old(self).wf(),
            old(self).is_active(),
            old(frames).wf(),
            old(self).backed_by(old(frames)),
            num_pages > 0 ==> vaddr.0 + (num_pages - 1) * PAGE_SIZE_4K <= usize::MAX,
            num_pages > 0 ==> paddr.0 + (num_pages - 1) * PAGE_SIZE_4K <= usize::MAX,
        ensures
            final(self).wf(),
            final(self).is_active(),
            final(frames).wf(),
            final(self).backed_by(final(frames)),
            old(self).maps_all(
                final(self),
                old(frames),
                final(frames),
                old(self)@.region_checked(
                    old(frames).spec_available_frames(),
                    vaddr.0 as int,
                    paddr.0 as int,
                    num_pages as nat,
                    flags,
                ),
                r,
            ),
    {
        proof {
            self.lemma_grows_by_nothing(frames);
        }
        if !vaddr.is_aligned(PAGE_SIZE_4K) || !paddr.is_aligned(PAGE_SIZE_4K) {
            return Err(KError::MisalignedAddress);
        }
        let ghost goal = old(self)@.region_mapped(
            old(frames).spec_available_frames(),
            vaddr.0 as int,
            paddr.0 as int,
            num_pages as nat,
            flags,
        );
        let mut i: usize = 0;
        while i < num_pages
            invariant
                i <= num_pages,
                self.wf(),
                self.is_active(),
                frames.wf(),
                self.backed_by(frames),
                num_pages > 0 ==> vaddr.0 + (num_pages - 1) * PAGE_SIZE_4K <= usize::MAX,
                num_pages > 0 ==> paddr.0 + (num_pages - 1) * PAGE_SIZE_4K <= usize::MAX,
                vaddr.0 as int % PAGE_SIZE_4K as int == 0,
                paddr.0 as int % PAGE_SIZE_4K as int == 0,
                goal == old(self)@.region_mapped(
                    old(frames).spec_available_frames(),
                    vaddr.0 as int,
                    paddr.0 as int,
                    num_pages as nat,
                    flags,
                ),
                goal == self@.region_mapped(
                    frames.spec_available_frames(),
                    vaddr.0 + i * PAGE_SIZE_4K,
                    paddr.0 + i * PAGE_SIZE_4K,
                    (num_pages - i) as nat,
                    flags,
                ),
                old(frames).spec_available_frames() >= frames.spec_available_frames(),
                old(self).grows_by(
                    self,
                    old(frames),
                    frames,
                    (old(frames).spec_available_frames() - frames.spec_available_frames()) as nat,
                ),
            decreases num_pages - i,
        {
            let ghost before = *self;
            let ghost frames_before = *frames;
            let va = VirtAddr::new(vaddr.as_usize() + i * PAGE_SIZE_4K);
            let pa = PhysAddr::new(paddr.as_usize() + i * PAGE_SIZE_4K);
            let r = self.map(frames, va, pa, flags);
            proof {
                old(self).lemma_grows_by_twice(
                    &before,
                    self,
                    old(frames),
                    &frames_before,
                    frames,
                    (old(frames).spec_available_frames() - frames_before.spec_available_frames()) as nat,
                    (frames_before.spec_available_frames() - frames.spec_available_frames()) as nat,
                );
            }
            if r.is_err() {
                return r;
            }
            i = i + 1;
        }
        Ok(())
    }

    /// Maps every page of `range_va` to the frame at its own address, the end of the range
    /// rounded up to a page boundary, as [`Self::map_region`] does. A range whose end is not
    /// above its start has no page.
    pub fn map_range_linear(
        &mut self,
        frames: &mut PhysFrameAllocator,
        range_va: core::ops::Range<VirtAddr>,
        flags: PTEFlags,
    ) -> (r: KResult<()>)
        requires
            old(self).wf(),
            old(self).is_active(),
            old(frames).wf(),
            old(self).backed_by(old(frames)),
        ensures
            final(self).wf(),
            final(self).is_active(),
            final(frames).wf(),
            final(self).backed_by(final(frames)),
            old(self).maps_all(
                final(self),
                old(frames),
                final(frames),
                old(self)@.range_mapped_linear(
                    old(frames).spec_available_frames(),
                    range_va.start.0 as int,
                    range_va.end.0 as int,
                    flags,
                ),
                r,
            ),
    {
        let start: usize = range_va.start.as_usize();
        let end: usize = range_va.end.as_usize();
        let num_pages: usize = if end <= start {
            0
        } else {
            let span: usize = end - start;
            if span % PAGE_SIZE_4K == 0 {
                span / PAGE_SIZE_4K
            } else {
                span / PAGE_SIZE_4K + 1
            }
        };
        self.map_region(frames, VirtAddr::new(start), PhysAddr::new(start), num_pages, flags)
    }

    /// The numbers, in `frames`, of the first `k` frames the table owns.
    pub open spec fn owned_prefix(&self, frames: &PhysFrameAllocator, k: int) -> Set<int> {
        Set::new(
            |i: int|
                exists|j: int|
                    0 <= j < k && j < self.tables().len() && frames.frame_index(
                        (#[trigger] self.tables()[j]).0 as int,
                    ) == i,
        )
    }

    /// The numbers, in `frames`, of the frames the table owns.
    pub open spec fn owned_frames(&self, frames: &PhysFrameAllocator) -> Set<int> {
        self.owned_prefix(frames, self.tables().len() as int)
    }

    /// What [`Self::release`] does to the frame allocator: the frames the table owned, and no
    /// others, are free again.
    pub open spec fn releases(
        &self,
        frames: &PhysFrameAllocator,
        frames_after: &PhysFrameAllocator,
    ) -> bool {
        &&& frames_after.base() == frames.base()
        &&& frames_after.spec_total_frames() == frames.spec_total_frames()
        &&& frames_after.free_frames() == frames.free_frames().union(self.owned_frames(frames))
        &&& frames_after.spec_used_frames() == frames.spec_used_frames() - self.tables().len()
        &&& frames_after.spec_available_frames() == frames.spec_available_frames()
            + self.tables().len()
    }

    /// Destroys the table and gives every frame it owns back to `frames`.
    pub fn release(self, frames: &mut PhysFrameAllocator)
        requires
            self.wf(),
            old(frames).wf(),
            self.backed_by(old(frames)),
        ensures
            final(frames).wf(),
            self.releases(old(frames), final(frames)),
    {
        let count: usize = self.intrm_tables.len();
        let mut k: usize = 0;
        proof {
            assert(old(frames).free_frames().union(self.owned_prefix(old(frames), 0))
                =~= old(frames).free_frames());
        }
        while k < count
            invariant
                k <= count,
                count == self.tables().len(),
                frames.wf(),
                old(frames).wf(),
                frames.base() == old(frames).base(),
                frames.spec_total_frames() == old(frames).spec_total_frames(),
                frames.spec_used_frames() == old(frames).spec_used_frames() - k,
                frames.spec_available_frames() == old(frames).spec_available_frames() + k,
                frames.free_frames() == old(frames).free_frames().union(
                    self.owned_prefix(old(frames), k as int),
                ),
                self.tables().no_duplicates(),
                forall|j: int|
                    k <= j < count ==> {
                        let addr = (#[trigger] self.tables()[j]).0 as int;
                        &&& frames.owns_frame(addr)
                        &&& !frames.free_frames().contains(frames.frame_index(addr))
                    },
            decreases count - k,
        {
            let ghost before = *frames;
            let addr = self.intrm_tables[k];
            let ok = frames.dealloc_frames(addr, 1);
            proof {
                let idx = before.frame_index(addr.0 as int);
                assert(self.tables()[k as int] == addr);
                assert(before.free_frames().disjoint(vstd::set_lib::set_int_range(idx, idx + 1)));
                assert(ok);
                assert forall|j: int| k + 1 <= j < count implies {
                    let other = (#[trigger] self.tables()[j]).0 as int;
                    &&& frames.owns_frame(other)
                    &&& !frames.free_frames().contains(frames.frame_index(other))
                } by {
                    let other = self.tables()[j].0 as int;
                    assert(self.tables()[j] != self.tables()[k as int]);
                    assert(before.owns_frame(other));
                    assert(before.frame_index(other) != idx);
                }
                assert(frames.free_frames() =~= old(frames).free_frames().union(
                    self.owned_prefix(old(frames), k + 1),
                )) by {
                    assert forall|i: int|
                        self.owned_prefix(old(frames), k + 1).contains(i) <==> (self.owned_prefix(
                            old(frames),
                            k as int,
                        ).contains(i) || i == idx) by {
                        if self.owned_prefix(old(frames), k as int).contains(i) {
                            let j = choose|j: int|
                                0 <= j < k && j < self.tables().len() && old(frames).frame_index(
                                    (#[trigger] self.tables()[j]).0 as int,
                                ) == i;
                            assert(0 <= j < k + 1);
                        }
                        if i == idx {
                            assert(old(frames).frame_index(self.tables()[k as int].0 as int) == i);
                        }
                    }
                }
                vstd::set_lib::lemma_int_range(idx, idx + 1);
                vstd::set_lib::lemma_set_disjoint_lens(
                    before.free_frames(),
                    vstd::set_lib::set_int_range(idx, idx + 1),
                );
            }
            k = k + 1;
        }
    }

    /// The frames of a table that was created and grew by `k` tables are what has left the
    /// free frames of the allocator since before the table was created, provided nothing else
    /// used the allocator in between.
    pub proof fn lemma_owned_after_growth(
        frames: &PhysFrameAllocator,
        frames_created: &PhysFrameAllocator,
        created: Self,
        frames_grown: &PhysFrameAllocator,
        grown: Self,
        k: nat,
    )
        requires
            Self::creates(frames, frames_created, Some(created)),
            created.grows_by(&grown, frames_created, frames_grown, k),
        ensures
            grown.owned_frames(frames_grown) == grown.owned_frames(frames),
            grown.owned_frames(frames).subset_of(frames.free_frames()),
            frames_grown.free_frames() == frames.free_frames().difference(
                grown.owned_frames(frames),
            ),
            frames_grown.spec_used_frames() == frames.spec_used_frames() + grown.tables().len(),
    {
        let root = frames.frame_index(created.spec_root_paddr().0 as int);
        let taken = created.taken(&grown, frames_created);
        let owned = grown.owned_frames(frames);
        let free = frames.free_frames();
        assert(grown.owned_frames(frames_grown) =~= owned);
        assert(grown.tables().take(1)[0] == created.tables()[0]);
        assert forall|c: int| owned.contains(c) <==> (c == root || taken.to_set().contains(c)) by {
            if owned.contains(c) {
                let j = choose|j: int|
                    0 <= j < grown.tables().len() && j < grown.tables().len() && frames.frame_index(
                        (#[trigger] grown.tables()[j]).0 as int,
                    ) == c;
                if j > 0 {
                    assert(taken[j - 1] == c);
                }
            }
            if c == root {
                assert(frames.frame_index(grown.tables()[0].0 as int) == c);
            }
            if taken.to_set().contains(c) {
                let i = choose|i: int| 0 <= i < taken.len() && taken[i] == c;
                assert(frames.frame_index(grown.tables()[i + 1].0 as int) == c);
            }
        }
        assert forall|c: int| taken.to_set().contains(c) implies free.contains(c) by {
            let i = choose|i: int| 0 <= i < taken.len() && taken[i] == c;
            assert(frames_created.free_frames().contains(taken[i]));
        }
        assert(frames_grown.free_frames() =~= free.difference(owned));
    }

    /// A table that was created, grew by `k` tables and was then released leaves the frame
    /// allocator with the free frames, and as many used frames, as before it was created,
    /// provided nothing else used the allocator in between.
    pub proof fn lemma_release_restores(
        frames: &PhysFrameAllocator,
        frames_created: &PhysFrameAllocator,
        created: Self,
        frames_grown: &PhysFrameAllocator,
        grown: Self,
        frames_released: &PhysFrameAllocator,
        k: nat,
    )
        requires
            Self::creates(frames, frames_created, Some(created)),
            created.grows_by(&grown, frames_created, frames_grown, k),
            grown.releases(frames_grown, frames_released),
        ensures
            frames_released.spec_used_frames() == frames.spec_used_frames(),
            frames_released.spec_available_frames() == frames.spec_available_frames(),
            frames_released.free_frames() == frames.free_frames(),
    {
        Self::lemma_owned_after_growth(frames, frames_created, created, frames_grown, grown, k);
        assert(frames_released.free_frames() =~= frames.free_frames());
    }

    /// Walks the table for the page at `vpn` without creating anything, and returns the frame
    /// and the flags of its leaf entry, valid or not. Fails with `MisalignedAddress` when `vpn`
    /// is not page-aligned, and with `NotMapped` when a table on the way is missing.
    pub fn query_page(&self, vpn: VirtAddr) -> (r: KResult<(PhysAddr, PTEFlags)>)
        requires
            self.wf(),
        ensures
            r == self@.query_page(vpn.0 as int),
    {
        if !vpn.is_aligned(PAGE_SIZE_4K) {
            return Err(KError::MisalignedAddress);
        }
        match self.lookup(vpn) {
            Some(entry) => Ok((entry.ppn(), entry.flags())),
            None => Err(KError::NotMapped),
        }
    }
}

/// Takes one frame for a table.
fn take_table_frame(frames: &mut PhysFrameAllocator) -> (r: Option<PhysAddr>)
    requires
        old(frames).wf(),
    ensures
        final(frames).wf(),
        final(frames).base() == old(frames).base(),
        final(frames).spec_total_frames() == old(frames).spec_total_frames(),
        r is Some <==> old(frames).spec_available_frames() > 0,
        match r {
            Some(addr) => {
                let idx = old(frames).frame_index(addr.0 as int);
                &&& old(frames).owns_frame(addr.0 as int)
                &&& final(frames).owns_frame(addr.0 as int)
                &&& old(frames).run_available(idx, 1, PAGE_SIZE_4K as int)
                &&& old(frames).free_frames().contains(idx)
                &&& forall|c: int| #[trigger] old(frames).free_frames().contains(c) ==> idx <= c
                &&& final(frames).free_frames() == old(frames).free_frames().remove(idx)
                &&& final(frames).spec_used_frames() == old(frames).spec_used_frames() + 1
                &&& final(frames).spec_available_frames() == old(frames).spec_available_frames()
                    - 1
            },
            None => {
                &&& final(frames).free_frames() == old(frames).free_frames()
                &&& final(frames).spec_used_frames() == old(frames).spec_used_frames()
            },
        },
{
    let r = frames.alloc_frames(1, PAGE_SIZE_4K);
    proof {
        let free = old(frames).free_frames();
        match r {
            Some(addr) => {
                let idx = old(frames).frame_index(addr.0 as int);
                assert(free.contains(idx));
                assert forall|c: int| #[trigger] free.contains(c) implies idx <= c by {
                    old(frames).lemma_free_frame_available(c);
                }
                assert(free.difference(vstd::set_lib::set_int_range(idx, idx + 1)) =~= free.remove(
                    idx,
                ));
                vstd::arithmetic::div_mod::lemma_fundamental_div_mod_converse(
                    addr.0 as int - old(frames).base(),
                    PAGE_SIZE_4K as int,
                    idx,
                    0,
                );
            },
            None => {
                if free.len() > 0 {
                    let c = free.choose();
                    assert(free.contains(c));
                    old(frames).lemma_free_frame_available(c);
                    assert(old(frames).run_available(c, 1, PAGE_SIZE_4K as int));
                }
            },
        }
    }
    r
}

/// What the frame of one table has to hold for the hardware to walk the table: the address of
/// the frame and the 512 words in it.
pub struct TableImage {
    pub paddr: PhysAddr,
    pub words: Vec<u64>,
}

/// The words that the hardware reads for `entries`.
pub open spec fn words_of(entries: Seq<PageTableEntry>) -> Seq<u64> {
    Seq::new(entries.len(), |i: int| entries[i].spec_bits() as u64)
}

/// The words of the entries of one table.
fn image_words(entries: &Vec<PageTableEntry>) -> (words: Vec<u64>)
    ensures
        words@ == words_of(entries@),
{
    let mut words: Vec<u64> = Vec::new();
    let mut i: usize = 0;
    while i < entries.len()
        invariant
            i <= entries.len(),
            words@ == words_of(entries@.take(i as int)),
        decreases entries.len() - i,
    {
        words.push(entries[i].bits());
        proof {
            assert(words@ =~= words_of(entries@.take(i + 1)));
        }
        i = i + 1;
    }
    proof {
        assert(entries@.take(entries.len() as int) =~= entries@);
    }
    words
}

/// The word that a walk of the tables in `memory` ends at, as the hardware walks them for
/// `vaddr` from the table in the frame at `root`: it takes entry after entry by the three
/// indices of `vaddr`, goes on to the frame that a valid entry points to, and stops with
/// nothing at an entry that is not valid.
pub open spec fn hardware_walk(memory: Map<usize, Seq<u64>>, root: usize, vaddr: int) -> Option<u64> {
    let first = memory[root][spec_top_index(vaddr)];
    let second_table = word_frame(first) as usize;
    let second = memory[second_table][spec_mid_index(vaddr)];
    let third_table = word_frame(second) as usize;
    if !memory.contains_key(root) || !word_is_valid(first) {
        None
    } else if !memory.contains_key(second_table) || !word_is_valid(second) {
        None
    } else if !memory.contains_key(third_table) {
        None
    } else {
        Some(memory[third_table][spec_leaf_index(vaddr)])
    }
}

/// The physical address that the hardware translates `vaddr` to when it walks the tables in
/// `memory`: the frame of the last entry plus the offset of `vaddr` in its page, if the walk
/// ends at a valid entry.
pub open spec fn hardware_translate(memory: Map<usize, Seq<u64>>, root: usize, vaddr: int) -> Option<
    int,
> {
    match hardware_walk(memory, root, vaddr) {
        Some(word) => if word_is_valid(word) {
            Some(word_frame(word) + vaddr % (PAGE_SIZE_4K as int))
        } else {
            None
        },
        None => None,
    }
}

impl PageTable {
    /// The root index of the second-level table that lies in the frame at `addr`.
    spec fn mid_at(&self, addr: usize) -> Option<int> {
        if exists|i: int| self.has_mid(i) && (#[trigger] self.mid_paddr(i)).0 == addr {
            Some(choose|i: int| self.has_mid(i) && (#[trigger] self.mid_paddr(i)).0 == addr)
        } else {
            None
        }
    }

    /// The indices of the last-level table that lies in the frame at `addr`.
    spec fn leaf_at(&self, addr: usize) -> Option<(int, int)> {
        if exists|p: (int, int)| self.has_leaf(p.0, p.1) && (#[trigger] self.leaf_paddr(p.0, p.1)).0 == addr {
            Some(
                choose|p: (int, int)|
                    self.has_leaf(p.0, p.1) && (#[trigger] self.leaf_paddr(p.0, p.1)).0 == addr,
            )
        } else {
            None
        }
    }

    /// What memory has to hold for the hardware to walk this table: at the frame of each of
    /// its tables, the words of the table's entries.
    pub closed spec fn memory(&self) -> Map<usize, Seq<u64>> {
        Map::new(
            |addr: usize|
                self.is_active() && (addr == self.root_paddr.0 || self.mid_at(addr) is Some
                    || self.leaf_at(addr) is Some),
            |addr: usize|
                if addr == self.root_paddr.0 {
                    words_of(self.entries@)
                } else if self.mid_at(addr) is Some {
                    words_of(self.children[self.mid_at(addr)->0]->0.entries@)
                } else {
                    let place = self.leaf_at(addr).unwrap();
                    words_of(self.children[place.0]->0.children[place.1]->0.entries@)
                },
        )
    }

    /// Memory holds the second-level table behind root entry `i` at the table's frame.
    proof fn lemma_memory_at_mid(&self, i: int)
        requires
            self.wf(),
            self.has_mid(i),
        ensures
            self.memory().contains_key(self.mid_paddr(i).0),
            self.memory()[self.mid_paddr(i).0] == words_of(self.children[i]->0.entries@),
    {
        let addr = self.mid_paddr(i).0;
        assert(self.mid_paddr(i) != self.root_paddr);
        assert(self.mid_at(addr) is Some);
        let k = self.mid_at(addr)->0;
        if k != i {
            assert(self.mid_paddr(k) != self.mid_paddr(i));
        }
    }

    /// Memory holds the last-level table behind entry `j` of the second-level table behind
    /// root entry `i` at the table's frame.
    proof fn lemma_memory_at_leaf(&self, i: int, j: int)
        requires
            self.wf(),
            self.has_leaf(i, j),
        ensures
            self.memory().contains_key(self.leaf_paddr(i, j).0),
            self.memory()[self.leaf_paddr(i, j).0] == words_of(
                self.children[i]->0.children[j]->0.entries@,
            ),
    {
        let addr = self.leaf_paddr(i, j).0;
        assert(self.leaf_paddr(i, j) != self.root_paddr);
        if self.mid_at(addr) is Some {
            let k = self.mid_at(addr)->0;
            assert(self.leaf_paddr(i, j) != self.mid_paddr(k));
        }
        assert(self.has_leaf((i, j).0, (i, j).1) && self.leaf_paddr((i, j).0, (i, j).1).0 == addr);
        assert(self.leaf_at(addr) is Some);
        let p = self.leaf_at(addr)->0;
        if p.0 != i || p.1 != j {
            assert(self.leaf_paddr(p.0, p.1) != self.leaf_paddr(i, j));
        }
    }

    /// The hardware, walking the tables of this table in memory from the root's frame, ends
    /// at the word of the leaf entry that [`Self::query_page`] finds, and at nothing where
    /// `query_page` finds no table; and it translates an address as [`Self::translate`] does.
    pub proof fn lemma_hardware_walk(&self, vaddr: usize)
        requires
            self.wf(),
            self.is_active(),
        ensures
            hardware_walk(self.memory(), self.spec_root_paddr().0, vaddr as int)
                == match self@.leaf_entry(vaddr as int) {
                Some(entry) => Some(entry.spec_bits() as u64),
                None => None,
            },
            match self@.translate(vaddr as int) {
                Ok(paddr) => hardware_translate(
                    self.memory(),
                    self.spec_root_paddr().0,
                    vaddr as int,
                ) == Some(paddr.0 as int),
                Err(_) => hardware_translate(self.memory(), self.spec_root_paddr().0, vaddr as int)
                    is None,
            },
    {
        let top = spec_top_index(vaddr as int);
        let mid = spec_mid_index(vaddr as int);
        let leaf = spec_leaf_index(vaddr as int);
        let memory = self.memory();
        let root = self.root_paddr.0;
        assert(memory.contains_key(root));
        assert(memory[root] == words_of(self.entries@));
        let first = memory[root][top];
        self.entries[top].lemma_word_decodes();
        PageTableEntry::lemma_new_fields(PhysAddr(0), PTEFlags::spec_empty());
        PTEFlags::lemma_bits_round_trip(0);
        PTEFlags::lemma_bits_round_trip(PTE_V);
        assert(0u8 & 1u8 != 1u8) by (bit_vector);
        assert(1u8 & 1u8 == 1u8) by (bit_vector);
        if self.has_mid(top) {
            let mid_table = self.children[top]->0;
            PageTableEntry::lemma_new_fields(
                mid_table.paddr,
                PTEFlags::spec_from_bits(PTE_V),
            );
            assert(self.mid_paddr(top).0 % PAGE_SIZE_4K == 0);
            assert(word_frame(first) == mid_table.paddr.0);
            self.lemma_memory_at_mid(top);
            let second = memory[mid_table.paddr.0][mid];
            mid_table.entries[mid].lemma_word_decodes();
            if self.has_leaf(top, mid) {
                let leaf_table = mid_table.children[mid]->0;
                PageTableEntry::lemma_new_fields(
                    leaf_table.paddr,
                    PTEFlags::spec_from_bits(PTE_V),
                );
                assert(self.leaf_paddr(top, mid).0 % PAGE_SIZE_4K == 0);
                assert(word_frame(second) == leaf_table.paddr.0);
                self.lemma_memory_at_leaf(top, mid);
                let entry = leaf_table.entries[leaf];
                entry.lemma_word_decodes();
                assert(self@.leaf_entry(vaddr as int) == Some(entry));
            } else {
                assert(!word_is_valid(second));
            }
        } else {
            assert(!word_is_valid(first));
        }
    }

    /// What memory has to hold for the hardware to walk this table: for each table its frame
    /// and its words. Every frame of [`Self::memory`] is listed, with the words it holds.
    pub fn images(&self) -> (r: Vec<TableImage>)
        requires
            self.wf(),
        ensures
            forall|k: int|
                0 <= k < r@.len() ==> self.memory().contains_key((#[trigger] r@[k]).paddr.0)
                    && r@[k].words@ == self.memory()[r@[k].paddr.0],
            forall|addr: usize|
                self.memory().contains_key(addr) ==> exists|k: int|
                    0 <= k < r@.len() && (#[trigger] r@[k]).paddr.0 == addr,
    {
        let mut r: Vec<TableImage> = Vec::new();
        if self.entries.len() == 0 {
            return r;
        }
        r.push(TableImage { paddr: self.root_paddr, words: image_words(&self.entries) });
        let mut i: usize = 0;
        while i < 512
            invariant
                i <= 512,
                self.wf(),
                self.is_active(),
                r@.len() >= 1,
                r@[0].paddr == self.root_paddr,
                forall|k: int|
                    0 <= k < r@.len() ==> self.memory().contains_key((#[trigger] r@[k]).paddr.0)
                        && r@[k].words@ == self.memory()[r@[k].paddr.0],
                forall|a: int|
                    0 <= a < i && self.has_mid(a) ==> Self::lists(r@, #[trigger] self.mid_paddr(a)),
                forall|a: int, b: int|
                    0 <= a < i && self.has_leaf(a, b) ==> Self::lists(
                        r@,
                        #[trigger] self.leaf_paddr(a, b),
                    ),
            decreases 512 - i,
        {
            if let Some(mid) = &self.children[i] {
                let ghost before = r@;
                r.push(TableImage { paddr: mid.paddr, words: image_words(&mid.entries) });
                proof {
                    self.lemma_memory_at_mid(i as int);
                    Self::lemma_lists_more(before, r@);
                    assert(r@[before.len() as int].paddr == self.mid_paddr(i as int));
                }
                let mut j: usize = 0;
                while j < 512
                    invariant
                        j <= 512,
                        i < 512,
                        self.wf(),
                        self.is_active(),
                        self.children[i as int] == Some(*mid),
                        r@.len() >= 1,
                        r@[0].paddr == self.root_paddr,
                        forall|k: int|
                            0 <= k < r@.len() ==> self.memory().contains_key(
                                (#[trigger] r@[k]).paddr.0,
                            ) && r@[k].words@ == self.memory()[r@[k].paddr.0],
                        forall|a: int|
                            0 <= a < i + 1 && self.has_mid(a) ==> Self::lists(
                                r@,
                                #[trigger] self.mid_paddr(a),
                            ),
                        forall|a: int, b: int|
                            0 <= a < i && self.has_leaf(a, b) ==> Self::lists(
                                r@,
                                #[trigger] self.leaf_paddr(a, b),
                            ),
                        forall|b: int|
                            0 <= b < j && self.has_leaf(i as int, b) ==> Self::lists(
                                r@,
                                #[trigger] self.leaf_paddr(i as int, b),
                            ),
                    decreases 512 - j,
                {
                    if let Some(leaf) = &mid.children[j] {
                        let ghost earlier = r@;
                        r.push(TableImage { paddr: leaf.paddr, words: image_words(&leaf.entries) });
                        proof {
                            self.lemma_memory_at_leaf(i as int, j as int);
                            Self::lemma_lists_more(earlier, r@);
                            assert(r@[earlier.len() as int].paddr == self.leaf_paddr(
                                i as int,
                                j as int,
                            ));
                        }
                    }
                    j = j + 1;
                }
            }
            i = i + 1;
        }
        proof {
            assert forall|addr: usize| self.memory().contains_key(addr) implies exists|k: int|
                0 <= k < r@.len() && (#[trigger] r@[k]).paddr.0 == addr by {
                if addr == self.root_paddr.0 {
                    assert(r@[0].paddr.0 == addr);
                } else if self.mid_at(addr) is Some {
                    let a = self.mid_at(addr)->0;
                    assert(Self::lists(r@, self.mid_paddr(a)));
                } else {
                    let p = self.leaf_at(addr)->0;
                    assert(Self::lists(r@, self.leaf_paddr(p.0, p.1)));
                }
            }
        }
        r
    }

    /// One of `images` is that of the frame at `paddr`.
    spec fn lists(images: Seq<TableImage>, paddr: PhysAddr) -> bool {
        exists|k: int| 0 <= k < images.len() && (#[trigger] images[k]).paddr == paddr
    }

    /// What a list of images lists, the list with one image more lists too.
    proof fn lemma_lists_more(before: Seq<TableImage>, after: Seq<TableImage>)
        requires
            after.len() == before.len() + 1,
            forall|k: int| 0 <= k < before.len() ==> #[trigger] after[k] == before[k],
        ensures
            forall|paddr: PhysAddr| #[trigger]
                Self::lists(before, paddr) ==> Self::lists(after, paddr),
    {
        assert forall|paddr: PhysAddr| #[trigger] Self::lists(before, paddr) implies Self::lists(
            after,
            paddr,
        ) by {
            let k = choose|k: int| 0 <= k < before.len() && (#[trigger] before[k]).paddr == paddr;
            assert(after[k].paddr == paddr);
        }
    }
}

} // verus!
