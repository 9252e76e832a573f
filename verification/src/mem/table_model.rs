//! What a three-level page table maps, as sets and maps, and what mapping does to it.

use crate::config::PAGE_SIZE_4K;
use crate::error::KError;
use crate::error::KResult;
use crate::mem::addr::PhysAddr;
use crate::mem::pte::PTEFlags;
use crate::mem::pte::PageTableEntry;
use crate::mem::pte::PTE_V;
use vstd::prelude::*;

verus! {

/// Index into the root table: bits 30 to 38 of the address.
pub open spec fn spec_top_index(vaddr: int) -> int {
    (vaddr / 0x4000_0000) % 512
}

/// Index into a second-level table: bits 21 to 29 of the address.
pub open spec fn spec_mid_index(vaddr: int) -> int {
    (vaddr / 0x20_0000) % 512
}

/// Index into a last-level table: bits 12 to 20 of the address.
pub open spec fn spec_leaf_index(vaddr: int) -> int {
    (vaddr / 0x1000) % 512
}

/// The three table indices of an address, root first.
pub open spec fn slot_of(vaddr: int) -> (int, int, int) {
    (spec_top_index(vaddr), spec_mid_index(vaddr), spec_leaf_index(vaddr))
}

/// What a page table maps, apart from where its tables lie in memory.
pub struct TableModel {
    /// Root indices whose second-level table exists.
    pub mids: Set<int>,
    /// Root and second-level index of each last-level table that exists.
    pub leaves: Set<(int, int)>,
    /// The entry in every slot of every last-level table that exists.
    pub entries: Map<(int, int, int), PageTableEntry>,
}

impl TableModel {
    /// A root table alone.
    pub open spec fn empty() -> Self {
        TableModel { mids: Set::empty(), leaves: Set::empty(), entries: Map::empty() }
    }

    /// The last-level entry that a walk for `vaddr` reaches, if all its tables exist.
    pub open spec fn leaf_entry(self, vaddr: int) -> Option<PageTableEntry> {
        if self.entries.contains_key(slot_of(vaddr)) {
            Some(self.entries[slot_of(vaddr)])
        } else {
            None
        }
    }

    /// Whether the walk for `vaddr` ends in a valid entry.
    pub open spec fn is_mapped(self, vaddr: int) -> bool {
        self.leaf_entry(vaddr) is Some && self.leaf_entry(vaddr)->0.spec_is_valid()
    }

    /// How many tables a walk for `vaddr` would have to create to reach a last-level entry.
    pub open spec fn missing_tables(self, vaddr: int) -> nat {
        if self.leaves.contains((spec_top_index(vaddr), spec_mid_index(vaddr))) {
            0
        } else if self.mids.contains(spec_top_index(vaddr)) {
            1
        } else {
            2
        }
    }

    /// The physical address that `vaddr` translates to.
    pub open spec fn translate(self, vaddr: int) -> KResult<PhysAddr> {
        if self.is_mapped(vaddr) {
            Ok(
                PhysAddr(
                    (self.leaf_entry(vaddr)->0.spec_ppn().0 + vaddr % (PAGE_SIZE_4K as int)) as usize,
                ),
            )
        } else {
            Err(KError::NotMapped)
        }
    }

    /// The frame and the flags of the leaf entry of the page at `vpn`, valid or not.
    pub open spec fn query_page(self, vpn: int) -> KResult<(PhysAddr, PTEFlags)> {
        if vpn % (PAGE_SIZE_4K as int) != 0 {
            Err(KError::MisalignedAddress)
        } else {
            match self.leaf_entry(vpn) {
                Some(entry) => Ok((entry.spec_ppn(), entry.spec_flags())),
                None => Err(KError::NotMapped),
            }
        }
    }

    /// The tables for `vaddr` created where they were missing, each new slot empty.
    pub open spec fn with_tables_for(self, vaddr: int) -> Self {
        let top = spec_top_index(vaddr);
        let mid = spec_mid_index(vaddr);
        TableModel {
            mids: self.mids.insert(top),
            leaves: self.leaves.insert((top, mid)),
            entries: Map::new(
                |k: (int, int, int)|
                    self.entries.contains_key(k) || (k.0 == top && k.1 == mid && 0 <= k.2 < 512),
                |k: (int, int, int)|
                    if self.entries.contains_key(k) {
                        self.entries[k]
                    } else {
                        PageTableEntry::spec_empty()
                    },
            ),
        }
    }

    /// Why mapping the page at `vaddr` to the frame at `paddr` fails when `avail` frames are
    /// free, or `None` if it does not fail.
    pub open spec fn map_error(self, avail: nat, vaddr: int, paddr: int) -> Option<KError> {
        if vaddr % (PAGE_SIZE_4K as int) != 0 || paddr % (PAGE_SIZE_4K as int) != 0 {
            Some(KError::MisalignedAddress)
        } else if self.is_mapped(vaddr) {
            Some(KError::AlreadyMapped)
        } else if avail < self.missing_tables(vaddr) {
            Some(KError::AllocationExhausted)
        } else {
            None
        }
    }

    /// The table after the page at `vaddr` has been mapped to the frame at `paddr`.
    pub open spec fn mapped(self, vaddr: int, paddr: PhysAddr, flags: PTEFlags) -> Self {
        let made = self.with_tables_for(vaddr);
        TableModel {
            entries: made.entries.insert(slot_of(vaddr), PageTableEntry::spec_new(paddr, flags)),
            ..made
        }
    }
}

impl TableModel {
    /// The outcome of mapping `count` consecutive pages from `vaddr` on to consecutive frames
    /// from `paddr` on, one after the other, with `avail` free frames at the start: the table,
    /// the number of free frames left, and the error at which the work stopped, if it did.
    /// The pages before the one that fails stay mapped.
    pub open spec fn region_mapped(
        self,
        avail: nat,
        vaddr: int,
        paddr: int,
        count: nat,
        flags: PTEFlags,
    ) -> (TableModel, nat, Option<KError>)
        decreases count,
    {
        if count == 0 {
            (self, avail, None)
        } else {
            match self.map_error(avail, vaddr, paddr) {
                Some(e) => (self, avail, Some(e)),
                None => self.mapped(vaddr, PhysAddr(paddr as usize), flags).region_mapped(
                    (avail - self.missing_tables(vaddr)) as nat,
                    vaddr + PAGE_SIZE_4K,
                    paddr + PAGE_SIZE_4K,
                    (count - 1) as nat,
                    flags,
                ),
            }
        }
    }

    /// As [`Self::region_mapped`], but a misaligned address is refused even when `count` is 0.
    pub open spec fn region_checked(
        self,
        avail: nat,
        vaddr: int,
        paddr: int,
        count: nat,
        flags: PTEFlags,
    ) -> (TableModel, nat, Option<KError>) {
        if vaddr % (PAGE_SIZE_4K as int) != 0 || paddr % (PAGE_SIZE_4K as int) != 0 {
            (self, avail, Some(KError::MisalignedAddress))
        } else {
            self.region_mapped(avail, vaddr, paddr, count, flags)
        }
    }

    /// Number of pages of the range `[start, end)`, the end rounded up to a page boundary.
    pub open spec fn range_pages(start: int, end: int) -> nat {
        if end <= start {
            0
        } else {
            ((end - start + PAGE_SIZE_4K - 1) / (PAGE_SIZE_4K as int)) as nat
        }
    }

    /// The outcome of mapping every page of `[start, end)` to the frame at its own address.
    pub open spec fn range_mapped_linear(self, avail: nat, start: int, end: int, flags: PTEFlags) -> (
        TableModel,
        nat,
        Option<KError>,
    ) {
        self.region_checked(avail, start, start, Self::range_pages(start, end), flags)
    }
}

/// Two addresses in the same page have the same three table indices.
pub proof fn lemma_same_page_same_slot(a: int, b: int)
    requires
        0 <= a,
        0 <= b,
        a / (PAGE_SIZE_4K as int) == b / (PAGE_SIZE_4K as int),
    ensures
        slot_of(a) == slot_of(b),
{
    vstd::arithmetic::div_mod::lemma_div_denominator(a, 0x1000, 0x200);
    vstd::arithmetic::div_mod::lemma_div_denominator(b, 0x1000, 0x200);
    vstd::arithmetic::div_mod::lemma_div_denominator(a, 0x1000, 0x4_0000);
    vstd::arithmetic::div_mod::lemma_div_denominator(b, 0x1000, 0x4_0000);
}

impl TableModel {
    /// After a page has been mapped with the valid flag set, every address in it translates
    /// to the frame it was mapped to plus the address's offset in the page.
    pub proof fn lemma_map_then_translate(
        self,
        avail: nat,
        vaddr: usize,
        paddr: PhysAddr,
        flags: PTEFlags,
        addr: usize,
    )
        requires
            self.map_error(avail, vaddr as int, paddr.0 as int) is None,
            flags.spec_contains(PTE_V),
            addr / PAGE_SIZE_4K == vaddr / PAGE_SIZE_4K,
        ensures
            self.mapped(vaddr as int, paddr, flags).translate(addr as int) == Ok::<
                PhysAddr,
                KError,
            >(PhysAddr((paddr.0 + addr % PAGE_SIZE_4K) as usize)),
            self.mapped(vaddr as int, paddr, flags).leaf_entry(addr as int) == Some(
                PageTableEntry::spec_new(paddr, flags),
            ),
    {
        lemma_same_page_same_slot(addr as int, vaddr as int);
        PageTableEntry::lemma_new_fields(paddr, flags);
    }

    /// Mapping a page that has just been mapped with the valid flag set fails with
    /// `AlreadyMapped`, whatever frame is asked for and however many frames are free.
    pub proof fn lemma_double_map(
        self,
        avail: nat,
        vaddr: usize,
        paddr: PhysAddr,
        flags: PTEFlags,
        avail_again: nat,
        paddr_again: PhysAddr,
    )
        requires
            self.map_error(avail, vaddr as int, paddr.0 as int) is None,
            flags.spec_contains(PTE_V),
            paddr_again.0 % PAGE_SIZE_4K == 0,
        ensures
            self.mapped(vaddr as int, paddr, flags).map_error(
                avail_again,
                vaddr as int,
                paddr_again.0 as int,
            ) == Some(KError::AlreadyMapped),
    {
        PageTableEntry::lemma_new_fields(paddr, flags);
    }

    /// An address whose walk does not end in a valid entry translates to `NotMapped`; in a
    /// table that maps nothing that is every address.
    pub proof fn lemma_unmapped_lookup(self, vaddr: usize)
        ensures
            !self.is_mapped(vaddr as int) ==> self.translate(vaddr as int) == Err::<
                PhysAddr,
                KError,
            >(KError::NotMapped),
            Self::empty().translate(vaddr as int) == Err::<PhysAddr, KError>(KError::NotMapped),
    {
    }
}

impl TableModel {
    /// Mapping a page that is not mapped leaves every page that is mapped as it is.
    pub proof fn lemma_map_keeps_mapped(
        self,
        vaddr: int,
        paddr: PhysAddr,
        flags: PTEFlags,
        addr: int,
    )
        requires
            !self.is_mapped(vaddr),
            self.is_mapped(addr),
        ensures
            self.mapped(vaddr, paddr, flags).leaf_entry(addr) == self.leaf_entry(addr),
            self.mapped(vaddr, paddr, flags).is_mapped(addr),
    {
    }

    /// Mapping a region, as far as it gets, leaves every page that is already mapped as it is.
    pub proof fn lemma_region_keeps_mapped(
        self,
        avail: nat,
        vaddr: int,
        paddr: int,
        count: nat,
        flags: PTEFlags,
        addr: int,
    )
        requires
            self.is_mapped(addr),
        ensures
            self.region_mapped(avail, vaddr, paddr, count, flags).0.leaf_entry(addr)
                == self.leaf_entry(addr),
            self.region_checked(avail, vaddr, paddr, count, flags).0.leaf_entry(addr)
                == self.leaf_entry(addr),
        decreases count,
    {
        if count > 0 && self.map_error(avail, vaddr, paddr) is None {
            let first = self.mapped(vaddr, PhysAddr(paddr as usize), flags);
            self.lemma_map_keeps_mapped(vaddr, PhysAddr(paddr as usize), flags, addr);
            first.lemma_region_keeps_mapped(
                (avail - self.missing_tables(vaddr)) as nat,
                vaddr + PAGE_SIZE_4K,
                paddr + PAGE_SIZE_4K,
                (count - 1) as nat,
                flags,
                addr,
            );
        }
    }

    /// After a region has been mapped with the valid flag set, the leaf entry of its page `i`
    /// holds frame `i` of the region and the flags.
    pub proof fn lemma_region_maps_page(
        self,
        avail: nat,
        vaddr: int,
        paddr: int,
        count: nat,
        flags: PTEFlags,
        i: int,
    )
        requires
            self.region_mapped(avail, vaddr, paddr, count, flags).2 is None,
            flags.spec_contains(PTE_V),
            0 <= i < count,
            0 <= paddr,
            paddr + i * PAGE_SIZE_4K <= usize::MAX,
        ensures
            self.region_mapped(avail, vaddr, paddr, count, flags).0.leaf_entry(
                vaddr + i * PAGE_SIZE_4K,
            ) == Some(
                PageTableEntry::spec_new(PhysAddr((paddr + i * PAGE_SIZE_4K) as usize), flags),
            ),
        decreases count,
    {
        let first = self.mapped(vaddr, PhysAddr(paddr as usize), flags);
        let left = (avail - self.missing_tables(vaddr)) as nat;
        if i == 0 {
            PageTableEntry::lemma_new_fields(PhysAddr(paddr as usize), flags);
            assert(first.is_mapped(vaddr));
            first.lemma_region_keeps_mapped(
                left,
                vaddr + PAGE_SIZE_4K,
                paddr + PAGE_SIZE_4K,
                (count - 1) as nat,
                flags,
                vaddr,
            );
        } else {
            first.lemma_region_maps_page(
                left,
                vaddr + PAGE_SIZE_4K,
                paddr + PAGE_SIZE_4K,
                (count - 1) as nat,
                flags,
                i - 1,
            );
        }
    }

    /// After a region has been mapped with the valid flag set, every address in it translates
    /// to the address as far into the frames as it is into the pages.
    pub proof fn lemma_region_translates(
        self,
        avail: nat,
        vaddr: int,
        paddr: int,
        count: nat,
        flags: PTEFlags,
        addr: int,
    )
        requires
            self.region_checked(avail, vaddr, paddr, count, flags).2 is None,
            flags.spec_contains(PTE_V),
            0 <= vaddr <= addr < vaddr + count * PAGE_SIZE_4K,
            0 <= paddr,
            paddr + (addr - vaddr) <= usize::MAX,
        ensures
            self.region_checked(avail, vaddr, paddr, count, flags).0.translate(addr) == Ok::<
                PhysAddr,
                KError,
            >(PhysAddr((paddr + (addr - vaddr)) as usize)),
            self.region_checked(avail, vaddr, paddr, count, flags).0.is_mapped(addr),
    {
        let i = (addr - vaddr) / (PAGE_SIZE_4K as int);
        let page = vaddr + i * PAGE_SIZE_4K;
        let frame = PhysAddr((paddr + i * PAGE_SIZE_4K) as usize);
        let after = self.region_mapped(avail, vaddr, paddr, count, flags).0;
        lemma_page_of_address(vaddr, addr);
        lemma_page_of_address(paddr, paddr + (addr - vaddr));
        assert(i < count) by (nonlinear_arith)
            requires
                addr - vaddr < count * PAGE_SIZE_4K,
                i * PAGE_SIZE_4K <= addr - vaddr,
        ;
        self.lemma_region_maps_page(avail, vaddr, paddr, count, flags, i);
        lemma_same_page_same_slot(addr, page);
        PageTableEntry::lemma_new_fields(frame, flags);
        assert(after.leaf_entry(addr) == after.leaf_entry(page));
        assert(after.leaf_entry(addr)->0.spec_ppn() == frame);
    }
}

/// The page of `addr`, counted from the page-aligned address `base` below it: it holds `addr`,
/// is page-aligned, and `addr` lies as far into it as its remainder says.
pub proof fn lemma_page_of_address(base: int, addr: int)
    requires
        0 <= base <= addr,
        base % (PAGE_SIZE_4K as int) == 0,
    ensures
        ({
            let i = (addr - base) / (PAGE_SIZE_4K as int);
            let page = base + i * PAGE_SIZE_4K;
            &&& 0 <= i
            &&& page <= addr < page + PAGE_SIZE_4K
            &&& page % (PAGE_SIZE_4K as int) == 0
            &&& page / (PAGE_SIZE_4K as int) == addr / (PAGE_SIZE_4K as int)
            &&& addr % (PAGE_SIZE_4K as int) == addr - page
        }),
{
    let size = PAGE_SIZE_4K as int;
    let i = (addr - base) / size;
    let page = base + i * size;
    let q = base / size;
    vstd::arithmetic::div_mod::lemma_fundamental_div_mod(addr - base, size);
    vstd::arithmetic::div_mod::lemma_fundamental_div_mod(base, size);
    assert(page == (q + i) * size + 0) by (nonlinear_arith)
        requires
            page == base + i * size,
            base == size * q,
    ;
    assert(addr == (q + i) * size + (addr - page)) by (nonlinear_arith)
        requires
            page == (q + i) * size + 0,
    ;
    vstd::arithmetic::div_mod::lemma_fundamental_div_mod_converse(page, size, q + i, 0);
    vstd::arithmetic::div_mod::lemma_fundamental_div_mod_converse(addr, size, q + i, addr - page);
}

} // verus!
