//! Address spaces, and the address space of the kernel.

use crate::allocator::frame::PhysFrameAllocator;
use crate::config::PAGE_SIZE_4K;
use crate::config::TRAMPOLINE;
use crate::dtb::MachineMeta;
use crate::error::KError;
use crate::error::KResult;
use crate::mem::addr::PhysAddr;
use crate::mem::addr::VirtAddr;
use crate::mem::page_table::PageTable;
use crate::mem::pte::PTEFlags;
use crate::mem::pte::PTE_R;
use crate::mem::pte::PTE_V;
use crate::mem::pte::PTE_W;
use crate::mem::pte::PTE_X;
use crate::mem::table_model::TableModel;
use std::collections::BTreeMap;
use vstd::prelude::*;

verus! {

/// Where the linker put the kernel image: the bounds of each of its segments.
#[derive(Clone, Copy, Debug, PartialEq, Eq, Structural)]
pub struct KernelLayout {
    pub stext: usize,
    pub strampoline: usize,
    pub etrampoline: usize,
    pub etext: usize,
    pub srodata: usize,
    pub erodata: usize,
    pub sdata: usize,
    pub edata: usize,
    pub sstack: usize,
    pub estack: usize,
    pub sbss: usize,
    pub ebss: usize,
    pub ekernel: usize,
}

impl KernelLayout {
    /// The trampoline code fills exactly one page.
    pub open spec fn wf(&self) -> bool {
        self.etrampoline - self.strampoline == PAGE_SIZE_4K
    }
}

/// A range of addresses to be mapped to itself, and the flags to map it with.
#[derive(Clone, Copy, Debug, PartialEq, Eq, Structural)]
pub struct Section {
    pub start: usize,
    pub end: usize,
    pub flags: PTEFlags,
}

/// Readable and executable: code.
pub open spec fn spec_code_flags() -> PTEFlags {
    PTEFlags::spec_from_bits(PTE_R | PTE_X | PTE_V)
}

/// Readable only: constants.
pub open spec fn spec_constant_flags() -> PTEFlags {
    PTEFlags::spec_from_bits(PTE_R | PTE_V)
}

/// Readable and writable: data, stacks, free memory and device windows.
pub open spec fn spec_data_flags() -> PTEFlags {
    PTEFlags::spec_from_bits(PTE_R | PTE_W | PTE_V)
}

#[verifier::when_used_as_spec(spec_code_flags)]
pub fn code_flags() -> (r: PTEFlags)
    ensures
        r == spec_code_flags(),
{
    PTEFlags::from_bits(PTE_R | PTE_X | PTE_V)
}

#[verifier::when_used_as_spec(spec_constant_flags)]
pub fn constant_flags() -> (r: PTEFlags)
    ensures
        r == spec_constant_flags(),
{
    PTEFlags::from_bits(PTE_R | PTE_V)
}

#[verifier::when_used_as_spec(spec_data_flags)]
pub fn data_flags() -> (r: PTEFlags)
    ensures
        r == spec_data_flags(),
{
    PTEFlags::from_bits(PTE_R | PTE_W | PTE_V)
}

/// The ranges that the kernel maps to themselves, in the order in which it maps them: the code
/// before and after the trampoline, the trampoline, the constants, the data, the stack, the
/// zero-initialised data, the memory behind the image, and every device window.
pub open spec fn kernel_sections(layout: KernelLayout, meta: MachineMeta) -> Seq<Section> {
    seq![
        Section { start: layout.stext, end: layout.strampoline, flags: spec_code_flags() },
        Section { start: layout.etrampoline, end: layout.etext, flags: spec_code_flags() },
        Section { start: layout.strampoline, end: layout.etrampoline, flags: spec_code_flags() },
        Section { start: layout.srodata, end: layout.erodata, flags: spec_constant_flags() },
        Section { start: layout.sdata, end: layout.edata, flags: spec_data_flags() },
        Section { start: layout.sstack, end: layout.estack, flags: spec_data_flags() },
        Section { start: layout.sbss, end: layout.ebss, flags: spec_data_flags() },
        Section {
            start: layout.ekernel,
            end: (meta.spec_phys_mem_start() + meta.spec_phys_mem_size()) as usize,
            flags: spec_data_flags(),
        },
    ] + Seq::new(
        meta.devices().len(),
        |i: int|
            Section {
                start: meta.devices()[i].base_address,
                end: (meta.devices()[i].base_address + meta.devices()[i].size) as usize,
                flags: spec_data_flags(),
            },
    )
}

/// The outcome of mapping each of `sections` to itself, one after the other, with `avail`
/// free frames at the start; the work stops at the first section that fails.
pub open spec fn sections_mapped(model: TableModel, avail: nat, sections: Seq<Section>) -> (
    TableModel,
    nat,
    Option<KError>,
)
    decreases sections.len(),
{
    if sections.len() == 0 {
        (model, avail, None)
    } else {
        let first = model.range_mapped_linear(
            avail,
            sections[0].start as int,
            sections[0].end as int,
            sections[0].flags,
        );
        if first.2 is Some {
            first
        } else {
            sections_mapped(first.0, first.1, sections.skip(1))
        }
    }
}

/// The outcome of mapping the trampoline page: the page at the top of the address space goes
/// to the frame at `trampoline_start`, readable and executable.
pub open spec fn trampoline_mapped(model: TableModel, avail: nat, trampoline_start: usize) -> (
    TableModel,
    nat,
    Option<KError>,
) {
    model.region_checked(avail, TRAMPOLINE as int, trampoline_start as int, 1, spec_code_flags())
}

/// The outcome of building the kernel's address space with `avail` free frames: one frame for
/// the root table, then the kernel's sections, then the trampoline.
pub open spec fn kernel_space_model(avail: nat, layout: KernelLayout, meta: MachineMeta) -> (
    TableModel,
    nat,
    Option<KError>,
) {
    if avail == 0 {
        (TableModel::empty(), avail, Some(KError::AllocationExhausted))
    } else {
        let identity = sections_mapped(
            TableModel::empty(),
            (avail - 1) as nat,
            kernel_sections(layout, meta),
        );
        if identity.2 is Some {
            identity
        } else {
            trampoline_mapped(identity.0, identity.1, layout.strampoline)
        }
    }
}

/// What a memory area is used for.
#[derive(Debug, Clone, Copy, PartialEq, Eq, Structural)]
pub enum AreaType {
    /// Segments from a user program: code, constants, data.
    Elf,
    /// User stack.
    Stack,
    /// User heap.
    Heap,
    /// Mapped on request.
    Mmap,
    /// Shared memory.
    Shm,
}

/// A range of virtual addresses with one use, and the frame behind each page of it that has
/// one.
pub struct MemoryArea {
    va_range: core::ops::Range<VirtAddr>,
    area_type: AreaType,
    pages: BTreeMap<usize, PhysAddr>,
}

/// An address space: a page table and the memory areas in it, keyed by the address at which
/// each starts.
pub struct AddrSpace {
    page_table: PageTable,
    areas: BTreeMap<usize, MemoryArea>,
}

/// What the translation register must hold for an address space to be the active one.
#[derive(Clone, Copy, Debug, PartialEq, Eq, Structural)]
pub struct SatpUpdate {
    /// Address space id.
    pub asid: usize,
    /// Frame number of the root table.
    pub ppn: usize,
}

impl AddrSpace {
    pub closed spec fn spec_page_table(&self) -> PageTable {
        self.page_table
    }

    /// The start addresses of the memory areas.
    pub closed spec fn area_starts(&self) -> Set<usize> {
        self.areas@.dom()
    }

    pub open spec fn wf(&self) -> bool {
        self.spec_page_table().wf()
    }

    /// The page table of the address space.
    pub fn page_table(&self) -> (r: &PageTable)
        ensures
            *r == self.spec_page_table(),
    {
        &self.page_table
    }

    /// The placeholder: an address space whose page table has no root.
    pub fn empty() -> (r: Self)
        ensures
            r.wf(),
            !r.spec_page_table().is_active(),
            r.spec_page_table()@ == TableModel::empty(),
            r.spec_page_table().tables() == Seq::<PhysAddr>::empty(),
            r.area_starts() == Set::<usize>::empty(),
    {
        Self { page_table: PageTable::empty(), areas: BTreeMap::new() }
    }

    /// An address space with an empty root table in a frame taken from `frames` and no memory
    /// area; `AllocationExhausted`, with `frames` as it was, when no frame is free.
    pub fn new(frames: &mut PhysFrameAllocator) -> (r: KResult<Self>)
        requires
            old(frames).wf(),
        ensures
            final(frames).wf(),
            PageTable::creates(
                old(frames),
                final(frames),
                match r {
                    Ok(space) => Some(space.spec_page_table()),
                    Err(_) => None,
                },
            ),
            r is Err ==> r == Err::<Self, KError>(KError::AllocationExhausted),
            r is Ok ==> r.unwrap().area_starts() == Set::<usize>::empty(),
    {
        match PageTable::try_new(frames) {
            Some(page_table) => Ok(Self { page_table, areas: BTreeMap::new() }),
            None => Err(KError::AllocationExhausted),
        }
    }

    /// What the translation register must hold for this address space to be the active one:
    /// address space id 0 and the frame number of the root table.
    pub fn switch(&self) -> (r: SatpUpdate)
        ensures
            r.asid == 0,
            r.ppn == self.spec_page_table().spec_root_paddr().0 / PAGE_SIZE_4K,
    {
        SatpUpdate { asid: 0, ppn: self.page_table.root_paddr().as_usize() / PAGE_SIZE_4K }
    }

    /// Maps the trampoline page, the last page of the address space, to the frame that holds
    /// the trampoline code, readable and executable.
    pub fn map_trampoline(
        &mut self,
        frames: &mut PhysFrameAllocator,
        trampoline_start: usize,
        trampoline_end: usize,
    ) -> (r: KResult<()>)
        requires
            old(self).wf(),
            old(self).spec_page_table().is_active(),
            old(frames).wf(),
            old(self).spec_page_table().backed_by(old(frames)),
            trampoline_end - trampoline_start == PAGE_SIZE_4K,
        ensures
            final(self).wf(),
            final(self).spec_page_table().is_active(),
            final(frames).wf(),
            final(self).spec_page_table().backed_by(final(frames)),
            final(self).area_starts() == old(self).area_starts(),
            old(self).spec_page_table().maps_all(
                &final(self).spec_page_table(),
                old(frames),
                final(frames),
                trampoline_mapped(
                    old(self).spec_page_table()@,
                    old(frames).spec_available_frames(),
                    trampoline_start,
                ),
                r,
            ),
    {
        self.page_table.map_region(
            frames,
            VirtAddr::new(TRAMPOLINE),
            PhysAddr::new(trampoline_start),
            1,
            code_flags(),
        )
    }

    /// Destroys the address space and gives the frames of its page table back to `frames`.
    pub fn release(self, frames: &mut PhysFrameAllocator)
        requires
            self.wf(),
            old(frames).wf(),
            self.spec_page_table().backed_by(old(frames)),
        ensures
            final(frames).wf(),
            self.spec_page_table().releases(old(frames), final(frames)),
    {
        self.page_table.release(frames)
    }
}

/// The kernel's sections as a list.
fn collect_sections(layout: &KernelLayout, meta: &MachineMeta) -> (v: Vec<Section>)
    requires
        meta.wf(),
    ensures
        v@ == kernel_sections(*layout, *meta),
{
    let mut v: Vec<Section> = Vec::new();
    v.push(Section { start: layout.stext, end: layout.strampoline, flags: code_flags() });
    v.push(Section { start: layout.etrampoline, end: layout.etext, flags: code_flags() });
    v.push(Section { start: layout.strampoline, end: layout.etrampoline, flags: code_flags() });
    v.push(Section { start: layout.srodata, end: layout.erodata, flags: constant_flags() });
    v.push(Section { start: layout.sdata, end: layout.edata, flags: data_flags() });
    v.push(Section { start: layout.sstack, end: layout.estack, flags: data_flags() });
    v.push(Section { start: layout.sbss, end: layout.ebss, flags: data_flags() });
    v.push(
        Section {
            start: layout.ekernel,
            end: meta.phys_mem_start() + meta.phys_mem_size(),
            flags: data_flags(),
        },
    );
    let count: usize = meta.device_count();
    let mut i: usize = 0;
    while i < count
        invariant
            i <= count,
            count == meta.devices().len(),
            meta.wf(),
            v.len() == 8 + i,
            forall|k: int| 0 <= k < 8 + i ==> #[trigger] v@[k] == kernel_sections(*layout, *meta)[k],
        decreases count - i,
    {
        let device = meta.device(i);
        v.push(
            Section {
                start: device.base_address,
                end: device.base_address + device.size,
                flags: data_flags(),
            },
        );
        i = i + 1;
    }
    proof {
        assert(v@ =~= kernel_sections(*layout, *meta));
    }
    v
}

/// What [`init_kernel_space`] returns and leaves behind, given what the model says of it.
///
/// On success the address space maps what the model maps, owns the frames that have left the
/// allocator, and has no memory area. On failure the frames taken on the way have all been
/// given back.
pub open spec fn kernel_space_built(
    frames: &PhysFrameAllocator,
    frames_after: &PhysFrameAllocator,
    outcome: (TableModel, nat, Option<KError>),
    r: KResult<AddrSpace>,
) -> bool {
    &&& frames_after.base() == frames.base()
    &&& frames_after.spec_total_frames() == frames.spec_total_frames()
    &&& match r {
        Ok(space) => {
            &&& outcome.2 is None
            &&& space.wf()
            &&& space.spec_page_table().is_active()
            &&& space.spec_page_table().backed_by(frames_after)
            &&& space.spec_page_table()@ == outcome.0
            &&& space.area_starts() == Set::<usize>::empty()
            &&& frames_after.spec_available_frames() == outcome.1
            &&& frames_after.free_frames() == frames.free_frames().difference(
                space.spec_page_table().owned_frames(frames),
            )
            &&& frames_after.spec_used_frames() == frames.spec_used_frames()
                + space.spec_page_table().tables().len()
        },
        Err(e) => {
            &&& outcome.2 == Some(e)
            &&& frames_after.free_frames() == frames.free_frames()
            &&& frames_after.spec_used_frames() == frames.spec_used_frames()
        },
    }
}

/// Builds the kernel's address space: a new page table in which every segment of the kernel
/// image, the memory behind the image and every device window is mapped to itself, code
/// readable and executable, constants readable, the rest readable and writable, and the
/// trampoline page is mapped at the top.
///
/// The work stops at the first mapping that fails; the frames taken until then are given back
/// and the error is returned.
pub fn init_kernel_space(
    frames: &mut PhysFrameAllocator,
    layout: &KernelLayout,
    meta: &MachineMeta,
) -> (r: KResult<AddrSpace>)
    requires
        old(frames).wf(),
        layout.wf(),
        meta.wf(),
    ensures
        final(frames).wf(),
        kernel_space_built(
            old(frames),
            final(frames),
            kernel_space_model(old(frames).spec_available_frames(), *layout, *meta),
            r,
        ),
{
    let mut space = match AddrSpace::new(frames) {
        Ok(space) => space,
        Err(e) => {
            return Err(e);
        },
    };
    let ghost fresh = space.spec_page_table();
    let ghost frames_fresh = *frames;
    let sections = collect_sections(layout, meta);
    let ghost goal = sections_mapped(
        TableModel::empty(),
        frames.spec_available_frames(),
        sections@,
    );
    proof {
        assert(sections@.skip(0) =~= sections@);
        fresh.lemma_grows_by_nothing(frames);
    }
    let mut i: usize = 0;
    while i < sections.len()
        invariant
            i <= sections.len(),
            space.wf(),
            space.spec_page_table().is_active(),
            frames.wf(),
            space.spec_page_table().backed_by(frames),
            space.area_starts() == Set::<usize>::empty(),
            goal == sections_mapped(
                space.spec_page_table()@,
                frames.spec_available_frames(),
                sections@.skip(i as int),
            ),
            frames_fresh.spec_available_frames() >= frames.spec_available_frames(),
            fresh.grows_by(
                &space.spec_page_table(),
                &frames_fresh,
                frames,
                (frames_fresh.spec_available_frames() - frames.spec_available_frames()) as nat,
            ),
            PageTable::creates(old(frames), &frames_fresh, Some(fresh)),
            frames_fresh.spec_available_frames() + 1 == old(frames).spec_available_frames(),
            old(frames).wf(),
            sections@ == kernel_sections(*layout, *meta),
            goal == sections_mapped(
                TableModel::empty(),
                (old(frames).spec_available_frames() - 1) as nat,
                sections@,
            ),
        decreases sections.len() - i,
    {
        let section = sections[i];
        let ghost before = space.spec_page_table();
        let ghost frames_before = *frames;
        proof {
            assert(sections@.skip(i as int)[0] == sections@[i as int]);
            assert(sections@.skip(i as int).skip(1) =~= sections@.skip(i + 1));
        }
        let r = space.page_table.map_range_linear(
            frames,
            core::ops::Range { start: VirtAddr::new(section.start), end: VirtAddr::new(section.end) },
            section.flags,
        );
        proof {
            fresh.lemma_grows_by_twice(
                &before,
                &space.spec_page_table(),
                &frames_fresh,
                &frames_before,
                frames,
                (frames_fresh.spec_available_frames() - frames_before.spec_available_frames()) as nat,
                (frames_before.spec_available_frames() - frames.spec_available_frames()) as nat,
            );
        }
        if let Err(e) = r {
            let ghost grown = space.spec_page_table();
            let ghost frames_grown = *frames;
            space.release(frames);
            proof {
                PageTable::lemma_release_restores(
                    old(frames),
                    &frames_fresh,
                    fresh,
                    &frames_grown,
                    grown,
                    frames,
                    (frames_fresh.spec_available_frames() - frames_grown.spec_available_frames()) as nat,
                );
            }
            return Err(e);
        }
        i = i + 1;
    }
    let ghost before = space.spec_page_table();
    let ghost frames_before = *frames;
    let r = space.map_trampoline(frames, layout.strampoline, layout.etrampoline);
    proof {
        fresh.lemma_grows_by_twice(
            &before,
            &space.spec_page_table(),
            &frames_fresh,
            &frames_before,
            frames,
            (frames_fresh.spec_available_frames() - frames_before.spec_available_frames()) as nat,
            (frames_before.spec_available_frames() - frames.spec_available_frames()) as nat,
        );
    }
    if let Err(e) = r {
        let ghost grown = space.spec_page_table();
        let ghost frames_grown = *frames;
        space.release(frames);
        proof {
            PageTable::lemma_release_restores(
                old(frames),
                &frames_fresh,
                fresh,
                &frames_grown,
                grown,
                frames,
                (frames_fresh.spec_available_frames() - frames_grown.spec_available_frames()) as nat,
            );
        }
        return Err(e);
    }
    proof {
        PageTable::lemma_owned_after_growth(
            old(frames),
            &frames_fresh,
            fresh,
            frames,
            space.spec_page_table(),
            (frames_fresh.spec_available_frames() - frames.spec_available_frames()) as nat,
        );
    }
    Ok(space)
}

/// The address half-way between `a` and `b`, rounded down.
pub fn midpoint(a: usize, b: usize) -> (r: usize)
    ensures
        r == (a + b) / 2,
{
    if a <= b {
        a + (b - a) / 2
    } else {
        b + (a - b) / 2
    }
}

/// Whether `vaddr` translates to itself in `model`.
pub open spec fn maps_to_itself(model: TableModel, vaddr: usize) -> bool {
    model.translate(vaddr as int) == Ok::<PhysAddr, KError>(PhysAddr(vaddr))
}

/// Checks an address space against the kernel image: the addresses half-way through the code,
/// the constants and the data must each translate to themselves.
pub fn kernel_space_test(space: &AddrSpace, layout: &KernelLayout) -> (ok: bool)
    requires
        space.wf(),
    ensures
        ok == {
            &&& maps_to_itself(space.spec_page_table()@, ((layout.stext + layout.etext) / 2) as usize)
            &&& maps_to_itself(
                space.spec_page_table()@,
                ((layout.srodata + layout.erodata) / 2) as usize,
            )
            &&& maps_to_itself(space.spec_page_table()@, ((layout.sdata + layout.edata) / 2) as usize)
        },
{
    let mid_text = midpoint(layout.stext, layout.etext);
    let mid_rodata = midpoint(layout.srodata, layout.erodata);
    let mid_data = midpoint(layout.sdata, layout.edata);
    let text = space.page_table.translate(VirtAddr::new(mid_text));
    let rodata = space.page_table.translate(VirtAddr::new(mid_rodata));
    let data = space.page_table.translate(VirtAddr::new(mid_data));
    translates_to(text, mid_text) && translates_to(rodata, mid_rodata) && translates_to(
        data,
        mid_data,
    )
}

/// Whether a translation succeeded with the address `wanted`.
fn translates_to(r: KResult<PhysAddr>, wanted: usize) -> (ok: bool)
    ensures
        ok == (r == Ok::<PhysAddr, KError>(PhysAddr(wanted))),
{
    match r {
        Ok(addr) => addr.as_usize() == wanted,
        Err(_) => false,
    }
}

/// Each of the three flag sets that the kernel maps with has the valid flag.
pub proof fn lemma_kernel_flags_valid()
    ensures
        spec_code_flags().spec_contains(PTE_V),
        spec_constant_flags().spec_contains(PTE_V),
        spec_data_flags().spec_contains(PTE_V),
{
    PTEFlags::lemma_bits_round_trip(PTE_R | PTE_X | PTE_V);
    PTEFlags::lemma_bits_round_trip(PTE_R | PTE_V);
    PTEFlags::lemma_bits_round_trip(PTE_R | PTE_W | PTE_V);
    assert((0x02u8 | 0x08u8 | 0x01u8) & 0x01u8 == 0x01u8) by (bit_vector);
    assert((0x02u8 | 0x01u8) & 0x01u8 == 0x01u8) by (bit_vector);
    assert((0x02u8 | 0x04u8 | 0x01u8) & 0x01u8 == 0x01u8) by (bit_vector);
}

/// Every section in `sections` is mapped with the valid flag set.
pub open spec fn all_valid(sections: Seq<Section>) -> bool {
    forall|k: int| 0 <= k < sections.len() ==> (#[trigger] sections[k]).flags.spec_contains(PTE_V)
}

/// Mapping sections, as far as it gets, leaves every page that is already mapped as it is.
pub proof fn lemma_sections_keep_mapped(
    model: TableModel,
    avail: nat,
    sections: Seq<Section>,
    addr: int,
)
    requires
        model.is_mapped(addr),
    ensures
        sections_mapped(model, avail, sections).0.leaf_entry(addr) == model.leaf_entry(addr),
    decreases sections.len(),
{
    if sections.len() > 0 {
        let first = model.range_mapped_linear(
            avail,
            sections[0].start as int,
            sections[0].end as int,
            sections[0].flags,
        );
        model.lemma_region_keeps_mapped(
            avail,
            sections[0].start as int,
            sections[0].start as int,
            TableModel::range_pages(sections[0].start as int, sections[0].end as int),
            sections[0].flags,
            addr,
        );
        if first.2 is None {
            lemma_sections_keep_mapped(first.0, first.1, sections.skip(1), addr);
        }
    }
}

/// After sections have been mapped to themselves with the valid flag set, every address in
/// each of them translates to itself.
pub proof fn lemma_sections_translate(
    model: TableModel,
    avail: nat,
    sections: Seq<Section>,
    k: int,
    addr: usize,
)
    requires
        sections_mapped(model, avail, sections).2 is None,
        all_valid(sections),
        0 <= k < sections.len(),
        sections[k].start <= addr < sections[k].end,
    ensures
        maps_to_itself(sections_mapped(model, avail, sections).0, addr),
    decreases sections.len(),
{
    let first = model.range_mapped_linear(
        avail,
        sections[0].start as int,
        sections[0].end as int,
        sections[0].flags,
    );
    if k == 0 {
        let start = sections[0].start as int;
        let end = sections[0].end as int;
        let pages = TableModel::range_pages(start, end);
        assert(end - start <= pages * PAGE_SIZE_4K) by {
            vstd::arithmetic::div_mod::lemma_fundamental_div_mod(
                end - start + PAGE_SIZE_4K - 1,
                PAGE_SIZE_4K as int,
            );
        }
        model.lemma_region_translates(avail, start, start, pages, sections[0].flags, addr as int);
        lemma_sections_keep_mapped(first.0, first.1, sections.skip(1), addr as int);
    } else {
        assert(sections.skip(1)[k - 1] == sections[k]);
        assert(all_valid(sections.skip(1))) by {
            assert forall|j: int| 0 <= j < sections.skip(1).len() implies (
            #[trigger] sections.skip(1)[j]).flags.spec_contains(PTE_V) by {
                assert(sections.skip(1)[j] == sections[j + 1]);
            }
        }
        lemma_sections_translate(first.0, first.1, sections.skip(1), k - 1, addr);
    }
}

/// In the kernel's address space every address of every section of the kernel translates to
/// itself: the code, the constants, the data, the stack, the memory behind the image and the
/// device windows.
pub proof fn lemma_kernel_space_identity(
    avail: nat,
    layout: KernelLayout,
    meta: MachineMeta,
    k: int,
    addr: usize,
)
    requires
        kernel_space_model(avail, layout, meta).2 is None,
        0 <= k < kernel_sections(layout, meta).len(),
        kernel_sections(layout, meta)[k].start <= addr < kernel_sections(layout, meta)[k].end,
    ensures
        maps_to_itself(kernel_space_model(avail, layout, meta).0, addr),
{
    let sections = kernel_sections(layout, meta);
    let identity = sections_mapped(TableModel::empty(), (avail - 1) as nat, sections);
    lemma_kernel_flags_valid();
    assert(all_valid(sections));
    lemma_sections_translate(TableModel::empty(), (avail - 1) as nat, sections, k, addr);
    identity.0.lemma_region_keeps_mapped(
        identity.1,
        TRAMPOLINE as int,
        layout.strampoline as int,
        1,
        spec_code_flags(),
        addr as int,
    );
}

/// In the kernel's address space the trampoline page, at the top of the address space,
/// translates to the frame that holds the trampoline code.
pub proof fn lemma_kernel_space_trampoline(
    avail: nat,
    layout: KernelLayout,
    meta: MachineMeta,
    offset: usize,
)
    requires
        layout.wf(),
        kernel_space_model(avail, layout, meta).2 is None,
        offset < PAGE_SIZE_4K,
    ensures
        kernel_space_model(avail, layout, meta).0.translate(TRAMPOLINE + offset) == Ok::<
            PhysAddr,
            KError,
        >(PhysAddr((layout.strampoline + offset) as usize)),
{
    let identity = sections_mapped(
        TableModel::empty(),
        (avail - 1) as nat,
        kernel_sections(layout, meta),
    );
    lemma_kernel_flags_valid();
    identity.0.lemma_region_translates(
        identity.1,
        TRAMPOLINE as int,
        layout.strampoline as int,
        1,
        spec_code_flags(),
        TRAMPOLINE + offset,
    );
}

/// None of the three flag sets that the kernel maps with lets a page be written and executed.
pub proof fn lemma_kernel_flags_exclusive()
    ensures
        !spec_code_flags().spec_contains(PTE_W | PTE_X),
        !spec_constant_flags().spec_contains(PTE_W) && !spec_constant_flags().spec_contains(PTE_X),
        !spec_data_flags().spec_contains(PTE_W | PTE_X),
{
    PTEFlags::lemma_bits_round_trip(PTE_R | PTE_X | PTE_V);
    PTEFlags::lemma_bits_round_trip(PTE_R | PTE_V);
    PTEFlags::lemma_bits_round_trip(PTE_R | PTE_W | PTE_V);
    assert((0x02u8 | 0x08u8 | 0x01u8) & (0x04u8 | 0x08u8) != (0x04u8 | 0x08u8)) by (bit_vector);
    assert((0x02u8 | 0x01u8) & 0x04u8 != 0x04u8) by (bit_vector);
    assert((0x02u8 | 0x01u8) & 0x08u8 != 0x08u8) by (bit_vector);
    assert((0x02u8 | 0x04u8 | 0x01u8) & (0x04u8 | 0x08u8) != (0x04u8 | 0x08u8)) by (bit_vector);
}

/// The segments of the code lie in the order in which the linker lays them out, and the code,
/// the constants and the data each have at least one byte.
pub open spec fn layout_ordered(layout: KernelLayout) -> bool {
    &&& layout.stext <= layout.strampoline <= layout.etrampoline <= layout.etext
    &&& layout.stext < layout.etext
    &&& layout.srodata < layout.erodata
    &&& layout.sdata < layout.edata
}

/// [`kernel_space_test`] passes on the kernel's address space, if the image is laid out in
/// order: the three addresses it checks lie in the code, the constants and the data.
pub proof fn lemma_kernel_space_test_passes(avail: nat, layout: KernelLayout, meta: MachineMeta)
    requires
        kernel_space_model(avail, layout, meta).2 is None,
        layout_ordered(layout),
    ensures
        maps_to_itself(
            kernel_space_model(avail, layout, meta).0,
            ((layout.stext + layout.etext) / 2) as usize,
        ),
        maps_to_itself(
            kernel_space_model(avail, layout, meta).0,
            ((layout.srodata + layout.erodata) / 2) as usize,
        ),
        maps_to_itself(
            kernel_space_model(avail, layout, meta).0,
            ((layout.sdata + layout.edata) / 2) as usize,
        ),
{
    let sections = kernel_sections(layout, meta);
    let text = ((layout.stext + layout.etext) / 2) as usize;
    let rodata = ((layout.srodata + layout.erodata) / 2) as usize;
    let data = ((layout.sdata + layout.edata) / 2) as usize;
    assert(sections.len() >= 8);
    assert(sections[0].start == layout.stext && sections[0].end == layout.strampoline);
    assert(sections[1].start == layout.etrampoline && sections[1].end == layout.etext);
    assert(sections[2].start == layout.strampoline && sections[2].end == layout.etrampoline);
    assert(sections[3].start == layout.srodata && sections[3].end == layout.erodata);
    assert(sections[4].start == layout.sdata && sections[4].end == layout.edata);
    if text < layout.strampoline {
        lemma_kernel_space_identity(avail, layout, meta, 0, text);
    } else if text < layout.etrampoline {
        lemma_kernel_space_identity(avail, layout, meta, 2, text);
    } else {
        lemma_kernel_space_identity(avail, layout, meta, 1, text);
    }
    lemma_kernel_space_identity(avail, layout, meta, 3, rodata);
    lemma_kernel_space_identity(avail, layout, meta, 4, data);
}

} // verus!
