use kernel::allocator::frame::PhysFrameAllocator;
use kernel::config::TRAMPOLINE;
use kernel::dtb::parse;
use kernel::dtb::MachineMeta;
use kernel::error::KError;
use kernel::mem::addr::PhysAddr;
use kernel::mem::addr::VirtAddr;
use kernel::mem::init;
use kernel::mem::pte::PTEFlags;
use kernel::mem::pte::PTE_R;
use kernel::mem::pte::PTE_V;
use kernel::mem::pte::PTE_W;
use kernel::mem::pte::PTE_X;
use kernel::mem::space::code_flags;
use kernel::mem::space::constant_flags;
use kernel::mem::space::data_flags;
use kernel::mem::space::init_kernel_space;
use kernel::mem::space::kernel_space_test;
use kernel::mem::space::midpoint;
use kernel::mem::space::AddrSpace;
use kernel::mem::space::AreaType;
use kernel::mem::space::KernelLayout;
use kernel::mem::swich_kernel_space;

const IMAGE: usize = 0x8020_0000;
const MEMORY_END: usize = 0x8040_0000;

fn layout() -> KernelLayout {
    KernelLayout {
        stext: IMAGE,
        strampoline: IMAGE + 0x2000,
        etrampoline: IMAGE + 0x3000,
        etext: IMAGE + 0x5000,
        srodata: IMAGE + 0x5000,
        erodata: IMAGE + 0x7000,
        sdata: IMAGE + 0x7000,
        edata: IMAGE + 0x8800,
        sstack: IMAGE + 0x9000,
        estack: IMAGE + 0xd000,
        sbss: IMAGE + 0xd000,
        ebss: IMAGE + 0xe000,
        ekernel: IMAGE + 0xe000,
    }
}

fn machine() -> MachineMeta {
    parse(
        &vec![(0x8000_0000, Some(MEMORY_END - 0x8000_0000))],
        &vec![0, 1],
        &vec![Some((0x1000_1000, Some(0x1000))), None, Some((0x1000_2000, Some(0x800)))],
    )
    .unwrap()
}

fn frames() -> PhysFrameAllocator {
    let mut frames = PhysFrameAllocator::new();
    assert!(frames.init(PhysAddr::new(IMAGE + 0xe000), MEMORY_END - IMAGE - 0xe000));
    frames
}

#[test]
fn kernel_flags() {
    assert_eq!(code_flags(), PTEFlags::from_bits(PTE_R | PTE_X | PTE_V));
    assert_eq!(constant_flags(), PTEFlags::from_bits(PTE_R | PTE_V));
    assert_eq!(data_flags(), PTEFlags::from_bits(PTE_R | PTE_W | PTE_V));
    assert!(!code_flags().contains(PTE_W));
    assert!(!data_flags().contains(PTE_X));
    assert!(!constant_flags().contains(PTE_W | PTE_X));
}

#[test]
fn area_types_are_distinct() {
    assert_ne!(AreaType::Elf, AreaType::Stack);
    assert_ne!(AreaType::Heap, AreaType::Mmap);
    assert_ne!(AreaType::Mmap, AreaType::Shm);
    assert_eq!(AreaType::Shm, AreaType::Shm);
}

#[test]
fn midpoint_values() {
    assert_eq!(midpoint(0, 0), 0);
    assert_eq!(midpoint(2, 8), 5);
    assert_eq!(midpoint(8, 2), 5);
    assert_eq!(midpoint(3, 4), 3);
    assert_eq!(midpoint(usize::MAX, usize::MAX), usize::MAX);
    assert_eq!(midpoint(usize::MAX, usize::MAX - 2), usize::MAX - 1);
}

#[test]
fn placeholder_space() {
    let space = AddrSpace::empty();
    assert_eq!(space.page_table().root_paddr(), PhysAddr::new(usize::MAX));
    assert_eq!(space.page_table().translate(VirtAddr::new(IMAGE)), Err(KError::NotMapped));
    assert!(!kernel_space_test(&space, &layout()));
}

#[test]
fn new_space_has_a_root_and_maps_nothing() {
    let mut frames = frames();
    let space = AddrSpace::new(&mut frames).unwrap();
    assert_eq!(space.page_table().root_paddr(), PhysAddr::new(IMAGE + 0xe000));
    assert_eq!(frames.used_frames(), 1);
    assert_eq!(space.page_table().translate(VirtAddr::new(IMAGE)), Err(KError::NotMapped));
    assert_eq!(space.switch().asid, 0);
    assert_eq!(space.switch().ppn, (IMAGE + 0xe000) >> 12);
    assert_eq!(swich_kernel_space(&space), space.switch());
    space.release(&mut frames);
    assert_eq!(frames.used_frames(), 0);
}

#[test]
fn new_space_without_a_free_frame() {
    let mut frames = PhysFrameAllocator::new();
    assert_eq!(AddrSpace::new(&mut frames).err(), Some(KError::AllocationExhausted));
}

#[test]
fn trampoline_is_mapped_at_the_top() {
    let mut frames = frames();
    let mut space = AddrSpace::new(&mut frames).unwrap();
    assert_eq!(space.map_trampoline(&mut frames, IMAGE + 0x2000, IMAGE + 0x3000), Ok(()));
    assert_eq!(
        space.page_table().translate(VirtAddr::new(TRAMPOLINE + 0x24)),
        Ok(PhysAddr::new(IMAGE + 0x2024))
    );
    assert_eq!(
        space.page_table().query_page(VirtAddr::new(TRAMPOLINE)),
        Ok((PhysAddr::new(IMAGE + 0x2000), code_flags()))
    );
    assert_eq!(
        space.map_trampoline(&mut frames, IMAGE + 0x2000, IMAGE + 0x3000),
        Err(KError::AlreadyMapped)
    );
}

#[test]
fn trampoline_frame_must_be_aligned() {
    let mut frames = frames();
    let mut space = AddrSpace::new(&mut frames).unwrap();
    assert_eq!(
        space.map_trampoline(&mut frames, IMAGE + 0x2010, IMAGE + 0x3010),
        Err(KError::MisalignedAddress)
    );
}

#[test]
fn kernel_space_maps_every_section_to_itself() {
    let mut frames = frames();
    let layout = layout();
    let space = init_kernel_space(&mut frames, &layout, &machine()).unwrap();
    let table = space.page_table();
    for addr in [
        IMAGE,
        IMAGE + 0x1fff,
        IMAGE + 0x2000,
        IMAGE + 0x2abc,
        IMAGE + 0x3000,
        IMAGE + 0x4fff,
        IMAGE + 0x5000,
        IMAGE + 0x6fff,
        IMAGE + 0x7000,
        IMAGE + 0x8fff,
        IMAGE + 0x9000,
        IMAGE + 0xcfff,
        IMAGE + 0xd000,
        IMAGE + 0xdfff,
        IMAGE + 0xe000,
        MEMORY_END - 1,
        0x1000_1000,
        0x1000_1fff,
        0x1000_2000,
        0x1000_2fff,
    ] {
        assert_eq!(table.translate(VirtAddr::new(addr)), Ok(PhysAddr::new(addr)));
    }
    for addr in [IMAGE - 1, MEMORY_END, 0x1000_0fff, 0x1000_3000, 0] {
        assert_eq!(table.translate(VirtAddr::new(addr)), Err(KError::NotMapped));
    }
    assert!(kernel_space_test(&space, &layout));
}

#[test]
fn kernel_space_uses_the_least_permissions() {
    let mut frames = frames();
    let space = init_kernel_space(&mut frames, &layout(), &machine()).unwrap();
    let table = space.page_table();
    let flags_at = |addr: usize| table.query_page(VirtAddr::new(addr)).unwrap().1;
    assert_eq!(flags_at(IMAGE), code_flags());
    assert_eq!(flags_at(IMAGE + 0x2000), code_flags());
    assert_eq!(flags_at(IMAGE + 0x4000), code_flags());
    assert_eq!(flags_at(IMAGE + 0x5000), constant_flags());
    assert_eq!(flags_at(IMAGE + 0x7000), data_flags());
    assert_eq!(flags_at(IMAGE + 0x9000), data_flags());
    assert_eq!(flags_at(IMAGE + 0xd000), data_flags());
    assert_eq!(flags_at(IMAGE + 0xe000), data_flags());
    assert_eq!(flags_at(0x1000_1000), data_flags());
    assert_eq!(flags_at(TRAMPOLINE), code_flags());
}

#[test]
fn kernel_space_maps_the_trampoline() {
    let mut frames = frames();
    let space = init_kernel_space(&mut frames, &layout(), &machine()).unwrap();
    assert_eq!(
        space.page_table().translate(VirtAddr::new(TRAMPOLINE + 0xffc)),
        Ok(PhysAddr::new(IMAGE + 0x2ffc))
    );
}

#[test]
fn kernel_space_owns_the_frames_it_took() {
    let mut frames = frames();
    let space = init(&mut frames, &layout(), &machine()).unwrap();
    let used = frames.used_frames();
    assert!(used >= 3);
    assert_eq!(used + frames.available_frames(), frames.total_frames());
    space.release(&mut frames);
    assert_eq!(frames.used_frames(), 0);
}

#[test]
fn kernel_space_fails_on_overlapping_sections_and_gives_the_frames_back() {
    let mut frames = frames();
    let mut layout = layout();
    layout.srodata = IMAGE + 0x4000;
    let r = init_kernel_space(&mut frames, &layout, &machine());
    assert_eq!(r.err(), Some(KError::AlreadyMapped));
    assert_eq!(frames.used_frames(), 0);
}

#[test]
fn kernel_space_fails_on_a_misaligned_section() {
    let mut frames = frames();
    let mut layout = layout();
    layout.sdata = IMAGE + 0x7008;
    let r = init_kernel_space(&mut frames, &layout, &machine());
    assert_eq!(r.err(), Some(KError::MisalignedAddress));
    assert_eq!(frames.used_frames(), 0);
}

#[test]
fn kernel_space_fails_without_frames() {
    let mut none = PhysFrameAllocator::new();
    assert_eq!(
        init_kernel_space(&mut none, &layout(), &machine()).err(),
        Some(KError::AllocationExhausted)
    );
    let mut few = PhysFrameAllocator::new();
    assert!(few.init(PhysAddr::new(IMAGE + 0xe000), 0x3000));
    assert_eq!(
        init_kernel_space(&mut few, &layout(), &machine()).err(),
        Some(KError::AllocationExhausted)
    );
    assert_eq!(few.used_frames(), 0);
    assert_eq!(few.available_frames(), 3);
}

#[test]
fn kernel_space_test_fails_where_a_midpoint_is_not_mapped() {
    let mut frames = frames();
    let space = init_kernel_space(&mut frames, &layout(), &machine()).unwrap();
    let mut other = layout();
    other.sdata = 0x4000_0000;
    other.edata = 0x4000_2000;
    assert!(!kernel_space_test(&space, &other));
}
