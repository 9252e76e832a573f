use kernel::allocator::frame::PhysFrameAllocator;
use kernel::config::TRAMPOLINE;
use kernel::error::KError;
use kernel::mem::addr::align_down;
use kernel::mem::addr::align_up;
use kernel::mem::addr::PhysAddr;
use kernel::mem::addr::VirtAddr;
use kernel::mem::page_table::PageTable;
use kernel::mem::pte::PTEFlags;
use kernel::mem::pte::PageTableEntry;
use kernel::mem::pte::PTE_A;
use kernel::mem::pte::PTE_D;
use kernel::mem::pte::PTE_G;
use kernel::mem::pte::PTE_R;
use kernel::mem::pte::PTE_U;
use kernel::mem::pte::PTE_V;
use kernel::mem::pte::PTE_W;
use kernel::mem::pte::PTE_X;

const BASE: usize = 0x8020_0000;

fn frames(count: usize) -> PhysFrameAllocator {
    let mut frames = PhysFrameAllocator::new();
    assert!(frames.init(PhysAddr::new(BASE), count * 0x1000));
    frames
}

fn rw() -> PTEFlags {
    PTEFlags::from_bits(PTE_R | PTE_W | PTE_V)
}

#[test]
fn align_values() {
    assert_eq!(align_down(0x1234, 0x1000), 0x1000);
    assert_eq!(align_down(0x1000, 0x1000), 0x1000);
    assert_eq!(align_down(0xfff, 0x1000), 0);
    assert_eq!(align_up(0x1234, 0x1000), Some(0x2000));
    assert_eq!(align_up(0x1000, 0x1000), Some(0x1000));
    assert_eq!(align_up(0, 0x1000), Some(0));
    assert_eq!(align_up(usize::MAX, 0x1000), None);
    assert_eq!(align_up(usize::MAX - 0xfff, 0x1000), Some(usize::MAX - 0xfff));
    assert_eq!(align_up(7, 3), Some(9));
    assert_eq!(align_down(7, 3), 6);
}

#[test]
fn addresses() {
    let p = PhysAddr::from(0x8020_1000usize);
    assert_eq!(p, PhysAddr::new(0x8020_1000));
    assert_eq!(p.as_usize(), 0x8020_1000);
    assert!(p.is_aligned(0x1000));
    assert!(!p.is_aligned(0x2000));
    let v = VirtAddr::from(0x1234usize);
    assert_eq!(v.as_usize(), 0x1234);
    assert!(!v.is_aligned(0x1000));
    assert!(VirtAddr::new(0).is_aligned(0x1000));
}

#[test]
fn flag_sets() {
    assert_eq!(PTE_V, 1);
    assert_eq!(PTE_R, 2);
    assert_eq!(PTE_W, 4);
    assert_eq!(PTE_X, 8);
    assert_eq!(PTE_U, 16);
    assert_eq!(PTE_G, 32);
    assert_eq!(PTE_A, 64);
    assert_eq!(PTE_D, 128);
    let flags = PTEFlags::from_bits(PTE_R).union(PTEFlags::from_bits(PTE_X | PTE_V));
    assert_eq!(flags.bits(), 0x0b);
    assert!(flags.contains(PTE_V));
    assert!(flags.contains(PTE_R | PTE_X));
    assert!(!flags.contains(PTE_W));
    assert!(!flags.contains(PTE_R | PTE_W));
    assert_eq!(PTEFlags::empty().bits(), 0);
    assert!(PTEFlags::empty().contains(0));
}

#[test]
fn entries() {
    let entry = PageTableEntry::new(PhysAddr::new(0x8020_3000), rw());
    assert_eq!(entry.ppn(), PhysAddr::new(0x8020_3000));
    assert_eq!(entry.flags(), rw());
    assert!(entry.is_valid());
    assert!(!entry.is_unused());
    assert_eq!(entry.bits(), (0x80203u64 << 10) | 0x07);
    let unaligned = PageTableEntry::new(PhysAddr::new(0x8020_3abc), PTEFlags::from_bits(PTE_R));
    assert_eq!(unaligned.ppn(), PhysAddr::new(0x8020_3000));
    assert!(!unaligned.is_valid());
    assert!(!unaligned.is_unused());
    let empty = PageTableEntry::empty();
    assert!(empty.is_unused());
    assert!(!empty.is_valid());
    assert_eq!(empty.bits(), 0);
    assert_eq!(empty, PageTableEntry::new(PhysAddr::new(0), PTEFlags::empty()));
}

#[test]
fn placeholder_maps_nothing() {
    let table = PageTable::empty();
    assert_eq!(table.root_paddr(), PhysAddr::new(usize::MAX));
    assert_eq!(table.translate(VirtAddr::new(0x1000)), Err(KError::NotMapped));
    assert_eq!(table.query_page(VirtAddr::new(0x1000)), Err(KError::NotMapped));
    let mut frames = frames(4);
    table.release(&mut frames);
    assert_eq!(frames.used_frames(), 0);
}

#[test]
fn new_table_takes_one_frame_for_its_root() {
    let mut frames = frames(4);
    let table = PageTable::try_new(&mut frames).unwrap();
    assert_eq!(table.root_paddr(), PhysAddr::new(BASE));
    assert_eq!(frames.used_frames(), 1);
    assert_eq!(table.translate(VirtAddr::new(0)), Err(KError::NotMapped));
    table.release(&mut frames);
}

#[test]
fn new_table_without_a_free_frame() {
    let mut frames = frames(1);
    assert!(frames.alloc_frames(1, 0x1000).is_some());
    assert!(PageTable::try_new(&mut frames).is_none());
    assert_eq!(frames.used_frames(), 1);
}

#[test]
fn map_then_translate_every_offset() {
    let mut frames = frames(8);
    let mut table = PageTable::try_new(&mut frames).unwrap();
    let vaddr = VirtAddr::new(0x1_2345_6000);
    let paddr = PhysAddr::new(0x9000_1000);
    assert_eq!(table.map(&mut frames, vaddr, paddr, rw()), Ok(()));
    for offset in 0..0x1000usize {
        assert_eq!(
            table.translate(VirtAddr::new(vaddr.as_usize() + offset)),
            Ok(PhysAddr::new(paddr.as_usize() + offset))
        );
    }
    assert_eq!(table.translate(VirtAddr::new(0x1_2345_5fff)), Err(KError::NotMapped));
    assert_eq!(table.translate(VirtAddr::new(0x1_2345_7000)), Err(KError::NotMapped));
    assert_eq!(frames.used_frames(), 3);
}

#[test]
fn map_twice_fails_with_already_mapped() {
    let mut frames = frames(8);
    let mut table = PageTable::try_new(&mut frames).unwrap();
    let vaddr = VirtAddr::new(0x4000_0000);
    assert_eq!(table.map(&mut frames, vaddr, PhysAddr::new(0x1000), rw()), Ok(()));
    let used = frames.used_frames();
    assert_eq!(
        table.map(&mut frames, vaddr, PhysAddr::new(0x2000), rw()),
        Err(KError::AlreadyMapped)
    );
    assert_eq!(
        table.map(&mut frames, vaddr, PhysAddr::new(0x1000), rw()),
        Err(KError::AlreadyMapped)
    );
    assert_eq!(table.translate(vaddr), Ok(PhysAddr::new(0x1000)));
    assert_eq!(frames.used_frames(), used);
}

#[test]
fn map_refuses_misaligned_addresses() {
    let mut frames = frames(8);
    let mut table = PageTable::try_new(&mut frames).unwrap();
    assert_eq!(
        table.map(&mut frames, VirtAddr::new(0x1001), PhysAddr::new(0x2000), rw()),
        Err(KError::MisalignedAddress)
    );
    assert_eq!(
        table.map(&mut frames, VirtAddr::new(0x1000), PhysAddr::new(0x2800), rw()),
        Err(KError::MisalignedAddress)
    );
    assert_eq!(frames.used_frames(), 1);
    assert_eq!(table.query_page(VirtAddr::new(0x1000)), Err(KError::NotMapped));
}

#[test]
fn map_without_frames_for_the_tables_changes_nothing() {
    let mut frames = frames(2);
    let mut table = PageTable::try_new(&mut frames).unwrap();
    assert_eq!(
        table.map(&mut frames, VirtAddr::new(0x1000), PhysAddr::new(0x2000), rw()),
        Err(KError::AllocationExhausted)
    );
    assert_eq!(frames.used_frames(), 1);
    assert_eq!(frames.available_frames(), 1);
    assert_eq!(table.query_page(VirtAddr::new(0x1000)), Err(KError::NotMapped));
}

#[test]
fn tables_are_created_only_where_they_are_missing() {
    let mut frames = frames(16);
    let mut table = PageTable::try_new(&mut frames).unwrap();
    assert_eq!(table.map(&mut frames, VirtAddr::new(0x1000), PhysAddr::new(0x1000), rw()), Ok(()));
    assert_eq!(frames.used_frames(), 3);
    assert_eq!(table.map(&mut frames, VirtAddr::new(0x2000), PhysAddr::new(0x2000), rw()), Ok(()));
    assert_eq!(frames.used_frames(), 3);
    assert_eq!(
        table.map(&mut frames, VirtAddr::new(0x20_0000), PhysAddr::new(0x3000), rw()),
        Ok(())
    );
    assert_eq!(frames.used_frames(), 4);
    assert_eq!(
        table.map(&mut frames, VirtAddr::new(0x4000_0000), PhysAddr::new(0x4000), rw()),
        Ok(())
    );
    assert_eq!(frames.used_frames(), 6);
    assert_eq!(table.translate(VirtAddr::new(0x1008)), Ok(PhysAddr::new(0x1008)));
    assert_eq!(table.translate(VirtAddr::new(0x2008)), Ok(PhysAddr::new(0x2008)));
    assert_eq!(table.translate(VirtAddr::new(0x20_0008)), Ok(PhysAddr::new(0x3008)));
    assert_eq!(table.translate(VirtAddr::new(0x4000_0008)), Ok(PhysAddr::new(0x4008)));
}

#[test]
fn query_page_returns_the_leaf_entry_valid_or_not() {
    let mut frames = frames(8);
    let mut table = PageTable::try_new(&mut frames).unwrap();
    let flags = PTEFlags::from_bits(PTE_R | PTE_X | PTE_V);
    assert_eq!(table.map(&mut frames, VirtAddr::new(0x5000), PhysAddr::new(0x9000), flags), Ok(()));
    assert_eq!(table.query_page(VirtAddr::new(0x5000)), Ok((PhysAddr::new(0x9000), flags)));
    assert_eq!(
        table.query_page(VirtAddr::new(0x6000)),
        Ok((PhysAddr::new(0), PTEFlags::empty()))
    );
    assert_eq!(table.query_page(VirtAddr::new(0x5010)), Err(KError::MisalignedAddress));
    assert_eq!(table.query_page(VirtAddr::new(0x20_0000)), Err(KError::NotMapped));
    assert_eq!(table.translate(VirtAddr::new(0x6000)), Err(KError::NotMapped));
}

#[test]
fn an_entry_without_the_valid_flag_does_not_translate_and_can_be_mapped_again() {
    let mut frames = frames(8);
    let mut table = PageTable::try_new(&mut frames).unwrap();
    let invalid = PTEFlags::from_bits(PTE_R | PTE_W);
    let vaddr = VirtAddr::new(0x7000);
    assert_eq!(table.map(&mut frames, vaddr, PhysAddr::new(0x9000), invalid), Ok(()));
    assert_eq!(table.translate(vaddr), Err(KError::NotMapped));
    assert_eq!(table.query_page(vaddr), Ok((PhysAddr::new(0x9000), invalid)));
    assert_eq!(table.map(&mut frames, vaddr, PhysAddr::new(0xa000), rw()), Ok(()));
    assert_eq!(table.translate(vaddr), Ok(PhysAddr::new(0xa000)));
}

#[test]
fn only_bits_12_to_38_of_an_address_choose_the_entry() {
    let mut frames = frames(8);
    let mut table = PageTable::try_new(&mut frames).unwrap();
    assert_eq!(table.map(&mut frames, VirtAddr::new(0x3000), PhysAddr::new(0x5000), rw()), Ok(()));
    assert_eq!(table.translate(VirtAddr::new((1 << 39) + 0x3004)), Ok(PhysAddr::new(0x5004)));
    assert_eq!(
        table.map(&mut frames, VirtAddr::new((1 << 39) + 0x3000), PhysAddr::new(0x6000), rw()),
        Err(KError::AlreadyMapped)
    );
}

#[test]
fn map_region_maps_consecutive_pages() {
    let mut frames = frames(16);
    let mut table = PageTable::try_new(&mut frames).unwrap();
    let r = table.map_region(&mut frames, VirtAddr::new(0x1f_e000), PhysAddr::new(0x9000_0000), 4, rw());
    assert_eq!(r, Ok(()));
    assert_eq!(frames.used_frames(), 4);
    for page in 0..4usize {
        assert_eq!(
            table.translate(VirtAddr::new(0x1f_e000 + page * 0x1000 + 0x10)),
            Ok(PhysAddr::new(0x9000_0000 + page * 0x1000 + 0x10))
        );
    }
    assert_eq!(table.translate(VirtAddr::new(0x1f_d000)), Err(KError::NotMapped));
    assert_eq!(table.translate(VirtAddr::new(0x20_2000)), Err(KError::NotMapped));
}

#[test]
fn map_region_of_no_pages() {
    let mut frames = frames(4);
    let mut table = PageTable::try_new(&mut frames).unwrap();
    assert_eq!(
        table.map_region(&mut frames, VirtAddr::new(0x1000), PhysAddr::new(0x1000), 0, rw()),
        Ok(())
    );
    assert_eq!(
        table.map_region(&mut frames, VirtAddr::new(0x1001), PhysAddr::new(0x1000), 0, rw()),
        Err(KError::MisalignedAddress)
    );
    assert_eq!(frames.used_frames(), 1);
}

#[test]
fn map_region_stops_at_the_first_page_that_fails() {
    let mut frames = frames(16);
    let mut table = PageTable::try_new(&mut frames).unwrap();
    assert_eq!(table.map(&mut frames, VirtAddr::new(0x3000), PhysAddr::new(0x7000), rw()), Ok(()));
    let r = table.map_region(&mut frames, VirtAddr::new(0x1000), PhysAddr::new(0x1000), 4, rw());
    assert_eq!(r, Err(KError::AlreadyMapped));
    assert_eq!(table.translate(VirtAddr::new(0x1000)), Ok(PhysAddr::new(0x1000)));
    assert_eq!(table.translate(VirtAddr::new(0x2000)), Ok(PhysAddr::new(0x2000)));
    assert_eq!(table.translate(VirtAddr::new(0x3000)), Ok(PhysAddr::new(0x7000)));
    assert_eq!(table.translate(VirtAddr::new(0x4000)), Err(KError::NotMapped));
}

#[test]
fn map_region_runs_out_of_frames_part_of_the_way() {
    let mut frames = frames(3);
    let mut table = PageTable::try_new(&mut frames).unwrap();
    let r = table.map_region(&mut frames, VirtAddr::new(0x1f_f000), PhysAddr::new(0x1f_f000), 2, rw());
    assert_eq!(r, Err(KError::AllocationExhausted));
    assert_eq!(table.translate(VirtAddr::new(0x1f_f000)), Ok(PhysAddr::new(0x1f_f000)));
    assert_eq!(table.translate(VirtAddr::new(0x20_0000)), Err(KError::NotMapped));
    assert_eq!(frames.available_frames(), 0);
}

#[test]
fn map_range_linear_rounds_the_end_up() {
    let mut frames = frames(16);
    let mut table = PageTable::try_new(&mut frames).unwrap();
    let r = table.map_range_linear(
        &mut frames,
        VirtAddr::new(0x8000_1000)..VirtAddr::new(0x8000_3001),
        rw(),
    );
    assert_eq!(r, Ok(()));
    assert_eq!(table.translate(VirtAddr::new(0x8000_1000)), Ok(PhysAddr::new(0x8000_1000)));
    assert_eq!(table.translate(VirtAddr::new(0x8000_2abc)), Ok(PhysAddr::new(0x8000_2abc)));
    assert_eq!(table.translate(VirtAddr::new(0x8000_3fff)), Ok(PhysAddr::new(0x8000_3fff)));
    assert_eq!(table.translate(VirtAddr::new(0x8000_4000)), Err(KError::NotMapped));
    assert_eq!(table.translate(VirtAddr::new(0x8000_0fff)), Err(KError::NotMapped));
}

#[test]
fn map_range_linear_of_an_empty_range() {
    let mut frames = frames(4);
    let mut table = PageTable::try_new(&mut frames).unwrap();
    assert_eq!(
        table.map_range_linear(&mut frames, VirtAddr::new(0x3000)..VirtAddr::new(0x3000), rw()),
        Ok(())
    );
    assert_eq!(
        table.map_range_linear(&mut frames, VirtAddr::new(0x3000)..VirtAddr::new(0x1000), rw()),
        Ok(())
    );
    assert_eq!(
        table.map_range_linear(&mut frames, VirtAddr::new(0x3001)..VirtAddr::new(0x5000), rw()),
        Err(KError::MisalignedAddress)
    );
    assert_eq!(frames.used_frames(), 1);
    assert_eq!(table.translate(VirtAddr::new(0x3000)), Err(KError::NotMapped));
}

#[test]
fn the_last_page_of_the_address_space_can_be_mapped() {
    let mut frames = frames(8);
    let mut table = PageTable::try_new(&mut frames).unwrap();
    assert_eq!(
        table.map_region(&mut frames, VirtAddr::new(TRAMPOLINE), PhysAddr::new(0x8020_5000), 1, rw()),
        Ok(())
    );
    assert_eq!(table.translate(VirtAddr::new(usize::MAX)), Ok(PhysAddr::new(0x8020_5fff)));
    assert_eq!(table.translate(VirtAddr::new(TRAMPOLINE)), Ok(PhysAddr::new(0x8020_5000)));
}

#[test]
fn release_returns_used_frames_to_what_they_were() {
    let mut frames = frames(32);
    assert!(frames.alloc_frames(3, 0x1000).is_some());
    let used = frames.used_frames();
    let available = frames.available_frames();
    let mut table = PageTable::try_new(&mut frames).unwrap();
    for i in 0..6usize {
        let vaddr = VirtAddr::new(i * 0x4000_0000 + i * 0x20_0000);
        assert_eq!(table.map(&mut frames, vaddr, PhysAddr::new(0x1000), rw()), Ok(()));
    }
    assert_eq!(frames.used_frames(), used + 1 + 12);
    table.release(&mut frames);
    assert_eq!(frames.used_frames(), used);
    assert_eq!(frames.available_frames(), available);
    assert_eq!(frames.alloc_frames(1, 0x1000), Some(PhysAddr::new(BASE + 0x3000)));
}

#[test]
fn two_tables_do_not_share_frames() {
    let mut frames = frames(16);
    let mut one = PageTable::try_new(&mut frames).unwrap();
    let mut two = PageTable::try_new(&mut frames).unwrap();
    assert_ne!(one.root_paddr(), two.root_paddr());
    assert_eq!(one.map(&mut frames, VirtAddr::new(0x1000), PhysAddr::new(0xa000), rw()), Ok(()));
    assert_eq!(two.map(&mut frames, VirtAddr::new(0x1000), PhysAddr::new(0xb000), rw()), Ok(()));
    assert_eq!(one.translate(VirtAddr::new(0x1000)), Ok(PhysAddr::new(0xa000)));
    assert_eq!(two.translate(VirtAddr::new(0x1000)), Ok(PhysAddr::new(0xb000)));
    assert_eq!(frames.used_frames(), 6);
    one.release(&mut frames);
    assert_eq!(frames.used_frames(), 3);
    assert_eq!(two.translate(VirtAddr::new(0x1000)), Ok(PhysAddr::new(0xb000)));
    two.release(&mut frames);
    assert_eq!(frames.used_frames(), 0);
}
