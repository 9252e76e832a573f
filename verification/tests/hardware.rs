use kernel::allocator::frame::PhysFrameAllocator;
use kernel::config::TRAMPOLINE;
use kernel::dtb::parse;
use kernel::mem::addr::PhysAddr;
use kernel::mem::addr::VirtAddr;
use kernel::mem::page_table::PageTable;
use kernel::mem::pte::PTEFlags;
use kernel::mem::pte::PTE_R;
use kernel::mem::pte::PTE_V;
use kernel::mem::pte::PTE_W;
use kernel::mem::space::init_kernel_space;
use kernel::mem::space::KernelLayout;
use std::collections::HashMap;

const BASE: usize = 0x8020_0000;

fn frames(count: usize) -> PhysFrameAllocator {
    let mut frames = PhysFrameAllocator::new();
    assert!(frames.init(PhysAddr::new(BASE), count * 0x1000));
    frames
}

fn memory_of(table: &PageTable) -> HashMap<usize, Vec<u64>> {
    let mut memory = HashMap::new();
    for image in table.images() {
        assert_eq!(image.words.len(), 512);
        assert_eq!(image.paddr.as_usize() % 0x1000, 0);
        assert!(memory.insert(image.paddr.as_usize(), image.words).is_none());
    }
    memory
}

fn walk(memory: &HashMap<usize, Vec<u64>>, root: usize, vaddr: usize) -> Option<usize> {
    let mut table = root;
    for level in [2usize, 1, 0] {
        let index = (vaddr >> (12 + 9 * level)) & 0x1ff;
        let word = memory.get(&table)?[index];
        if word & 1 == 0 {
            return None;
        }
        let frame = ((word >> 10) << 12) as usize;
        if level == 0 {
            return Some(frame + (vaddr & 0xfff));
        }
        table = frame;
    }
    None
}

#[test]
fn a_placeholder_has_no_image() {
    assert!(PageTable::empty().images().is_empty());
}

#[test]
fn a_new_table_has_the_image_of_an_empty_root() {
    let mut frames = frames(4);
    let table = PageTable::try_new(&mut frames).unwrap();
    let images = table.images();
    assert_eq!(images.len(), 1);
    assert_eq!(images[0].paddr, table.root_paddr());
    assert_eq!(images[0].words, vec![0u64; 512]);
}

#[test]
fn images_hold_pointers_and_leaf_entries() {
    let mut frames = frames(8);
    let mut table = PageTable::try_new(&mut frames).unwrap();
    let flags = PTEFlags::from_bits(PTE_R | PTE_W | PTE_V);
    let vaddr = (3 << 30) | (5 << 21) | (7 << 12);
    assert_eq!(table.map(&mut frames, VirtAddr::new(vaddr), PhysAddr::new(0x9000_3000), flags), Ok(()));
    let memory = memory_of(&table);
    assert_eq!(memory.len(), 3);
    let root = &memory[&BASE];
    let second = &memory[&(BASE + 0x1000)];
    let third = &memory[&(BASE + 0x2000)];
    assert_eq!(root[3], (((BASE + 0x1000) as u64 >> 12) << 10) | 1);
    assert_eq!(second[5], (((BASE + 0x2000) as u64 >> 12) << 10) | 1);
    assert_eq!(third[7], ((0x9000_3000u64 >> 12) << 10) | 7);
    assert_eq!(root.iter().filter(|word| **word != 0).count(), 1);
    assert_eq!(second.iter().filter(|word| **word != 0).count(), 1);
    assert_eq!(third.iter().filter(|word| **word != 0).count(), 1);
}

#[test]
fn the_hardware_walk_agrees_with_translate() {
    let mut frames = frames(64);
    let mut table = PageTable::try_new(&mut frames).unwrap();
    let flags = PTEFlags::from_bits(PTE_R | PTE_V);
    let mut mapped = Vec::new();
    for i in 0..40usize {
        let vaddr = (i % 3) * 0x4000_0000 + (i % 5) * 0x20_0000 + i * 0x1000;
        let paddr = 0x9000_0000 + i * 0x3000;
        assert_eq!(table.map(&mut frames, VirtAddr::new(vaddr), PhysAddr::new(paddr), flags), Ok(()));
        mapped.push(vaddr);
    }
    let invalid = PTEFlags::from_bits(PTE_R);
    assert_eq!(table.map(&mut frames, VirtAddr::new(0x7000_0000), PhysAddr::new(0x1000), invalid), Ok(()));
    let memory = memory_of(&table);
    assert_eq!(memory.len(), frames.used_frames());
    let root = table.root_paddr().as_usize();
    let mut probes = vec![0, 0x1000, 0x7000_0000, 0x7000_0abc, 0x4000_0000, 0x20_0000, usize::MAX];
    for vaddr in mapped {
        probes.push(vaddr);
        probes.push(vaddr + 0x123);
        probes.push(vaddr + 0x1000);
        probes.push(vaddr.wrapping_sub(1));
    }
    for vaddr in probes {
        let expected = table.translate(VirtAddr::new(vaddr)).ok().map(|paddr| paddr.as_usize());
        assert_eq!(walk(&memory, root, vaddr), expected);
    }
}

#[test]
fn the_hardware_walk_of_the_kernel_space() {
    let image = 0x8020_0000;
    let layout = KernelLayout {
        stext: image,
        strampoline: image + 0x1000,
        etrampoline: image + 0x2000,
        etext: image + 0x3000,
        srodata: image + 0x3000,
        erodata: image + 0x4000,
        sdata: image + 0x4000,
        edata: image + 0x5000,
        sstack: image + 0x5000,
        estack: image + 0x8000,
        sbss: image + 0x8000,
        ebss: image + 0x9000,
        ekernel: image + 0x9000,
    };
    let meta = parse(
        &[(0x8000_0000, Some(0x40_0000))],
        &[0],
        &[Some((0x1000_1000, Some(0x1000)))],
    )
    .unwrap();
    let mut frames = PhysFrameAllocator::new();
    assert!(frames.init(PhysAddr::new(image + 0x9000), 0x8040_0000 - image - 0x9000));
    let space = init_kernel_space(&mut frames, &layout, &meta).unwrap();
    let table = space.page_table();
    let memory = memory_of(table);
    let root = table.root_paddr().as_usize();
    for vaddr in (image..0x8040_0000).step_by(0x1000) {
        assert_eq!(walk(&memory, root, vaddr + 8), Some(vaddr + 8));
    }
    assert_eq!(walk(&memory, root, 0x1000_1ff0), Some(0x1000_1ff0));
    assert_eq!(walk(&memory, root, TRAMPOLINE + 4), Some(image + 0x1004));
    assert_eq!(walk(&memory, root, image - 1), None);
    assert_eq!(walk(&memory, root, 0x8040_0000), None);
}
