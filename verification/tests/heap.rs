use kernel::allocator::frame::PhysFrameAllocator;
use kernel::allocator::heap::expand_size;
use kernel::allocator::heap::grow_heap;
use kernel::allocator::heap::heap_test;
use kernel::allocator::heap::init_heap_allocator;
use kernel::allocator::heap::next_heap_action;
use kernel::allocator::heap::next_power_of_two;
use kernel::allocator::heap::HeapAction;
use kernel::allocator::heap::HeapRegion;
use kernel::mem::addr::PhysAddr;

const BASE: usize = 0x8020_0000;

fn frames(count: usize) -> PhysFrameAllocator {
    let mut frames = PhysFrameAllocator::new();
    assert!(frames.init(PhysAddr::new(BASE), count * 0x1000));
    frames
}

#[test]
fn next_power_of_two_values() {
    assert_eq!(next_power_of_two(0), Some(1));
    assert_eq!(next_power_of_two(1), Some(1));
    assert_eq!(next_power_of_two(2), Some(2));
    assert_eq!(next_power_of_two(3), Some(4));
    assert_eq!(next_power_of_two(4096), Some(4096));
    assert_eq!(next_power_of_two(4097), Some(8192));
    assert_eq!(next_power_of_two(usize::MAX / 2 + 1), Some(usize::MAX / 2 + 1));
    assert_eq!(next_power_of_two(usize::MAX / 2 + 2), None);
    assert_eq!(next_power_of_two(usize::MAX), None);
}

#[test]
fn next_power_of_two_agrees_with_the_standard_library() {
    for n in 0usize..5000 {
        assert_eq!(next_power_of_two(n), n.checked_next_power_of_two());
    }
}

#[test]
fn expand_size_values() {
    assert_eq!(expand_size(0, 0), Some(0x1000));
    assert_eq!(expand_size(0, 1), Some(0x1000));
    assert_eq!(expand_size(0x8000, 16), Some(0x8000));
    assert_eq!(expand_size(0x8000, 0x8001), Some(0x10000));
    assert_eq!(expand_size(0x9000, 16), Some(0x10000));
    assert_eq!(expand_size(0x8000, 0x2_0000), Some(0x2_0000));
    assert_eq!(expand_size(100, 5000), Some(0x2000));
    assert_eq!(expand_size(usize::MAX, 1), None);
}

#[test]
fn heap_starts_with_eight_pages() {
    let mut frames = frames(32);
    assert_eq!(
        init_heap_allocator(&mut frames),
        Some(HeapRegion { start: PhysAddr::new(BASE), size: 0x8000 })
    );
    assert_eq!(frames.used_frames(), 8);
}

#[test]
fn heap_cannot_start_without_eight_contiguous_frames() {
    let mut frames = frames(7);
    assert_eq!(init_heap_allocator(&mut frames), None);
    assert_eq!(frames.used_frames(), 0);
}

#[test]
fn growth_asks_once_for_the_next_power_of_two() {
    let mut frames = frames(64);
    let heap = init_heap_allocator(&mut frames).unwrap();
    let grown = grow_heap(&mut frames, heap.size, 0x9000);
    assert_eq!(grown, Some(HeapRegion { start: PhysAddr::new(BASE + 0x8000), size: 0x10000 }));
    assert_eq!(frames.used_frames(), 8 + 16);
}

#[test]
fn growth_doubles_the_heap_for_a_small_request() {
    let mut frames = frames(64);
    let heap = init_heap_allocator(&mut frames).unwrap();
    let grown = grow_heap(&mut frames, heap.size, 64);
    assert_eq!(grown, Some(HeapRegion { start: PhysAddr::new(BASE + 0x8000), size: 0x8000 }));
    assert_eq!(frames.used_frames(), 16);
}

#[test]
fn growth_fails_without_frames_and_takes_nothing() {
    let mut frames = frames(12);
    let heap = init_heap_allocator(&mut frames).unwrap();
    assert_eq!(grow_heap(&mut frames, heap.size, 64), None);
    assert_eq!(frames.used_frames(), 8);
    assert_eq!(grow_heap(&mut frames, usize::MAX, 64), None);
    assert_eq!(frames.used_frames(), 8);
}

#[test]
fn heap_test_passes() {
    assert!(heap_test());
}

#[test]
fn a_request_that_is_met_takes_no_frames() {
    let mut frames = frames(64);
    assert_eq!(next_heap_action(&mut frames, Some(0x8020_0040), 0x8000, 64), HeapAction::Return(0x8020_0040));
    assert_eq!(frames.used_frames(), 0);
}

#[test]
fn a_request_that_is_not_met_grows_the_heap_once_and_then_is_met() {
    let mut frames = frames(64);
    let heap = init_heap_allocator(&mut frames).unwrap();
    let action = next_heap_action(&mut frames, None, heap.size, 0x2_0000);
    assert_eq!(
        action,
        HeapAction::AddMemory(HeapRegion { start: PhysAddr::new(BASE + 0x8000), size: 0x2_0000 })
    );
    assert_eq!(frames.used_frames(), 8 + 32);
    let total = heap.size + 0x2_0000;
    assert_eq!(next_heap_action(&mut frames, Some(BASE + 0x8000), total, 0x2_0000), HeapAction::Return(BASE + 0x8000));
    assert_eq!(frames.used_frames(), 8 + 32);
}

#[test]
fn a_request_that_is_not_met_fails_without_frames() {
    let mut frames = frames(10);
    let heap = init_heap_allocator(&mut frames).unwrap();
    assert_eq!(next_heap_action(&mut frames, None, heap.size, 0x2_0000), HeapAction::Fail);
    assert_eq!(frames.used_frames(), 8);
}
