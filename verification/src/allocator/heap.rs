//! By how much the heap grows, and the frames it grows into.

use crate::allocator::frame::PhysFrameAllocator;
use crate::config::PAGE_SIZE_4K;
use crate::mem::addr::PhysAddr;
use vstd::arithmetic::power2::lemma_pow2_strictly_increases;
use vstd::arithmetic::power2::lemma_pow2_unfold;
use vstd::arithmetic::power2::pow2;
use vstd::prelude::*;

verus! {

/// Number of pages the heap starts with.
pub const HEAP_INIT_PAGES: usize = 8;

/// A run of frames for the heap: where it starts and how many bytes it has.
#[derive(Clone, Copy, Debug, PartialEq, Eq, Structural)]
pub struct HeapRegion {
    pub start: PhysAddr,
    pub size: usize,
}

/// The first of `p`, `2p`, `4p`, ... that is not below `n`.
pub open spec fn doubled_until(p: int, n: int) -> int
    decreases
            (if p < n {
                n - p
            } else {
                0
            }),
{
    if p >= n || p <= 0 {
        p
    } else {
        doubled_until(2 * p, n)
    }
}

/// The smallest power of two that is not below `n`.
pub open spec fn spec_next_power_of_two(n: int) -> int {
    doubled_until(1, n)
}

/// `q` is a power of two.
pub open spec fn is_power_of_two(q: int) -> bool {
    exists|k: nat| pow2(k) == q
}

/// Doubling a power of two until it reaches `n` gives a power of two that is not below `n`.
proof fn lemma_doubled_until_power(k: nat, n: int)
    ensures
        is_power_of_two(doubled_until(pow2(k) as int, n)),
        doubled_until(pow2(k) as int, n) >= n,
    decreases
            (if pow2(k) < n {
                n - pow2(k)
            } else {
                0
            }),
{
    vstd::arithmetic::power2::lemma_pow2_pos(k);
    if pow2(k) < n {
        lemma_pow2_unfold(k + 1);
        lemma_doubled_until_power(k + 1, n);
    }
}

/// Doubling a power of two until it reaches `n` gives no more than any power of two that is
/// not below `n`, provided the power of two before the start is below `n`.
proof fn lemma_doubled_until_least(k: nat, n: int, q: int)
    requires
        k > 0 ==> pow2((k - 1) as nat) < n,
        is_power_of_two(q),
        q >= n,
    ensures
        doubled_until(pow2(k) as int, n) <= q,
    decreases
            (if pow2(k) < n {
                n - pow2(k)
            } else {
                0
            }),
{
    let p = pow2(k) as int;
    vstd::arithmetic::power2::lemma_pow2_pos(k);
    if p >= n {
        let j = choose|j: nat| pow2(j) == q;
        if j < k {
            if j < k - 1 {
                lemma_pow2_strictly_increases(j, (k - 1) as nat);
            }
        } else if j > k {
            lemma_pow2_strictly_increases(k, j);
        }
    } else {
        lemma_pow2_unfold(k + 1);
        lemma_doubled_until_least(k + 1, n, q);
    }
}

/// [`spec_next_power_of_two`] is a power of two and is not below `n`, and no power of two that
/// is not below `n` is smaller.
pub proof fn lemma_next_power_of_two_least(n: int)
    ensures
        is_power_of_two(spec_next_power_of_two(n)),
        spec_next_power_of_two(n) >= n,
        forall|q: int| is_power_of_two(q) && q >= n ==> spec_next_power_of_two(n) <= q,
{
    vstd::arithmetic::power2::lemma2_to64();
    lemma_doubled_until_power(0, n);
    assert forall|q: int| is_power_of_two(q) && q >= n implies spec_next_power_of_two(n)
        <= q by {
        lemma_doubled_until_least(0, n, q);
    }
}

/// The size by which the heap grows is a power of two, at least one page, at least the size of
/// the request that could not be met and at least the size that the heap has; and it is the
/// smallest such power of two. For a request of a page or more that is larger than the heap it
/// is the smallest power of two that is not below the request.
pub proof fn lemma_expand_size(total_bytes: int, requested: int)
    ensures
        is_power_of_two(spec_expand_size(total_bytes, requested)),
        spec_expand_size(total_bytes, requested) >= PAGE_SIZE_4K,
        spec_expand_size(total_bytes, requested) >= requested,
        spec_expand_size(total_bytes, requested) >= total_bytes,
        forall|q: int|
            is_power_of_two(q) && q >= PAGE_SIZE_4K && q >= requested && q >= total_bytes
                ==> spec_expand_size(total_bytes, requested) <= q,
        requested >= total_bytes && requested >= PAGE_SIZE_4K ==> spec_expand_size(
            total_bytes,
            requested,
        ) == spec_next_power_of_two(requested),
{
    let wanted = if total_bytes >= requested {
        total_bytes
    } else {
        requested
    };
    lemma_next_power_of_two_least(wanted);
    vstd::arithmetic::power2::lemma2_to64();
    assert(pow2(12) == PAGE_SIZE_4K);
}

/// The smallest power of two that is not below `n`, or `None` when it does not fit.
pub fn next_power_of_two(n: usize) -> (r: Option<usize>)
    ensures
        r == if spec_next_power_of_two(n as int) <= usize::MAX {
            Some(spec_next_power_of_two(n as int) as usize)
        } else {
            None
        },
        spec_next_power_of_two(n as int) >= 1,
{
    proof {
        lemma_doubled_until_grows(1, n as int);
    }
    let mut p: usize = 1;
    while p < n
        invariant
            p >= 1,
            doubled_until(p as int, n as int) == spec_next_power_of_two(n as int),
        decreases
                (if p < n {
                    n - p
                } else {
                    0
                }),
    {
        if p > usize::MAX / 2 {
            proof {
                lemma_doubled_until_grows(2 * p, n as int);
            }
            return None;
        }
        p = p * 2;
    }
    Some(p)
}

/// Doubling never goes below where it starts.
proof fn lemma_doubled_until_grows(p: int, n: int)
    requires
        p > 0,
    ensures
        doubled_until(p, n) >= p,
    decreases
            (if p < n {
                n - p
            } else {
                0
            }),
{
    if p < n {
        lemma_doubled_until_grows(2 * p, n);
    }
}

/// By how many bytes the heap grows when a request for `requested` bytes cannot be met and
/// the heap has `total_bytes`: the larger of the two, rounded up to a power of two, and at
/// least one page.
pub open spec fn spec_expand_size(total_bytes: int, requested: int) -> int {
    let wanted = if total_bytes >= requested {
        total_bytes
    } else {
        requested
    };
    let rounded = spec_next_power_of_two(wanted);
    if rounded >= PAGE_SIZE_4K {
        rounded
    } else {
        PAGE_SIZE_4K as int
    }
}

/// [`spec_expand_size`], or `None` when it does not fit in a `usize`.
pub fn expand_size(total_bytes: usize, requested: usize) -> (r: Option<usize>)
    ensures
        r == if spec_expand_size(total_bytes as int, requested as int) <= usize::MAX {
            Some(spec_expand_size(total_bytes as int, requested as int) as usize)
        } else {
            None
        },
{
    let wanted: usize = if total_bytes >= requested {
        total_bytes
    } else {
        requested
    };
    match next_power_of_two(wanted) {
        Some(rounded) => if rounded >= PAGE_SIZE_4K {
            Some(rounded)
        } else {
            Some(PAGE_SIZE_4K)
        },
        None => None,
    }
}

/// What [`grow_heap`] does: when the size to grow by fits, it asks `frames` once, for that
/// many bytes of page-aligned frames, and returns the run it got; otherwise, and when the
/// allocator has no such run, it returns `None` and `frames` is as it was.
pub open spec fn heap_grows(
    frames: &PhysFrameAllocator,
    frames_after: &PhysFrameAllocator,
    total_bytes: usize,
    requested: usize,
    r: Option<HeapRegion>,
) -> bool {
    let size = spec_expand_size(total_bytes as int, requested as int);
    if size <= usize::MAX {
        &&& frames.allocates(
            frames_after,
            size / (PAGE_SIZE_4K as int),
            PAGE_SIZE_4K as int,
            match r {
                Some(region) => Some(region.start),
                None => None,
            },
        )
        &&& r is Some ==> r.unwrap().size == size
    } else {
        &&& r is None
        &&& frames_after.base() == frames.base()
        &&& frames_after.spec_total_frames() == frames.spec_total_frames()
        &&& frames_after.free_frames() == frames.free_frames()
        &&& frames_after.spec_used_frames() == frames.spec_used_frames()
    }
}

/// Takes frames for a heap that has `total_bytes` and could not meet a request for
/// `requested` bytes.
pub fn grow_heap(frames: &mut PhysFrameAllocator, total_bytes: usize, requested: usize) -> (r:
    Option<HeapRegion>)
    requires
        old(frames).wf(),
    ensures
        final(frames).wf(),
        heap_grows(old(frames), final(frames), total_bytes, requested, r),
{
    match expand_size(total_bytes, requested) {
        Some(size) => match frames.alloc_frames(size / PAGE_SIZE_4K, PAGE_SIZE_4K) {
            Some(start) => Some(HeapRegion { start, size }),
            None => None,
        },
        None => None,
    }
}

/// What the heap does next for a request.
#[derive(Clone, Copy, Debug, PartialEq, Eq, Structural)]
pub enum HeapAction {
    /// The request is met: hand out the memory at this address.
    Return(usize),
    /// The request was not met: add this run of frames to the heap and try again.
    AddMemory(HeapRegion),
    /// The request was not met and there are no frames to grow into: the request fails.
    Fail,
}

/// What [`next_heap_action`] decides, and what it does to the frame allocator on the way.
pub open spec fn heap_acts(
    frames: &PhysFrameAllocator,
    frames_after: &PhysFrameAllocator,
    attempt: Option<usize>,
    total_bytes: usize,
    requested: usize,
    r: HeapAction,
) -> bool {
    match attempt {
        Some(addr) => {
            &&& r == HeapAction::Return(addr)
            &&& frames_after.base() == frames.base()
            &&& frames_after.spec_total_frames() == frames.spec_total_frames()
            &&& frames_after.free_frames() == frames.free_frames()
            &&& frames_after.spec_used_frames() == frames.spec_used_frames()
        },
        None => match r {
            HeapAction::AddMemory(region) => heap_grows(
                frames,
                frames_after,
                total_bytes,
                requested,
                Some(region),
            ),
            HeapAction::Fail => heap_grows(frames, frames_after, total_bytes, requested, None),
            HeapAction::Return(_) => false,
        },
    }
}

/// Decides what the heap does after it has tried to meet a request for `requested` bytes:
/// `attempt` is the address it found, if it found one, `total_bytes` the size of the heap.
///
/// The heap's own lock must not be held here: frames are taken from `frames`, whose lock the
/// caller holds instead.
pub fn next_heap_action(
    frames: &mut PhysFrameAllocator,
    attempt: Option<usize>,
    total_bytes: usize,
    requested: usize,
) -> (r: HeapAction)
    requires
        old(frames).wf(),
    ensures
        final(frames).wf(),
        heap_acts(old(frames), final(frames), attempt, total_bytes, requested, r),
{
    match attempt {
        Some(addr) => HeapAction::Return(addr),
        None => match grow_heap(frames, total_bytes, requested) {
            Some(region) => HeapAction::AddMemory(region),
            None => HeapAction::Fail,
        },
    }
}

/// Takes the frames that the heap starts with: [`HEAP_INIT_PAGES`] page-aligned frames.
pub fn init_heap_allocator(frames: &mut PhysFrameAllocator) -> (r: Option<HeapRegion>)
    requires
        old(frames).wf(),
    ensures
        final(frames).wf(),
        old(frames).allocates(
            final(frames),
            HEAP_INIT_PAGES as int,
            PAGE_SIZE_4K as int,
            match r {
                Some(region) => Some(region.start),
                None => None,
            },
        ),
        r is Some ==> r.unwrap().size == HEAP_INIT_PAGES * PAGE_SIZE_4K,
{
    match frames.alloc_frames(HEAP_INIT_PAGES, PAGE_SIZE_4K) {
        Some(start) => Some(HeapRegion { start, size: HEAP_INIT_PAGES * PAGE_SIZE_4K }),
        None => None,
    }
}

/// Fills a vector with the numbers below the page size and checks what it holds: its length,
/// its first and its last element.
pub fn heap_test() -> (ok: bool)
    ensures
        ok,
{
    let mut v: Vec<usize> = Vec::new();
    let mut i: usize = 0;
    while i < PAGE_SIZE_4K
        invariant
            i <= PAGE_SIZE_4K,
            v.len() == i,
            forall|k: int| 0 <= k < i ==> v[k] == k,
        decreases PAGE_SIZE_4K - i,
    {
        v.push(i);
        i = i + 1;
    }
    v.len() == PAGE_SIZE_4K && v[0] == 0 && v[PAGE_SIZE_4K - 1] == PAGE_SIZE_4K - 1
}

} // verus!
