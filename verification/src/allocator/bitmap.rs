//! The bitmap of free frames, kept in a `bitmap_allocator::BitAlloc1M`.
//!
//! Nothing in this file is proved: each function states what the outside code does.

use bitmap_allocator::BitAlloc;
use bitmap_allocator::BitAlloc1M;
use vstd::arithmetic::power2::pow2;
use vstd::prelude::*;
use vstd::set_lib::set_int_range;

verus! {

/// Number of bits a [`FrameBitmap`] holds; bits are numbered from 0.
pub const BITMAP_CAPACITY: usize = 0x10_0000;

/// A `bitmap_allocator::BitAlloc1M`: one bit per frame, set while the frame is free.
///
/// The segment tree inside is not visible to the verifier; what it holds is named by
/// [`free_bits`], and every statement about it is one of the contracts in this file.
#[verifier::external_body]
pub struct FrameBitmap {
    inner: BitAlloc1M,
}

/// The positions of the bits that are currently set (free) in the bitmap.
pub uninterp spec fn free_bits(bitmap: FrameBitmap) -> Set<int>;

/// Every position in `[base, base + size)` is in `free`.
pub open spec fn run_is_free(free: Set<int>, base: int, size: int) -> bool {
    forall|i: int| base <= i < base + size ==> #[trigger] free.contains(i)
}

/// A run of `size` free bits starts at `base`, lies inside the bitmap, and `base` is a multiple
/// of two to the power `align_log2`.
pub open spec fn run_fits(free: Set<int>, base: int, size: int, align_log2: nat) -> bool {
    &&& 0 <= base
    &&& base + size <= BITMAP_CAPACITY
    &&& base % (pow2(align_log2) as int) == 0
    &&& run_is_free(free, base, size)
}

/// `BitAlloc1M::DEFAULT`: a bitmap in which no bit is free.
#[verifier::external_body]
pub(crate) fn bitmap_new() -> (bitmap: FrameBitmap)
    ensures
        free_bits(bitmap) == Set::<int>::empty(),
{
    FrameBitmap { inner: BitAlloc1M::DEFAULT }
}

/// `BitAlloc::insert`: marks every bit of `[start, end)` free. The outside code asserts
/// `end <= CAP` and cannot take an empty range.
#[verifier::external_body]
pub(crate) fn bitmap_insert(bitmap: &mut FrameBitmap, start: usize, end: usize)
    requires
        start < end <= BITMAP_CAPACITY,
    ensures
        free_bits(*final(bitmap)) == free_bits(*old(bitmap)).union(
            set_int_range(start as int, end as int),
        ),
{
    bitmap.inner.insert(start..end)
}

/// `BitAlloc::alloc`: takes the lowest free bit, or returns `None` when no bit is free.
#[verifier::external_body]
pub(crate) fn bitmap_alloc(bitmap: &mut FrameBitmap) -> (r: Option<usize>)
    ensures
        match r {
            Some(i) => {
                &&& i < BITMAP_CAPACITY
                &&& free_bits(*old(bitmap)).contains(i as int)
                &&& forall|j: int| #[trigger] free_bits(*old(bitmap)).contains(j) ==> i <= j
                &&& free_bits(*final(bitmap)) == free_bits(*old(bitmap)).remove(i as int)
            },
            None => {
                &&& forall|j: int| !#[trigger] free_bits(*old(bitmap)).contains(j)
                &&& free_bits(*final(bitmap)) == free_bits(*old(bitmap))
            },
        },
{
    bitmap.inner.alloc()
}

/// `BitAlloc::alloc_contiguous`: takes a run of `size` free bits whose first position is a
/// multiple of two to the power `align_log2`. With `base` given, only the run that starts there
/// is tried; without it, the lowest run that fits is taken. Nothing is taken for `size == 0`,
/// nor when the alignment exceeds the bitmap's capacity.
#[verifier::external_body]
pub(crate) fn bitmap_alloc_contiguous(
    bitmap: &mut FrameBitmap,
    base: Option<usize>,
    size: usize,
    align_log2: usize,
) -> (r: Option<usize>)
    requires
        align_log2 < 32,
    ensures
        match r {
            Some(b) => {
                &&& size >= 1
                &&& pow2(align_log2 as nat) <= BITMAP_CAPACITY
                &&& run_fits(free_bits(*old(bitmap)), b as int, size as int, align_log2 as nat)
                &&& match base {
                    Some(wanted) => b == wanted,
                    None => forall|c: int|
                        0 <= c < b ==> !#[trigger] run_fits(
                            free_bits(*old(bitmap)),
                            c,
                            size as int,
                            align_log2 as nat,
                        ),
                }
                &&& free_bits(*final(bitmap)) == free_bits(*old(bitmap)).difference(
                    set_int_range(b as int, b + size),
                )
            },
            None => {
                &&& free_bits(*final(bitmap)) == free_bits(*old(bitmap))
                &&& size == 0 || pow2(align_log2 as nat) > BITMAP_CAPACITY || match base {
                    Some(wanted) => !run_fits(
                        free_bits(*old(bitmap)),
                        wanted as int,
                        size as int,
                        align_log2 as nat,
                    ),
                    None => forall|c: int|
                        !#[trigger] run_fits(
                            free_bits(*old(bitmap)),
                            c,
                            size as int,
                            align_log2 as nat,
                        ),
                }
            },
        },
{
    bitmap.inner.alloc_contiguous(base, size, align_log2)
}

/// `BitAlloc::next`: the lowest free bit at or above `key`, if there is one.
#[verifier::external_body]
pub(crate) fn bitmap_next(bitmap: &FrameBitmap, key: usize) -> (r: Option<usize>)
    ensures
        match r {
            Some(i) => {
                &&& key <= i < BITMAP_CAPACITY
                &&& free_bits(*bitmap).contains(i as int)
                &&& forall|j: int| key <= j < i ==> !#[trigger] free_bits(*bitmap).contains(j)
            },
            None => forall|j: int| key <= j ==> !#[trigger] free_bits(*bitmap).contains(j),
        },
{
    bitmap.inner.next(key)
}

/// `BitAlloc::dealloc_contiguous`: frees the bits of `[base, base + size)`. It succeeds, and
/// frees them all, exactly when none of them was free before; when it fails, some of them may
/// have been freed all the same.
#[verifier::external_body]
pub(crate) fn bitmap_dealloc_contiguous(bitmap: &mut FrameBitmap, base: usize, size: usize) -> (r:
    bool)
    requires
        size >= 1,
        base + size <= BITMAP_CAPACITY,
    ensures
        r == free_bits(*old(bitmap)).disjoint(set_int_range(base as int, base + size)),
        r ==> free_bits(*final(bitmap)) == free_bits(*old(bitmap)).union(
            set_int_range(base as int, base + size),
        ),
        free_bits(*old(bitmap)).subset_of(free_bits(*final(bitmap))),
        free_bits(*final(bitmap)).subset_of(
            free_bits(*old(bitmap)).union(set_int_range(base as int, base + size)),
        ),
{
    bitmap.inner.dealloc_contiguous(base, size)
}

} // verus!
