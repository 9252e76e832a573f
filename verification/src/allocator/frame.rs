//! The allocator of physical frames.

use crate::allocator::bitmap::bitmap_alloc;
use crate::allocator::bitmap::bitmap_alloc_contiguous;
use crate::allocator::bitmap::bitmap_dealloc_contiguous;
use crate::allocator::bitmap::bitmap_insert;
use crate::allocator::bitmap::bitmap_new;
use crate::allocator::bitmap::bitmap_next;
use crate::allocator::bitmap::free_bits;
use crate::allocator::bitmap::run_fits;
use crate::allocator::bitmap::run_is_free;
use crate::allocator::bitmap::FrameBitmap;
use crate::allocator::bitmap::BITMAP_CAPACITY;
use crate::config::PAGE_SIZE_4K;
use crate::dtb::MachineMeta;
use crate::mem::addr::align_down;
use crate::mem::addr::align_up;
use crate::mem::addr::spec_align_down;
use crate::mem::addr::spec_align_up;
use crate::mem::addr::PhysAddr;
use vstd::arithmetic::div_mod::lemma_fundamental_div_mod;
use vstd::arithmetic::div_mod::lemma_fundamental_div_mod_converse;
use vstd::arithmetic::div_mod::lemma_mod_add_multiples_vanish;
use vstd::arithmetic::div_mod::lemma_mod_multiples_vanish;
use vstd::arithmetic::div_mod::lemma_truncate_middle;
use vstd::arithmetic::power2::lemma2_to64;
use vstd::arithmetic::power2::lemma_pow2_unfold;
use vstd::arithmetic::power2::pow2;
use vstd::prelude::*;
use vstd::set_lib::lemma_int_range;
use vstd::set_lib::lemma_set_difference_len;
use vstd::set_lib::lemma_set_disjoint_lens;
use vstd::set_lib::set_int_range;

verus! {

/// Hands out the frames of one window of physical memory.
///
/// Frames are numbered from 0 at the window's base. A bitmap holds which of them are free; two
/// counters are kept beside it so that the accounting queries take constant time.
pub struct PhysFrameAllocator {
    base: usize,
    total_frames: usize,
    used_frames: usize,
    inner: FrameBitmap,
}

/// Taking a free run out of a finite set shrinks it by the run's length.
proof fn lemma_take_run(free: Set<int>, lo: int, n: int)
    requires
        free.finite(),
        n >= 0,
        run_is_free(free, lo, n),
    ensures
        free.difference(set_int_range(lo, lo + n)).finite(),
        free.difference(set_int_range(lo, lo + n)).len() == free.len() - n,
{
    let run = set_int_range(lo, lo + n);
    lemma_int_range(lo, lo + n);
    assert(free.intersect(run) =~= run);
    lemma_set_difference_len(free, run);
}

/// Adding a run that shares nothing with a finite set grows it by the run's length.
proof fn lemma_give_run(free: Set<int>, lo: int, n: int)
    requires
        free.finite(),
        n >= 0,
        free.disjoint(set_int_range(lo, lo + n)),
    ensures
        free.union(set_int_range(lo, lo + n)).finite(),
        free.union(set_int_range(lo, lo + n)).len() == free.len() + n,
{
    let run = set_int_range(lo, lo + n);
    lemma_int_range(lo, lo + n);
    lemma_set_disjoint_lens(free, run);
}

/// The frame `idx` frames above a page-aligned `base` is a multiple of `stride` pages exactly
/// when its absolute frame number is a multiple of `stride`.
proof fn lemma_frame_alignment(base: int, idx: int, stride: int)
    requires
        0 <= base,
        base % (PAGE_SIZE_4K as int) == 0,
        0 <= idx,
        0 < stride,
    ensures
        ((base + idx * PAGE_SIZE_4K) % (stride * PAGE_SIZE_4K) == 0) <==> ((base / (
        PAGE_SIZE_4K as int) + idx) % stride == 0),
{
    let page = PAGE_SIZE_4K as int;
    let number = base / page + idx;
    lemma_fundamental_div_mod(base, page);
    assert(base + idx * page == page * number) by (nonlinear_arith)
        requires
            base == page * (base / page),
            number == base / page + idx,
    ;
    assert(0 <= number) by (nonlinear_arith)
        requires
            0 <= base,
            0 <= idx,
            page == 4096,
            number == base / page + idx,
    ;
    lemma_truncate_middle(number, page, stride);
    assert(stride * page == page * stride) by (nonlinear_arith);
    assert((page * (number % stride) == 0) <==> (number % stride == 0)) by (nonlinear_arith)
        requires
            page == 4096,
    ;
}

/// Adding `c < d` to a multiple of `d` leaves the remainder `c`.
proof fn lemma_mod_above_multiple(x: int, d: int, c: int)
    requires
        0 < d,
        0 <= c < d,
    ensures
        (x - x % d + c) % d == c,
{
    lemma_fundamental_div_mod(x, d);
    assert(x - x % d + c == (x / d) * d + c) by (nonlinear_arith)
        requires
            x == d * (x / d) + x % d,
    ;
    lemma_fundamental_div_mod_converse(x - x % d + c, d, x / d, c);
}

/// The exponent `k <= 20` with `stride == 2^k`; `None` when no such exponent exists.
fn exact_log2(stride: usize) -> (r: Option<usize>)
    ensures
        match r {
            Some(k) => k <= 20 && pow2(k as nat) == stride,
            None => forall|k: nat| k <= 20 ==> #[trigger] pow2(k) != stride,
        },
{
    let mut k: usize = 0;
    let mut p: usize = 1;
    proof {
        lemma2_to64();
    }
    while p < stride && k < 20
        invariant
            k <= 20,
            p == pow2(k as nat),
            p <= 0x10_0000,
            forall|j: nat| j < k ==> #[trigger] pow2(j) < stride,
        decreases 20 - k,
    {
        proof {
            lemma_pow2_unfold((k + 1) as nat);
            lemma2_to64();
            if k + 1 <= 20 {
                vstd::arithmetic::power2::lemma_pow2_strictly_increases((k + 1) as nat, 21);
            }
        }
        p = p * 2;
        k = k + 1;
    }
    if p == stride {
        Some(k)
    } else {
        proof {
            assert forall|j: nat| j <= 20 implies #[trigger] pow2(j) != stride by {
                if j > k {
                    vstd::arithmetic::power2::lemma_pow2_strictly_increases(k as nat, j);
                }
            }
        }
        None
    }
}

impl PhysFrameAllocator {
    /// Physical address of frame 0.
    pub closed spec fn base(&self) -> usize {
        self.base
    }

    pub closed spec fn spec_total_frames(&self) -> usize {
        self.total_frames
    }

    pub closed spec fn spec_used_frames(&self) -> usize {
        self.used_frames
    }

    /// The numbers of the frames that are free.
    pub closed spec fn free_frames(&self) -> Set<int> {
        free_bits(self.inner)
    }

    /// How many frames are free.
    pub open spec fn spec_available_frames(&self) -> nat {
        self.free_frames().len()
    }

    /// The window is page-aligned and fits in the address range and in the bitmap, only frames
    /// of the window are free, and the used counter holds the number of frames that are not.
    pub open spec fn wf(&self) -> bool {
        &&& self.base() % PAGE_SIZE_4K == 0
        &&& self.base() + self.spec_total_frames() * PAGE_SIZE_4K <= usize::MAX
        &&& self.spec_total_frames() <= BITMAP_CAPACITY
        &&& self.free_frames().finite()
        &&& self.free_frames().subset_of(set_int_range(0, self.spec_total_frames() as int))
        &&& self.spec_used_frames() + self.free_frames().len() == self.spec_total_frames()
    }

    /// Physical address of frame `idx`.
    pub open spec fn frame_addr(&self, idx: int) -> int {
        self.base() + idx * PAGE_SIZE_4K
    }

    /// Number of the frame that holds `addr`.
    pub open spec fn frame_index(&self, addr: int) -> int {
        (addr - self.base()) / (PAGE_SIZE_4K as int)
    }

    /// `addr` is the address of a frame of the window.
    pub open spec fn owns_frame(&self, addr: int) -> bool {
        &&& self.base() <= addr
        &&& addr % (PAGE_SIZE_4K as int) == 0
        &&& self.frame_index(addr) < self.spec_total_frames()
    }

    /// The frames `[idx, idx + n)` lie in the window.
    pub open spec fn run_in_window(&self, idx: int, n: int) -> bool {
        0 <= idx && idx + n <= self.spec_total_frames()
    }

    /// The frames `[idx, idx + n)` lie in the window and none of them is free.
    pub open spec fn run_allocated(&self, idx: int, n: int) -> bool {
        &&& self.run_in_window(idx, n)
        &&& self.free_frames().disjoint(set_int_range(idx, idx + n))
    }

    /// The frames `[idx, idx + n)` lie in the window, all are free, and the first one's address
    /// is a multiple of `align`.
    pub open spec fn run_available(&self, idx: int, n: int, align: int) -> bool {
        &&& self.run_in_window(idx, n)
        &&& self.frame_addr(idx) % align == 0
        &&& run_is_free(self.free_frames(), idx, n)
    }

    /// What [`Self::alloc_frames`] does: `after` is the allocator that `self` becomes, `r` the
    /// result. On success the run is the lowest one available, its frames leave the free set
    /// and the used counter grows by their number; on failure no run was available and nothing
    /// has changed.
    pub open spec fn allocates(&self, after: &Self, n: int, align: int, r: Option<PhysAddr>) -> bool {
        &&& after.base() == self.base()
        &&& after.spec_total_frames() == self.spec_total_frames()
        &&& match r {
            Some(addr) => {
                let idx = self.frame_index(addr.0 as int);
                &&& addr.0 == self.frame_addr(idx)
                &&& addr.0 as int % align == 0
                &&& self.run_available(idx, n, align)
                &&& forall|c: int| c < idx ==> !#[trigger] self.run_available(c, n, align)
                &&& after.free_frames() == self.free_frames().difference(
                    set_int_range(idx, idx + n),
                )
                &&& after.spec_used_frames() == self.spec_used_frames() + n
            },
            None => {
                &&& forall|c: int| !#[trigger] self.run_available(c, n, align)
                &&& after.free_frames() == self.free_frames()
                &&& after.spec_used_frames() == self.spec_used_frames()
            },
        }
    }

    /// What [`Self::dealloc_frames`] does: it succeeds exactly when `pos` is a frame of the
    /// window and the `n` frames from it on lie in the window and are all allocated; they then
    /// join the free set and the used counter shrinks by `n`. Otherwise nothing has changed.
    pub open spec fn deallocates(&self, after: &Self, pos: PhysAddr, n: int, ok: bool) -> bool {
        let idx = self.frame_index(pos.0 as int);
        &&& after.base() == self.base()
        &&& after.spec_total_frames() == self.spec_total_frames()
        &&& ok == (n >= 1 && self.owns_frame(pos.0 as int) && self.run_allocated(idx, n))
        &&& ok ==> {
            &&& after.free_frames() == self.free_frames().union(set_int_range(idx, idx + n))
            &&& after.spec_used_frames() == self.spec_used_frames() - n
        }
        &&& !ok ==> {
            &&& after.free_frames() == self.free_frames()
            &&& after.spec_used_frames() == self.spec_used_frames()
        }
    }

    /// What [`Self::alloc_range`] does: it succeeds exactly when `start` is a frame of the
    /// window and the `n` frames from it on lie in the window and are all free; they then leave
    /// the free set and the used counter grows by `n`. Otherwise nothing has changed.
    pub open spec fn reserves(&self, after: &Self, start: PhysAddr, n: int, ok: bool) -> bool {
        let idx = self.frame_index(start.0 as int);
        &&& after.base() == self.base()
        &&& after.spec_total_frames() == self.spec_total_frames()
        &&& ok == (n >= 1 && self.owns_frame(start.0 as int) && self.run_available(
            idx,
            n,
            PAGE_SIZE_4K as int,
        ))
        &&& ok ==> {
            &&& after.free_frames() == self.free_frames().difference(set_int_range(idx, idx + n))
            &&& after.spec_used_frames() == self.spec_used_frames() + n
        }
        &&& !ok ==> {
            &&& after.free_frames() == self.free_frames()
            &&& after.spec_used_frames() == self.spec_used_frames()
        }
    }

    /// At every moment the frames of the window are the used ones and the free ones.
    pub proof fn lemma_accounting(&self)
        requires
            self.wf(),
        ensures
            self.spec_total_frames() == self.spec_used_frames() + self.spec_available_frames(),
    {
    }

    /// A free frame can be taken by a request for one page-aligned frame.
    pub proof fn lemma_free_frame_available(&self, c: int)
        requires
            self.wf(),
            self.free_frames().contains(c),
        ensures
            self.run_available(c, 1, PAGE_SIZE_4K as int),
            0 <= c < self.spec_total_frames(),
    {
        lemma_frame_alignment(self.base() as int, c, 1);
    }

    /// The address that an allocation returns is a multiple of the alignment asked for.
    pub proof fn lemma_alloc_aligned(&self, after: &Self, n: int, align: int, addr: PhysAddr)
        requires
            self.allocates(after, n, align, Some(addr)),
        ensures
            addr.0 as int % align == 0,
    {
    }

    /// Giving back what an allocation returned brings the allocator back to where it was: the
    /// deallocation succeeds, and the free frames, their number and the used counter are what
    /// they were before the allocation.
    pub proof fn lemma_alloc_dealloc_round_trip(
        &self,
        mid: &Self,
        after: &Self,
        n: int,
        align: int,
        addr: PhysAddr,
        ok: bool,
    )
        requires
            self.wf(),
            n >= 1,
            self.allocates(mid, n, align, Some(addr)),
            mid.deallocates(after, addr, n, ok),
        ensures
            ok,
            after.free_frames() == self.free_frames(),
            after.spec_available_frames() == self.spec_available_frames(),
            after.spec_used_frames() == self.spec_used_frames(),
    {
        let idx = self.frame_index(addr.0 as int);
        let run = set_int_range(idx, idx + n);
        assert(self.free_frames().contains(idx));
        lemma_fundamental_div_mod_converse(
            addr.0 as int - self.base(),
            PAGE_SIZE_4K as int,
            idx,
            0,
        );
        lemma_frame_alignment(self.base() as int, idx, 1);
        assert(mid.free_frames().disjoint(run));
        assert(self.free_frames().difference(run).union(run) =~= self.free_frames());
    }

    /// An allocator over an empty window.
    pub fn new() -> (r: Self)
        ensures
            r.wf(),
            r.base() == 0,
            r.spec_total_frames() == 0,
            r.spec_used_frames() == 0,
            r.free_frames() == Set::<int>::empty(),
    {
        Self { base: 0, total_frames: 0, used_frames: 0, inner: bitmap_new() }
    }

    /// The frames that lie whole inside `[start, start + size)`: the address of the first and
    /// their number, if the window's end fits in an address and the frames fit in the bitmap.
    pub open spec fn window_of(start: int, size: int) -> Option<(int, int)> {
        let first = spec_align_up(start, PAGE_SIZE_4K as int);
        let end = spec_align_down(start + size, PAGE_SIZE_4K as int);
        let count = if end <= first {
            0
        } else {
            (end - first) / (PAGE_SIZE_4K as int)
        };
        if start + size > usize::MAX || first > usize::MAX || count > BITMAP_CAPACITY {
            None
        } else {
            Some((first, count))
        }
    }

    /// Takes over the frames that lie whole inside `[start, start + size)` and marks them all
    /// free; whatever the allocator held before is forgotten. Returns `false`, and changes
    /// nothing, when the window does not fit in the address range or has more frames than the
    /// bitmap has bits.
    pub fn init(&mut self, start: PhysAddr, size: usize) -> (ok: bool)
        ensures
            ok == Self::window_of(start.0 as int, size as int).is_some(),
            ok ==> {
                let (first, count) = Self::window_of(start.0 as int, size as int).unwrap();
                &&& final(self).wf()
                &&& final(self).base() == first
                &&& final(self).spec_total_frames() == count
                &&& final(self).spec_used_frames() == 0
                &&& final(self).free_frames() == set_int_range(0, count)
            },
            !ok ==> *final(self) == *old(self),
    {
        let first: usize = match align_up(start.as_usize(), PAGE_SIZE_4K) {
            Some(first) => first,
            None => {
                return false;
            },
        };
        let limit: usize = match start.as_usize().checked_add(size) {
            Some(limit) => limit,
            None => {
                return false;
            },
        };
        let end: usize = align_down(limit, PAGE_SIZE_4K);
        let count: usize = if end <= first {
            0
        } else {
            (end - first) / PAGE_SIZE_4K
        };
        if count > BITMAP_CAPACITY {
            return false;
        }
        proof {
            if end > first {
                lemma_fundamental_div_mod((end - first) as int, PAGE_SIZE_4K as int);
            }
        }
        let mut bitmap = bitmap_new();
        if count > 0 {
            bitmap_insert(&mut bitmap, 0, count);
        }
        self.base = first;
        self.total_frames = count;
        self.used_frames = 0;
        self.inner = bitmap;
        proof {
            assert(self.free_frames() =~= set_int_range(0, count as int));
            lemma_int_range(0, count as int);
        }
        true
    }

    /// Takes the first run of `n` free frames whose address is a multiple of `stride` pages.
    fn take_run(&mut self, n: usize, stride: usize) -> (r: Option<usize>)
        requires
            old(self).wf(),
            n >= 1,
            stride >= 1,
            stride * PAGE_SIZE_4K <= usize::MAX,
        ensures
            final(self).base() == old(self).base(),
            final(self).spec_total_frames() == old(self).spec_total_frames(),
            final(self).spec_used_frames() == old(self).spec_used_frames(),
            match r {
                Some(idx) => {
                    &&& old(self).run_available(idx as int, n as int, stride * PAGE_SIZE_4K)
                    &&& forall|c: int|
                        c < idx ==> !#[trigger] old(self).run_available(
                            c,
                            n as int,
                            stride * PAGE_SIZE_4K,
                        )
                    &&& final(self).free_frames() == old(self).free_frames().difference(
                        set_int_range(idx as int, idx + n),
                    )
                },
                None => {
                    &&& forall|c: int|
                        !#[trigger] old(self).run_available(c, n as int, stride * PAGE_SIZE_4K)
                    &&& final(self).free_frames() == old(self).free_frames()
                },
            },
    {
        let number: usize = self.base / PAGE_SIZE_4K;
        let log2 = exact_log2(stride);
        if log2.is_some() && number % stride == 0 {
            let k: usize = log2.unwrap();
            let r = bitmap_alloc_contiguous(&mut self.inner, None, n, k);
            proof {
                let free = old(self).free_frames();
                lemma2_to64();
                vstd::arithmetic::power2::lemma_pow2_strictly_increases(k as nat, 21);
                assert forall|c: int| 0 <= c implies (#[trigger] old(self).run_available(
                    c,
                    n as int,
                    stride * PAGE_SIZE_4K,
                ) <==> run_fits(free, c, n as int, k as nat)) by {
                    lemma_frame_alignment(self.base as int, c, stride as int);
                    lemma_fundamental_div_mod(number as int, stride as int);
                    lemma_mod_multiples_vanish(number as int / stride as int, c, stride as int);
                    if run_is_free(free, c, n as int) {
                        assert(free.contains(c + n - 1));
                    }
                }
            }
            r
        } else {
            self.take_run_stepwise(n, stride)
        }
    }

    /// As [`Self::take_run`], by trying the aligned frames in turn.
    fn take_run_stepwise(&mut self, n: usize, stride: usize) -> (r: Option<usize>)
        requires
            old(self).wf(),
            n >= 1,
            stride >= 1,
            stride * PAGE_SIZE_4K <= usize::MAX,
        ensures
            final(self).base() == old(self).base(),
            final(self).spec_total_frames() == old(self).spec_total_frames(),
            final(self).spec_used_frames() == old(self).spec_used_frames(),
            match r {
                Some(idx) => {
                    &&& old(self).run_available(idx as int, n as int, stride * PAGE_SIZE_4K)
                    &&& forall|c: int|
                        c < idx ==> !#[trigger] old(self).run_available(
                            c,
                            n as int,
                            stride * PAGE_SIZE_4K,
                        )
                    &&& final(self).free_frames() == old(self).free_frames().difference(
                        set_int_range(idx as int, idx + n),
                    )
                },
                None => {
                    &&& forall|c: int|
                        !#[trigger] old(self).run_available(c, n as int, stride * PAGE_SIZE_4K)
                    &&& final(self).free_frames() == old(self).free_frames()
                },
            },
    {
        let number: usize = self.base / PAGE_SIZE_4K;
        let rem: usize = number % stride;
        let mut idx: usize = if rem == 0 {
            0
        } else {
            stride - rem
        };
        proof {
            lemma_fundamental_div_mod(number as int, stride as int);
            lemma_mod_above_multiple(number as int, stride as int, 0);
            if rem != 0 {
                lemma_mod_add_multiples_vanish(number - rem, stride as int);
            }
            assert forall|c: int| c < idx implies !#[trigger] old(self).run_available(
                c,
                n as int,
                stride * PAGE_SIZE_4K,
            ) by {
                if 0 <= c {
                    lemma_mod_above_multiple(number as int, stride as int, rem + c);
                    lemma_frame_alignment(self.base as int, c, stride as int);
                }
            }
        }
        let total: usize = self.total_frames;
        while idx < total && n <= total - idx
            invariant
                total == self.total_frames,
                self.base() == old(self).base(),
                self.spec_total_frames() == old(self).spec_total_frames(),
                self.spec_used_frames() == old(self).spec_used_frames(),
                self.free_frames() == old(self).free_frames(),
                self.wf(),
                n >= 1,
                stride >= 1,
                stride * PAGE_SIZE_4K <= usize::MAX,
                number == self.base / PAGE_SIZE_4K,
                (number + idx) % (stride as int) == 0,
                forall|c: int|
                    c < idx ==> !#[trigger] old(self).run_available(
                        c,
                        n as int,
                        stride * PAGE_SIZE_4K,
                    ),
            decreases
                    (if idx < total {
                        total - idx
                    } else {
                        0
                    }),
        {
            let r = bitmap_alloc_contiguous(&mut self.inner, Some(idx), n, 0);
            proof {
                lemma2_to64();
                lemma_frame_alignment(self.base as int, idx as int, stride as int);
            }
            if r.is_some() {
                return r;
            }
            proof {
                lemma_mod_add_multiples_vanish(number + idx, stride as int);
                assert forall|c: int| c < idx + stride implies !#[trigger] old(self).run_available(
                    c,
                    n as int,
                    stride * PAGE_SIZE_4K,
                ) by {
                    if idx < c {
                        lemma_mod_above_multiple(number + idx, stride as int, c - idx);
                        lemma_frame_alignment(self.base as int, c, stride as int);
                    }
                }
            }
            idx = idx + stride;
        }
        proof {
            assert forall|c: int| !#[trigger] old(self).run_available(
                c,
                n as int,
                stride * PAGE_SIZE_4K,
            ) by {}
        }
        None
    }

    /// Takes `num_frames` contiguous free frames whose address is a multiple of `align`, the
    /// lowest such run there is, and returns its address. Returns `None`, and changes nothing,
    /// when no run fits.
    pub fn alloc_frames(&mut self, num_frames: usize, align: usize) -> (r: Option<PhysAddr>)
        requires
            old(self).wf(),
            num_frames >= 1,
            align >= 1,
            align % PAGE_SIZE_4K == 0,
        ensures
            final(self).wf(),
            old(self).allocates(final(self), num_frames as int, align as int, r),
    {
        let stride: usize = align / PAGE_SIZE_4K;
        proof {
            lemma_fundamental_div_mod(align as int, PAGE_SIZE_4K as int);
            assert(stride * PAGE_SIZE_4K == align) by (nonlinear_arith)
                requires
                    align == PAGE_SIZE_4K * (align as int / PAGE_SIZE_4K as int),
                    stride == align as int / PAGE_SIZE_4K as int,
            ;
        }
        let found: Option<usize> = if num_frames == 1 && stride == 1 {
            let r = bitmap_alloc(&mut self.inner);
            proof {
                let free = old(self).free_frames();
                assert forall|c: int| #[trigger]
                    old(self).run_available(c, 1, align as int) implies free.contains(c) by {}
                if let Some(i) = r {
                    assert(old(self).frame_addr(i as int) % (PAGE_SIZE_4K as int) == 0) by {
                        lemma_frame_alignment(self.base as int, i as int, 1);
                    }
                    assert(free.remove(i as int) =~= free.difference(
                        set_int_range(i as int, i + 1),
                    ));
                }
            }
            r
        } else {
            self.take_run(num_frames, stride)
        };
        match found {
            Some(idx) => {
                proof {
                    let free = old(self).free_frames();
                    lemma_take_run(free, idx as int, num_frames as int);
                    assert(free.contains(idx + num_frames - 1));
                    assert(idx * PAGE_SIZE_4K + self.base <= usize::MAX) by (nonlinear_arith)
                        requires
                            idx < self.total_frames,
                            self.base + self.total_frames * PAGE_SIZE_4K <= usize::MAX,
                    ;
                    lemma_fundamental_div_mod_converse(
                        idx * PAGE_SIZE_4K,
                        PAGE_SIZE_4K as int,
                        idx as int,
                        0,
                    );
                }
                self.used_frames = self.used_frames + num_frames;
                Some(PhysAddr::new(idx * PAGE_SIZE_4K + self.base))
            },
            None => None,
        }
    }

    /// Gives `num_frames` frames starting at `pos` back, all of them or none. Returns `true`
    /// when `pos` is the address of a frame of the window, the run lies inside the window and
    /// every frame of it is allocated; the frames are then free again. Otherwise returns
    /// `false` and changes nothing.
    #[must_use]
    pub fn dealloc_frames(&mut self, pos: PhysAddr, num_frames: usize) -> (ok: bool)
        requires
            old(self).wf(),
        ensures
            final(self).wf(),
            old(self).deallocates(final(self), pos, num_frames as int, ok),
    {
        if num_frames == 0 || pos.as_usize() < self.base || pos.as_usize() % PAGE_SIZE_4K != 0 {
            return false;
        }
        let idx: usize = (pos.as_usize() - self.base) / PAGE_SIZE_4K;
        if idx >= self.total_frames || num_frames > self.total_frames - idx {
            return false;
        }
        let next_free = bitmap_next(&self.inner, idx);
        if let Some(j) = next_free {
            if j - idx < num_frames {
                return false;
            }
        }
        proof {
            let free = old(self).free_frames();
            assert(free.disjoint(set_int_range(idx as int, idx + num_frames)));
            lemma_give_run(free, idx as int, num_frames as int);
            lemma_int_range(0, self.total_frames as int);
            vstd::set_lib::lemma_len_subset(free, set_int_range(0, self.total_frames as int));
            vstd::set_lib::lemma_len_subset(
                free.union(set_int_range(idx as int, idx + num_frames)),
                set_int_range(0, self.total_frames as int),
            );
        }
        let freed = bitmap_dealloc_contiguous(&mut self.inner, idx, num_frames);
        self.used_frames = self.used_frames - num_frames;
        true
    }

    /// Reserves the `num_frames` frames starting at `start`, all of them or none. Returns `true`
    /// when `start` is the address of a frame of the window, the run lies inside the window and
    /// every frame of it was free; the frames are then allocated. Otherwise returns `false` and
    /// changes nothing.
    pub fn alloc_range(&mut self, start: PhysAddr, num_frames: usize) -> (ok: bool)
        requires
            old(self).wf(),
        ensures
            final(self).wf(),
            old(self).reserves(final(self), start, num_frames as int, ok),
    {
        if num_frames == 0 || start.as_usize() < self.base || start.as_usize() % PAGE_SIZE_4K
            != 0 {
            return false;
        }
        let idx: usize = (start.as_usize() - self.base) / PAGE_SIZE_4K;
        if idx >= self.total_frames || num_frames > self.total_frames - idx {
            return false;
        }
        let taken = bitmap_alloc_contiguous(&mut self.inner, Some(idx), num_frames, 0);
        proof {
            lemma2_to64();
            lemma_frame_alignment(self.base as int, idx as int, 1);
        }
        match taken {
            Some(_) => {
                proof {
                    lemma_take_run(old(self).free_frames(), idx as int, num_frames as int);
                }
                self.used_frames = self.used_frames + num_frames;
                true
            },
            None => false,
        }
    }

    /// Number of frames in the window.
    #[verifier::when_used_as_spec(spec_total_frames)]
    pub fn total_frames(&self) -> (r: usize)
        ensures
            r == self.spec_total_frames(),
    {
        self.total_frames
    }

    /// Number of frames that are allocated.
    #[verifier::when_used_as_spec(spec_used_frames)]
    pub fn used_frames(&self) -> (r: usize)
        ensures
            r == self.spec_used_frames(),
    {
        self.used_frames
    }

    /// Number of frames that are free.
    pub fn available_frames(&self) -> (r: usize)
        requires
            self.wf(),
        ensures
            r == self.spec_available_frames(),
            r == self.spec_total_frames() - self.spec_used_frames(),
    {
        self.total_frames - self.used_frames
    }
}

/// What [`init_frame_allocator`] does: the allocator takes over the memory between the end of
/// the kernel image and the end of physical memory, as [`PhysFrameAllocator::init`] does; it
/// fails, and changes nothing, when the image ends behind physical memory or the window is
/// one that `init` refuses.
pub open spec fn frame_allocator_set_up(
    frames: &PhysFrameAllocator,
    frames_after: &PhysFrameAllocator,
    ekernel: usize,
    meta: &MachineMeta,
    ok: bool,
) -> bool {
    let end = meta.spec_phys_mem_start() + meta.spec_phys_mem_size();
    let window = PhysFrameAllocator::window_of(ekernel as int, end - ekernel);
    &&& ok == (ekernel <= end && window.is_some())
    &&& ok ==> {
        &&& frames_after.wf()
        &&& frames_after.base() == window.unwrap().0
        &&& frames_after.spec_total_frames() == window.unwrap().1
        &&& frames_after.spec_used_frames() == 0
        &&& frames_after.free_frames() == set_int_range(0, window.unwrap().1)
    }
    &&& !ok ==> *frames_after == *frames
}

/// Hands the memory between `ekernel`, the end of the kernel image, and the end of physical
/// memory to `frames`.
pub fn init_frame_allocator(frames: &mut PhysFrameAllocator, ekernel: usize, meta: &MachineMeta) -> (ok:
    bool)
    requires
        meta.wf(),
    ensures
        frame_allocator_set_up(old(frames), final(frames), ekernel, meta, ok),
{
    let end: usize = meta.phys_mem_start() + meta.phys_mem_size();
    if ekernel > end {
        return false;
    }
    frames.init(PhysAddr::new(ekernel), end - ekernel)
}

} // verus!
