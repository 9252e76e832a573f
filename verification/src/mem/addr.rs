//! Physical and virtual addresses.

use vstd::prelude::*;
use vstd::std_specs::convert::FromSpecImpl;

verus! {

/// The largest multiple of `align` that is not above `addr`.
pub open spec fn spec_align_down(addr: int, align: int) -> int {
    addr - addr % align
}

/// The smallest multiple of `align` that is not below `addr`.
pub open spec fn spec_align_up(addr: int, align: int) -> int {
    if addr % align == 0 {
        addr
    } else {
        addr - addr % align + align
    }
}

/// Rounds `addr` down to a multiple of `align`.
pub fn align_down(addr: usize, align: usize) -> (r: usize)
    requires
        align > 0,
    ensures
        r == spec_align_down(addr as int, align as int),
        r <= addr,
        addr - r < align,
        r % align == 0,
{
    let rem: usize = addr % align;
    proof {
        vstd::arithmetic::div_mod::lemma_fundamental_div_mod(addr as int, align as int);
        vstd::arithmetic::div_mod::lemma_mod_multiples_basic(addr as int / align as int, align as int);
        vstd::arithmetic::mul::lemma_mul_is_commutative(addr as int / align as int, align as int);
    }
    addr - rem
}

/// Rounds `addr` up to a multiple of `align`, or gives `None` when that multiple does not fit
/// in an address.
pub fn align_up(addr: usize, align: usize) -> (r: Option<usize>)
    requires
        align > 0,
    ensures
        r is Some <==> spec_align_up(addr as int, align as int) <= usize::MAX,
        r is Some ==> r->0 == spec_align_up(addr as int, align as int),
        r is Some ==> r->0 % align == 0 && addr <= r->0 < addr + align,
{
    let rem: usize = addr % align;
    if rem == 0 {
        Some(addr)
    } else {
        proof {
            vstd::arithmetic::div_mod::lemma_fundamental_div_mod(addr as int, align as int);
            vstd::arithmetic::div_mod::lemma_mod_multiples_basic(
                addr as int / align as int + 1,
                align as int,
            );
            vstd::arithmetic::mul::lemma_mul_is_commutative(addr as int / align as int, align as int);
            vstd::arithmetic::mul::lemma_mul_is_distributive_add_other_way(
                align as int,
                addr as int / align as int,
                1,
            );
        }
        let down: usize = addr - rem;
        down.checked_add(align)
    }
}

/// A physical address.
#[derive(Clone, Copy, Debug, PartialEq, Eq, Structural)]
pub struct PhysAddr(pub usize);

/// A virtual address.
#[derive(Clone, Copy, Debug, PartialEq, Eq, Structural)]
pub struct VirtAddr(pub usize);

impl PhysAddr {
    pub fn new(addr: usize) -> (r: Self)
        ensures
            r.0 == addr,
    {
        PhysAddr(addr)
    }

    pub open spec fn spec_as_usize(self) -> usize {
        self.0
    }

    #[verifier::when_used_as_spec(spec_as_usize)]
    pub fn as_usize(self) -> (r: usize)
        ensures
            r == self.0,
    {
        self.0
    }

    pub open spec fn spec_is_aligned(self, align: usize) -> bool {
        self.0 as int % align as int == 0
    }

    /// Whether the address is a multiple of `align`.
    #[verifier::when_used_as_spec(spec_is_aligned)]
    pub fn is_aligned(self, align: usize) -> (r: bool)
        requires
            align > 0,
        ensures
            r == self.spec_is_aligned(align),
    {
        self.0 % align == 0
    }
}

impl VirtAddr {
    pub fn new(addr: usize) -> (r: Self)
        ensures
            r.0 == addr,
    {
        VirtAddr(addr)
    }

    pub open spec fn spec_as_usize(self) -> usize {
        self.0
    }

    #[verifier::when_used_as_spec(spec_as_usize)]
    pub fn as_usize(self) -> (r: usize)
        ensures
            r == self.0,
    {
        self.0
    }

    pub open spec fn spec_is_aligned(self, align: usize) -> bool {
        self.0 as int % align as int == 0
    }

    /// Whether the address is a multiple of `align`.
    #[verifier::when_used_as_spec(spec_is_aligned)]
    pub fn is_aligned(self, align: usize) -> (r: bool)
        requires
            align > 0,
        ensures
            r == self.spec_is_aligned(align),
    {
        self.0 % align == 0
    }
}

impl From<usize> for PhysAddr {
    fn from(addr: usize) -> (r: Self) {
        PhysAddr(addr)
    }
}

impl FromSpecImpl<usize> for PhysAddr {
    open spec fn obeys_from_spec() -> bool {
        true
    }

    open spec fn from_spec(addr: usize) -> Self {
        PhysAddr(addr)
    }
}

impl From<usize> for VirtAddr {
    fn from(addr: usize) -> (r: Self) {
        VirtAddr(addr)
    }
}

impl FromSpecImpl<usize> for VirtAddr {
    open spec fn obeys_from_spec() -> bool {
        true
    }

    open spec fn from_spec(addr: usize) -> Self {
        VirtAddr(addr)
    }
}

} // verus!
