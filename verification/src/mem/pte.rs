//! Page table entries and their flags.

use crate::config::PAGE_SIZE_4K;
use crate::mem::addr::PhysAddr;
use vstd::prelude::*;

verus! {

/// The entry is in use: a leaf mapping or a pointer to the next table.
pub const PTE_V: u8 = 0x01;

/// The page may be read.
pub const PTE_R: u8 = 0x02;

/// The page may be written.
pub const PTE_W: u8 = 0x04;

/// Instructions may be fetched from the page.
pub const PTE_X: u8 = 0x08;

/// The page is accessible in user mode.
pub const PTE_U: u8 = 0x10;

/// The mapping exists in every address space.
pub const PTE_G: u8 = 0x20;

/// The page has been accessed.
pub const PTE_A: u8 = 0x40;

/// The page has been written.
pub const PTE_D: u8 = 0x80;

/// The flag set of a page table entry.
#[derive(Clone, Copy, Debug, PartialEq, Eq, Structural)]
pub struct PTEFlags {
    bits: u8,
}

impl PTEFlags {
    pub closed spec fn spec_bits(self) -> u8 {
        self.bits
    }

    pub open spec fn spec_contains(self, flags: u8) -> bool {
        self.spec_bits() & flags == flags
    }

    pub open spec fn spec_empty() -> Self {
        Self::spec_from_bits(0)
    }

    pub closed spec fn spec_from_bits(bits: u8) -> Self {
        PTEFlags { bits }
    }

    pub open spec fn spec_union(self, other: PTEFlags) -> Self {
        Self::spec_from_bits(self.spec_bits() | other.spec_bits())
    }

    /// A flag set is given by its bits and by nothing else.
    pub broadcast proof fn lemma_bits_round_trip(bits: u8)
        ensures
            #[trigger] Self::spec_from_bits(bits).spec_bits() == bits,
    {
    }

    /// The set with no flag.
    #[verifier::when_used_as_spec(spec_empty)]
    pub fn empty() -> (r: Self)
        ensures
            r == Self::spec_empty(),
            r.spec_bits() == 0,
    {
        PTEFlags { bits: 0 }
    }

    /// The set with exactly the flags in `bits`.
    #[verifier::when_used_as_spec(spec_from_bits)]
    pub fn from_bits(bits: u8) -> (r: Self)
        ensures
            r == Self::spec_from_bits(bits),
            r.spec_bits() == bits,
    {
        PTEFlags { bits }
    }

    #[verifier::when_used_as_spec(spec_bits)]
    pub fn bits(self) -> (r: u8)
        ensures
            r == self.spec_bits(),
    {
        self.bits
    }

    /// Whether every flag in `flags` is in the set.
    #[verifier::when_used_as_spec(spec_contains)]
    pub fn contains(self, flags: u8) -> (r: bool)
        ensures
            r == self.spec_contains(flags),
    {
        self.bits & flags == flags
    }

    /// The flags of either set.
    #[verifier::when_used_as_spec(spec_union)]
    pub fn union(self, other: PTEFlags) -> (r: Self)
        ensures
            r == self.spec_union(other),
    {
        PTEFlags { bits: self.bits | other.bits }
    }
}

/// One slot of a page table: the address of a physical frame and a flag set.
///
/// The address is always that of a frame, a multiple of the page size.
#[derive(Clone, Copy, Debug, PartialEq, Eq, Structural)]
pub struct PageTableEntry {
    frame: usize,
    flags: PTEFlags,
}

impl PageTableEntry {
    #[verifier::type_invariant]
    spec fn frame_aligned(self) -> bool {
        self.frame % PAGE_SIZE_4K == 0
    }

    pub closed spec fn spec_ppn(self) -> PhysAddr {
        PhysAddr(self.frame)
    }

    pub closed spec fn spec_flags(self) -> PTEFlags {
        self.flags
    }

    pub closed spec fn spec_new(paddr: PhysAddr, flags: PTEFlags) -> Self {
        PageTableEntry { frame: (paddr.0 - paddr.0 % PAGE_SIZE_4K) as usize, flags }
    }

    pub open spec fn spec_empty() -> Self {
        Self::spec_new(PhysAddr(0), PTEFlags::spec_empty())
    }

    pub open spec fn spec_is_valid(self) -> bool {
        self.spec_flags().spec_contains(PTE_V)
    }

    pub open spec fn spec_is_unused(self) -> bool {
        self.spec_ppn().0 == 0 && self.spec_flags().spec_bits() == 0
    }

    /// An entry holds the frame that contains the address it was made from, and the flags.
    pub broadcast proof fn lemma_new_fields(paddr: PhysAddr, flags: PTEFlags)
        ensures
            (#[trigger] Self::spec_new(paddr, flags)).spec_flags() == flags,
            Self::spec_new(paddr, flags).spec_ppn().0 == paddr.0 - paddr.0 % PAGE_SIZE_4K,
    {
    }

    /// The entry for the frame that contains `paddr`, with `flags`.
    #[verifier::when_used_as_spec(spec_new)]
    pub fn new(paddr: PhysAddr, flags: PTEFlags) -> (r: Self)
        ensures
            r == Self::spec_new(paddr, flags),
    {
        let frame: usize = paddr.as_usize() - paddr.as_usize() % PAGE_SIZE_4K;
        proof {
            vstd::arithmetic::div_mod::lemma_fundamental_div_mod(
                paddr.0 as int,
                PAGE_SIZE_4K as int,
            );
            vstd::arithmetic::div_mod::lemma_mod_multiples_basic(
                paddr.0 as int / PAGE_SIZE_4K as int,
                PAGE_SIZE_4K as int,
            );
            vstd::arithmetic::mul::lemma_mul_is_commutative(
                paddr.0 as int / PAGE_SIZE_4K as int,
                PAGE_SIZE_4K as int,
            );
        }
        PageTableEntry { frame, flags }
    }

    /// The entry that maps nothing: frame 0 and no flag.
    #[verifier::when_used_as_spec(spec_empty)]
    pub fn empty() -> (r: Self)
        ensures
            r == Self::spec_empty(),
            r.spec_is_unused(),
            !r.spec_is_valid(),
    {
        let r = PageTableEntry { frame: 0, flags: PTEFlags::empty() };
        proof {
            PTEFlags::lemma_bits_round_trip(0);
            assert(0u8 & PTE_V != PTE_V) by (bit_vector);
        }
        r
    }

    /// Address of the frame the entry points to.
    #[verifier::when_used_as_spec(spec_ppn)]
    pub fn ppn(self) -> (r: PhysAddr)
        ensures
            r == self.spec_ppn(),
            r.0 % PAGE_SIZE_4K == 0,
    {
        proof {
            use_type_invariant(&self);
        }
        PhysAddr::new(self.frame)
    }

    #[verifier::when_used_as_spec(spec_flags)]
    pub fn flags(self) -> (r: PTEFlags)
        ensures
            r == self.spec_flags(),
    {
        self.flags
    }

    /// Whether the valid flag is set.
    #[verifier::when_used_as_spec(spec_is_valid)]
    pub fn is_valid(self) -> (r: bool)
        ensures
            r == self.spec_is_valid(),
    {
        self.flags.contains(PTE_V)
    }

    /// Whether the entry is the empty one.
    #[verifier::when_used_as_spec(spec_is_unused)]
    pub fn is_unused(self) -> (r: bool)
        ensures
            r == self.spec_is_unused(),
    {
        self.frame == 0 && self.flags.bits() == 0
    }

    /// The 64-bit word that the hardware reads for this entry: the frame number from bit 10
    /// up, the flags in the low eight bits.
    pub open spec fn spec_bits(self) -> int {
        (self.spec_ppn().0 / PAGE_SIZE_4K) * 1024 + self.spec_flags().spec_bits()
    }

    pub fn bits(self) -> (r: u64)
        ensures
            r == self.spec_bits(),
    {
        let number: u64 = (self.frame / PAGE_SIZE_4K) as u64;
        number * 1024 + self.flags.bits() as u64
    }
}

/// Whether the hardware takes the word `word` of a table for an entry in use: bit 0.
pub open spec fn word_is_valid(word: u64) -> bool {
    word % 2 == 1
}

/// The address of the frame that the word `word` of a table points to: the frame number is in
/// the bits from 10 up.
pub open spec fn word_frame(word: u64) -> int {
    (word / 1024) * PAGE_SIZE_4K
}

impl PageTableEntry {
    /// The hardware reads from the word of an entry what the entry holds: whether it is valid
    /// and, where the entry's frame address is page-aligned, the frame it points to.
    pub proof fn lemma_word_decodes(self)
        ensures
            0 <= self.spec_bits() <= u64::MAX,
            word_is_valid(self.spec_bits() as u64) == self.spec_is_valid(),
            self.spec_ppn().0 % PAGE_SIZE_4K == 0 ==> word_frame(self.spec_bits() as u64)
                == self.spec_ppn().0,
    {
        let flags: u8 = self.spec_flags().spec_bits();
        let number = self.spec_ppn().0 as int / PAGE_SIZE_4K as int;
        assert((flags & 1 == 1) == (flags % 2 == 1)) by (bit_vector);
        assert(self.spec_bits() == number * 1024 + flags);
        assert((number * 1024 + flags) % 2 == flags % 2) by (nonlinear_arith)
            requires
                number >= 0,
                0 <= flags < 256,
        ;
        assert((number * 1024 + flags) / 1024 == number) by (nonlinear_arith)
            requires
                number >= 0,
                0 <= flags < 256,
        ;
        if self.spec_ppn().0 % PAGE_SIZE_4K == 0 {
            vstd::arithmetic::div_mod::lemma_fundamental_div_mod(
                self.spec_ppn().0 as int,
                PAGE_SIZE_4K as int,
            );
        }
    }
}

} // verus!
