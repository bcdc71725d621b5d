//! The 80-bit interlace mask: set algebra over the lanes of one core.

use vstd::prelude::*;

verus! {

/// Number of interlace lanes in a core: the width of a core mask.
pub const MASK_BITS: u32 = 80;

/// All 80 lane bits set: a full core.
pub const FULL_MASK: u128 = 0xFFFF_FFFF_FFFF_FFFF_FFFF;

/// Parts of 57600 that one mask bit stands for when reporting to the relay.
pub const PARTS_PER_BIT: u16 = 720;

/// An 80-bit mask selecting a subset of one core's interlace lanes.
///
/// One set bit stands for 1/80 of the core's bandwidth. A well-formed mask
/// uses only the low 80 bits of its carrier word.
#[derive(Clone, Copy, PartialEq, Eq, Structural, Debug)]
pub struct CoreMask {
    pub bits: u128,
}

/// How many of the low `n` bits of `m` are set.
pub open spec fn ones_below(m: u128, n: int) -> nat
    decreases n,
{
    if n <= 0 {
        0
    } else {
        ones_below(m, n - 1) + if (m >> ((n - 1) as u128)) & 1 == 1 {
            1nat
        } else {
            0nat
        }
    }
}

/// How many lanes a mask selects: the count of its 80 bits.
pub open spec fn mask_ones(m: u128) -> nat {
    ones_below(m, MASK_BITS as int)
}

/// At most `n` of the low `n` bits can be set.
pub proof fn lemma_ones_below_le(m: u128, n: int)
    requires
        0 <= n,
    ensures
        ones_below(m, n) <= n,
    decreases n,
{
    if n > 0 {
        lemma_ones_below_le(m, n - 1);
    }
}

/// Bit counts add over a disjoint union.
pub proof fn lemma_ones_below_disjoint(a: u128, b: u128, n: int)
    requires
        a & b == 0,
    ensures
        ones_below(a | b, n) == ones_below(a, n) + ones_below(b, n),
    decreases n,
{
    if n > 0 {
        lemma_ones_below_disjoint(a, b, n - 1);
        let sh = (n - 1) as u128;
        assert(a & b == 0 ==> ((((a | b) >> sh) & 1 == 1) == (((a >> sh) & 1 == 1) || ((b >> sh)
            & 1 == 1)) && !(((a >> sh) & 1 == 1) && ((b >> sh) & 1 == 1)))) by (bit_vector);
    }
}

impl CoreMask {
    /// A well-formed mask uses only the low 80 bits.
    pub open spec fn wf(self) -> bool {
        self.bits <= FULL_MASK
    }

    /// How many lanes this mask selects.
    pub open spec fn ones(self) -> nat {
        mask_ones(self.bits)
    }

    /// The mask selecting no lane.
    pub fn void() -> (r: CoreMask)
        ensures
            r.bits == 0,
            r.wf(),
    {
        CoreMask { bits: 0 }
    }

    /// The mask selecting every lane: a full core.
    pub fn complete() -> (r: CoreMask)
        ensures
            r.bits == FULL_MASK,
            r.wf(),
    {
        CoreMask { bits: FULL_MASK }
    }

    /// Does this mask select no lane?
    pub fn is_void(&self) -> (r: bool)
        ensures
            r == (self.bits == 0),
    {
        self.bits == 0
    }

    /// Does this mask select every lane?
    pub fn is_complete(&self) -> (r: bool)
        ensures
            r == (self.bits == FULL_MASK),
    {
        self.bits == FULL_MASK
    }

    /// Lanes selected by either mask.
    pub fn union(&self, other: &CoreMask) -> (r: CoreMask)
        ensures
            r.bits == self.bits | other.bits,
            self.wf() && other.wf() ==> r.wf(),
    {
        proof {
            lemma_or_le(self.bits, other.bits);
        }
        CoreMask { bits: self.bits | other.bits }
    }

    /// Lanes selected by both masks.
    pub fn intersection(&self, other: &CoreMask) -> (r: CoreMask)
        ensures
            r.bits == self.bits & other.bits,
            self.wf() ==> r.wf(),
    {
        proof {
            lemma_and_le(self.bits, other.bits);
        }
        CoreMask { bits: self.bits & other.bits }
    }

    /// Lanes selected by this mask and not the other.
    pub fn difference(&self, other: &CoreMask) -> (r: CoreMask)
        ensures
            r.bits == self.bits & !other.bits,
            self.wf() ==> r.wf(),
    {
        proof {
            lemma_andnot_le(self.bits, other.bits);
        }
        CoreMask { bits: self.bits & !other.bits }
    }

    /// Is every lane of this mask also selected by `other`?
    pub fn is_subset_of(&self, other: &CoreMask) -> (r: bool)
        ensures
            r == (self.bits & other.bits == self.bits),
    {
        self.bits & other.bits == self.bits
    }

    /// How many lanes this mask selects.
    pub fn count_ones(&self) -> (r: u32)
        ensures
            r == self.ones(),
            r <= MASK_BITS,
    {
        let mut i: u32 = 0;
        let mut c: u32 = 0;
        while i < MASK_BITS
            invariant
                i <= MASK_BITS,
                c == ones_below(self.bits, i as int),
                c <= i,
            decreases MASK_BITS - i,
        {
            if (self.bits >> (i as u128)) & 1 == 1 {
                c = c + 1;
            }
            i = i + 1;
        }
        c
    }

    /// Parts of 57600 that this mask stands for on the relay: 720 per lane.
    pub fn parts_of_57600(&self) -> (r: u16)
        ensures
            r == self.ones() * PARTS_PER_BIT,
    {
        let c = self.count_ones();
        proof {
            assert(c * 720 <= 80 * 720) by (nonlinear_arith)
                requires
                    c <= 80,
            ;
        }
        (c as u16) * PARTS_PER_BIT
    }
}

/// A union stays within the carrier range of its operands.
pub proof fn lemma_or_le(a: u128, b: u128)
    ensures
        a <= FULL_MASK && b <= FULL_MASK ==> (a | b) <= FULL_MASK,
{
    assert(a <= 0xFFFF_FFFF_FFFF_FFFF_FFFFu128 && b <= 0xFFFF_FFFF_FFFF_FFFF_FFFFu128 ==> (a | b)
        <= 0xFFFF_FFFF_FFFF_FFFF_FFFFu128) by (bit_vector);
}

/// An intersection is no larger than its first operand.
pub proof fn lemma_and_le(a: u128, b: u128)
    ensures
        (a & b) <= a,
{
    assert((a & b) <= a) by (bit_vector);
}

/// Removing lanes gives no larger a mask.
pub proof fn lemma_andnot_le(a: u128, b: u128)
    ensures
        (a & !b) <= a,
{
    assert((a & !b) <= a) by (bit_vector);
}

/// A mask within range selects at most 80 lanes.
pub proof fn lemma_mask_ones_le(m: u128)
    ensures
        mask_ones(m) <= MASK_BITS,
{
    lemma_ones_below_le(m, MASK_BITS as int);
}

/// Counts add over a disjoint union of masks.
pub proof fn lemma_mask_ones_disjoint(a: u128, b: u128)
    requires
        a & b == 0,
    ensures
        mask_ones(a | b) == mask_ones(a) + mask_ones(b),
{
    lemma_ones_below_disjoint(a, b, MASK_BITS as int);
}

/// Splitting a mask at a pivot conserves its lane count: the pivot and the
/// remainder are disjoint and re-unite to the whole.
pub proof fn lemma_mask_split(m: u128, p: u128)
    requires
        p & m == p,
    ensures
        p & (m & !p) == 0,
        p | (m & !p) == m,
        mask_ones(p) + mask_ones(m & !p) == mask_ones(m),
{
    assert(p & (m & !p) == 0) by (bit_vector);
    assert(p | (m & !p) == m) by (bit_vector)
        requires
            p & m == p,
    ;
    lemma_mask_ones_disjoint(p, m & !p);
}

/// The void mask selects no lane.
pub proof fn lemma_mask_ones_void()
    ensures
        mask_ones(0) == 0,
{
    lemma_ones_below_zero(80);
}

proof fn lemma_ones_below_zero(n: int)
    ensures
        ones_below(0, n) == 0,
    decreases n,
{
    if n > 0 {
        lemma_ones_below_zero(n - 1);
        let sh = (n - 1) as u128;
        assert((0u128 >> sh) & 1 == 0) by (bit_vector);
    }
}

} // verus!
