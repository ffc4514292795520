//! The packed-width descriptor: the five supported bit widths and the
//! constants the codec derives from a width.

use vstd::prelude::*;
use vstd::arithmetic::power2::pow2;

verus! {

/// The supported widths of a packed value, in bits.
pub open spec fn valid_width(n: nat) -> bool {
    n == 8 || n == 16 || n == 32 || n == 64 || n == 128
}

/// Number of tag bits at the top of a packed value of width `n`:
/// the bits left over after dividing the width into 6-bit codes.
pub open spec fn tag_bits(n: nat) -> nat {
    if n % 6 == 4 {
        4
    } else {
        2
    }
}

/// Number of coding bits of width `n`: everything below the tag.
pub open spec fn coding_bits(n: nat) -> nat {
    (n - tag_bits(n)) as nat
}

/// How many ordinary 6-bit codes fit in the coding region of width `n`.
pub open spec fn char_slots(n: nat) -> nat {
    coding_bits(n) / 6
}

/// How many 15-bit delta codes fit in the coding region of width `n`.
pub open spec fn special_slots(n: nat) -> nat {
    coding_bits(n) / 15
}

/// The derived constants of each supported width, in one place: 8, 16, 32,
/// 64 and 128 bits carry 1, 2, 5, 10 and 21 six-bit codes, and 0, 0, 2, 4
/// and 8 fifteen-bit units.
pub proof fn lemma_width_facts(n: nat)
    requires
        valid_width(n),
    ensures
        tag_bits(n) == 2 || tag_bits(n) == 4,
        tag_bits(n) + coding_bits(n) == n,
        coding_bits(n) == 6 * char_slots(n),
        15 * special_slots(n) <= coding_bits(n),
        coding_bits(n) < 15 * special_slots(n) + 15,
        1 <= char_slots(n) <= 21,
        special_slots(n) <= 8,
        special_slots(n) <= char_slots(n),
        special_slots(n) > 0 <==> n >= 32,
        n <= 128,
{
}

/// Tag bits of a width, computed.
pub fn tag_bits_of(n: usize) -> (t: usize)
    requires
        valid_width(n as nat),
    ensures
        t as nat == tag_bits(n as nat),
{
    if n % 6 == 4 {
        4
    } else {
        2
    }
}

/// Coding bits of a width, computed.
pub fn coding_bits_of(n: usize) -> (c: usize)
    requires
        valid_width(n as nat),
    ensures
        c as nat == coding_bits(n as nat),
{
    n - tag_bits_of(n)
}

/// 6-bit capacity of a width, computed.
pub fn char_slots_of(n: usize) -> (s: usize)
    requires
        valid_width(n as nat),
    ensures
        s as nat == char_slots(n as nat),
{
    coding_bits_of(n) / 6
}

/// 15-bit capacity of a width, computed.
pub fn special_slots_of(n: usize) -> (s: usize)
    requires
        valid_width(n as nat),
    ensures
        s as nat == special_slots(n as nat),
{
    coding_bits_of(n) / 15
}

/// The value of `pow2` at the exponents beyond the reach of
/// `vstd::arithmetic::power2::lemma2_to64_rest`.
pub proof fn lemma_pow2_high()
    ensures
        pow2(127) == 0x8000_0000_0000_0000_0000_0000_0000_0000,
        pow2(128) == 0x1_0000_0000_0000_0000_0000_0000_0000_0000,
{
    vstd::arithmetic::power2::lemma2_to64();
    vstd::arithmetic::power2::lemma2_to64_rest();
    vstd::arithmetic::power2::lemma_pow2_adds(63, 64);
    vstd::arithmetic::power2::lemma_pow2_adds(64, 64);
}

/// `pow2(k)` as a `u128`, for exponents that fit.
pub fn pow2_u128(k: usize) -> (r: u128)
    requires
        k < 128,
    ensures
        r as nat == pow2(k as nat),
{
    let mut i: usize = 0;
    let mut r: u128 = 1;
    proof {
        vstd::arithmetic::power2::lemma2_to64();
    }
    while i < k
        invariant
            i <= k,
            k < 128,
            r as nat == pow2(i as nat),
        decreases k - i,
    {
        proof {
            vstd::arithmetic::power2::lemma_pow2_strictly_increases(i as nat, 127);
            lemma_pow2_high();
            vstd::arithmetic::power2::lemma_pow2_unfold((i + 1) as nat);
        }
        r = r * 2;
        i = i + 1;
    }
    r
}

} // verus!
