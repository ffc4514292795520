//! The packed value types: the five unsigned integer widths a string can be
//! packed into, the generic [`encode`] entry point, and the encode/decode
//! traits attached to them.

use crate::codec::spec_decode;
use crate::codec::spec_encode;
use crate::codec::DecodeSixbitIter;
use crate::codec::EncodeError;
use crate::width::valid_width;
use vstd::arithmetic::power2::pow2;
use vstd::prelude::*;

verus! {

/// A fixed-width unsigned integer a packed string lives in.
///
/// Every implementor is one of the five supported widths; its value, seen as
/// a natural number, is what the codec's contracts speak about.
pub trait PackedValue: Sized + Copy {
    /// The width in bits: 8, 16, 32, 64 or 128.
    spec fn spec_bits() -> nat;

    /// The value as a natural number.
    spec fn as_nat(self) -> nat;

    /// The width is one of the five the codec supports.
    proof fn lemma_bits_valid()
        ensures
            valid_width(Self::spec_bits()),
    ;

    /// A value always fits in its width.
    proof fn lemma_in_range(self)
        ensures
            self.as_nat() < pow2(Self::spec_bits()),
    ;

    /// The width in bits, computed.
    fn nbits() -> (n: usize)
        ensures
            n as nat == Self::spec_bits(),
    ;

    /// Narrow a wide accumulator known to fit.
    fn from_wide(v: u128) -> (r: Self)
        requires
            (v as nat) < pow2(Self::spec_bits()),
        ensures
            r.as_nat() == v as nat,
    ;

    /// Widen the value into a `u128` accumulator.
    fn to_wide(self) -> (r: u128)
        ensures
            r as nat == self.as_nat(),
    ;

    /// Keep the low bits of `i` that fit this width.
    fn truncating_cast_from(i: usize) -> (r: Self)
        ensures
            r.as_nat() == (i as nat) % pow2(Self::spec_bits()),
    ;

    /// The most significant 8 bits of the value.
    fn most_significant_byte(self) -> (r: u8)
        ensures
            r as nat == self.as_nat() / pow2((Self::spec_bits() - 8) as nat),
    ;
}

impl PackedValue for u8 {
    open spec fn spec_bits() -> nat {
        8
    }

    open spec fn as_nat(self) -> nat {
        self as nat
    }

    proof fn lemma_bits_valid() {
    }

    proof fn lemma_in_range(self) {
        vstd::arithmetic::power2::lemma2_to64();
    }

    fn nbits() -> usize {
        8
    }

    fn from_wide(v: u128) -> u8 {
        proof {
            vstd::arithmetic::power2::lemma2_to64();
        }
        v as u8
    }

    fn to_wide(self) -> u128 {
        self as u128
    }

    fn truncating_cast_from(i: usize) -> u8 {
        proof {
            vstd::arithmetic::power2::lemma2_to64();
        }
        (i % 256) as u8
    }

    fn most_significant_byte(self) -> u8 {
        proof {
            vstd::arithmetic::power2::lemma2_to64();
            vstd::arithmetic::div_mod::lemma_div_basics(self as int);
        }
        self
    }
}

impl PackedValue for u16 {
    open spec fn spec_bits() -> nat {
        16
    }

    open spec fn as_nat(self) -> nat {
        self as nat
    }

    proof fn lemma_bits_valid() {
    }

    proof fn lemma_in_range(self) {
        vstd::arithmetic::power2::lemma2_to64();
    }

    fn nbits() -> usize {
        16
    }

    fn from_wide(v: u128) -> u16 {
        proof {
            vstd::arithmetic::power2::lemma2_to64();
        }
        v as u16
    }

    fn to_wide(self) -> u128 {
        self as u128
    }

    fn truncating_cast_from(i: usize) -> u16 {
        proof {
            vstd::arithmetic::power2::lemma2_to64();
        }
        (i % 0x10000) as u16
    }

    fn most_significant_byte(self) -> u8 {
        proof {
            vstd::arithmetic::power2::lemma2_to64();
            vstd::arithmetic::div_mod::lemma_multiply_divide_lt(self as int, 0x100, 0x100);
        }
        (self / 0x100) as u8
    }
}

impl PackedValue for u32 {
    open spec fn spec_bits() -> nat {
        32
    }

    open spec fn as_nat(self) -> nat {
        self as nat
    }

    proof fn lemma_bits_valid() {
    }

    proof fn lemma_in_range(self) {
        vstd::arithmetic::power2::lemma2_to64();
    }

    fn nbits() -> usize {
        32
    }

    fn from_wide(v: u128) -> u32 {
        proof {
            vstd::arithmetic::power2::lemma2_to64();
        }
        v as u32
    }

    fn to_wide(self) -> u128 {
        self as u128
    }

    fn truncating_cast_from(i: usize) -> u32 {
        proof {
            vstd::arithmetic::power2::lemma2_to64();
        }
        ((i as u64) % 0x1_0000_0000) as u32
    }

    fn most_significant_byte(self) -> u8 {
        proof {
            vstd::arithmetic::power2::lemma2_to64();
            vstd::arithmetic::div_mod::lemma_multiply_divide_lt(self as int, 0x100_0000, 0x100);
        }
        (self / 0x100_0000) as u8
    }
}

impl PackedValue for u64 {
    open spec fn spec_bits() -> nat {
        64
    }

    open spec fn as_nat(self) -> nat {
        self as nat
    }

    proof fn lemma_bits_valid() {
    }

    proof fn lemma_in_range(self) {
        vstd::arithmetic::power2::lemma2_to64();
    }

    fn nbits() -> usize {
        64
    }

    fn from_wide(v: u128) -> u64 {
        proof {
            vstd::arithmetic::power2::lemma2_to64();
        }
        v as u64
    }

    fn to_wide(self) -> u128 {
        self as u128
    }

    fn truncating_cast_from(i: usize) -> u64 {
        proof {
            vstd::arithmetic::power2::lemma2_to64();
            vstd::arithmetic::div_mod::lemma_small_mod(i as nat, pow2(64));
        }
        i as u64
    }

    fn most_significant_byte(self) -> u8 {
        proof {
            vstd::arithmetic::power2::lemma2_to64();
            vstd::arithmetic::power2::lemma2_to64_rest();
            vstd::arithmetic::div_mod::lemma_multiply_divide_lt(
                self as int,
                0x100_0000_0000_0000,
                0x100,
            );
        }
        (self / 0x100_0000_0000_0000) as u8
    }
}

impl PackedValue for u128 {
    open spec fn spec_bits() -> nat {
        128
    }

    open spec fn as_nat(self) -> nat {
        self as nat
    }

    proof fn lemma_bits_valid() {
    }

    proof fn lemma_in_range(self) {
        crate::width::lemma_pow2_high();
    }

    fn nbits() -> usize {
        128
    }

    fn from_wide(v: u128) -> u128 {
        v
    }

    fn to_wide(self) -> u128 {
        self
    }

    fn truncating_cast_from(i: usize) -> u128 {
        proof {
            crate::width::lemma_pow2_high();
            vstd::arithmetic::div_mod::lemma_small_mod(i as nat, pow2(128));
        }
        i as u128
    }

    fn most_significant_byte(self) -> u8 {
        proof {
            crate::width::lemma_pow2_high();
            vstd::arithmetic::power2::lemma2_to64();
            vstd::arithmetic::power2::lemma2_to64_rest();
            vstd::arithmetic::power2::lemma_pow2_adds(64, 56);
            vstd::arithmetic::div_mod::lemma_multiply_divide_lt(
                self as int,
                pow2(120) as int,
                0x100,
            );
        }
        (self / 0x100_0000_0000_0000_0000_0000_0000_0000) as u8
    }
}

/// Encode a string of Unicode characters into a packed value of type `N`:
/// the result is exactly what [`spec_encode`] says for `N`'s width, both on
/// success and in the choice of error.
pub fn encode<N: PackedValue>(chars: &Vec<char>) -> (r: Result<N, EncodeError>)
    ensures
        match (r, spec_encode(chars@, N::spec_bits())) {
            (Ok(v), Ok(x)) => v.as_nat() == x,
            (Err(e), Err(f)) => e == f,
            _ => false,
        },
{
    proof {
        N::lemma_bits_valid();
    }
    let n = N::nbits();
    match crate::codec::encode_value(chars, n) {
        Ok(v) => {
            proof {
                crate::codec::lemma_spec_encode_bound(chars@, N::spec_bits());
            }
            Ok(N::from_wide(v))
        },
        Err(e) => Err(e),
    }
}

/// Encoding attached to character containers, so that a caller can write
/// `v.encode_sixbit::<u64>()`.
pub trait EncodeSixbit {
    /// The characters to encode.
    spec fn chars_view(&self) -> Seq<char>;

    /// Pack the characters into a value of type `N`, as [`encode`] does.
    fn encode_sixbit<N: PackedValue>(&self) -> (r: Result<N, EncodeError>)
        ensures
            match (r, spec_encode(self.chars_view(), N::spec_bits())) {
                (Ok(v), Ok(x)) => v.as_nat() == x,
                (Err(e), Err(f)) => e == f,
                _ => false,
            },
    ;
}

impl EncodeSixbit for Vec<char> {
    open spec fn chars_view(&self) -> Seq<char> {
        self@
    }

    fn encode_sixbit<N: PackedValue>(&self) -> (r: Result<N, EncodeError>) {
        encode::<N>(self)
    }
}

/// Decoding attached to the packed value types, so that a caller can write
/// `n.decode_sixbit()`.
pub trait DecodeSixbit: PackedValue {
    /// Start pulling the packed string back out of the value.
    fn decode_sixbit(self) -> (it: DecodeSixbitIter)
        ensures
            it@ == spec_decode(self.as_nat(), Self::spec_bits()),
    ;
}

impl<N: PackedValue> DecodeSixbit for N {
    fn decode_sixbit(self) -> (it: DecodeSixbitIter) {
        proof {
            N::lemma_bits_valid();
            self.lemma_in_range();
        }
        let n = N::nbits();
        crate::codec::decode_value(self.to_wide(), n)
    }
}

} // verus!
