//! Numbers that are read from and written to guest memory.
use vstd::prelude::*;
use crate::bytes::{
    decode, encode, le_bytes, le_value, lemma_decode_encode, lemma_encode_decode,
    lemma_pow256_values, pow256,
};

verus! {

/// Conversion of primitives to bytes, as they stand in memory, and back.
pub trait Primitive: Default + Sized {
    /// How many bytes the primitive takes up.
    spec fn spec_size() -> nat;

    /// The bits of the primitive, as a number.
    spec fn bits(self) -> nat;

    /// A primitive is its bits.
    proof fn lemma_bits(self, other: Self)
        ensures
            1 <= Self::spec_size() <= 16,
            self.bits() < pow256(Self::spec_size()),
            self.bits() == other.bits() ==> self == other,
    ;

    /// How many bytes the primitive takes up.
    fn size() -> (r: usize)
        ensures
            r == Self::spec_size(),
    ;

    /// The bytes of the primitive.
    fn cast(&self) -> (r: Vec<u8>)
        ensures
            r@ == le_bytes(self.bits(), Self::spec_size()),
    ;

    /// Replaces the bytes of the primitive.
    fn cast_mut(&mut self, bytes: &[u8])
        requires
            bytes@.len() == Self::spec_size(),
        ensures
            final(self).bits() == le_value(bytes@),
    ;
}

/// The primitive that `bytes` stand for.
pub fn from_bytes<T: Primitive>(bytes: &[u8]) -> (r: T)
    requires
        bytes@.len() == T::spec_size(),
    ensures
        r.bits() == le_value(bytes@),
{
    let mut ret: T = T::default();
    ret.cast_mut(bytes);
    ret
}

/// A primitive that is written to bytes and read from them again is the same.
pub proof fn law_cast_round_trip<T: Primitive>(value: T, read: T)
    requires
        read.bits() == le_value(le_bytes(value.bits(), T::spec_size())),
    ensures
        read == value,
{
    value.lemma_bits(read);
    lemma_decode_encode(value.bits(), T::spec_size());
}

/// Bytes that are read as a primitive and written again are the same.
pub proof fn law_cast_mut_round_trip<T: Primitive>(bytes: Seq<u8>, read: T)
    requires
        bytes.len() == T::spec_size(),
        read.bits() == le_value(bytes),
    ensures
        le_bytes(read.bits(), T::spec_size()) == bytes,
{
    lemma_encode_decode(bytes);
}

impl Primitive for u8 {
    open spec fn spec_size() -> nat {
        1
    }

    open spec fn bits(self) -> nat {
        self as nat
    }

    proof fn lemma_bits(self, other: Self) {
        lemma_pow256_values();
    }

    fn size() -> usize {
        1
    }

    fn cast(&self) -> Vec<u8> {
        encode(*self as u128, 1)
    }

    fn cast_mut(&mut self, bytes: &[u8]) {
        proof {
            lemma_pow256_values();
            assert(bytes@.subrange(0, 1) =~= bytes@);
        }
        *self = decode(bytes, 0, 1) as u8;
    }
}

impl Primitive for u16 {
    open spec fn spec_size() -> nat {
        2
    }

    open spec fn bits(self) -> nat {
        self as nat
    }

    proof fn lemma_bits(self, other: Self) {
        lemma_pow256_values();
    }

    fn size() -> usize {
        2
    }

    fn cast(&self) -> Vec<u8> {
        encode(*self as u128, 2)
    }

    fn cast_mut(&mut self, bytes: &[u8]) {
        proof {
            lemma_pow256_values();
            assert(bytes@.subrange(0, 2) =~= bytes@);
        }
        *self = decode(bytes, 0, 2) as u16;
    }
}

impl Primitive for u32 {
    open spec fn spec_size() -> nat {
        4
    }

    open spec fn bits(self) -> nat {
        self as nat
    }

    proof fn lemma_bits(self, other: Self) {
        lemma_pow256_values();
    }

    fn size() -> usize {
        4
    }

    fn cast(&self) -> Vec<u8> {
        encode(*self as u128, 4)
    }

    fn cast_mut(&mut self, bytes: &[u8]) {
        proof {
            lemma_pow256_values();
            assert(bytes@.subrange(0, 4) =~= bytes@);
        }
        *self = decode(bytes, 0, 4) as u32;
    }
}

impl Primitive for u64 {
    open spec fn spec_size() -> nat {
        8
    }

    open spec fn bits(self) -> nat {
        self as nat
    }

    proof fn lemma_bits(self, other: Self) {
        lemma_pow256_values();
    }

    fn size() -> usize {
        8
    }

    fn cast(&self) -> Vec<u8> {
        encode(*self as u128, 8)
    }

    fn cast_mut(&mut self, bytes: &[u8]) {
        proof {
            lemma_pow256_values();
            assert(bytes@.subrange(0, 8) =~= bytes@);
        }
        *self = decode(bytes, 0, 8) as u64;
    }
}

impl Primitive for u128 {
    open spec fn spec_size() -> nat {
        16
    }

    open spec fn bits(self) -> nat {
        self as nat
    }

    proof fn lemma_bits(self, other: Self) {
        lemma_pow256_values();
    }

    fn size() -> usize {
        16
    }

    fn cast(&self) -> Vec<u8> {
        encode(*self as u128, 16)
    }

    fn cast_mut(&mut self, bytes: &[u8]) {
        proof {
            lemma_pow256_values();
            assert(bytes@.subrange(0, 16) =~= bytes@);
        }
        *self = decode(bytes, 0, 16) as u128;
    }
}

impl Primitive for i8 {
    open spec fn spec_size() -> nat {
        1
    }

    /// The two's complement of the number.
    open spec fn bits(self) -> nat {
        if self < 0 {
            (u8::MAX + 1 + self) as nat
        } else {
            self as nat
        }
    }

    proof fn lemma_bits(self, other: Self) {
        lemma_pow256_values();
    }

    fn size() -> usize {
        1
    }

    fn cast(&self) -> Vec<u8> {
        let bits: u8 = if *self < 0 {
            u8::MAX - (-(*self + 1)) as u8
        } else {
            *self as u8
        };
        encode(bits as u128, 1)
    }

    fn cast_mut(&mut self, bytes: &[u8]) {
        proof {
            lemma_pow256_values();
            assert(bytes@.subrange(0, 1) =~= bytes@);
        }
        let bits: u8 = decode(bytes, 0, 1) as u8;
        *self = if bits <= i8::MAX as u8 {
            bits as i8
        } else {
            -((u8::MAX - bits) as i8) - 1
        };
    }
}

impl Primitive for i16 {
    open spec fn spec_size() -> nat {
        2
    }

    /// The two's complement of the number.
    open spec fn bits(self) -> nat {
        if self < 0 {
            (u16::MAX + 1 + self) as nat
        } else {
            self as nat
        }
    }

    proof fn lemma_bits(self, other: Self) {
        lemma_pow256_values();
    }

    fn size() -> usize {
        2
    }

    fn cast(&self) -> Vec<u8> {
        let bits: u16 = if *self < 0 {
            u16::MAX - (-(*self + 1)) as u16
        } else {
            *self as u16
        };
        encode(bits as u128, 2)
    }

    fn cast_mut(&mut self, bytes: &[u8]) {
        proof {
            lemma_pow256_values();
            assert(bytes@.subrange(0, 2) =~= bytes@);
        }
        let bits: u16 = decode(bytes, 0, 2) as u16;
        *self = if bits <= i16::MAX as u16 {
            bits as i16
        } else {
            -((u16::MAX - bits) as i16) - 1
        };
    }
}

impl Primitive for i32 {
    open spec fn spec_size() -> nat {
        4
    }

    /// The two's complement of the number.
    open spec fn bits(self) -> nat {
        if self < 0 {
            (u32::MAX + 1 + self) as nat
        } else {
            self as nat
        }
    }

    proof fn lemma_bits(self, other: Self) {
        lemma_pow256_values();
    }

    fn size() -> usize {
        4
    }

    fn cast(&self) -> Vec<u8> {
        let bits: u32 = if *self < 0 {
            u32::MAX - (-(*self + 1)) as u32
        } else {
            *self as u32
        };
        encode(bits as u128, 4)
    }

    fn cast_mut(&mut self, bytes: &[u8]) {
        proof {
            lemma_pow256_values();
            assert(bytes@.subrange(0, 4) =~= bytes@);
        }
        let bits: u32 = decode(bytes, 0, 4) as u32;
        *self = if bits <= i32::MAX as u32 {
            bits as i32
        } else {
            -((u32::MAX - bits) as i32) - 1
        };
    }
}

impl Primitive for i64 {
    open spec fn spec_size() -> nat {
        8
    }

    /// The two's complement of the number.
    open spec fn bits(self) -> nat {
        if self < 0 {
            (u64::MAX + 1 + self) as nat
        } else {
            self as nat
        }
    }

    proof fn lemma_bits(self, other: Self) {
        lemma_pow256_values();
    }

    fn size() -> usize {
        8
    }

    fn cast(&self) -> Vec<u8> {
        let bits: u64 = if *self < 0 {
            u64::MAX - (-(*self + 1)) as u64
        } else {
            *self as u64
        };
        encode(bits as u128, 8)
    }

    fn cast_mut(&mut self, bytes: &[u8]) {
        proof {
            lemma_pow256_values();
            assert(bytes@.subrange(0, 8) =~= bytes@);
        }
        let bits: u64 = decode(bytes, 0, 8) as u64;
        *self = if bits <= i64::MAX as u64 {
            bits as i64
        } else {
            -((u64::MAX - bits) as i64) - 1
        };
    }
}

impl Primitive for i128 {
    open spec fn spec_size() -> nat {
        16
    }

    /// The two's complement of the number.
    open spec fn bits(self) -> nat {
        if self < 0 {
            (u128::MAX + 1 + self) as nat
        } else {
            self as nat
        }
    }

    proof fn lemma_bits(self, other: Self) {
        lemma_pow256_values();
    }

    fn size() -> usize {
        16
    }

    fn cast(&self) -> Vec<u8> {
        let bits: u128 = if *self < 0 {
            u128::MAX - (-(*self + 1)) as u128
        } else {
            *self as u128
        };
        encode(bits as u128, 16)
    }

    fn cast_mut(&mut self, bytes: &[u8]) {
        proof {
            lemma_pow256_values();
            assert(bytes@.subrange(0, 16) =~= bytes@);
        }
        let bits: u128 = decode(bytes, 0, 16) as u128;
        *self = if bits <= i128::MAX as u128 {
            bits as i128
        } else {
            -((u128::MAX - bits) as i128) - 1
        };
    }
}

/// A primitive takes up as many bytes as it has, and its bits are the number itself
/// or, for a number below zero, the number that is as far below the first one that
/// does not fit.
pub proof fn law_bits(a: u8, b: u16, c: u32, d: u64, e: u128, f: i8, g: i16, h: i32, i: i64, j: i128)
    ensures
        a.bits() == a && b.bits() == b && c.bits() == c && d.bits() == d && e.bits() == e,
        f.bits() == if f >= 0 { f as int } else { 0x100 + f },
        g.bits() == if g >= 0 { g as int } else { 0x1_0000 + g },
        h.bits() == if h >= 0 { h as int } else { 0x1_0000_0000 + h },
        i.bits() == if i >= 0 { i as int } else { 0x1_0000_0000_0000_0000 + i },
        j.bits() == if j >= 0 {
            j as int
        } else {
            0x1_0000_0000_0000_0000_0000_0000_0000_0000 + j
        },
        u8::spec_size() == 1 && u16::spec_size() == 2 && u32::spec_size() == 4,
        u64::spec_size() == 8 && u128::spec_size() == 16,
        i8::spec_size() == 1 && i16::spec_size() == 2 && i32::spec_size() == 4,
        i64::spec_size() == 8 && i128::spec_size() == 16,
{
}

} // verus!
