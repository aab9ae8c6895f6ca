//! The backing implementations: each fixed-width primitive integer of at
//! least 8 bits satisfies the capability contract (`u8` through `u128` and
//! `i16` through `i128`; `i8` lacks the 8-bit-literal conversion).
//!
//! Every unsigned width carries the same proofs: a bridge lemma showing
//! that the bit-sequence model encodes the scalar's own numeric value (so
//! numeric contracts follow from comparisons and casts), and one bit-level
//! lemma per primitive operation.  A signed backing works on the two's
//! complement bit pattern of its value: its operations cast to the
//! unsigned counterpart, reuse its lemmas, and cast back, so its numeric
//! reading is the unsigned value of its bits.  A negative position
//! therefore reads as a large value and is always out of range, which the
//! checked operations degrade on safely.

use crate::bitflagable::{nat_of_bits, value_of, BitflagAble};
use vstd::arithmetic::div_mod::*;
use vstd::arithmetic::power2::*;
use vstd::bits::*;
use vstd::prelude::*;

verus! {

use crate::bitflagable::{lemma_nat_of_bits_eq, lemma_nat_of_bits_zero};

/// The value of two to the power of 128, above every `u128`.
proof fn lemma_pow2_128()
    ensures
        pow2(128) == 0x100000000000000000000000000000000,
        pow2(128) == u128::MAX as nat + 1,
{
    lemma2_to64();
    lemma2_to64_rest();
    lemma_pow2_adds(64, 64);
    assert(pow2(128) == pow2(64) * pow2(64));
}

/// The bit sequence of a `u8`, least significant bit first.
pub open spec fn u8_bits(v: u8) -> Seq<bool> {
    Seq::new(8, |i: int| (v >> (i as u8)) & 1u8 == 1u8)
}

/// The bit-sequence model of a `u8` encodes the value itself.
proof fn lemma_value_u8(v: u8)
    ensures
        nat_of_bits(u8_bits(v)) == v as nat,
{
    assert forall|i: int| 0 <= i < 8 implies (#[trigger] u8_bits(v)[i]) == (((v as nat) / pow2(
        i as nat,
    )) % 2 == 1) by {
        let sh = i as u8;
        lemma_u8_shr_is_div(v, sh);
        assert((v >> sh) & 1u8 == (v >> sh) % 2u8) by (bit_vector);
    }
    lemma2_to64();
    lemma_nat_of_bits_eq(u8_bits(v), v as nat);
}

/// The numeric value of a `u8` backing is the scalar itself.
pub proof fn lemma_u8_value(v: u8)
    ensures
        value_of(v) == v as nat,
{
    lemma_value_u8(v);
}

/// Bitwise OR of `u8` values, bit by bit.
proof fn lemma_or_u8(a: u8, b: u8)
    ensures
        forall|i: int|
            0 <= i < 8 ==> (#[trigger] u8_bits(a | b)[i]) == (u8_bits(a)[i] || u8_bits(b)[i]),
{
    assert forall|i: int| 0 <= i < 8 implies (#[trigger] u8_bits(a | b)[i]) == (u8_bits(a)[i]
        || u8_bits(b)[i]) by {
        let sh = i as u8;
        assert((((a | b) >> sh) & 1u8 == 1u8) == (((a >> sh) & 1u8 == 1u8) || ((b >> sh) & 1u8
            == 1u8))) by (bit_vector)
            requires
                sh < 8u8,
        ;
    }
}

/// Bitwise AND of `u8` values, bit by bit.
proof fn lemma_and_u8(a: u8, b: u8)
    ensures
        forall|i: int|
            0 <= i < 8 ==> (#[trigger] u8_bits(a & b)[i]) == (u8_bits(a)[i] && u8_bits(b)[i]),
{
    assert forall|i: int| 0 <= i < 8 implies (#[trigger] u8_bits(a & b)[i]) == (u8_bits(a)[i]
        && u8_bits(b)[i]) by {
        let sh = i as u8;
        assert((((a & b) >> sh) & 1u8 == 1u8) == (((a >> sh) & 1u8 == 1u8) && ((b >> sh) & 1u8
            == 1u8))) by (bit_vector)
            requires
                sh < 8u8,
        ;
    }
}

/// Bitwise complement of a `u8` value, bit by bit.
proof fn lemma_not_u8(a: u8)
    ensures
        forall|i: int| 0 <= i < 8 ==> (#[trigger] u8_bits(!a)[i]) == !u8_bits(a)[i],
{
    assert forall|i: int| 0 <= i < 8 implies (#[trigger] u8_bits(!a)[i]) == !u8_bits(a)[i] by {
        let sh = i as u8;
        assert((((!a) >> sh) & 1u8 == 1u8) == !((a >> sh) & 1u8 == 1u8)) by (bit_vector)
            requires
                sh < 8u8,
        ;
    }
}

/// Left shift of a `u8` value: low positions clear, the rest move up.
proof fn lemma_shl_u8(a: u8, s: u8)
    requires
        s < 8u8,
    ensures
        forall|j: int| 0 <= j < s as int ==> !(#[trigger] u8_bits(a << s)[j]),
        forall|j: int|
            s as int <= j < 8 ==> (#[trigger] u8_bits(a << s)[j]) == u8_bits(a)[j - s as int],
{
    assert forall|j: int| 0 <= j < s as int implies !(#[trigger] u8_bits(a << s)[j]) by {
        let jj = j as u8;
        assert(!(((a << s) >> jj) & 1u8 == 1u8)) by (bit_vector)
            requires
                jj < s,
                s < 8u8,
        ;
    }
    assert forall|j: int| s as int <= j < 8 implies (#[trigger] u8_bits(a << s)[j]) == u8_bits(
        a,
    )[j - s as int] by {
        let jj = j as u8;
        let d = (j - s as int) as u8;
        assert((((a << s) >> jj) & 1u8 == 1u8) == ((a >> d) & 1u8 == 1u8)) by (bit_vector)
            requires
                s < 8u8,
                jj < 8u8,
                jj == d + s,
        ;
    }
}

/// The wrapped sum of `u8` values encodes addition modulo two to the width.
proof fn lemma_wrap_u8(x: u8, y: u8, r: u8)
    requires
        r == vstd::wrapping::u8_specs::wrapping_add(x, y),
    ensures
        nat_of_bits(u8_bits(r)) == (x as nat + y as nat) % pow2(8),
{
    lemma_value_u8(r);
    lemma2_to64();
    let total = x as nat + y as nat;
    if total > u8::MAX as nat {
        lemma_mod_sub_multiples_vanish(total as int, pow2(8) as int);
        lemma_small_mod((total - pow2(8)) as nat, pow2(8));
    } else {
        lemma_small_mod(total, pow2(8));
    }
}

impl BitflagAble for u8 {
    open spec fn width() -> nat {
        8
    }

    open spec fn bits(self) -> Seq<bool> {
        u8_bits(self)
    }

    proof fn lemma_width() {
    }

    proof fn lemma_bits_len(self) {
    }

    fn exec_width() -> (w: usize) {
        8
    }

    fn zero() -> (r: Self) {
        proof {
            lemma_value_u8(0u8);
            lemma_nat_of_bits_zero(u8_bits(0u8));
        }
        0u8
    }

    fn from_u8(v: u8) -> (r: Self) {
        let r = v;
        proof {
            lemma_value_u8(r);
        }
        r
    }

    fn bit_or(self, other: Self) -> (r: Self) {
        proof {
            lemma_or_u8(self, other);
        }
        self | other
    }

    fn bit_and(self, other: Self) -> (r: Self) {
        proof {
            lemma_and_u8(self, other);
        }
        self & other
    }

    fn bit_not(self) -> (r: Self) {
        proof {
            lemma_not_u8(self);
        }
        !self
    }

    fn shl(self, amount: Self) -> (r: Self) {
        proof {
            lemma_value_u8(amount);
            lemma_shl_u8(self, amount);
        }
        self << amount
    }

    fn eq_value(self, other: Self) -> (r: bool) {
        proof {
            lemma_value_u8(self);
            lemma_value_u8(other);
        }
        self == other
    }

    fn ge(self, other: Self) -> (r: bool) {
        proof {
            lemma_value_u8(self);
            lemma_value_u8(other);
        }
        self >= other
    }

    fn wrapping_add(self, other: Self) -> (r: Self) {
        let r = u8::wrapping_add(self, other);
        proof {
            lemma_value_u8(self);
            lemma_value_u8(other);
            lemma_wrap_u8(self, other, r);
        }
        r
    }
}

/// The bit sequence of a `u16`, least significant bit first.
pub open spec fn u16_bits(v: u16) -> Seq<bool> {
    Seq::new(16, |i: int| (v >> (i as u16)) & 1u16 == 1u16)
}

/// The bit-sequence model of a `u16` encodes the value itself.
proof fn lemma_value_u16(v: u16)
    ensures
        nat_of_bits(u16_bits(v)) == v as nat,
{
    assert forall|i: int| 0 <= i < 16 implies (#[trigger] u16_bits(v)[i]) == (((v as nat) / pow2(
        i as nat,
    )) % 2 == 1) by {
        let sh = i as u16;
        lemma_u16_shr_is_div(v, sh);
        assert((v >> sh) & 1u16 == (v >> sh) % 2u16) by (bit_vector);
    }
    lemma2_to64();
    lemma_nat_of_bits_eq(u16_bits(v), v as nat);
}

/// The numeric value of a `u16` backing is the scalar itself.
pub proof fn lemma_u16_value(v: u16)
    ensures
        value_of(v) == v as nat,
{
    lemma_value_u16(v);
}

/// Bitwise OR of `u16` values, bit by bit.
proof fn lemma_or_u16(a: u16, b: u16)
    ensures
        forall|i: int|
            0 <= i < 16 ==> (#[trigger] u16_bits(a | b)[i]) == (u16_bits(a)[i] || u16_bits(b)[i]),
{
    assert forall|i: int| 0 <= i < 16 implies (#[trigger] u16_bits(a | b)[i]) == (u16_bits(a)[i]
        || u16_bits(b)[i]) by {
        let sh = i as u16;
        assert((((a | b) >> sh) & 1u16 == 1u16) == (((a >> sh) & 1u16 == 1u16) || ((b >> sh) & 1u16
            == 1u16))) by (bit_vector)
            requires
                sh < 16u16,
        ;
    }
}

/// Bitwise AND of `u16` values, bit by bit.
proof fn lemma_and_u16(a: u16, b: u16)
    ensures
        forall|i: int|
            0 <= i < 16 ==> (#[trigger] u16_bits(a & b)[i]) == (u16_bits(a)[i] && u16_bits(b)[i]),
{
    assert forall|i: int| 0 <= i < 16 implies (#[trigger] u16_bits(a & b)[i]) == (u16_bits(a)[i]
        && u16_bits(b)[i]) by {
        let sh = i as u16;
        assert((((a & b) >> sh) & 1u16 == 1u16) == (((a >> sh) & 1u16 == 1u16) && ((b >> sh) & 1u16
            == 1u16))) by (bit_vector)
            requires
                sh < 16u16,
        ;
    }
}

/// Bitwise complement of a `u16` value, bit by bit.
proof fn lemma_not_u16(a: u16)
    ensures
        forall|i: int| 0 <= i < 16 ==> (#[trigger] u16_bits(!a)[i]) == !u16_bits(a)[i],
{
    assert forall|i: int| 0 <= i < 16 implies (#[trigger] u16_bits(!a)[i]) == !u16_bits(a)[i] by {
        let sh = i as u16;
        assert((((!a) >> sh) & 1u16 == 1u16) == !((a >> sh) & 1u16 == 1u16)) by (bit_vector)
            requires
                sh < 16u16,
        ;
    }
}

/// Left shift of a `u16` value: low positions clear, the rest move up.
proof fn lemma_shl_u16(a: u16, s: u16)
    requires
        s < 16u16,
    ensures
        forall|j: int| 0 <= j < s as int ==> !(#[trigger] u16_bits(a << s)[j]),
        forall|j: int|
            s as int <= j < 16 ==> (#[trigger] u16_bits(a << s)[j]) == u16_bits(a)[j - s as int],
{
    assert forall|j: int| 0 <= j < s as int implies !(#[trigger] u16_bits(a << s)[j]) by {
        let jj = j as u16;
        assert(!(((a << s) >> jj) & 1u16 == 1u16)) by (bit_vector)
            requires
                jj < s,
                s < 16u16,
        ;
    }
    assert forall|j: int| s as int <= j < 16 implies (#[trigger] u16_bits(a << s)[j]) == u16_bits(
        a,
    )[j - s as int] by {
        let jj = j as u16;
        let d = (j - s as int) as u16;
        assert((((a << s) >> jj) & 1u16 == 1u16) == ((a >> d) & 1u16 == 1u16)) by (bit_vector)
            requires
                s < 16u16,
                jj < 16u16,
                jj == d + s,
        ;
    }
}

/// The wrapped sum of `u16` values encodes addition modulo two to the width.
proof fn lemma_wrap_u16(x: u16, y: u16, r: u16)
    requires
        r == vstd::wrapping::u16_specs::wrapping_add(x, y),
    ensures
        nat_of_bits(u16_bits(r)) == (x as nat + y as nat) % pow2(16),
{
    lemma_value_u16(r);
    lemma2_to64();
    let total = x as nat + y as nat;
    if total > u16::MAX as nat {
        lemma_mod_sub_multiples_vanish(total as int, pow2(16) as int);
        lemma_small_mod((total - pow2(16)) as nat, pow2(16));
    } else {
        lemma_small_mod(total, pow2(16));
    }
}

impl BitflagAble for u16 {
    open spec fn width() -> nat {
        16
    }

    open spec fn bits(self) -> Seq<bool> {
        u16_bits(self)
    }

    proof fn lemma_width() {
    }

    proof fn lemma_bits_len(self) {
    }

    fn exec_width() -> (w: usize) {
        16
    }

    fn zero() -> (r: Self) {
        proof {
            lemma_value_u16(0u16);
            lemma_nat_of_bits_zero(u16_bits(0u16));
        }
        0u16
    }

    fn from_u8(v: u8) -> (r: Self) {
        let r = v as u16;
        proof {
            lemma_value_u16(r);
        }
        r
    }

    fn bit_or(self, other: Self) -> (r: Self) {
        proof {
            lemma_or_u16(self, other);
        }
        self | other
    }

    fn bit_and(self, other: Self) -> (r: Self) {
        proof {
            lemma_and_u16(self, other);
        }
        self & other
    }

    fn bit_not(self) -> (r: Self) {
        proof {
            lemma_not_u16(self);
        }
        !self
    }

    fn shl(self, amount: Self) -> (r: Self) {
        proof {
            lemma_value_u16(amount);
            lemma_shl_u16(self, amount);
        }
        self << amount
    }

    fn eq_value(self, other: Self) -> (r: bool) {
        proof {
            lemma_value_u16(self);
            lemma_value_u16(other);
        }
        self == other
    }

    fn ge(self, other: Self) -> (r: bool) {
        proof {
            lemma_value_u16(self);
            lemma_value_u16(other);
        }
        self >= other
    }

    fn wrapping_add(self, other: Self) -> (r: Self) {
        let r = u16::wrapping_add(self, other);
        proof {
            lemma_value_u16(self);
            lemma_value_u16(other);
            lemma_wrap_u16(self, other, r);
        }
        r
    }
}

/// The bit sequence of a `u32`, least significant bit first.
pub open spec fn u32_bits(v: u32) -> Seq<bool> {
    Seq::new(32, |i: int| (v >> (i as u32)) & 1u32 == 1u32)
}

/// The bit-sequence model of a `u32` encodes the value itself.
proof fn lemma_value_u32(v: u32)
    ensures
        nat_of_bits(u32_bits(v)) == v as nat,
{
    assert forall|i: int| 0 <= i < 32 implies (#[trigger] u32_bits(v)[i]) == (((v as nat) / pow2(
        i as nat,
    )) % 2 == 1) by {
        let sh = i as u32;
        lemma_u32_shr_is_div(v, sh);
        assert((v >> sh) & 1u32 == (v >> sh) % 2u32) by (bit_vector);
    }
    lemma2_to64();
    lemma_nat_of_bits_eq(u32_bits(v), v as nat);
}

/// The numeric value of a `u32` backing is the scalar itself.
pub proof fn lemma_u32_value(v: u32)
    ensures
        value_of(v) == v as nat,
{
    lemma_value_u32(v);
}

/// Bitwise OR of `u32` values, bit by bit.
proof fn lemma_or_u32(a: u32, b: u32)
    ensures
        forall|i: int|
            0 <= i < 32 ==> (#[trigger] u32_bits(a | b)[i]) == (u32_bits(a)[i] || u32_bits(b)[i]),
{
    assert forall|i: int| 0 <= i < 32 implies (#[trigger] u32_bits(a | b)[i]) == (u32_bits(a)[i]
        || u32_bits(b)[i]) by {
        let sh = i as u32;
        assert((((a | b) >> sh) & 1u32 == 1u32) == (((a >> sh) & 1u32 == 1u32) || ((b >> sh) & 1u32
            == 1u32))) by (bit_vector)
            requires
                sh < 32u32,
        ;
    }
}

/// Bitwise AND of `u32` values, bit by bit.
proof fn lemma_and_u32(a: u32, b: u32)
    ensures
        forall|i: int|
            0 <= i < 32 ==> (#[trigger] u32_bits(a & b)[i]) == (u32_bits(a)[i] && u32_bits(b)[i]),
{
    assert forall|i: int| 0 <= i < 32 implies (#[trigger] u32_bits(a & b)[i]) == (u32_bits(a)[i]
        && u32_bits(b)[i]) by {
        let sh = i as u32;
        assert((((a & b) >> sh) & 1u32 == 1u32) == (((a >> sh) & 1u32 == 1u32) && ((b >> sh) & 1u32
            == 1u32))) by (bit_vector)
            requires
                sh < 32u32,
        ;
    }
}

/// Bitwise complement of a `u32` value, bit by bit.
proof fn lemma_not_u32(a: u32)
    ensures
        forall|i: int| 0 <= i < 32 ==> (#[trigger] u32_bits(!a)[i]) == !u32_bits(a)[i],
{
    assert forall|i: int| 0 <= i < 32 implies (#[trigger] u32_bits(!a)[i]) == !u32_bits(a)[i] by {
        let sh = i as u32;
        assert((((!a) >> sh) & 1u32 == 1u32) == !((a >> sh) & 1u32 == 1u32)) by (bit_vector)
            requires
                sh < 32u32,
        ;
    }
}

/// Left shift of a `u32` value: low positions clear, the rest move up.
proof fn lemma_shl_u32(a: u32, s: u32)
    requires
        s < 32u32,
    ensures
        forall|j: int| 0 <= j < s as int ==> !(#[trigger] u32_bits(a << s)[j]),
        forall|j: int|
            s as int <= j < 32 ==> (#[trigger] u32_bits(a << s)[j]) == u32_bits(a)[j - s as int],
{
    assert forall|j: int| 0 <= j < s as int implies !(#[trigger] u32_bits(a << s)[j]) by {
        let jj = j as u32;
        assert(!(((a << s) >> jj) & 1u32 == 1u32)) by (bit_vector)
            requires
                jj < s,
                s < 32u32,
        ;
    }
    assert forall|j: int| s as int <= j < 32 implies (#[trigger] u32_bits(a << s)[j]) == u32_bits(
        a,
    )[j - s as int] by {
        let jj = j as u32;
        let d = (j - s as int) as u32;
        assert((((a << s) >> jj) & 1u32 == 1u32) == ((a >> d) & 1u32 == 1u32)) by (bit_vector)
            requires
                s < 32u32,
                jj < 32u32,
                jj == d + s,
        ;
    }
}

/// The wrapped sum of `u32` values encodes addition modulo two to the width.
proof fn lemma_wrap_u32(x: u32, y: u32, r: u32)
    requires
        r == vstd::wrapping::u32_specs::wrapping_add(x, y),
    ensures
        nat_of_bits(u32_bits(r)) == (x as nat + y as nat) % pow2(32),
{
    lemma_value_u32(r);
    lemma2_to64();
    let total = x as nat + y as nat;
    if total > u32::MAX as nat {
        lemma_mod_sub_multiples_vanish(total as int, pow2(32) as int);
        lemma_small_mod((total - pow2(32)) as nat, pow2(32));
    } else {
        lemma_small_mod(total, pow2(32));
    }
}

impl BitflagAble for u32 {
    open spec fn width() -> nat {
        32
    }

    open spec fn bits(self) -> Seq<bool> {
        u32_bits(self)
    }

    proof fn lemma_width() {
    }

    proof fn lemma_bits_len(self) {
    }

    fn exec_width() -> (w: usize) {
        32
    }

    fn zero() -> (r: Self) {
        proof {
            lemma_value_u32(0u32);
            lemma_nat_of_bits_zero(u32_bits(0u32));
        }
        0u32
    }

    fn from_u8(v: u8) -> (r: Self) {
        let r = v as u32;
        proof {
            lemma_value_u32(r);
        }
        r
    }

    fn bit_or(self, other: Self) -> (r: Self) {
        proof {
            lemma_or_u32(self, other);
        }
        self | other
    }

    fn bit_and(self, other: Self) -> (r: Self) {
        proof {
            lemma_and_u32(self, other);
        }
        self & other
    }

    fn bit_not(self) -> (r: Self) {
        proof {
            lemma_not_u32(self);
        }
        !self
    }

    fn shl(self, amount: Self) -> (r: Self) {
        proof {
            lemma_value_u32(amount);
            lemma_shl_u32(self, amount);
        }
        self << amount
    }

    fn eq_value(self, other: Self) -> (r: bool) {
        proof {
            lemma_value_u32(self);
            lemma_value_u32(other);
        }
        self == other
    }

    fn ge(self, other: Self) -> (r: bool) {
        proof {
            lemma_value_u32(self);
            lemma_value_u32(other);
        }
        self >= other
    }

    fn wrapping_add(self, other: Self) -> (r: Self) {
        let r = u32::wrapping_add(self, other);
        proof {
            lemma_value_u32(self);
            lemma_value_u32(other);
            lemma_wrap_u32(self, other, r);
        }
        r
    }
}

/// The bit sequence of a `u64`, least significant bit first.
pub open spec fn u64_bits(v: u64) -> Seq<bool> {
    Seq::new(64, |i: int| (v >> (i as u64)) & 1u64 == 1u64)
}

/// The bit-sequence model of a `u64` encodes the value itself.
proof fn lemma_value_u64(v: u64)
    ensures
        nat_of_bits(u64_bits(v)) == v as nat,
{
    assert forall|i: int| 0 <= i < 64 implies (#[trigger] u64_bits(v)[i]) == (((v as nat) / pow2(
        i as nat,
    )) % 2 == 1) by {
        let sh = i as u64;
        lemma_u64_shr_is_div(v, sh);
        assert((v >> sh) & 1u64 == (v >> sh) % 2u64) by (bit_vector);
    }
    lemma2_to64();
    lemma2_to64_rest();
    lemma_nat_of_bits_eq(u64_bits(v), v as nat);
}

/// The numeric value of a `u64` backing is the scalar itself.
pub proof fn lemma_u64_value(v: u64)
    ensures
        value_of(v) == v as nat,
{
    lemma_value_u64(v);
}

/// Bitwise OR of `u64` values, bit by bit.
proof fn lemma_or_u64(a: u64, b: u64)
    ensures
        forall|i: int|
            0 <= i < 64 ==> (#[trigger] u64_bits(a | b)[i]) == (u64_bits(a)[i] || u64_bits(b)[i]),
{
    assert forall|i: int| 0 <= i < 64 implies (#[trigger] u64_bits(a | b)[i]) == (u64_bits(a)[i]
        || u64_bits(b)[i]) by {
        let sh = i as u64;
        assert((((a | b) >> sh) & 1u64 == 1u64) == (((a >> sh) & 1u64 == 1u64) || ((b >> sh) & 1u64
            == 1u64))) by (bit_vector)
            requires
                sh < 64u64,
        ;
    }
}

/// Bitwise AND of `u64` values, bit by bit.
proof fn lemma_and_u64(a: u64, b: u64)
    ensures
        forall|i: int|
            0 <= i < 64 ==> (#[trigger] u64_bits(a & b)[i]) == (u64_bits(a)[i] && u64_bits(b)[i]),
{
    assert forall|i: int| 0 <= i < 64 implies (#[trigger] u64_bits(a & b)[i]) == (u64_bits(a)[i]
        && u64_bits(b)[i]) by {
        let sh = i as u64;
        assert((((a & b) >> sh) & 1u64 == 1u64) == (((a >> sh) & 1u64 == 1u64) && ((b >> sh) & 1u64
            == 1u64))) by (bit_vector)
            requires
                sh < 64u64,
        ;
    }
}

/// Bitwise complement of a `u64` value, bit by bit.
proof fn lemma_not_u64(a: u64)
    ensures
        forall|i: int| 0 <= i < 64 ==> (#[trigger] u64_bits(!a)[i]) == !u64_bits(a)[i],
{
    assert forall|i: int| 0 <= i < 64 implies (#[trigger] u64_bits(!a)[i]) == !u64_bits(a)[i] by {
        let sh = i as u64;
        assert((((!a) >> sh) & 1u64 == 1u64) == !((a >> sh) & 1u64 == 1u64)) by (bit_vector)
            requires
                sh < 64u64,
        ;
    }
}

/// Left shift of a `u64` value: low positions clear, the rest move up.
proof fn lemma_shl_u64(a: u64, s: u64)
    requires
        s < 64u64,
    ensures
        forall|j: int| 0 <= j < s as int ==> !(#[trigger] u64_bits(a << s)[j]),
        forall|j: int|
            s as int <= j < 64 ==> (#[trigger] u64_bits(a << s)[j]) == u64_bits(a)[j - s as int],
{
    assert forall|j: int| 0 <= j < s as int implies !(#[trigger] u64_bits(a << s)[j]) by {
        let jj = j as u64;
        assert(!(((a << s) >> jj) & 1u64 == 1u64)) by (bit_vector)
            requires
                jj < s,
                s < 64u64,
        ;
    }
    assert forall|j: int| s as int <= j < 64 implies (#[trigger] u64_bits(a << s)[j]) == u64_bits(
        a,
    )[j - s as int] by {
        let jj = j as u64;
        let d = (j - s as int) as u64;
        assert((((a << s) >> jj) & 1u64 == 1u64) == ((a >> d) & 1u64 == 1u64)) by (bit_vector)
            requires
                s < 64u64,
                jj < 64u64,
                jj == d + s,
        ;
    }
}

/// The wrapped sum of `u64` values encodes addition modulo two to the width.
proof fn lemma_wrap_u64(x: u64, y: u64, r: u64)
    requires
        r == vstd::wrapping::u64_specs::wrapping_add(x, y),
    ensures
        nat_of_bits(u64_bits(r)) == (x as nat + y as nat) % pow2(64),
{
    lemma_value_u64(r);
    lemma2_to64();
    lemma2_to64_rest();
    let total = x as nat + y as nat;
    if total > u64::MAX as nat {
        lemma_mod_sub_multiples_vanish(total as int, pow2(64) as int);
        lemma_small_mod((total - pow2(64)) as nat, pow2(64));
    } else {
        lemma_small_mod(total, pow2(64));
    }
}

impl BitflagAble for u64 {
    open spec fn width() -> nat {
        64
    }

    open spec fn bits(self) -> Seq<bool> {
        u64_bits(self)
    }

    proof fn lemma_width() {
    }

    proof fn lemma_bits_len(self) {
    }

    fn exec_width() -> (w: usize) {
        64
    }

    fn zero() -> (r: Self) {
        proof {
            lemma_value_u64(0u64);
            lemma_nat_of_bits_zero(u64_bits(0u64));
        }
        0u64
    }

    fn from_u8(v: u8) -> (r: Self) {
        let r = v as u64;
        proof {
            lemma_value_u64(r);
        }
        r
    }

    fn bit_or(self, other: Self) -> (r: Self) {
        proof {
            lemma_or_u64(self, other);
        }
        self | other
    }

    fn bit_and(self, other: Self) -> (r: Self) {
        proof {
            lemma_and_u64(self, other);
        }
        self & other
    }

    fn bit_not(self) -> (r: Self) {
        proof {
            lemma_not_u64(self);
        }
        !self
    }

    fn shl(self, amount: Self) -> (r: Self) {
        proof {
            lemma_value_u64(amount);
            lemma_shl_u64(self, amount);
        }
        self << amount
    }

    fn eq_value(self, other: Self) -> (r: bool) {
        proof {
            lemma_value_u64(self);
            lemma_value_u64(other);
        }
        self == other
    }

    fn ge(self, other: Self) -> (r: bool) {
        proof {
            lemma_value_u64(self);
            lemma_value_u64(other);
        }
        self >= other
    }

    fn wrapping_add(self, other: Self) -> (r: Self) {
        let r = u64::wrapping_add(self, other);
        proof {
            lemma_value_u64(self);
            lemma_value_u64(other);
            lemma_wrap_u64(self, other, r);
        }
        r
    }
}

/// The bit sequence of a `u128`, least significant bit first.
pub open spec fn u128_bits(v: u128) -> Seq<bool> {
    Seq::new(128, |i: int| (v >> (i as u128)) & 1u128 == 1u128)
}

/// The bit-sequence model of a `u128` encodes the value itself.
proof fn lemma_value_u128(v: u128)
    ensures
        nat_of_bits(u128_bits(v)) == v as nat,
{
    assert forall|i: int| 0 <= i < 128 implies (#[trigger] u128_bits(v)[i]) == (((v as nat) / pow2(
        i as nat,
    )) % 2 == 1) by {
        let sh = i as u128;
        lemma_u128_shr_is_div(v, sh);
        assert((v >> sh) & 1u128 == (v >> sh) % 2u128) by (bit_vector);
    }
    lemma_pow2_128();
    lemma_nat_of_bits_eq(u128_bits(v), v as nat);
}

/// The numeric value of a `u128` backing is the scalar itself.
pub proof fn lemma_u128_value(v: u128)
    ensures
        value_of(v) == v as nat,
{
    lemma_value_u128(v);
}

/// Bitwise OR of `u128` values, bit by bit.
proof fn lemma_or_u128(a: u128, b: u128)
    ensures
        forall|i: int|
            0 <= i < 128 ==> (#[trigger] u128_bits(a | b)[i]) == (u128_bits(a)[i] || u128_bits(b)[i]),
{
    assert forall|i: int| 0 <= i < 128 implies (#[trigger] u128_bits(a | b)[i]) == (u128_bits(a)[i]
        || u128_bits(b)[i]) by {
        let sh = i as u128;
        assert((((a | b) >> sh) & 1u128 == 1u128) == (((a >> sh) & 1u128 == 1u128) || ((b >> sh) & 1u128
            == 1u128))) by (bit_vector)
            requires
                sh < 128u128,
        ;
    }
}

/// Bitwise AND of `u128` values, bit by bit.
proof fn lemma_and_u128(a: u128, b: u128)
    ensures
        forall|i: int|
            0 <= i < 128 ==> (#[trigger] u128_bits(a & b)[i]) == (u128_bits(a)[i] && u128_bits(b)[i]),
{
    assert forall|i: int| 0 <= i < 128 implies (#[trigger] u128_bits(a & b)[i]) == (u128_bits(a)[i]
        && u128_bits(b)[i]) by {
        let sh = i as u128;
        assert((((a & b) >> sh) & 1u128 == 1u128) == (((a >> sh) & 1u128 == 1u128) && ((b >> sh) & 1u128
            == 1u128))) by (bit_vector)
            requires
                sh < 128u128,
        ;
    }
}

/// Bitwise complement of a `u128` value, bit by bit.
proof fn lemma_not_u128(a: u128)
    ensures
        forall|i: int| 0 <= i < 128 ==> (#[trigger] u128_bits(!a)[i]) == !u128_bits(a)[i],
{
    assert forall|i: int| 0 <= i < 128 implies (#[trigger] u128_bits(!a)[i]) == !u128_bits(a)[i] by {
        let sh = i as u128;
        assert((((!a) >> sh) & 1u128 == 1u128) == !((a >> sh) & 1u128 == 1u128)) by (bit_vector)
            requires
                sh < 128u128,
        ;
    }
}

/// Left shift of a `u128` value: low positions clear, the rest move up.
proof fn lemma_shl_u128(a: u128, s: u128)
    requires
        s < 128u128,
    ensures
        forall|j: int| 0 <= j < s as int ==> !(#[trigger] u128_bits(a << s)[j]),
        forall|j: int|
            s as int <= j < 128 ==> (#[trigger] u128_bits(a << s)[j]) == u128_bits(a)[j - s as int],
{
    assert forall|j: int| 0 <= j < s as int implies !(#[trigger] u128_bits(a << s)[j]) by {
        let jj = j as u128;
        assert(!(((a << s) >> jj) & 1u128 == 1u128)) by (bit_vector)
            requires
                jj < s,
                s < 128u128,
        ;
    }
    assert forall|j: int| s as int <= j < 128 implies (#[trigger] u128_bits(a << s)[j]) == u128_bits(
        a,
    )[j - s as int] by {
        let jj = j as u128;
        let d = (j - s as int) as u128;
        assert((((a << s) >> jj) & 1u128 == 1u128) == ((a >> d) & 1u128 == 1u128)) by (bit_vector)
            requires
                s < 128u128,
                jj < 128u128,
                jj == d + s,
        ;
    }
}

/// The wrapped sum of `u128` values encodes addition modulo two to the width.
proof fn lemma_wrap_u128(x: u128, y: u128, r: u128)
    requires
        r == vstd::wrapping::u128_specs::wrapping_add(x, y),
    ensures
        nat_of_bits(u128_bits(r)) == (x as nat + y as nat) % pow2(128),
{
    lemma_value_u128(r);
    lemma_pow2_128();
    let total = x as nat + y as nat;
    if total > u128::MAX as nat {
        lemma_mod_sub_multiples_vanish(total as int, pow2(128) as int);
        lemma_small_mod((total - pow2(128)) as nat, pow2(128));
    } else {
        lemma_small_mod(total, pow2(128));
    }
}

impl BitflagAble for u128 {
    open spec fn width() -> nat {
        128
    }

    open spec fn bits(self) -> Seq<bool> {
        u128_bits(self)
    }

    proof fn lemma_width() {
    }

    proof fn lemma_bits_len(self) {
    }

    fn exec_width() -> (w: usize) {
        128
    }

    fn zero() -> (r: Self) {
        proof {
            lemma_value_u128(0u128);
            lemma_nat_of_bits_zero(u128_bits(0u128));
        }
        0u128
    }

    fn from_u8(v: u8) -> (r: Self) {
        let r = v as u128;
        proof {
            lemma_value_u128(r);
        }
        r
    }

    fn bit_or(self, other: Self) -> (r: Self) {
        proof {
            lemma_or_u128(self, other);
        }
        self | other
    }

    fn bit_and(self, other: Self) -> (r: Self) {
        proof {
            lemma_and_u128(self, other);
        }
        self & other
    }

    fn bit_not(self) -> (r: Self) {
        proof {
            lemma_not_u128(self);
        }
        !self
    }

    fn shl(self, amount: Self) -> (r: Self) {
        proof {
            lemma_value_u128(amount);
            lemma_shl_u128(self, amount);
        }
        self << amount
    }

    fn eq_value(self, other: Self) -> (r: bool) {
        proof {
            lemma_value_u128(self);
            lemma_value_u128(other);
        }
        self == other
    }

    fn ge(self, other: Self) -> (r: bool) {
        proof {
            lemma_value_u128(self);
            lemma_value_u128(other);
        }
        self >= other
    }

    fn wrapping_add(self, other: Self) -> (r: Self) {
        let r = u128::wrapping_add(self, other);
        proof {
            lemma_value_u128(self);
            lemma_value_u128(other);
            lemma_wrap_u128(self, other, r);
        }
        r
    }
}

/// The bit sequence of an `i16`: the two's complement pattern of the value.
pub open spec fn i16_bits(v: i16) -> Seq<bool> {
    u16_bits(v as u16)
}

/// Casts between `i16` and `u16` keep the bit pattern.
proof fn lemma_i16_casts(x: u16, a: i16, b: i16, v: u8)
    by (bit_vector)
    ensures
        ((x as i16) as u16) == x,
        ((a as u16) as i16) == a,
        ((v as i16) as u16) == v as u16,
        (a == b) == ((a as u16) == (b as u16)),
{
}

/// The numeric value of an `i16` backing is the unsigned reading of its
/// two's complement bit pattern.
pub proof fn lemma_i16_value(v: i16)
    ensures
        value_of(v) == (v as u16) as nat,
{
    lemma_value_u16(v as u16);
}

impl BitflagAble for i16 {
    open spec fn width() -> nat {
        16
    }

    open spec fn bits(self) -> Seq<bool> {
        i16_bits(self)
    }

    proof fn lemma_width() {
    }

    proof fn lemma_bits_len(self) {
    }

    fn exec_width() -> (w: usize) {
        16
    }

    fn zero() -> (r: Self) {
        proof {
            lemma_value_u16(0u16);
            lemma_nat_of_bits_zero(u16_bits(0u16));
        }
        0i16
    }

    fn from_u8(v: u8) -> (r: Self) {
        let r = v as i16;
        proof {
            lemma_i16_casts(0u16, r, r, v);
            lemma_value_u16(r as u16);
        }
        r
    }

    fn bit_or(self, other: Self) -> (r: Self) {
        let u = (self as u16) | (other as u16);
        let r = u as i16;
        proof {
            lemma_i16_casts(u, self, other, 0u8);
            lemma_or_u16(self as u16, other as u16);
        }
        r
    }

    fn bit_and(self, other: Self) -> (r: Self) {
        let u = (self as u16) & (other as u16);
        let r = u as i16;
        proof {
            lemma_i16_casts(u, self, other, 0u8);
            lemma_and_u16(self as u16, other as u16);
        }
        r
    }

    fn bit_not(self) -> (r: Self) {
        let u = !(self as u16);
        let r = u as i16;
        proof {
            lemma_i16_casts(u, self, self, 0u8);
            lemma_not_u16(self as u16);
        }
        r
    }

    fn shl(self, amount: Self) -> (r: Self) {
        proof {
            lemma_value_u16(amount as u16);
        }
        let s = amount as u16;
        let u = (self as u16) << s;
        let r = u as i16;
        proof {
            lemma_i16_casts(u, self, amount, 0u8);
            lemma_shl_u16(self as u16, s);
        }
        r
    }

    fn eq_value(self, other: Self) -> (r: bool) {
        proof {
            lemma_i16_casts(0u16, self, other, 0u8);
            lemma_value_u16(self as u16);
            lemma_value_u16(other as u16);
        }
        self == other
    }

    fn ge(self, other: Self) -> (r: bool) {
        proof {
            lemma_value_u16(self as u16);
            lemma_value_u16(other as u16);
        }
        (self as u16) >= (other as u16)
    }

    fn wrapping_add(self, other: Self) -> (r: Self) {
        let u = u16::wrapping_add(self as u16, other as u16);
        let r = u as i16;
        proof {
            lemma_i16_casts(u, self, other, 0u8);
            lemma_value_u16(self as u16);
            lemma_value_u16(other as u16);
            lemma_wrap_u16(self as u16, other as u16, u);
        }
        r
    }
}

/// The bit sequence of an `i32`: the two's complement pattern of the value.
pub open spec fn i32_bits(v: i32) -> Seq<bool> {
    u32_bits(v as u32)
}

/// Casts between `i32` and `u32` keep the bit pattern.
proof fn lemma_i32_casts(x: u32, a: i32, b: i32, v: u8)
    by (bit_vector)
    ensures
        ((x as i32) as u32) == x,
        ((a as u32) as i32) == a,
        ((v as i32) as u32) == v as u32,
        (a == b) == ((a as u32) == (b as u32)),
{
}

/// The numeric value of an `i32` backing is the unsigned reading of its
/// two's complement bit pattern.
pub proof fn lemma_i32_value(v: i32)
    ensures
        value_of(v) == (v as u32) as nat,
{
    lemma_value_u32(v as u32);
}

impl BitflagAble for i32 {
    open spec fn width() -> nat {
        32
    }

    open spec fn bits(self) -> Seq<bool> {
        i32_bits(self)
    }

    proof fn lemma_width() {
    }

    proof fn lemma_bits_len(self) {
    }

    fn exec_width() -> (w: usize) {
        32
    }

    fn zero() -> (r: Self) {
        proof {
            lemma_value_u32(0u32);
            lemma_nat_of_bits_zero(u32_bits(0u32));
        }
        0i32
    }

    fn from_u8(v: u8) -> (r: Self) {
        let r = v as i32;
        proof {
            lemma_i32_casts(0u32, r, r, v);
            lemma_value_u32(r as u32);
        }
        r
    }

    fn bit_or(self, other: Self) -> (r: Self) {
        let u = (self as u32) | (other as u32);
        let r = u as i32;
        proof {
            lemma_i32_casts(u, self, other, 0u8);
            lemma_or_u32(self as u32, other as u32);
        }
        r
    }

    fn bit_and(self, other: Self) -> (r: Self) {
        let u = (self as u32) & (other as u32);
        let r = u as i32;
        proof {
            lemma_i32_casts(u, self, other, 0u8);
            lemma_and_u32(self as u32, other as u32);
        }
        r
    }

    fn bit_not(self) -> (r: Self) {
        let u = !(self as u32);
        let r = u as i32;
        proof {
            lemma_i32_casts(u, self, self, 0u8);
            lemma_not_u32(self as u32);
        }
        r
    }

    fn shl(self, amount: Self) -> (r: Self) {
        proof {
            lemma_value_u32(amount as u32);
        }
        let s = amount as u32;
        let u = (self as u32) << s;
        let r = u as i32;
        proof {
            lemma_i32_casts(u, self, amount, 0u8);
            lemma_shl_u32(self as u32, s);
        }
        r
    }

    fn eq_value(self, other: Self) -> (r: bool) {
        proof {
            lemma_i32_casts(0u32, self, other, 0u8);
            lemma_value_u32(self as u32);
            lemma_value_u32(other as u32);
        }
        self == other
    }

    fn ge(self, other: Self) -> (r: bool) {
        proof {
            lemma_value_u32(self as u32);
            lemma_value_u32(other as u32);
        }
        (self as u32) >= (other as u32)
    }

    fn wrapping_add(self, other: Self) -> (r: Self) {
        let u = u32::wrapping_add(self as u32, other as u32);
        let r = u as i32;
        proof {
            lemma_i32_casts(u, self, other, 0u8);
            lemma_value_u32(self as u32);
            lemma_value_u32(other as u32);
            lemma_wrap_u32(self as u32, other as u32, u);
        }
        r
    }
}

/// The bit sequence of an `i64`: the two's complement pattern of the value.
pub open spec fn i64_bits(v: i64) -> Seq<bool> {
    u64_bits(v as u64)
}

/// Casts between `i64` and `u64` keep the bit pattern.
proof fn lemma_i64_casts(x: u64, a: i64, b: i64, v: u8)
    by (bit_vector)
    ensures
        ((x as i64) as u64) == x,
        ((a as u64) as i64) == a,
        ((v as i64) as u64) == v as u64,
        (a == b) == ((a as u64) == (b as u64)),
{
}

/// The numeric value of an `i64` backing is the unsigned reading of its
/// two's complement bit pattern.
pub proof fn lemma_i64_value(v: i64)
    ensures
        value_of(v) == (v as u64) as nat,
{
    lemma_value_u64(v as u64);
}

impl BitflagAble for i64 {
    open spec fn width() -> nat {
        64
    }

    open spec fn bits(self) -> Seq<bool> {
        i64_bits(self)
    }

    proof fn lemma_width() {
    }

    proof fn lemma_bits_len(self) {
    }

    fn exec_width() -> (w: usize) {
        64
    }

    fn zero() -> (r: Self) {
        proof {
            lemma_value_u64(0u64);
            lemma_nat_of_bits_zero(u64_bits(0u64));
        }
        0i64
    }

    fn from_u8(v: u8) -> (r: Self) {
        let r = v as i64;
        proof {
            lemma_i64_casts(0u64, r, r, v);
            lemma_value_u64(r as u64);
        }
        r
    }

    fn bit_or(self, other: Self) -> (r: Self) {
        let u = (self as u64) | (other as u64);
        let r = u as i64;
        proof {
            lemma_i64_casts(u, self, other, 0u8);
            lemma_or_u64(self as u64, other as u64);
        }
        r
    }

    fn bit_and(self, other: Self) -> (r: Self) {
        let u = (self as u64) & (other as u64);
        let r = u as i64;
        proof {
            lemma_i64_casts(u, self, other, 0u8);
            lemma_and_u64(self as u64, other as u64);
        }
        r
    }

    fn bit_not(self) -> (r: Self) {
        let u = !(self as u64);
        let r = u as i64;
        proof {
            lemma_i64_casts(u, self, self, 0u8);
            lemma_not_u64(self as u64);
        }
        r
    }

    fn shl(self, amount: Self) -> (r: Self) {
        proof {
            lemma_value_u64(amount as u64);
        }
        let s = amount as u64;
        let u = (self as u64) << s;
        let r = u as i64;
        proof {
            lemma_i64_casts(u, self, amount, 0u8);
            lemma_shl_u64(self as u64, s);
        }
        r
    }

    fn eq_value(self, other: Self) -> (r: bool) {
        proof {
            lemma_i64_casts(0u64, self, other, 0u8);
            lemma_value_u64(self as u64);
            lemma_value_u64(other as u64);
        }
        self == other
    }

    fn ge(self, other: Self) -> (r: bool) {
        proof {
            lemma_value_u64(self as u64);
            lemma_value_u64(other as u64);
        }
        (self as u64) >= (other as u64)
    }

    fn wrapping_add(self, other: Self) -> (r: Self) {
        let u = u64::wrapping_add(self as u64, other as u64);
        let r = u as i64;
        proof {
            lemma_i64_casts(u, self, other, 0u8);
            lemma_value_u64(self as u64);
            lemma_value_u64(other as u64);
            lemma_wrap_u64(self as u64, other as u64, u);
        }
        r
    }
}

/// The bit sequence of an `i128`: the two's complement pattern of the value.
pub open spec fn i128_bits(v: i128) -> Seq<bool> {
    u128_bits(v as u128)
}

/// Casts between `i128` and `u128` keep the bit pattern.
proof fn lemma_i128_casts(x: u128, a: i128, b: i128, v: u8)
    by (bit_vector)
    ensures
        ((x as i128) as u128) == x,
        ((a as u128) as i128) == a,
        ((v as i128) as u128) == v as u128,
        (a == b) == ((a as u128) == (b as u128)),
{
}

/// The numeric value of an `i128` backing is the unsigned reading of its
/// two's complement bit pattern.
pub proof fn lemma_i128_value(v: i128)
    ensures
        value_of(v) == (v as u128) as nat,
{
    lemma_value_u128(v as u128);
}

impl BitflagAble for i128 {
    open spec fn width() -> nat {
        128
    }

    open spec fn bits(self) -> Seq<bool> {
        i128_bits(self)
    }

    proof fn lemma_width() {
    }

    proof fn lemma_bits_len(self) {
    }

    fn exec_width() -> (w: usize) {
        128
    }

    fn zero() -> (r: Self) {
        proof {
            lemma_value_u128(0u128);
            lemma_nat_of_bits_zero(u128_bits(0u128));
        }
        0i128
    }

    fn from_u8(v: u8) -> (r: Self) {
        let r = v as i128;
        proof {
            lemma_i128_casts(0u128, r, r, v);
            lemma_value_u128(r as u128);
        }
        r
    }

    fn bit_or(self, other: Self) -> (r: Self) {
        let u = (self as u128) | (other as u128);
        let r = u as i128;
        proof {
            lemma_i128_casts(u, self, other, 0u8);
            lemma_or_u128(self as u128, other as u128);
        }
        r
    }

    fn bit_and(self, other: Self) -> (r: Self) {
        let u = (self as u128) & (other as u128);
        let r = u as i128;
        proof {
            lemma_i128_casts(u, self, other, 0u8);
            lemma_and_u128(self as u128, other as u128);
        }
        r
    }

    fn bit_not(self) -> (r: Self) {
        let u = !(self as u128);
        let r = u as i128;
        proof {
            lemma_i128_casts(u, self, self, 0u8);
            lemma_not_u128(self as u128);
        }
        r
    }

    fn shl(self, amount: Self) -> (r: Self) {
        proof {
            lemma_value_u128(amount as u128);
        }
        let s = amount as u128;
        let u = (self as u128) << s;
        let r = u as i128;
        proof {
            lemma_i128_casts(u, self, amount, 0u8);
            lemma_shl_u128(self as u128, s);
        }
        r
    }

    fn eq_value(self, other: Self) -> (r: bool) {
        proof {
            lemma_i128_casts(0u128, self, other, 0u8);
            lemma_value_u128(self as u128);
            lemma_value_u128(other as u128);
        }
        self == other
    }

    fn ge(self, other: Self) -> (r: bool) {
        proof {
            lemma_value_u128(self as u128);
            lemma_value_u128(other as u128);
        }
        (self as u128) >= (other as u128)
    }

    fn wrapping_add(self, other: Self) -> (r: Self) {
        let u = u128::wrapping_add(self as u128, other as u128);
        let r = u as i128;
        proof {
            lemma_i128_casts(u, self, other, 0u8);
            lemma_value_u128(self as u128);
            lemma_value_u128(other as u128);
            lemma_wrap_u128(self as u128, other as u128, u);
        }
        r
    }
}

} // verus!
