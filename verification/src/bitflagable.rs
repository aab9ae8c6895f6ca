//! The capability contract for storage scalars.
//!
//! A type qualifies as a bit-flag backing when it can report its bit width,
//! expose its value as a sequence of bits, and supply the primitive
//! operations the container needs: bitwise OR, AND, NOT, left shift,
//! equality and ordering on the numeric value, a zero value, construction
//! from an 8-bit literal, and wrapping addition.  Every operation is
//! specified against the bit-sequence model, so the container can be
//! written and verified once, generically over the backing width.

use vstd::arithmetic::div_mod::*;
use vstd::arithmetic::power2::*;
use vstd::prelude::*;

verus! {

/// The number encoded by a bit sequence, least significant bit first.
pub open spec fn nat_of_bits(s: Seq<bool>) -> nat
    decreases s.len(),
{
    if s.len() == 0 {
        0
    } else {
        (if s[0] {
            1nat
        } else {
            0nat
        }) + 2 * nat_of_bits(s.subrange(1, s.len() as int))
    }
}

/// The numeric value of a backing scalar: its bits read as a binary number.
pub open spec fn value_of<T: BitflagAble>(v: T) -> nat {
    nat_of_bits(v.bits())
}

/// A bit sequence encodes a number below two to its length.
pub proof fn lemma_nat_of_bits_bound(s: Seq<bool>)
    ensures
        nat_of_bits(s) < pow2(s.len()),
    decreases s.len(),
{
    if s.len() == 0 {
        assert(pow2(0) == 1) by {
            lemma2_to64();
        }
    } else {
        let t = s.subrange(1, s.len() as int);
        lemma_nat_of_bits_bound(t);
        lemma_pow2_unfold(s.len());
    }
}

/// A number below two to the length, whose binary digits agree with the
/// sequence at every position, is the number the sequence encodes.
pub proof fn lemma_nat_of_bits_eq(s: Seq<bool>, n: nat)
    requires
        n < pow2(s.len()),
        forall|i: int| 0 <= i < s.len() ==> (#[trigger] s[i]) == ((n / pow2(i as nat)) % 2 == 1),
    ensures
        nat_of_bits(s) == n,
    decreases s.len(),
{
    lemma2_to64();
    if s.len() == 0 {
        assert(n == 0);
    } else {
        let t = s.subrange(1, s.len() as int);
        let m = n / 2;
        assert forall|i: int| 0 <= i < t.len() implies (#[trigger] t[i]) == ((m / pow2(
            i as nat,
        )) % 2 == 1) by {
            assert(s[i + 1] == ((n / pow2((i + 1) as nat)) % 2 == 1));
            lemma_pow2_unfold((i + 1) as nat);
            lemma_pow2_pos(i as nat);
            lemma_div_denominator(n as int, 2, pow2(i as nat) as int);
        }
        lemma_pow2_unfold(s.len());
        lemma_fundamental_div_mod(n as int, 2);
        assert(m < pow2(t.len()));
        lemma_nat_of_bits_eq(t, m);
        assert(s[0] == ((n / pow2(0)) % 2 == 1));
        assert(n / pow2(0) == n);
        assert(nat_of_bits(s) == (if s[0] {
            1nat
        } else {
            0nat
        }) + 2 * m);
    }
}

/// Each position of a bit sequence is the corresponding binary digit of the
/// number it encodes.
pub proof fn lemma_nat_of_bits_index(s: Seq<bool>, i: int)
    requires
        0 <= i < s.len(),
    ensures
        s[i] == ((nat_of_bits(s) / pow2(i as nat)) % 2 == 1),
    decreases s.len(),
{
    lemma2_to64();
    let t = s.subrange(1, s.len() as int);
    let b0: nat = if s[0] {
        1
    } else {
        0
    };
    let m = nat_of_bits(t);
    assert(nat_of_bits(s) == b0 + 2 * m);
    if i == 0 {
        assert((b0 + 2 * m) / pow2(0) == b0 + 2 * m);
        lemma_mod_multiples_vanish(m as int, b0 as int, 2);
        assert((b0 + 2 * m) % 2 == b0 % 2);
    } else {
        lemma_nat_of_bits_index(t, i - 1);
        assert(t[i - 1] == s[i]);
        lemma_pow2_unfold(i as nat);
        lemma_pow2_pos((i - 1) as nat);
        lemma_div_denominator((b0 + 2 * m) as int, 2, pow2((i - 1) as nat) as int);
        lemma_div_multiples_vanish_fancy(m as int, b0 as int, 2);
        assert((b0 + 2 * m) / 2 == m);
        assert((b0 + 2 * m) / pow2(i as nat) == m / pow2((i - 1) as nat));
    }
}

/// A bit sequence encodes zero exactly when no bit in it is set.
pub proof fn lemma_nat_of_bits_zero(s: Seq<bool>)
    ensures
        (nat_of_bits(s) == 0) <==> (forall|i: int| 0 <= i < s.len() ==> !(#[trigger] s[i])),
{
    if nat_of_bits(s) == 0 {
        assert forall|i: int| 0 <= i < s.len() implies !(#[trigger] s[i]) by {
            lemma_nat_of_bits_index(s, i);
            lemma_pow2_pos(i as nat);
            lemma_div_of0(pow2(i as nat) as int);
        }
    }
    if forall|i: int| 0 <= i < s.len() ==> !(#[trigger] s[i]) {
        lemma_pow2_pos(s.len());
        assert forall|i: int| 0 <= i < s.len() implies (#[trigger] s[i]) == ((0nat / pow2(
            i as nat,
        )) % 2 == 1) by {
            lemma_pow2_pos(i as nat);
            lemma_div_of0(pow2(i as nat) as int);
        }
        lemma_nat_of_bits_eq(s, 0);
    }
}

/// A bit sequence encoding one has exactly its lowest bit set.
pub proof fn lemma_bits_of_one(s: Seq<bool>)
    requires
        nat_of_bits(s) == 1,
        s.len() >= 1,
    ensures
        s[0],
        forall|i: int| 1 <= i < s.len() ==> !(#[trigger] s[i]),
{
    lemma2_to64();
    lemma_nat_of_bits_index(s, 0);
    assert(1nat / pow2(0) == 1);
    assert forall|i: int| 1 <= i < s.len() implies !(#[trigger] s[i]) by {
        lemma_nat_of_bits_index(s, i);
        lemma_pow2_strictly_increases(0, i as nat);
        lemma_basic_div(1, pow2(i as nat) as int);
    }
}

/// The constraint a storage type must meet to back a bit-flag container.
///
/// The bit-sequence model `bits` (least significant bit first, one entry per
/// bit of the type) is the reference for every operation; `value_of` reads
/// that sequence as a number.
pub trait BitflagAble: Sized + Copy {
    /// The number of addressable bit positions of the type.
    spec fn width() -> nat;

    /// The value as a sequence of bits, least significant first.
    spec fn bits(self) -> Seq<bool>;

    /// Every supported backing is between 8 and 128 bits wide.
    proof fn lemma_width()
        ensures
            8 <= Self::width() <= 128,
    ;

    /// The bit sequence has exactly one entry per bit.
    proof fn lemma_bits_len(self)
        ensures
            self.bits().len() == Self::width(),
    ;

    /// The bit width as a runtime value.
    fn exec_width() -> (w: usize)
        ensures
            w as nat == Self::width(),
    ;

    /// The zero value: no bit set.
    fn zero() -> (r: Self)
        ensures
            forall|i: int| 0 <= i < Self::width() ==> !(#[trigger] r.bits()[i]),
    ;

    /// The value of an 8-bit literal; every supported width can hold it.
    fn from_u8(v: u8) -> (r: Self)
        ensures
            nat_of_bits(r.bits()) == v as nat,
    ;

    /// Bitwise OR.
    fn bit_or(self, other: Self) -> (r: Self)
        ensures
            forall|i: int|
                0 <= i < Self::width() ==> (#[trigger] r.bits()[i]) == (self.bits()[i]
                    || other.bits()[i]),
    ;

    /// Bitwise AND.
    fn bit_and(self, other: Self) -> (r: Self)
        ensures
            forall|i: int|
                0 <= i < Self::width() ==> (#[trigger] r.bits()[i]) == (self.bits()[i]
                    && other.bits()[i]),
    ;

    /// Bitwise complement.
    fn bit_not(self) -> (r: Self)
        ensures
            forall|i: int| 0 <= i < Self::width() ==> (#[trigger] r.bits()[i]) == !self.bits()[i],
    ;

    /// Left shift by the numeric value of `amount`, which must be a valid
    /// bit position; low positions fill with zero.
    fn shl(self, amount: Self) -> (r: Self)
        requires
            nat_of_bits(amount.bits()) < Self::width(),
        ensures
            forall|j: int| 0 <= j < nat_of_bits(amount.bits()) ==> !(#[trigger] r.bits()[j]),
            forall|j: int|
                nat_of_bits(amount.bits()) <= j < Self::width() ==> (#[trigger] r.bits()[j]) == self.bits()[j
                    - nat_of_bits(amount.bits())],
    ;

    /// Equality of the numeric values.
    fn eq_value(self, other: Self) -> (r: bool)
        ensures
            r == (nat_of_bits(self.bits()) == nat_of_bits(other.bits())),
    ;

    /// Ordering of the numeric values.
    fn ge(self, other: Self) -> (r: bool)
        ensures
            r == (nat_of_bits(self.bits()) >= nat_of_bits(other.bits())),
    ;

    /// Addition modulo two to the width.
    fn wrapping_add(self, other: Self) -> (r: Self)
        ensures
            nat_of_bits(r.bits()) == (nat_of_bits(self.bits()) + nat_of_bits(other.bits())) % pow2(Self::width()),
    ;
}

/// The numeric value of a backing scalar lies below two to the width.
pub proof fn lemma_value_bound<T: BitflagAble>(v: T)
    ensures
        value_of(v) < pow2(T::width()),
{
    v.lemma_bits_len();
    lemma_nat_of_bits_bound(v.bits());
}

} // verus!
