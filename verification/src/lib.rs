//! A generic bit-flag container: a thin verified wrapper over a primitive
//! integer that exposes bit-indexed get/set operations, contiguous
//! bit-range operations, arithmetic composition, and overflow-safe checked
//! variants of each.
//!
//! The container's view is the sequence of its bits, least significant
//! first; every contract is stated over that sequence and over the numeric
//! value it encodes.

pub mod bitflagable;
pub mod backings;
pub mod laws;

use crate::bitflagable::{lemma_bits_of_one, lemma_nat_of_bits_zero, value_of, BitflagAble};
use vstd::arithmetic::power2::pow2;
use vstd::prelude::*;
use vstd::std_specs::convert::FromSpec;
use vstd::string::StringExecFns;

verus! {

/// The number of set entries in a bit sequence.
pub open spec fn count_trues(s: Seq<bool>) -> nat
    decreases s.len(),
{
    if s.len() == 0 {
        0
    } else {
        count_trues(s.drop_last()) + (if s.last() {
            1nat
        } else {
            0nat
        })
    }
}

/// The view after writing bits `start..=end` from the low bits of `src`.
pub open spec fn spec_set_range(s: Seq<bool>, start: int, end: int, src: Seq<bool>) -> Seq<bool> {
    Seq::new(s.len(), |i: int| if start <= i <= end { src[i - start] } else { s[i] })
}

/// The bits `start..=end` of `s`, right-aligned and zero-padded to the full
/// width.
pub open spec fn spec_get_range(s: Seq<bool>, start: int, end: int) -> Seq<bool> {
    Seq::new(s.len(), |i: int| i <= end - start && s[start + i])
}

/// The radix-2 digits of a bit sequence, most significant first.
pub open spec fn spec_binary_digits(s: Seq<bool>) -> Seq<char>
    decreases s.len(),
{
    if s.len() == 0 {
        Seq::empty()
    } else {
        seq![
            if s.last() {
                '1'
            } else {
                '0'
            },
        ] + spec_binary_digits(s.drop_last())
    }
}

/// The significant bits of a sequence: everything up to and including the
/// highest set bit.
pub open spec fn spec_significant(s: Seq<bool>) -> Seq<bool>
    decreases s.len(),
{
    if s.len() == 0 || s.last() {
        s
    } else {
        spec_significant(s.drop_last())
    }
}

/// The binary rendering of a bit sequence: the significant digits, most
/// significant first, or a single zero digit when no bit is set.
pub open spec fn spec_binary_string(s: Seq<bool>) -> Seq<char> {
    if spec_significant(s).len() == 0 {
        seq!['0']
    } else {
        spec_binary_digits(spec_significant(s))
    }
}

/// Bits at and above `k` being clear, the significant bits lie below `k`.
proof fn lemma_significant_prefix(s: Seq<bool>, k: int)
    requires
        0 <= k <= s.len(),
        forall|j: int| k <= j < s.len() ==> !(#[trigger] s[j]),
    ensures
        spec_significant(s) == spec_significant(s.subrange(0, k)),
    decreases s.len(),
{
    if s.len() == k {
        assert(s.subrange(0, k) =~= s);
    } else {
        assert(!s.last());
        lemma_significant_prefix(s.drop_last(), k);
        assert(s.drop_last().subrange(0, k) =~= s.subrange(0, k));
    }
}

/// Emitting digits from the top down: the digits of a sequence are the
/// digits of everything above its first bit, then that bit's digit.
proof fn lemma_digits_drop_first(t: Seq<bool>)
    requires
        t.len() > 0,
    ensures
        spec_binary_digits(t) == spec_binary_digits(t.subrange(1, t.len() as int)) + seq![
            if t[0] {
                '1'
            } else {
                '0'
            },
        ],
    decreases t.len(),
{
    if t.len() == 1 {
        assert(spec_binary_digits(t.drop_last()) =~= Seq::<char>::empty());
        assert(spec_binary_digits(t) =~= seq![
            if t[0] {
                '1'
            } else {
                '0'
            },
        ]);
        assert(spec_binary_digits(t.subrange(1, 1)) =~= Seq::<char>::empty());
    } else {
        lemma_digits_drop_first(t.drop_last());
        assert(t.drop_last().subrange(1, t.drop_last().len() as int) =~= t.subrange(
            1,
            t.len() as int,
        ).drop_last());
        assert(spec_binary_digits(t) =~= spec_binary_digits(t.subrange(1, t.len() as int)) + seq![
            if t[0] {
                '1'
            } else {
                '0'
            },
        ]);
    }
}

/// Wrapper for any type T that can be used for bitflags.
#[derive(Clone, Copy)]
pub struct BitFlag<T> {
    val: T,
}

impl<T: BitflagAble> View for BitFlag<T> {
    type V = Seq<bool>;

    closed spec fn view(&self) -> Seq<bool> {
        self.val.bits()
    }
}

/// Every container view has exactly one entry per bit of the backing type.
pub proof fn lemma_flag_len<T: BitflagAble>(f: BitFlag<T>)
    ensures
        f@.len() == T::width(),
{
    f.val.lemma_bits_len();
}

impl<T: BitflagAble> BitFlag<T> {
    /// The raw backing scalar, as a specification-level value.
    pub closed spec fn spec_raw(self) -> T {
        self.val
    }

    /// Creates a new BitFlag value with no bit set.
    pub fn new() -> (r: Self)
        ensures
            r@.len() == T::width(),
            forall|i: int| 0 <= i < T::width() ==> !(#[trigger] r@[i]),
    {
        let val = T::zero();
        proof {
            val.lemma_bits_len();
        }
        BitFlag { val }
    }

    /// Creates a new BitFlag wrapping the supplied scalar verbatim.
    pub fn new_with_value(val: T) -> (r: Self)
        ensures
            r@ == val.bits(),
            r.spec_raw() == val,
    {
        BitFlag { val }
    }

    /// Get the raw value of the bitflag.
    pub fn raw(&self) -> (r: T)
        ensures
            r == self.spec_raw(),
            r.bits() == self@,
    {
        self.val
    }

    /// Returns the amount of bits that can be accessed for the given base
    /// type T.
    pub fn size() -> (n: usize)
        ensures
            n as nat == T::width(),
    {
        T::exec_width()
    }

    /// Returns true if `pos` would cause an overflow.
    pub fn is_overflow(pos: T) -> (r: bool)
        ensures
            r == (value_of(pos) >= T::width()),
    {
        proof {
            T::lemma_width();
        }
        let w = Self::size();
        pos.ge(T::from_u8(w as u8))
    }

    /// The mask with exactly the bit at `pos` set.
    fn single_bit_mask(pos: T) -> (mask: T)
        requires
            value_of(pos) < T::width(),
        ensures
            mask.bits().len() == T::width(),
            forall|j: int|
                0 <= j < T::width() ==> (#[trigger] mask.bits()[j]) == (j == value_of(pos)),
    {
        let one = T::from_u8(1);
        let mask = one.shl(pos);
        proof {
            T::lemma_width();
            one.lemma_bits_len();
            mask.lemma_bits_len();
            lemma_bits_of_one(one.bits());
            let p = value_of(pos) as int;
            assert forall|j: int| 0 <= j < T::width() implies (#[trigger] mask.bits()[j]) == (j
                == p) by {
                if j >= p {
                    assert(mask.bits()[j] == one.bits()[j - p]);
                }
            }
        }
        mask
    }

    /// Inverts all bits in `val`.
    fn invert(val: T) -> (r: T)
        ensures
            r.bits().len() == T::width(),
            forall|i: int| 0 <= i < T::width() ==> (#[trigger] r.bits()[i]) == !val.bits()[i],
    {
        let r = val.bit_not();
        proof {
            r.lemma_bits_len();
        }
        r
    }

    /// Gets a bit at the given `pos` without overflow checks.
    pub fn get_unchecked(&self, pos: T) -> (r: bool)
        requires
            value_of(pos) < T::width(),
        ensures
            r == self@[value_of(pos) as int],
    {
        let mask = Self::single_bit_mask(pos);
        let masked = self.val.bit_and(mask);
        let r = !masked.eq_value(T::from_u8(0));
        proof {
            self.val.lemma_bits_len();
            masked.lemma_bits_len();
            lemma_nat_of_bits_zero(masked.bits());
            let p = value_of(pos) as int;
            if self@[p] {
                assert(masked.bits()[p]);
            } else {
                assert forall|j: int| 0 <= j < masked.bits().len() implies !(
                #[trigger] masked.bits()[j]) by {}
            }
        }
        r
    }

    /// Gets a bit at the given `pos`; positions past the width read false.
    pub fn get(&self, pos: T) -> (r: bool)
        ensures
            r == (value_of(pos) < T::width() && self@[value_of(pos) as int]),
    {
        if Self::is_overflow(pos) {
            return false;
        }
        self.get_unchecked(pos)
    }

    /// Sets the bit at the given `pos` to `val` without overflow checks.
    pub fn set_unchecked(&mut self, pos: T, val: bool)
        requires
            value_of(pos) < T::width(),
        ensures
            final(self)@ == old(self)@.update(value_of(pos) as int, val),
    {
        let mask = Self::single_bit_mask(pos);
        proof {
            self.val.lemma_bits_len();
        }
        if val {
            self.val = self.val.bit_or(mask);
        } else {
            self.val = self.val.bit_and(Self::invert(mask));
        }
        proof {
            self.val.lemma_bits_len();
            assert(self@ =~= old(self)@.update(value_of(pos) as int, val));
        }
    }

    /// Sets the bit at the given `pos` to `val`; positions past the width
    /// leave the value unchanged.
    pub fn set(&mut self, pos: T, val: bool)
        ensures
            value_of(pos) < T::width() ==> final(self)@ == old(self)@.update(
                value_of(pos) as int,
                val,
            ),
            value_of(pos) >= T::width() ==> final(self)@ == old(self)@,
    {
        if Self::is_overflow(pos) {
            return ;
        }
        self.set_unchecked(pos, val);
    }

    /// Writes bits `range.0..=range.1` from the low bits of `src`, without
    /// the bounds checks of `set_range`.
    pub fn set_range_flag_unchecked(&mut self, range: (u8, u8), src: BitFlag<T>)
        requires
            range.0 <= range.1,
            (range.1 as nat) < T::width(),
        ensures
            final(self)@ == spec_set_range(old(self)@, range.0 as int, range.1 as int, src@),
    {
        proof {
            lemma_flag_len(*self);
            lemma_flag_len(src);
            T::lemma_width();
        }
        let start = range.0;
        let end = range.1;
        let mut i: u8 = 0;
        while i <= end - start
            invariant
                start <= end,
                (end as nat) < T::width(),
                T::width() <= 128,
                i <= end - start + 1,
                self@.len() == T::width(),
                old(self)@.len() == T::width(),
                src@.len() == T::width(),
                forall|j: int|
                    0 <= j < self@.len() ==> (#[trigger] self@[j]) == (if start <= j < start
                        + i {
                        src@[j - start]
                    } else {
                        old(self)@[j]
                    }),
            decreases end - start + 1 - i,
        {
            let b = src.get_unchecked(T::from_u8(i));
            self.set_unchecked(T::from_u8(start + i), b);
            i = i + 1;
        }
        proof {
            assert(self@ =~= spec_set_range(old(self)@, start as int, end as int, src@));
        }
    }

    /// Writes bits `range.0..=range.1` from the low bits of `src`; a
    /// malformed or overflowing range leaves the value unchanged.
    pub fn set_range_flag(&mut self, range: (u8, u8), src: BitFlag<T>)
        ensures
            (range.0 <= range.1 && (range.1 as nat) < T::width()) ==> final(self)@
                == spec_set_range(old(self)@, range.0 as int, range.1 as int, src@),
            !(range.0 <= range.1 && (range.1 as nat) < T::width()) ==> final(self)@ == old(self)@,
    {
        if range.0 > range.1 || Self::is_overflow(T::from_u8(range.1)) {
            return ;
        }
        self.set_range_flag_unchecked(range, src);
    }

    /// Set the bitflags value from `start` to `end` (inclusive) to
    /// `val[0..end-start+1]`; a malformed or overflowing range leaves the
    /// value unchanged.
    pub fn set_range<V>(&mut self, range: (u8, u8), val: V) where BitFlag<T>: From<V>
        ensures
            !(range.0 <= range.1 && (range.1 as nat) < T::width()) ==> final(self)@ == old(self)@,
            (range.0 <= range.1 && (range.1 as nat) < T::width()
                && <BitFlag<T> as FromSpec<V>>::obeys_from_spec()) ==> final(self)@
                == spec_set_range(
                old(self)@,
                range.0 as int,
                range.1 as int,
                (<BitFlag<T> as FromSpec<V>>::from_spec(val))@,
            ),
            final(self)@.len() == old(self)@.len(),
            forall|j: int|
                0 <= j < old(self)@.len() && !(range.0 <= j <= range.1)
                    ==> (#[trigger] final(self)@[j]) == old(self)@[j],
    {
        if range.0 > range.1 || Self::is_overflow(T::from_u8(range.1)) {
            return ;
        }
        let src = BitFlag::<T>::from(val);
        self.set_range_flag_unchecked(range, src);
    }

    /// Set the bitflags value from `start` to `end` (inclusive) to
    /// `val[0..end-start+1]`, without the bounds checks of `set_range`.
    pub fn set_range_unchecked<V>(&mut self, range: (u8, u8), val: V) where BitFlag<T>: From<V>
        requires
            range.0 <= range.1,
            (range.1 as nat) < T::width(),
        ensures
            <BitFlag<T> as FromSpec<V>>::obeys_from_spec() ==> final(self)@ == spec_set_range(
                old(self)@,
                range.0 as int,
                range.1 as int,
                (<BitFlag<T> as FromSpec<V>>::from_spec(val))@,
            ),
            final(self)@.len() == old(self)@.len(),
            forall|j: int|
                0 <= j < old(self)@.len() && !(range.0 <= j <= range.1)
                    ==> (#[trigger] final(self)@[j]) == old(self)@[j],
    {
        let src = BitFlag::<T>::from(val);
        self.set_range_flag_unchecked(range, src);
    }

    /// Get the value between `start` and `end` (inclusive) as T; a
    /// malformed or overflowing range yields no value.
    pub fn get_range(&self, range: (u8, u8)) -> (r: Option<T>)
        ensures
            (r is Some) <==> (range.0 <= range.1 && (range.1 as nat) < T::width()),
            r matches Some(v) ==> v.bits() == spec_get_range(self@, range.0 as int, range.1 as int),
    {
        if range.0 > range.1 || Self::is_overflow(T::from_u8(range.1)) {
            return None;
        }
        Some(self.get_range_unchecked(range))
    }

    /// Get the value between `start` and `end` (inclusive) as T, without
    /// the bounds checks of `get_range`.
    pub fn get_range_unchecked(&self, range: (u8, u8)) -> (r: T)
        requires
            range.0 <= range.1,
            (range.1 as nat) < T::width(),
        ensures
            r.bits() == spec_get_range(self@, range.0 as int, range.1 as int),
    {
        proof {
            lemma_flag_len(*self);
            T::lemma_width();
        }
        let mut cpy: BitFlag<T> = BitFlag::new();
        let start = range.0;
        let end = range.1;
        let mut i: u8 = 0;
        while i <= end - start
            invariant
                start <= end,
                (end as nat) < T::width(),
                T::width() <= 128,
                i <= end - start + 1,
                cpy@.len() == T::width(),
                self@.len() == T::width(),
                forall|j: int|
                    0 <= j < cpy@.len() ==> (#[trigger] cpy@[j]) == (j < i && self@[start + j]),
            decreases end - start + 1 - i,
        {
            let b = self.get_unchecked(T::from_u8(start + i));
            cpy.set_unchecked(T::from_u8(i), b);
            i = i + 1;
        }
        let r = cpy.raw();
        proof {
            assert(r.bits() =~= spec_get_range(self@, start as int, end as int));
        }
        r
    }

    /// The binary (radix-2) rendering of the backing scalar, growing and
    /// shrinking with the value's significant bits, as the significant
    /// digits from most to least; a zero value renders as a single zero
    /// digit.
    pub fn to_binary_string(&self) -> (out: String)
        ensures
            out@ == spec_binary_string(self@),
    {
        proof {
            lemma_flag_len(*self);
            T::lemma_width();
        }
        let w = Self::size();
        let mut top: usize = w;
        while top > 0 && !self.get_unchecked(T::from_u8((top - 1) as u8))
            invariant
                top <= w,
                w as nat == T::width(),
                T::width() <= 128,
                self@.len() == T::width(),
                forall|j: int| top <= j < self@.len() ==> !(#[trigger] self@[j]),
            decreases top,
        {
            top = top - 1;
        }
        proof {
            lemma_significant_prefix(self@, top as int);
        }
        let mut out = String::new();
        if top == 0 {
            out.append("0");
            proof {
                reveal_strlit("0");
                assert(out@ =~= spec_binary_string(self@));
            }
            return out;
        }
        let mut i: usize = top;
        while i > 0
            invariant
                i <= top,
                0 < top <= w,
                w as nat == T::width(),
                T::width() <= 128,
                self@.len() == T::width(),
                self@[top - 1],
                out@ == spec_binary_digits(self@.subrange(i as int, top as int)),
            decreases i,
        {
            if self.get_unchecked(T::from_u8((i - 1) as u8)) {
                out.append("1");
            } else {
                out.append("0");
            }
            proof {
                reveal_strlit("0");
                reveal_strlit("1");
                lemma_digits_drop_first(self@.subrange(i - 1, top as int));
                assert(self@.subrange(i - 1, top as int).subrange(
                    1,
                    top - (i - 1),
                ) =~= self@.subrange(i as int, top as int));
                assert(out@ =~= spec_binary_digits(self@.subrange(i - 1, top as int)));
            }
            i = i - 1;
        }
        proof {
            assert(self@.subrange(0, top as int).last());
            assert(spec_significant(self@) == self@.subrange(0, top as int));
            assert(out@ == spec_binary_string(self@));
        }
        out
    }

    /// Clears the value: afterwards no bit is set and the raw value is zero.
    pub fn clear(&mut self)
        ensures
            final(self)@.len() == T::width(),
            forall|i: int| 0 <= i < T::width() ==> !(#[trigger] final(self)@[i]),
            value_of(final(self).spec_raw()) == 0,
    {
        self.val = T::zero();
        proof {
            self.val.lemma_bits_len();
            lemma_nat_of_bits_zero(self@);
        }
    }

    /// Returns the amount of bits set.
    pub fn len(&self) -> (n: usize)
        ensures
            n as nat == count_trues(self@),
    {
        proof {
            lemma_flag_len(*self);
            T::lemma_width();
        }
        let w = Self::size();
        let mut n: usize = 0;
        let mut i: usize = 0;
        while i < w
            invariant
                i <= w,
                n <= i,
                w as nat == T::width(),
                T::width() <= 128,
                self@.len() == T::width(),
                n as nat == count_trues(self@.subrange(0, i as int)),
            decreases w - i,
        {
            proof {
                assert(self@.subrange(0, (i + 1) as int).drop_last() =~= self@.subrange(
                    0,
                    i as int,
                ));
            }
            if self.get_unchecked(T::from_u8(i as u8)) {
                n = n + 1;
            }
            i = i + 1;
        }
        proof {
            assert(self@.subrange(0, w as int) =~= self@);
        }
        n
    }

    /// Returns `true` if there is no bit set.
    pub fn is_empty(&self) -> (r: bool)
        ensures
            r == (forall|i: int| 0 <= i < self@.len() ==> !(#[trigger] self@[i])),
            r == (value_of(self.spec_raw()) == 0),
    {
        let r = T::from_u8(0).eq_value(self.val);
        proof {
            lemma_nat_of_bits_zero(self@);
        }
        r
    }

    /// Returns an iterator over all fields of the bitflag, one boolean per
    /// position in ascending order from position 0.
    pub fn iter(&self) -> (it: BitIter<T>)
        ensures
            it.bits() == self@,
            it.cursor() == 0,
            it.bits().len() == T::width(),
    {
        proof {
            lemma_flag_len(*self);
        }
        BitIter { flag: *self, pos: 0 }
    }

    /// Returns a new container whose scalar is the arithmetic sum, modulo
    /// the width, of the two backing scalars.  This is ordinary integer
    /// addition, not a set union: combining flag sets is the bitwise-OR
    /// path reachable through `set`.
    pub fn add(self, rhs: Self) -> (r: Self)
        ensures
            value_of(r.spec_raw()) == (value_of(self.spec_raw()) + value_of(rhs.spec_raw())) % pow2(
                T::width(),
            ),
    {
        Self::new_with_value(self.val.wrapping_add(rhs.val))
    }

    /// Arithmetic sum of the container and a bare scalar; the same
    /// arithmetic semantics as `add`.
    pub fn add_value(self, rhs: T) -> (r: Self)
        ensures
            value_of(r.spec_raw()) == (value_of(self.spec_raw()) + value_of(rhs)) % pow2(
                T::width(),
            ),
    {
        Self::new_with_value(self.val.wrapping_add(rhs))
    }

    /// In-place arithmetic addition of another container.
    pub fn add_assign(&mut self, rhs: Self)
        ensures
            value_of(final(self).spec_raw()) == (value_of(old(self).spec_raw()) + value_of(
                rhs.spec_raw(),
            )) % pow2(T::width()),
    {
        self.val = self.val.wrapping_add(rhs.val);
    }

    /// In-place arithmetic addition of a bare scalar.
    pub fn add_assign_value(&mut self, rhs: T)
        ensures
            value_of(final(self).spec_raw()) == (value_of(old(self).spec_raw()) + value_of(rhs))
                % pow2(T::width()),
    {
        self.val = self.val.wrapping_add(rhs);
    }
}

impl<T: BitflagAble> Default for BitFlag<T> {
    /// The default container has no bit set.
    fn default() -> (r: Self)
        ensures
            r@.len() == T::width(),
            forall|i: int| 0 <= i < T::width() ==> !(#[trigger] r@[i]),
    {
        BitFlag::new()
    }
}

impl<T: BitflagAble> From<T> for BitFlag<T> {
    /// Wraps the scalar verbatim, as `new_with_value` does.
    fn from(t: T) -> (r: Self)
        ensures
            r@ == t.bits(),
            r.spec_raw() == t,
    {
        BitFlag { val: t }
    }
}

impl<T: BitflagAble> vstd::std_specs::convert::FromSpecImpl<T> for BitFlag<T> {
    open spec fn obeys_from_spec() -> bool {
        true
    }

    closed spec fn from_spec(v: T) -> Self {
        BitFlag { val: v }
    }
}

/// A lazy, finite, restartable walk over the bits of a flag container, one
/// boolean per position in ascending order.
pub struct BitIter<T> {
    flag: BitFlag<T>,
    pos: usize,
}

impl<T: BitflagAble> BitIter<T> {
    /// The bit sequence being walked.
    pub closed spec fn bits(&self) -> Seq<bool> {
        self.flag@
    }

    /// The next position to be yielded.
    pub closed spec fn cursor(&self) -> int {
        self.pos as int
    }

    /// Yields the bit at the cursor and advances, or nothing once every
    /// position has been yielded.
    pub fn next(&mut self) -> (r: Option<bool>)
        ensures
            final(self).bits() == old(self).bits(),
            old(self).cursor() < old(self).bits().len() ==> (r == Some(
                old(self).bits()[old(self).cursor()],
            ) && final(self).cursor() == old(self).cursor() + 1),
            old(self).cursor() >= old(self).bits().len() ==> (r is None && final(self).cursor()
                == old(self).cursor()),
    {
        proof {
            lemma_flag_len(self.flag);
            T::lemma_width();
        }
        if self.pos < BitFlag::<T>::size() {
            let b = self.flag.get_unchecked(T::from_u8(self.pos as u8));
            self.pos = self.pos + 1;
            Some(b)
        } else {
            None
        }
    }
}

} // verus!
