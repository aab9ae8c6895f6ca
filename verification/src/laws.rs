//! The laws of the container, stated over the same spec functions its
//! contracts use.

use crate::bitflagable::{lemma_nat_of_bits_zero, nat_of_bits};
use crate::{count_trues, spec_get_range, spec_set_range};
use vstd::prelude::*;

verus! {

/// Round-trip: at a valid position, writing a bit and reading it back
/// yields the written value, regardless of prior state.  `set` ensures the
/// updated view; `get` reads the view at the position.
pub proof fn lemma_set_then_get(s: Seq<bool>, p: int, b: bool)
    requires
        0 <= p < s.len(),
    ensures
        s.update(p, b)[p] == b,
{
}

/// Writing one position leaves every other position unchanged.
pub proof fn lemma_set_frames_others(s: Seq<bool>, p: int, b: bool, q: int)
    requires
        0 <= p < s.len(),
        0 <= q < s.len(),
        p != q,
    ensures
        s.update(p, b)[q] == s[q],
{
}

/// Range round-trip: writing a value over `start..=end` and reading the
/// same range back yields the value masked to its `end - start + 1` low
/// bits.  `set_range` ensures the `spec_set_range` view; `get_range` reads
/// it through `spec_get_range`.
pub proof fn lemma_range_roundtrip(s: Seq<bool>, start: int, end: int, src: Seq<bool>)
    requires
        0 <= start <= end < s.len(),
        src.len() == s.len(),
    ensures
        spec_get_range(spec_set_range(s, start, end, src), start, end) == Seq::new(
            s.len(),
            |i: int| 0 <= i <= end - start && src[i],
        ),
{
    assert(spec_get_range(spec_set_range(s, start, end, src), start, end) =~= Seq::new(
        s.len(),
        |i: int| 0 <= i <= end - start && src[i],
    ));
}

/// A cleared view encodes the raw value zero, which is also exactly the
/// condition `is_empty` reports.
pub proof fn lemma_cleared_flag_is_empty(s: Seq<bool>)
    requires
        forall|i: int| 0 <= i < s.len() ==> !(#[trigger] s[i]),
    ensures
        nat_of_bits(s) == 0,
{
    lemma_nat_of_bits_zero(s);
}

/// `len`/`iter` consistency: the count of set bits that `len` reports is
/// the number of `true` values in the bit sequence that a full iteration
/// yields.
pub proof fn lemma_len_counts_iterated_trues(s: Seq<bool>)
    ensures
        count_trues(s) == s.filter(|b: bool| b).len(),
    decreases s.len(),
{
    reveal(Seq::filter);
    if s.len() == 0 {
    } else {
        lemma_len_counts_iterated_trues(s.drop_last());
    }
}

} // verus!
