use bitflag::BitFlag;

#[test]
fn new_is_empty() {
    let bf: BitFlag<u8> = BitFlag::new();
    assert!(bf.is_empty());
    assert_eq!(bf.raw(), 0);
}

#[test]
fn default_is_empty() {
    let bf: BitFlag<u64> = BitFlag::default();
    assert!(bf.is_empty());
    assert_eq!(bf.raw(), 0);
}

#[test]
fn from_wraps_verbatim() {
    let bf = BitFlag::from(0b1010_0101u8);
    assert_eq!(bf.raw(), 0b1010_0101);
    let bf = BitFlag::from(u128::MAX);
    assert_eq!(bf.raw(), u128::MAX);
}

#[test]
fn size_per_width() {
    assert_eq!(BitFlag::<u8>::size(), 8);
    assert_eq!(BitFlag::<u16>::size(), 16);
    assert_eq!(BitFlag::<u32>::size(), 32);
    assert_eq!(BitFlag::<u64>::size(), 64);
    assert_eq!(BitFlag::<u128>::size(), 128);
}

#[test]
fn is_overflow_boundary() {
    assert!(!BitFlag::<u8>::is_overflow(7));
    assert!(BitFlag::<u8>::is_overflow(8));
    assert!(!BitFlag::<u128>::is_overflow(127));
    assert!(BitFlag::<u128>::is_overflow(128));
}

#[test]
fn overflow_set_keeps_raw_unchanged() {
    let mut bf: BitFlag<u16> = BitFlag::new_with_value(0b1100);
    bf.set(16, true);
    assert_eq!(bf.raw(), 0b1100);
    bf.set(u16::MAX, true);
    assert_eq!(bf.raw(), 0b1100);
    assert_eq!(bf.get(16), false);
}

#[test]
fn roundtrip_every_bit_u128() {
    let mut bf: BitFlag<u128> = BitFlag::new();
    for i in 0..128u128 {
        bf.set(i, true);
        assert!(bf.get(i));
        bf.set(i, false);
        assert!(!bf.get(i));
    }
    assert!(bf.is_empty());
}

#[test]
fn unchecked_matches_checked() {
    let mut a: BitFlag<u64> = BitFlag::new();
    let mut b: BitFlag<u64> = BitFlag::new();
    for i in [0u64, 1, 17, 40, 63] {
        a.set(i, true);
        b.set_unchecked(i, true);
        assert_eq!(a.raw(), b.raw());
        assert_eq!(a.get(i), b.get_unchecked(i));
    }
}

#[test]
fn clear_resets_everything() {
    let mut bf: BitFlag<u32> = BitFlag::new_with_value(0xDEAD_BEEF);
    assert!(!bf.is_empty());
    bf.clear();
    assert_eq!(bf.raw(), 0);
    assert!(bf.is_empty());
    bf.clear();
    assert_eq!(bf.raw(), 0);
    assert!(bf.is_empty());
}

#[test]
fn len_counts_set_bits() {
    let bf: BitFlag<u8> = BitFlag::new_with_value(0b101110);
    assert_eq!(bf.len(), 4);
    let bf: BitFlag<u8> = BitFlag::new();
    assert_eq!(bf.len(), 0);
    let bf: BitFlag<u8> = BitFlag::new_with_value(u8::MAX);
    assert_eq!(bf.len(), 8);
    let bf: BitFlag<u128> = BitFlag::new_with_value(u128::MAX);
    assert_eq!(bf.len(), 128);
}

#[test]
fn len_matches_iter_count() {
    let bf: BitFlag<u16> = BitFlag::new_with_value(0b1011_0010_0110_1001);
    let mut it = bf.iter();
    let mut yielded = 0usize;
    let mut trues = 0usize;
    while let Some(b) = it.next() {
        yielded += 1;
        if b {
            trues += 1;
        }
    }
    assert_eq!(yielded, BitFlag::<u16>::size());
    assert_eq!(trues, bf.len());
}

#[test]
fn iter_yields_bits_in_ascending_order() {
    let bf: BitFlag<u8> = BitFlag::new_with_value(0b0000_0101);
    let mut it = bf.iter();
    assert_eq!(it.next(), Some(true));
    assert_eq!(it.next(), Some(false));
    assert_eq!(it.next(), Some(true));
    for _ in 3..8 {
        assert_eq!(it.next(), Some(false));
    }
    assert_eq!(it.next(), None);
    assert_eq!(it.next(), None);
}

#[test]
fn iter_is_restartable() {
    let bf: BitFlag<u8> = BitFlag::new_with_value(0b1);
    let mut first = bf.iter();
    assert_eq!(first.next(), Some(true));
    let mut again = bf.iter();
    assert_eq!(again.next(), Some(true));
}

#[test]
fn add_is_arithmetic_sum_not_union() {
    // 1 + 2 = 3: here the arithmetic sum coincides with the bitwise OR.
    let a = BitFlag::new_with_value(1u8).add(BitFlag::new_with_value(2u8));
    assert_eq!(a.raw(), 3);
    // 3 + 1 = 4: a bitwise OR would wrongly give 3.
    let b = BitFlag::new_with_value(3u8).add(BitFlag::new_with_value(1u8));
    assert_eq!(b.raw(), 4);
}

#[test]
fn add_value_and_add_assign() {
    let a = BitFlag::new_with_value(3u32).add_value(1u32);
    assert_eq!(a.raw(), 4);
    let mut b = BitFlag::new_with_value(3u16);
    b.add_assign(BitFlag::new_with_value(1u16));
    assert_eq!(b.raw(), 4);
    let mut c = BitFlag::new_with_value(3u64);
    c.add_assign_value(1u64);
    assert_eq!(c.raw(), 4);
}

#[test]
fn add_wraps_around() {
    let a = BitFlag::new_with_value(u8::MAX).add_value(1u8);
    assert_eq!(a.raw(), 0);
    let b = BitFlag::new_with_value(u8::MAX).add_value(3u8);
    assert_eq!(b.raw(), 2);
}

#[test]
fn set_range_invalid_is_noop() {
    let mut bf: BitFlag<u8> = BitFlag::new_with_value(0b1010);
    bf.set_range((3, 0), u8::MAX);
    assert_eq!(bf.raw(), 0b1010);
    bf.set_range((4, 8), u8::MAX);
    assert_eq!(bf.raw(), 0b1010);
}

#[test]
fn set_range_single_position() {
    let mut bf: BitFlag<u8> = BitFlag::new();
    bf.set_range((2, 2), 1u8);
    assert_eq!(bf.raw(), 0b100);
}

#[test]
fn set_range_zero_clears_bits() {
    let mut bf: BitFlag<u8> = BitFlag::new_with_value(u8::MAX);
    bf.set_range((2, 5), 0u8);
    assert_eq!(bf.raw(), 0b1100_0011);
}

#[test]
fn set_range_flag_matches_set_range() {
    let mut a: BitFlag<u32> = BitFlag::new();
    let mut b: BitFlag<u32> = BitFlag::new();
    a.set_range((3, 6), 0b1011u32);
    b.set_range_flag((3, 6), BitFlag::new_with_value(0b1011u32));
    assert_eq!(a.raw(), b.raw());
    assert_eq!(a.raw(), 0b0101_1000);
}

#[test]
fn set_range_unchecked_variants() {
    let mut a: BitFlag<u32> = BitFlag::new();
    a.set_range_unchecked((3, 6), u32::MAX);
    assert_eq!(a.raw(), 0b0111_1000);
    let mut b: BitFlag<u32> = BitFlag::new();
    b.set_range_flag_unchecked((3, 6), BitFlag::new_with_value(u32::MAX));
    assert_eq!(b.raw(), 0b0111_1000);
}

#[test]
fn get_range_unchecked_matches_get_range() {
    let bf: BitFlag<u8> = BitFlag::new_with_value(0b101110);
    assert_eq!(bf.get_range_unchecked((1, 2)), 0b11);
    assert_eq!(bf.get_range((1, 2)), Some(bf.get_range_unchecked((1, 2))));
}

#[test]
fn get_range_full_width() {
    let bf: BitFlag<u8> = BitFlag::new_with_value(0b1011_0001);
    assert_eq!(bf.get_range((0, 7)), Some(0b1011_0001));
    assert_eq!(bf.get_range((0, 8)), None);
}

#[test]
fn range_roundtrip_masks_source() {
    let mut bf: BitFlag<u16> = BitFlag::new();
    bf.set_range((4, 7), 0b1_0110u16);
    // The source's bit 4 lies past the range and is ignored.
    assert_eq!(bf.get_range((4, 7)), Some(0b0110));
}
