use bitflag::BitFlag;

#[test]
fn check_overflow() {
    let mut bf8: BitFlag<u8> = BitFlag::new();
    assert!(bf8.is_empty());
    // Set won't do anything as we're overflowing on purpose
    bf8.set(8, true);
    assert_eq!(bf8.get(8), false);
}

#[test]
fn set_all_false_u8() {
    let mut bf8: BitFlag<u8> = BitFlag::new();
    for i in 0..7 {
        bf8.set(i, false);
        assert_eq!(bf8.get(i), false);
    }
    assert!(bf8.is_empty());
}

#[test]
fn set_all_true_u8() {
    let mut bf8: BitFlag<u8> = BitFlag::new();
    for i in 0..7 {
        bf8.set(i, true);
        assert_eq!(bf8.get(i), true);
    }
    assert!(!bf8.is_empty());
}

#[test]
fn toggle_all_u8() {
    let mut bf8: BitFlag<u8> = BitFlag::new();
    for i in 0..7 {
        bf8.set(i, true);
        assert_eq!(bf8.get(i), true);

        bf8.set(i, false);
        assert_eq!(bf8.get(i), false);
    }
    assert!(bf8.is_empty());
}

#[test]
fn set_all_false_u32() {
    let mut bf8: BitFlag<u32> = BitFlag::new();
    for i in 0..31 {
        bf8.set(i, false);
        assert_eq!(bf8.get(i), false);
    }
}

#[test]
fn set_all_true_u32() {
    let mut bf8: BitFlag<u32> = BitFlag::new();
    for i in 0..31 {
        bf8.set(i, true);
        assert_eq!(bf8.get(i), true);
    }
}

#[test]
fn toggle_all_u32() {
    let mut bf8: BitFlag<u32> = BitFlag::new();
    for i in 0..31 {
        bf8.set(i, true);
        assert_eq!(bf8.get(i), true);

        bf8.set(i, false);
        assert_eq!(bf8.get(i), false);
    }
    assert!(bf8.is_empty());
}

#[test]
fn test_set_range() {
    let mut bf: BitFlag<u32> = BitFlag::new();
    let max = u32::MAX;

    bf.set_range((3, 6), max);
    assert_eq!(bf.raw(), 0b01111000);

    bf.clear();

    bf.set_range((28, 31), max);
    assert_eq!(bf.raw(), 0b11110000000000000000000000000000);

    bf.clear();

    let e: u32 = 0b1011;
    let e: BitFlag<u32> = BitFlag::new_with_value(e);
    bf.set_range((28, 31), e);
    assert_eq!(bf.raw(), 0b10110000000000000000000000000000);
    assert!(!bf.is_empty());
}

#[test]
fn test_get_range() {
    let bf: BitFlag<u8> = BitFlag::new_with_value(0b101110);
    assert_eq!(bf.get_range((3, 0)), None);

    assert_eq!(bf.get_range((1, 2)), Some(0b11));

    assert_eq!(bf.get_range((0, 3)), Some(0b1110));

    assert_eq!(bf.get_range((0, 4)), Some(0b01110));

    assert_eq!(bf.get_range((4, 5)), Some(0b10));

    assert_eq!(bf.get_range((0, 5)), Some(0b101110));
}
