use bitflag::BitFlag;

#[test]
fn set_get_u16() {
    let mut bf: BitFlag<u16> = BitFlag::new();
    bf.set(15, true);
    assert!(bf.get(15));
    assert_eq!(bf.raw(), 0x8000);
    assert!(!bf.get(16));
}

#[test]
fn set_get_u64() {
    let mut bf: BitFlag<u64> = BitFlag::new();
    bf.set(63, true);
    assert!(bf.get(63));
    assert_eq!(bf.raw(), 1u64 << 63);
}

#[test]
fn set_get_u128() {
    let mut bf: BitFlag<u128> = BitFlag::new();
    bf.set(127, true);
    assert!(bf.get(127));
    assert_eq!(bf.raw(), 1u128 << 127);
    bf.set(128, true);
    assert_eq!(bf.raw(), 1u128 << 127);
}

#[test]
fn signed_backing_roundtrip() {
    let mut bf: BitFlag<i32> = BitFlag::new();
    for i in 0..32i32 {
        bf.set(i, true);
        assert!(bf.get(i));
    }
    assert_eq!(bf.raw(), -1);
    for i in 0..32i32 {
        bf.set(i, false);
        assert!(!bf.get(i));
    }
    assert!(bf.is_empty());
}

#[test]
fn signed_backing_sign_bit() {
    let mut bf: BitFlag<i16> = BitFlag::new();
    bf.set(15, true);
    assert_eq!(bf.raw(), i16::MIN);
    assert!(bf.get(15));
    assert_eq!(bf.len(), 1);
}

#[test]
fn signed_position_out_of_range_is_noop() {
    // A negative position reads as a large two's complement value and is
    // treated as an overflow, so the checked operations degrade safely.
    let mut bf: BitFlag<i64> = BitFlag::new_with_value(0b101);
    bf.set(-1, true);
    assert_eq!(bf.raw(), 0b101);
    assert!(!bf.get(-1));
    bf.set(64, true);
    assert_eq!(bf.raw(), 0b101);
}

#[test]
fn signed_ranges_and_arithmetic() {
    let mut bf: BitFlag<i128> = BitFlag::new();
    bf.set_range((4, 7), 0b1011i128);
    assert_eq!(bf.raw(), 0b1011_0000);
    assert_eq!(bf.get_range((4, 7)), Some(0b1011));
    let sum = BitFlag::new_with_value(3i32).add(BitFlag::new_with_value(1i32));
    assert_eq!(sum.raw(), 4);
    let wrapped = BitFlag::new_with_value(i32::MAX).add_value(1i32);
    assert_eq!(wrapped.raw(), i32::MIN);
}

#[test]
fn binary_string_matches_std_binary_format() {
    for v in [0u8, 1, 2, 3, 0b101110, 0b1000_0000, u8::MAX] {
        let bf: BitFlag<u8> = BitFlag::new_with_value(v);
        assert_eq!(bf.to_binary_string(), format!("{:b}", v));
    }
    let bf: BitFlag<u32> = BitFlag::new_with_value(0xDEAD_BEEF);
    assert_eq!(bf.to_binary_string(), format!("{:b}", 0xDEAD_BEEFu32));
    let bf: BitFlag<u128> = BitFlag::new_with_value(u128::MAX);
    assert_eq!(bf.to_binary_string(), format!("{:b}", u128::MAX));
}

#[test]
fn binary_string_of_signed_is_twos_complement() {
    let bf: BitFlag<i32> = BitFlag::new_with_value(-1);
    assert_eq!(bf.to_binary_string(), format!("{:b}", -1i32));
    assert_eq!(bf.to_binary_string().len(), 32);
    let bf: BitFlag<i32> = BitFlag::new_with_value(0);
    assert_eq!(bf.to_binary_string(), "0");
}
