use beach::utils::{Bigint, NumericFault};

#[test]
fn conversions_to_small_integers() {
    assert_eq!(Bigint::from_u8(200).to_u8(), Ok(200));
    assert_eq!(Bigint::from_i64(256).to_u8(), Err(NumericFault::TooLarge));
    assert_eq!(Bigint::from_i8(-1).to_u8(), Err(NumericFault::Negative));
    assert_eq!(Bigint::from_i8(-128).to_i8(), Ok(-128));
    assert_eq!(Bigint::from_i64(127).to_i8(), Ok(127));
    assert_eq!(Bigint::from_i64(128).to_i8(), Err(NumericFault::OutOfRange));
    assert_eq!(Bigint::from_i64(i64::MIN).to_i8(), Err(NumericFault::OutOfRange));
}

#[test]
fn bytes_and_widths() {
    assert_eq!(Bigint::from_i64(0x1_0203).to_le_bytes(), Ok(vec![3, 2, 1]));
    assert_eq!(Bigint::from_i64(-5).to_le_bytes(), Err(NumericFault::Negative));
    assert_eq!(Bigint::from_u8(5).bit_width(), 3);
    assert_eq!(Bigint::from_i64(256).bit_width(), 9);
    assert_eq!(Bigint::from_i8(-1).bit_width(), 2);
    assert_eq!(Bigint::from_u8(0).bit_width(), 0);
}

#[test]
fn decimal_text() {
    let big = Bigint::from_str("18446744073709551616").unwrap();
    assert_eq!(big.to_le_bytes(), Ok(vec![0, 0, 0, 0, 0, 0, 0, 0, 1]));
    assert_eq!(Bigint::from_str("007"), Some(Bigint::from_u8(7)));
    assert_eq!(Bigint::from_str(""), None);
    assert_eq!(Bigint::from_str("1a"), None);
}
