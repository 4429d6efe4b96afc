use ledger_factory::registry::clone_code;
use ledger_factory::{Address, Uint256};

#[test]
fn decimal_form_of_large_values() {
    assert_eq!(Uint256::zero().to_decimal_string(), "0");
    assert_eq!(Uint256::from(1000000).to_decimal_string(), "1000000");
    let two_pow_128 = Uint256 { hi: 1, lo: 0 };
    assert_eq!(two_pow_128.to_decimal_string(), "340282366920938463463374607431768211456");
    let max = Uint256 { hi: u128::MAX, lo: u128::MAX };
    assert_eq!(
        max.to_decimal_string(),
        "115792089237316195423570985008687907853269984665640564039457584007913129639935"
    );
}

#[test]
fn big_endian_bytes() {
    let bytes = Uint256::from(258).to_be_bytes();
    let mut expected = [0u8; 32];
    expected[30] = 1;
    expected[31] = 2;
    assert_eq!(bytes, expected);
    let high = Uint256 { hi: 1, lo: 0 }.to_be_bytes();
    let mut expected_high = [0u8; 32];
    expected_high[15] = 1;
    assert_eq!(high, expected_high);
}

#[test]
fn checked_arithmetic() {
    let max = Uint256 { hi: u128::MAX, lo: u128::MAX };
    assert_eq!(max.checked_add(&Uint256::from(1)), None);
    assert_eq!(
        Uint256 { hi: 0, lo: u128::MAX }.checked_add(&Uint256::from(1)),
        Some(Uint256 { hi: 1, lo: 0 })
    );
    assert_eq!(
        Uint256 { hi: 1, lo: 0 }.checked_sub(&Uint256::from(1)),
        Some(Uint256 { hi: 0, lo: u128::MAX })
    );
    assert_eq!(Uint256::from(1).checked_sub(&Uint256::from(2)), None);
    assert!(Uint256::from(1).lt(&Uint256 { hi: 1, lo: 0 }));
    assert_eq!(Uint256 { hi: 1, lo: 2 }.to_limbs(), [2, 0, 1, 0]);
}

#[test]
fn addresses() {
    assert!(Address::zero().is_zero());
    assert!(!Address::from([1u8; 20]).is_zero());
    let mut bytes = [0u8; 20];
    bytes[19] = 1;
    assert_ne!(Address::from(bytes), Address::zero());
    assert_eq!(Address::from(bytes).to_bytes(), bytes);
}

#[test]
fn proxy_code_embeds_the_implementation() {
    let implementation = Address::from([0x1au8; 20]);
    let code = clone_code(&implementation);
    assert_eq!(code.len(), 45);
    assert_eq!(&code[..10], &[0x36, 0x3d, 0x3d, 0x37, 0x3d, 0x3d, 0x3d, 0x36, 0x3d, 0x73]);
    assert_eq!(&code[10..30], &[0x1au8; 20]);
    assert_eq!(&code[30..], &[0x5a, 0xf4, 0x3d, 0x82, 0x80, 0x3e, 0x90, 0x3d, 0x91, 0x60, 0x2b, 0x57, 0xfd, 0x5b, 0xf3]);
}

#[test]
fn limbs_round_trip() {
    let v = Uint256 { hi: 0x0123_4567_89ab_cdef_0011_2233_4455_6677, lo: 0x8899_aabb_ccdd_eeff_1020_3040_5060_7080 };
    let limbs = v.to_limbs();
    assert_eq!(limbs, [0x1020_3040_5060_7080, 0x8899_aabb_ccdd_eeff, 0x0011_2233_4455_6677, 0x0123_4567_89ab_cdef]);
    assert_eq!(Uint256::from_limbs(limbs), v);
}
