use bitcoin_prac::modular::{add_mod, mul_mod, pow_mod, sub_mod};
use bitcoin_prac::uint::{U256, U512};

fn max256() -> U256 {
    U256 { w0: u64::MAX, w1: u64::MAX, w2: u64::MAX, w3: u64::MAX }
}

#[test]
fn from_big_endian_reads_most_significant_byte_first() {
    assert_eq!(U256::from_big_endian(&[1, 0]), U256::from_u64(256));
    assert_eq!(U256::from_big_endian(&[]), U256::zero());
    assert_eq!(U256::from_big_endian(&[0x12, 0x34, 0x56]), U256::from_u64(0x123456));
    let mut bytes = [0u8; 32];
    bytes[0] = 0xAB;
    bytes[31] = 0xCD;
    assert_eq!(
        U256::from_big_endian(&bytes),
        U256 { w3: 0xAB00_0000_0000_0000, w2: 0, w1: 0, w0: 0xCD }
    );
    let nine = [0x01u8, 0, 0, 0, 0, 0, 0, 0, 0x02];
    assert_eq!(U256::from_big_endian(&nine), U256 { w3: 0, w2: 0, w1: 1, w0: 2 });
}

#[test]
fn minus_borrows_across_limbs() {
    let a = U256 { w3: 0, w2: 0, w1: 1, w0: 0 };
    assert_eq!(a.minus(&U256::one()), U256::from_u64(u64::MAX));
    assert_eq!(U256::from_u64(10).minus(&U256::from_u64(3)), U256::from_u64(7));
    assert_eq!(max256().minus(&max256()), U256::zero());
}

#[test]
fn modulo_is_the_remainder() {
    assert_eq!(U256::from_u64(17).modulo(&U256::from_u64(5)), U256::from_u64(2));
    let a = U256 { w3: 0, w2: 0, w1: 1, w0: 0 };
    assert_eq!(a.modulo(&U256::from_u64(10)), U256::from_u64(6));
    assert_eq!(U256::from_u64(3).modulo(&U256::from_u64(7)), U256::from_u64(3));
}

#[test]
fn half_shifts_across_limbs() {
    let a = U256 { w3: 1, w2: 0, w1: 1, w0: 5 };
    assert_eq!(a.half(), U256 { w3: 0, w2: 1 << 63, w1: 0, w0: (1 << 63) | 2 });
    assert_eq!(U256::one().half(), U256::zero());
}

#[test]
fn is_odd_looks_at_the_lowest_bit() {
    assert!(U256::from_u64(7).is_odd());
    assert!(!U256::from_u64(8).is_odd());
    assert!(!U256 { w3: 1, w2: 1, w1: 1, w0: 0 }.is_odd());
    assert!(!U256::zero().is_odd());
}

#[test]
fn less_than_orders_by_value() {
    let small = U256 { w3: 0, w2: 0, w1: 0, w0: u64::MAX };
    let large = U256 { w3: 0, w2: 0, w1: 1, w0: 0 };
    assert!(small.less_than(&large));
    assert!(!large.less_than(&small));
    assert!(!large.less_than(&large));
}

#[test]
fn equals_and_is_zero() {
    assert!(U256::zero().is_zero());
    assert!(!U256 { w3: 1, w2: 0, w1: 0, w0: 0 }.is_zero());
    assert!(U256::from_u64(5).equals(&U256::from_u64(5)));
    assert!(!U256::from_u64(5).equals(&U256 { w3: 0, w2: 0, w1: 1, w0: 5 }));
}

#[test]
fn widen_and_narrow_keep_the_value() {
    let a = U256 { w3: 4, w2: 3, w1: 2, w0: 1 };
    let w = a.widen();
    assert_eq!(w, U512 { w0: 1, w1: 2, w2: 3, w3: 4, w4: 0, w5: 0, w6: 0, w7: 0 });
    assert_eq!(w.narrow(), a);
}

#[test]
fn add_mod_does_not_lose_the_carry() {
    // (2^256 - 1) + (2^256 - 1) = 2 * (2^256 - 1); modulo 2^256 - 2 that is 2.
    let m = U256 { w0: u64::MAX - 1, w1: u64::MAX, w2: u64::MAX, w3: u64::MAX };
    assert_eq!(add_mod(&max256(), &max256(), &m), U256::from_u64(2));
    assert_eq!(
        add_mod(&U256::from_u64(44), &U256::from_u64(33), &U256::from_u64(57)),
        U256::from_u64(20)
    );
}

#[test]
fn sub_mod_wraps_below_zero() {
    assert_eq!(
        sub_mod(&U256::from_u64(9), &U256::from_u64(29), &U256::from_u64(57)),
        U256::from_u64(37)
    );
    assert_eq!(
        sub_mod(&U256::from_u64(29), &U256::from_u64(9), &U256::from_u64(57)),
        U256::from_u64(20)
    );
    // A difference that is a multiple of the modulus is zero, not the modulus.
    assert_eq!(
        sub_mod(&U256::from_u64(3), &U256::from_u64(17), &U256::from_u64(7)),
        U256::zero()
    );
    assert_eq!(
        sub_mod(&U256::from_u64(5), &U256::from_u64(5), &U256::from_u64(7)),
        U256::zero()
    );
}

#[test]
fn mul_mod_uses_the_full_product() {
    // (2^256 - 1)^2 = (m + 1)^2 with m = 2^256 - 2, which is 1 modulo m.
    let m = U256 { w0: u64::MAX - 1, w1: u64::MAX, w2: u64::MAX, w3: u64::MAX };
    assert_eq!(mul_mod(&max256(), &max256(), &m), U256::one());
    assert_eq!(
        mul_mod(&U256::from_u64(95), &U256::from_u64(45), &U256::from_u64(97)),
        U256::from_u64(7)
    );
}

#[test]
fn pow_mod_small_values() {
    let m = U256::from_u64(13);
    assert_eq!(pow_mod(&U256::from_u64(3), &U256::from_u64(0), &m), U256::one());
    assert_eq!(pow_mod(&U256::from_u64(3), &U256::from_u64(1), &m), U256::from_u64(3));
    assert_eq!(pow_mod(&U256::from_u64(3), &U256::from_u64(11), &m), U256::from_u64(9));
    assert_eq!(pow_mod(&U256::from_u64(0), &U256::from_u64(0), &m), U256::one());
    assert_eq!(pow_mod(&U256::from_u64(5), &U256::from_u64(0), &U256::one()), U256::zero());
    assert_eq!(
        pow_mod(&U256::from_u64(2), &U256::from_u64(255), &max256()),
        U256 { w3: 1 << 63, w2: 0, w1: 0, w0: 0 }
    );
}
