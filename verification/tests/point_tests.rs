use bitcoin_prac::error::EccError;
use bitcoin_prac::field::S256Field;
use bitcoin_prac::point::S256Point;
use bitcoin_prac::secp256k1::{secp256k1_p, G, N};
use bitcoin_prac::uint::U256;

fn el(value: u64, prime: u64) -> S256Field {
    S256Field::new_with_prime(U256::from_u64(value), U256::from_u64(prime)).unwrap()
}

/// The point `(x, y)` of `y^2 = x^3 + 7` over the integers modulo 223.
fn small(x: u64, y: u64) -> S256Point {
    S256Point::new_with_curve(el(x, 223), el(y, 223), el(0, 223), el(7, 223)).unwrap()
}

fn small_infinity() -> S256Point {
    S256Point::new_inf(el(0, 223), el(7, 223))
}

fn satisfies_equation(p: &S256Point) -> bool {
    let left = p.y().pow(2);
    let right = p.x().pow(3).add(&p.a.mul(p.x()).unwrap()).unwrap().add(&p.b).unwrap();
    left == right
}

#[test]
fn point_new_accepts_points_of_the_curve() {
    for (x, y) in [(192u64, 105u64), (17, 56), (1, 193), (6, 0)] {
        let p = small(x, y);
        assert_eq!(p.x().num, U256::from_u64(x));
        assert_eq!(p.y().num, U256::from_u64(y));
        assert_eq!(p.a, el(0, 223));
        assert_eq!(p.b, el(7, 223));
    }
}

#[test]
fn point_new_rejects_points_off_the_curve() {
    for (x, y) in [(200u64, 119u64), (42, 99), (0, 0), (192, 106)] {
        assert_eq!(
            S256Point::new_with_curve(el(x, 223), el(y, 223), el(0, 223), el(7, 223)),
            Err(EccError::NotOnCurve)
        );
    }
    let one = S256Field::new(U256::one()).unwrap();
    assert_eq!(S256Point::new(one, one), Err(EccError::NotOnCurve));
    let g = G();
    assert_eq!(S256Point::new(*g.y(), *g.x()), Err(EccError::NotOnCurve));
}

#[test]
fn point_new_rejects_mixed_fields() {
    assert_eq!(
        S256Point::new_with_curve(el(192, 223), el(105, 223), el(0, 227), el(7, 223)),
        Err(EccError::FieldMismatch)
    );
    assert_eq!(
        S256Point::new_with_curve(el(192, 223), el(105, 227), el(0, 223), el(7, 223)),
        Err(EccError::FieldMismatch)
    );
    assert_eq!(S256Point::new(el(192, 223), el(105, 223)), Err(EccError::FieldMismatch));
}

#[test]
fn generator_is_a_point_of_secp256k1() {
    let g = G();
    assert_eq!(S256Point::new(*g.x(), *g.y()), Ok(g));
    assert_eq!(g.a, S256Field::new(U256::zero()).unwrap());
    assert_eq!(g.b, S256Field::new(U256::from_u64(7)).unwrap());
    assert_eq!(g.x().prime, secp256k1_p());
    assert_eq!(
        g.x().num,
        U256::from_big_endian(&[
            0x79, 0xBE, 0x66, 0x7E, 0xF9, 0xDC, 0xBB, 0xAC, 0x55, 0xA0, 0x62, 0x95, 0xCE, 0x87,
            0x0B, 0x07, 0x02, 0x9B, 0xFC, 0xDB, 0x2D, 0xCE, 0x28, 0xD9, 0x59, 0xF2, 0x81, 0x5B,
            0x16, 0xF8, 0x17, 0x98
        ])
    );
    assert_eq!(
        g.y().num,
        U256::from_big_endian(&[
            0x48, 0x3A, 0xDA, 0x77, 0x26, 0xA3, 0xC4, 0x65, 0x5D, 0xA4, 0xFB, 0xFC, 0x0E, 0x11,
            0x08, 0xA8, 0xFD, 0x17, 0xB4, 0x48, 0xA6, 0x85, 0x54, 0x19, 0x9C, 0x47, 0xD0, 0x8F,
            0xFB, 0x10, 0xD4, 0xB8
        ])
    );
    assert_eq!(
        N(),
        U256::from_big_endian(&[
            0xFF, 0xFF, 0xFF, 0xFF, 0xFF, 0xFF, 0xFF, 0xFF, 0xFF, 0xFF, 0xFF, 0xFF, 0xFF, 0xFF,
            0xFF, 0xFE, 0xBA, 0xAE, 0xDC, 0xE6, 0xAF, 0x48, 0xA0, 0x3B, 0xBF, 0xD2, 0x5E, 0x8C,
            0xD0, 0x36, 0x41, 0x41
        ])
    );
    assert_eq!(
        secp256k1_p(),
        U256::from_big_endian(&[
            0xff, 0xff, 0xff, 0xff, 0xff, 0xff, 0xff, 0xff, 0xff, 0xff, 0xff, 0xff, 0xff, 0xff,
            0xff, 0xff, 0xff, 0xff, 0xff, 0xff, 0xff, 0xff, 0xff, 0xff, 0xff, 0xff, 0xff, 0xfe,
            0xff, 0xff, 0xfc, 0x2f
        ])
    );
}

#[test]
fn point_eq_and_ne() {
    assert!(small(192, 105).eq(&small(192, 105)));
    assert!(!small(192, 105).eq(&small(17, 56)));
    assert!(!small(192, 105).eq(&small_infinity()));
    assert!(small_infinity().eq(&small_infinity()));
    assert!(small(192, 105).ne(&small(192, 118)));
    assert!(!small(192, 105).ne(&small(192, 105)));
    let other_curve = S256Point::new_inf(el(0, 223), el(8, 223));
    assert!(small_infinity().ne(&other_curve));
}

#[test]
fn point_infinity_has_no_coordinates() {
    let inf = small_infinity();
    assert!(inf.is_infinity());
    assert_eq!(inf.x, None);
    assert_eq!(inf.y, None);
    assert!(!small(192, 105).is_infinity());
}

#[test]
fn point_add_infinity_is_neutral() {
    let p = small(192, 105);
    let inf = small_infinity();
    assert_eq!(p.add(&inf), Ok(p));
    assert_eq!(inf.add(&p), Ok(p));
    assert_eq!(inf.add(&inf), Ok(inf));
    let g = G();
    let big_inf = S256Point::new_inf(g.a, g.b);
    assert_eq!(g.add(&big_inf), Ok(g));
    assert_eq!(big_inf.add(&g), Ok(g));
}

#[test]
fn point_add_negative_is_infinity() {
    for (x, y) in [(192u64, 105u64), (17, 56), (47, 71), (143, 98)] {
        let p = small(x, y);
        assert_eq!(p.add(&p.negate()), Ok(small_infinity()));
        assert_eq!(p.negate().add(&p), Ok(small_infinity()));
    }
    let g = G();
    assert_eq!(g.add(&g.negate()), Ok(S256Point::new_inf(g.a, g.b)));
}

#[test]
fn negate_flips_the_second_coordinate() {
    assert_eq!(small(192, 105).negate(), small(192, 118));
    assert_eq!(small(192, 118).negate(), small(192, 105));
    assert_eq!(small(6, 0).negate(), small(6, 0));
    assert_eq!(small_infinity().negate(), small_infinity());
    let g = G();
    assert_eq!(g.negate().negate(), g);
    assert_ne!(g.negate(), g);
    assert!(satisfies_equation(&g.negate()));
}

#[test]
fn point_add_stays_on_the_curve() {
    let points = [small(192, 105), small(17, 56), small(47, 71), small(143, 98), small(6, 0)];
    for p in points.iter() {
        for q in points.iter() {
            let sum = p.add(q).unwrap();
            if !sum.is_infinity() {
                assert!(satisfies_equation(&sum));
                assert_eq!(S256Point::new_with_curve(*sum.x(), *sum.y(), sum.a, sum.b), Ok(sum));
            }
            assert_eq!(q.add(p), Ok(sum));
        }
    }
}

#[test]
fn point_add_own_negative_off_the_axis() {
    // Modulo 2 the point (0, 1) of y^2 = x^3 + 1 is its own negative, and the
    // tangent rule, which divides by twice its height, gives the point again.
    let p = S256Point::new_with_curve(el(0, 2), el(1, 2), el(0, 2), el(1, 2)).unwrap();
    assert_eq!(p.negate(), p);
    assert_eq!(p.add(&p.negate()), Ok(p));
}

#[test]
fn point_add_vertical_tangent_is_infinity() {
    let p = small(6, 0);
    assert_eq!(p.negate(), p);
    assert_eq!(p.add(&p), Ok(small_infinity()));
}

#[test]
fn point_add_chord() {
    assert_eq!(small(170, 142).add(&small(60, 139)), Ok(small(220, 181)));
    assert_eq!(small(47, 71).add(&small(17, 56)), Ok(small(215, 68)));
    assert_eq!(small(143, 98).add(&small(76, 66)), Ok(small(47, 71)));
    assert_eq!(small(192, 105).add(&small(17, 56)), Ok(small(170, 142)));
    assert_eq!(small(17, 56).add(&small(192, 105)), Ok(small(170, 142)));
}

#[test]
fn point_add_tangent() {
    assert_eq!(small(47, 71).add(&small(47, 71)), Ok(small(36, 111)));
    assert_eq!(small(192, 105).add(&small(192, 105)), Ok(small(49, 71)));
}

#[test]
fn point_add_rejects_different_curves() {
    let p = small(192, 105);
    let other_b = S256Point::new_inf(el(0, 223), el(8, 223));
    let other_a = S256Point::new_inf(el(1, 223), el(7, 223));
    let other_field = S256Point::new_inf(el(0, 227), el(7, 227));
    assert_eq!(p.add(&other_b), Err(EccError::CurveMismatch));
    assert_eq!(other_a.add(&p), Err(EccError::CurveMismatch));
    assert_eq!(p.add(&other_field), Err(EccError::CurveMismatch));
    assert_eq!(p.add(&G()), Err(EccError::CurveMismatch));
}

#[test]
fn scalar_mul_two_is_doubling() {
    let g = G();
    let doubled = g.add(&g).unwrap();
    assert_eq!(g.scalar_mul(U256::from_u64(2)), doubled);
    assert!(satisfies_equation(&doubled));
    assert!(satisfies_equation(&g));
    assert_eq!(S256Point::new(*doubled.x(), *doubled.y()), Ok(doubled));
    assert_eq!(
        doubled.x().num,
        U256 {
            w3: 0xC6047F9441ED7D6D,
            w2: 0x3045406E95C07CD8,
            w1: 0x5C778E4B8CEF3CA7,
            w0: 0xABAC09B95C709EE5
        }
    );
    assert_eq!(
        doubled.y().num,
        U256 {
            w3: 0x1AE168FEA63DC339,
            w2: 0xA3C58419466CEAEE,
            w1: 0xF7F632653266D0E1,
            w0: 0x236431A950CFE52A
        }
    );
}

#[test]
fn scalar_mul_is_repeated_addition() {
    // The point (47, 71) has the order 21 on the small curve.
    let p = small(47, 71);
    let mut sum = small_infinity();
    for k in 1..=20u64 {
        sum = sum.add(&p).unwrap();
        assert_eq!(p.scalar_mul(U256::from_u64(k)), sum);
        assert!(!sum.is_infinity());
        assert!(satisfies_equation(&sum));
    }
    assert_eq!(sum, small(47, 152));
    assert_eq!(sum.add(&p), Ok(small_infinity()));
}

#[test]
fn scalar_mul_of_the_generator_is_repeated_addition() {
    let g = G();
    let mut sum = S256Point::new_inf(g.a, g.b);
    for k in 1..=10u64 {
        sum = sum.add(&g).unwrap();
        assert_eq!(g.scalar_mul(U256::from_u64(k)), sum);
        assert!(satisfies_equation(&sum));
    }
    assert_eq!(
        sum.x().num,
        U256 {
            w3: 0xA0434D9E47F3C862,
            w2: 0x35477C7B1AE6AE5D,
            w1: 0x3442D49B1943C2B7,
            w0: 0x52A68E2A47E247C7
        }
    );
}

#[test]
fn scalar_mul_three_and_twenty() {
    let g = G();
    assert_eq!(
        g.scalar_mul(U256::from_u64(3)).x().num,
        U256 {
            w3: 0xF9308A019258C310,
            w2: 0x49344F85F89D5229,
            w1: 0xB531C845836F99B0,
            w0: 0x8601F113BCE036F9
        }
    );
    assert_eq!(
        g.scalar_mul(U256::from_u64(20)).x().num,
        U256 {
            w3: 0x4CE119C96E2FA357,
            w2: 0x200B559B2F7DD5A5,
            w1: 0xF02D5290AFF74B03,
            w0: 0xF3E471B273211C97
        }
    );
}

#[test]
fn scalar_mul_zero_and_one() {
    let g = G();
    assert_eq!(g.scalar_mul(U256::zero()), S256Point::new_inf(g.a, g.b));
    assert_eq!(g.scalar_mul(U256::one()), g);
    let inf = S256Point::new_inf(g.a, g.b);
    assert_eq!(inf.scalar_mul(U256::from_u64(5)), inf);
}

#[test]
fn scalar_mul_by_the_order_is_infinity() {
    let g = G();
    assert_eq!(g.scalar_mul(N()), S256Point::new_inf(g.a, g.b));
}

#[test]
fn scalar_mul_reduces_the_coefficient_by_the_order() {
    let g = G();
    let order_plus_two = U256 { w0: N().w0 + 2, w1: N().w1, w2: N().w2, w3: N().w3 };
    assert_eq!(g.scalar_mul(order_plus_two), g.add(&g).unwrap());
}

#[test]
fn scalar_mul_on_a_small_curve() {
    let p = small(47, 71);
    assert_eq!(p.scalar_mul(U256::from_u64(2)), small(36, 111));
    assert_eq!(p.scalar_mul(U256::from_u64(4)), small(194, 51));
    assert_eq!(p.scalar_mul(U256::from_u64(8)), small(116, 55));
    assert_eq!(p.scalar_mul(U256::from_u64(21)), small_infinity());
}
