//! The numbers that fix the curve secp256k1: `y^2 = x^3 + 7` over the field of
//! `field_prime()` elements, with a generator of order `group_order()`.

use crate::field::S256Field;
use crate::point::{on_curve, PointView, S256Point};
use crate::uint::U256;
use vstd::prelude::*;

verus! {

/// The modulus of the coordinate field: `2^256 - 2^32 - 977`.
pub open spec fn field_prime() -> nat {
    0xFFFFFFFF_FFFFFFFF_FFFFFFFF_FFFFFFFF_FFFFFFFF_FFFFFFFF_FFFFFFFE_FFFFFC2Fnat
}

/// The order of the group that the generator spans.
pub open spec fn group_order() -> nat {
    0xFFFFFFFF_FFFFFFFF_FFFFFFFF_FFFFFFFE_BAAEDCE6_AF48A03B_BFD25E8C_D0364141nat
}

/// The first coordinate of the generator.
pub open spec fn generator_x() -> nat {
    0x79BE667E_F9DCBBAC_55A06295_CE870B07_029BFCDB_2DCE28D9_59F2815B_16F81798nat
}

/// The second coordinate of the generator.
pub open spec fn generator_y() -> nat {
    0x483ADA77_26A3C465_5DA4FBFC_0E1108A8_FD17B448_A6855419_9C47D08F_FB10D4B8nat
}

/// The generator as mathematics sees it.
pub open spec fn generator_view() -> PointView {
    PointView { prime: field_prime(), a: 0, b: 7, coords: Some((generator_x(), generator_y())) }
}

/// The modulus of the coordinate field.
pub fn secp256k1_p() -> (r: U256)
    ensures
        r@ == field_prime(),
{
    U256 {
        w3: 0xFFFFFFFF_FFFFFFFF,
        w2: 0xFFFFFFFF_FFFFFFFF,
        w1: 0xFFFFFFFF_FFFFFFFF,
        w0: 0xFFFFFFFE_FFFFFC2F,
    }
}

/// The order of the generator.
#[allow(non_snake_case)]
pub fn N() -> (r: U256)
    ensures
        r@ == group_order(),
{
    U256 {
        w3: 0xFFFFFFFF_FFFFFFFF,
        w2: 0xFFFFFFFF_FFFFFFFE,
        w1: 0xBAAEDCE6_AF48A03B,
        w0: 0xBFD25E8C_D0364141,
    }
}

/// The generator of the group, a point of the curve.
#[allow(non_snake_case)]
pub fn G() -> (r: S256Point)
    ensures
        r.wf(),
        r@ == generator_view(),
        on_curve(field_prime(), 0, 7, generator_x(), generator_y()),
{
    let prime = secp256k1_p();
    let gx = U256 {
        w3: 0x79BE667E_F9DCBBAC,
        w2: 0x55A06295_CE870B07,
        w1: 0x029BFCDB_2DCE28D9,
        w0: 0x59F2815B_16F81798,
    };
    let gy = U256 {
        w3: 0x483ADA77_26A3C465,
        w2: 0x5DA4FBFC_0E1108A8,
        w1: 0xFD17B448_A6855419,
        w0: 0x9C47D08F_FB10D4B8,
    };
    S256Point {
        x: Some(S256Field { num: gx, prime }),
        y: Some(S256Field { num: gy, prime }),
        a: S256Field { num: U256::zero(), prime },
        b: S256Field { num: U256::from_u64(7), prime },
    }
}

} // verus!
