use bitcoin_prac::error::EccError;
use bitcoin_prac::field::S256Field;
use bitcoin_prac::modular::mul_mod;
use bitcoin_prac::point::S256Point;
use bitcoin_prac::private_key::{nonce_from_bytes, PrivateKey};
use bitcoin_prac::secp256k1::{G, N};
use bitcoin_prac::signature::Signiture;
use bitcoin_prac::uint::U256;

// The signature below is made by the secret 12345 with the nonce 86421. Its
// digest is chosen so that verification multiplies the generator by 6 and the
// public point by 7: multiples by numbers of full size take a minute each.

fn digest() -> U256 {
    U256 {
        w3: 0xF2FC91A0D701EFF2,
        w2: 0x638EDFC5EB2DBD73,
        w1: 0x9720FC2BD7F431E0,
        w0: 0xECDE0772BD78A8EF,
    }
}

fn known_r() -> U256 {
    U256 {
        w3: 0x4626A9E6502CED45,
        w2: 0x7426AFBC3D0AB25D,
        w1: 0x3F6A18C83F35B4A9,
        w0: 0xF47E649084DF8EB6,
    }
}

fn known_s() -> U256 {
    U256 {
        w3: 0x532A1845792AFD53,
        w2: 0x1097CFF651DCF4E8,
        w1: 0x62F7F983168A2304,
        w0: 0xC772BBAA979D2708,
    }
}

fn key() -> PrivateKey {
    PrivateKey::new(U256::from_u64(12345)).unwrap()
}

#[test]
fn signature_new_keeps_both_numbers() {
    let sig = Signiture::new(U256::from_u64(11), U256::from_u64(22));
    assert_eq!(sig.r(), U256::from_u64(11));
    assert_eq!(sig.s(), U256::from_u64(22));
}

#[test]
fn private_key_new_rejects_secrets_out_of_range() {
    assert_eq!(PrivateKey::new(U256::zero()).err(), Some(EccError::OutOfRange));
    assert_eq!(PrivateKey::new(N()).err(), Some(EccError::OutOfRange));
    let max = U256 { w0: u64::MAX, w1: u64::MAX, w2: u64::MAX, w3: u64::MAX };
    assert_eq!(PrivateKey::new(max).err(), Some(EccError::OutOfRange));
}

#[test]
fn private_key_new_accepts_the_smallest_secret() {
    let low = PrivateKey::new(U256::one()).unwrap();
    assert_eq!(low.public_point(), G());
}

#[test]
fn private_key_public_point_is_the_multiple_of_the_generator() {
    let point = key().public_point();
    assert_eq!(point, G().scalar_mul(U256::from_u64(12345)));
    assert_eq!(
        point.x().num,
        U256 {
            w3: 0xF01D6B9018AB421D,
            w2: 0xD410404CB8690720,
            w1: 0x65522BF85734008F,
            w0: 0x105CF385A023A80F
        }
    );
    assert_eq!(
        point.y().num,
        U256 {
            w3: 0x0EBA29D0F0C5408E,
            w2: 0xD681984DC525982A,
            w1: 0xBEFCCD9F7FF01DD2,
            w0: 0x6DA4999CF3F6A295
        }
    );
}

#[test]
fn sign_with_nonce_gives_the_known_signature() {
    let sig = key().sign_with_nonce(digest(), U256::from_u64(86421)).unwrap();
    assert_eq!(sig.r(), known_r());
    assert_eq!(sig.s(), known_s());
}

#[test]
fn sign_with_nonce_keeps_s_in_the_lower_half() {
    // hash256 of "gangcheon"; with the nonce 2, (z + r * secret) / k lies above
    // half the order, and its negative is returned.
    let z = U256 {
        w3: 0x4CD6B8A8B0463F44,
        w2: 0x930CFABB76FB9732,
        w1: 0xB0A778B32564121E,
        w0: 0xDD4C76A4AAC4E7E3,
    };
    let sig = key().sign_with_nonce(z, U256::from_u64(2)).unwrap();
    assert_eq!(sig.r(), G().scalar_mul(U256::from_u64(2)).x().num);
    assert_eq!(
        sig.s(),
        U256 {
            w3: 0x621E897C0D2A2D2F,
            w2: 0x58B978488CDFEDF1,
            w1: 0x3AA029D642A0B8A4,
            w0: 0xC0AAE35FF52986F7
        }
    );
    assert!(!N().half().less_than(&sig.s()));
}

#[test]
fn sign_with_nonce_rejects_nonces_out_of_range() {
    assert_eq!(key().sign_with_nonce(digest(), U256::zero()), Err(EccError::OutOfRange));
    assert_eq!(key().sign_with_nonce(digest(), N()), Err(EccError::OutOfRange));
}

#[test]
fn sign_with_nonce_reports_a_zero_s() {
    // With the secret 1 and the nonce 1, r is the generator's first coordinate;
    // the digest N - r makes z + r * secret a multiple of N, and so s zero.
    let one = PrivateKey::new(U256::one()).unwrap();
    let z = N().minus(&G().x().num.modulo(&N()));
    assert_eq!(one.sign_with_nonce(z, U256::one()), Err(EccError::DegenerateSignature));
}

#[test]
fn sign_then_verify_round_trip() {
    let key = key();
    let sig = key.sign_with_nonce(digest(), U256::from_u64(86421)).unwrap();
    assert!(key.public_point().verify(digest(), &sig));
}

#[test]
fn verify_accepts_the_known_signature() {
    let public = G().scalar_mul(U256::from_u64(12345));
    assert!(public.verify(digest(), &Signiture::new(known_r(), known_s())));
}

#[test]
fn verify_rejects_a_changed_r() {
    // r * 8/7: the public point is then multiplied by 8 in place of 7.
    let public = key().public_point();
    let r = mul_mod(&known_s(), &U256::from_u64(8), &N());
    assert_ne!(r, known_r());
    assert_eq!(mul_mod(&known_s(), &U256::from_u64(7), &N()), known_r());
    assert!(!public.verify(digest(), &Signiture::new(r, known_s())));
}

#[test]
fn verify_rejects_a_changed_s() {
    // s / 2: both multiples are doubled.
    let public = key().public_point();
    let s = known_s().half();
    assert!(!public.verify(digest(), &Signiture::new(known_r(), s)));
}

#[test]
fn verify_rejects_a_changed_digest() {
    // z * 11/6: the generator is then multiplied by 11 in place of 6.
    let public = key().public_point();
    let z = mul_mod(&known_s(), &U256::from_u64(11), &N());
    assert_eq!(mul_mod(&known_s(), &U256::from_u64(6), &N()), digest());
    assert!(!public.verify(z, &Signiture::new(known_r(), known_s())));
}

#[test]
fn verify_rejects_another_key() {
    let public = G().scalar_mul(U256::from_u64(12346));
    assert!(!public.verify(digest(), &Signiture::new(known_r(), known_s())));
}

#[test]
fn verify_rejects_zero_numbers() {
    let public = key().public_point();
    assert!(!public.verify(digest(), &Signiture::new(U256::zero(), U256::zero())));
    assert!(!public.verify(digest(), &Signiture::new(U256::zero(), known_s())));
}

#[test]
fn verify_rejects_a_point_of_another_curve() {
    let el = |v: u64| S256Field::new_with_prime(U256::from_u64(v), U256::from_u64(223)).unwrap();
    let point = S256Point::new_with_curve(el(47), el(71), el(0), el(7)).unwrap();
    assert!(!point.verify(digest(), &Signiture::new(known_r(), known_s())));
}

#[test]
fn verify_rejects_the_point_at_infinity() {
    let g = G();
    let inf = S256Point::new_inf(g.a, g.b);
    assert!(!inf.verify(digest(), &Signiture::new(known_r(), known_s())));
}

#[test]
fn gen_rand_k_draws_nonces_in_range() {
    let first = PrivateKey::gen_rand_k().unwrap();
    let second = PrivateKey::gen_rand_k().unwrap();
    assert!(!first.is_zero());
    assert!(first.less_than(&N()));
    assert!(!second.is_zero());
    assert!(second.less_than(&N()));
    assert_ne!(first, second);
}

#[test]
fn nonce_from_bytes_keeps_numbers_in_range_only() {
    assert_eq!(nonce_from_bytes(&[0u8; 32]), None);
    assert_eq!(nonce_from_bytes(&[0xFFu8; 32]), None);
    assert_eq!(nonce_from_bytes(&[]), None);
    assert_eq!(nonce_from_bytes(&[5]), Some(U256::from_u64(5)));
    let mut order = [0xFFu8; 32];
    order[15] = 0xFE;
    order[16..].copy_from_slice(&[
        0xBA, 0xAE, 0xDC, 0xE6, 0xAF, 0x48, 0xA0, 0x3B, 0xBF, 0xD2, 0x5E, 0x8C, 0xD0, 0x36, 0x41,
        0x41,
    ]);
    assert_eq!(nonce_from_bytes(&order), None);
    order[31] = 0x40;
    assert_eq!(nonce_from_bytes(&order), Some(N().minus(&U256::one())));
}
