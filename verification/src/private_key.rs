//! The signer: a secret number, its public point, and ECDSA signing.

use crate::error::EccError;
use crate::modular::{add_mod, field_pow, mul_mod, pow_mod};
use crate::point::{scalar_multiple, PointView, S256Point};
use crate::secp256k1::{generator_view, group_order, G, N};
use crate::signature::Signiture;
use crate::uint::{be_value, U256};
use vstd::arithmetic::div_mod::{
    lemma_add_mod_noop_right, lemma_mod_bound, lemma_mul_mod_noop_general,
};
use vstd::prelude::*;

verus! {

/// How many nonces `sign` draws before it gives up.
pub const SIGN_ATTEMPTS: u32 = 128;

/// The first number of the signature made with the nonce `k`: the first
/// coordinate of `k` times the generator, reduced by the group order, and
/// zero where that point has no coordinates.
pub open spec fn signature_r(k: nat) -> nat {
    let point = scalar_multiple(generator_view(), k);
    if point.coords is Some {
        (point.coords->0).0 % group_order()
    } else {
        0
    }
}

/// The second number of the signature of the digest `z` made by `secret`
/// with the nonce `k`: `(z + r*secret) / k` modulo the group order, replaced
/// by its negative where it lies above half the order.
pub open spec fn signature_s(secret: nat, z: nat, k: nat) -> nat {
    let n = group_order();
    let k_inv = field_pow(k, (n - 2) as nat, n);
    let s = ((z + signature_r(k) * secret) * k_inv) % n;
    if s > n / 2 {
        (n - s) as nat
    } else {
        s
    }
}

/// A secret number between one and the group order, and the point that it
/// makes of the generator.
#[derive(Clone, Copy, Debug)]
pub struct PrivateKey {
    secret: U256,
    point: S256Point,
}

impl PrivateKey {
    /// The secret number.
    pub closed spec fn secret_value(&self) -> nat {
        self.secret@
    }

    /// The public point.
    pub closed spec fn public_view(&self) -> PointView {
        self.point@
    }

    /// The secret lies in `1 .. group_order()`, and the public point is the
    /// secret's multiple of the generator.
    pub closed spec fn wf(&self) -> bool {
        &&& 1 <= self.secret@ < group_order()
        &&& self.point.wf()
        &&& self.point@ == scalar_multiple(generator_view(), self.secret@)
    }

    /// The key of `secret`, with its public point. A secret that is zero or
    /// not below the group order is out of range.
    pub fn new(secret: U256) -> (r: Result<PrivateKey, EccError>)
        ensures
            match r {
                Ok(key) => {
                    &&& 1 <= secret@ < group_order()
                    &&& key.wf()
                    &&& key.secret_value() == secret@
                    &&& key.public_view() == scalar_multiple(generator_view(), secret@)
                },
                Err(e) => (secret@ == 0 || secret@ >= group_order()) && e == EccError::OutOfRange,
            },
    {
        if secret.is_zero() || !secret.less_than(&N()) {
            return Err(EccError::OutOfRange);
        }
        Ok(PrivateKey { secret, point: G().scalar_mul(secret) })
    }

    /// The public point of the key.
    pub fn public_point(&self) -> (r: S256Point)
        requires
            self.wf(),
        ensures
            r.wf(),
            r@ == self.public_view(),
    {
        self.point
    }

    /// The signature of the digest `z` made with the nonce `k`. A nonce that
    /// is zero or not below the group order is out of range; a nonce that
    /// leads to a zero `r` or a zero `s` gives a degenerate signature.
    pub fn sign_with_nonce(&self, z: U256, k: U256) -> (r: Result<Signiture, EccError>)
        requires
            self.wf(),
        ensures
            match r {
                Ok(sig) => {
                    &&& 1 <= k@ < group_order()
                    &&& sig@ == (signature_r(k@), signature_s(self.secret_value(), z@, k@))
                    &&& 1 <= sig@.0 < group_order()
                    &&& 1 <= sig@.1 <= group_order() / 2
                },
                Err(e) => if k@ == 0 || k@ >= group_order() {
                    e == EccError::OutOfRange
                } else {
                    e == EccError::DegenerateSignature && (signature_r(k@) == 0 || signature_s(
                        self.secret_value(),
                        z@,
                        k@,
                    ) == 0)
                },
            },
    {
        let n = N();
        if k.is_zero() || !k.less_than(&n) {
            return Err(EccError::OutOfRange);
        }
        let point = G().scalar_mul(k);
        let r = match point.x {
            Some(x) => x.num.modulo(&n),
            None => U256::zero(),
        };
        let k_inv = pow_mod(&k, &n.minus(&U256::from_u64(2)), &n);
        let sum = add_mod(&z, &mul_mod(&r, &self.secret, &n), &n);
        let s = mul_mod(&sum, &k_inv, &n);
        proof {
            let m = n@ as int;
            lemma_add_mod_noop_right(z@ as int, (r@ * self.secret@) as int, m);
            lemma_mul_mod_noop_general((z@ + r@ * self.secret@) as int, k_inv@ as int, m);
            lemma_mod_bound(((z@ + r@ * self.secret@) * k_inv@) as int, m);
            lemma_mod_bound(
                if point@.coords is Some {
                    (point@.coords->0).0 as int
                } else {
                    0
                },
                m,
            );
        }
        let s = if n.half().less_than(&s) {
            n.minus(&s)
        } else {
            s
        };
        if r.is_zero() || s.is_zero() {
            return Err(EccError::DegenerateSignature);
        }
        Ok(Signiture::new(r, s))
    }

    /// One draw of a random nonce: 32 random bytes, kept where they stand for a
    /// number in `1 .. group_order()` and thrown away otherwise.
    pub fn gen_rand_k() -> (r: Option<U256>)
        ensures
            r matches Some(k) ==> 1 <= k@ < group_order(),
    {
        let bytes = random_bytes();
        nonce_from_bytes(bytes.as_slice())
    }

    /// A signature of the digest `z`, made with a random nonce. A draw that is
    /// no nonce, or that leads to a degenerate signature, is thrown away and
    /// another one is made, `SIGN_ATTEMPTS` times at most.
    pub fn sign(&self, z: U256) -> (r: Result<Signiture, EccError>)
        requires
            self.wf(),
        ensures
            match r {
                Ok(sig) => {
                    &&& exists|k: nat|
                        1 <= k < group_order() && sig@ == (
                            #[trigger] signature_r(k),
                            signature_s(self.secret_value(), z@, k),
                        )
                    &&& 1 <= sig@.0 < group_order()
                    &&& 1 <= sig@.1 <= group_order() / 2
                },
                Err(e) => e == EccError::DegenerateSignature,
            },
    {
        let mut attempt: u32 = 0;
        while attempt < SIGN_ATTEMPTS
            invariant
                self.wf(),
            decreases SIGN_ATTEMPTS - attempt,
        {
            match PrivateKey::gen_rand_k() {
                Some(k) => {
                    match self.sign_with_nonce(z, k) {
                        Ok(sig) => {
                            return Ok(sig);
                        },
                        Err(_) => {},
                    }
                },
                None => {},
            }
            attempt = attempt + 1;
        }
        Err(EccError::DegenerateSignature)
    }
}

/// The nonce that at most 32 random bytes stand for, read most significant
/// byte first: the number itself where it lies in `1 .. group_order()`, and
/// none otherwise, so that every nonce is as likely as any other.
pub fn nonce_from_bytes(bytes: &[u8]) -> (r: Option<U256>)
    requires
        bytes@.len() <= 32,
    ensures
        match r {
            Some(k) => k@ == be_value(bytes@) && 1 <= k@ < group_order(),
            None => be_value(bytes@) == 0 || be_value(bytes@) >= group_order(),
        },
{
    let k = U256::from_big_endian(bytes);
    if k.is_zero() || !k.less_than(&N()) {
        None
    } else {
        Some(k)
    }
}

/// `rand::random`, for an array of 32 bytes: bytes from the thread's random
/// generator. Nothing is known of them but their number.
#[verifier::external_body]
fn random_bytes() -> (r: Vec<u8>)
    ensures
        r@.len() == 32,
{
    rand::random::<[u8; 32]>().to_vec()
}

} // verus!
