//! Arithmetic modulo a 256-bit number.
//!
//! The spec functions say what each operation is over the natural numbers; the
//! executable functions compute it on `U256`, reducing sums and products in
//! double width so that nothing is lost before the reduction.

use crate::uint::{lemma_limbs_bound, two_256, u512_add, u512_mul, u512_rem, U256};
use vstd::arithmetic::div_mod::{
    lemma_fundamental_div_mod, lemma_fundamental_div_mod_converse, lemma_mod_bound,
    lemma_mul_mod_noop_general, lemma_small_mod,
};
use vstd::arithmetic::power::{
    lemma_pow0, lemma_pow1, lemma_pow_adds, lemma_pow_mod_noop, lemma_pow_multiplies,
    lemma_square_is_pow2, pow,
};
use vstd::prelude::*;

verus! {

/// The sum of `a` and `b` modulo `p`.
pub open spec fn field_add(a: nat, b: nat, p: nat) -> nat {
    (a + b) % p
}

/// The difference of `a` and `b` modulo `p`, taken into `0 .. p`.
pub open spec fn field_sub(a: nat, b: nat, p: nat) -> nat {
    ((a - b) % (p as int)) as nat
}

/// The product of `a` and `b` modulo `p`.
pub open spec fn field_mul(a: nat, b: nat, p: nat) -> nat {
    (a * b) % p
}

/// The power `a` to the `e` modulo `p`.
pub open spec fn field_pow(a: nat, e: nat, p: nat) -> nat {
    (pow(a as int, e) % (p as int)) as nat
}

/// The inverse of `a` modulo a prime `p`, as the power `p - 2`.
pub open spec fn field_inv(a: nat, p: nat) -> nat {
    field_pow(a, (p - 2) as nat, p)
}

/// The quotient of `a` by `b` modulo a prime `p`: `a` times the inverse of `b`.
pub open spec fn field_div(a: nat, b: nat, p: nat) -> nat {
    field_mul(a, field_inv(b, p), p)
}

/// The remainder of an integer, negative or not, on division by `p`.
pub open spec fn residue(v: int, p: nat) -> nat {
    (v % (p as int)) as nat
}

/// The exponent that stands for a signed exponent `e` modulo `p`: `e` itself
/// where it is not negative, else what is left of `p - 1` after taking away
/// the remainder of `-e` by `p - 1`.
pub open spec fn normal_exponent(e: int, p: nat) -> nat {
    if e >= 0 {
        e as nat
    } else {
        ((p - 1) - ((-e) % (p - 1))) as nat
    }
}

/// A number with no divisor strictly between one and itself.
pub open spec fn is_prime(p: nat) -> bool {
    &&& p >= 2
    &&& forall|d: nat| 1 < d < p ==> #[trigger] (p % d) != 0
}

/// The product of two numbers below two to the 256 is below two to the 512.
proof fn lemma_product_fits(a: nat, b: nat)
    requires
        a < two_256(),
        b < two_256(),
    ensures
        a * b < two_256() * two_256(),
{
    assert(a * b < two_256() * two_256()) by (nonlinear_arith)
        requires
            a < two_256(),
            b < two_256(),
    ;
}

/// `(a + b) mod m`, for a modulus that is not zero.
pub fn add_mod(a: &U256, b: &U256, m: &U256) -> (r: U256)
    requires
        m@ > 0,
    ensures
        r@ == field_add(a@, b@, m@),
{
    proof {
        lemma_limbs_bound(a.w0, a.w1, a.w2, a.w3);
        lemma_limbs_bound(b.w0, b.w1, b.w2, b.w3);
        lemma_limbs_bound(m.w0, m.w1, m.w2, m.w3);
        assert(two_256() + two_256() <= two_256() * two_256()) by (nonlinear_arith)
            requires
                two_256() >= 2,
        ;
    }
    let sum = u512_add(a.widen(), b.widen());
    let rem = u512_rem(sum, m.widen());
    proof {
        lemma_mod_bound(sum@ as int, m@ as int);
    }
    rem.narrow()
}

/// `(a - b) mod m` in `0 .. m`, for a modulus that is not zero.
pub fn sub_mod(a: &U256, b: &U256, m: &U256) -> (r: U256)
    requires
        m@ > 0,
    ensures
        r@ == field_sub(a@, b@, m@),
{
    if !a.less_than(b) {
        a.minus(b).modulo(m)
    } else {
        let back = b.minus(a).modulo(m);
        proof {
            let x: int = b@ - a@;
            let mi: int = m@ as int;
            lemma_fundamental_div_mod(x, mi);
            lemma_mod_bound(x, mi);
            let q: int = x / mi;
            if back@ == 0 {
                assert(a@ - b@ == (-q) * mi + 0) by (nonlinear_arith)
                    requires
                        x == mi * q + 0,
                        x == b@ - a@,
                ;
                lemma_fundamental_div_mod_converse(a@ - b@, mi, -q, 0);
            } else {
                assert(a@ - b@ == (-q - 1) * mi + (mi - back@)) by (nonlinear_arith)
                    requires
                        x == mi * q + back@,
                        x == b@ - a@,
                ;
                lemma_fundamental_div_mod_converse(a@ - b@, mi, -q - 1, mi - back@);
            }
        }
        if back.is_zero() {
            back
        } else {
            m.minus(&back)
        }
    }
}

/// `(a * b) mod m`, for a modulus that is not zero.
pub fn mul_mod(a: &U256, b: &U256, m: &U256) -> (r: U256)
    requires
        m@ > 0,
    ensures
        r@ == field_mul(a@, b@, m@),
{
    proof {
        lemma_limbs_bound(a.w0, a.w1, a.w2, a.w3);
        lemma_limbs_bound(b.w0, b.w1, b.w2, b.w3);
        lemma_limbs_bound(m.w0, m.w1, m.w2, m.w3);
        lemma_product_fits(a@, b@);
    }
    let product = u512_mul(a.widen(), b.widen());
    let rem = u512_rem(product, m.widen());
    proof {
        lemma_mod_bound(product@ as int, m@ as int);
    }
    rem.narrow()
}

/// One round of square-and-multiply keeps the pending power unchanged modulo `m`:
/// with the exponent halved and the base squared, the accumulator takes the
/// base in exactly when the exponent was odd.
proof fn lemma_square_and_multiply(acc: int, base: int, e: nat, m: int)
    requires
        m > 0,
        e > 0,
    ensures
        ((if e % 2 == 1 {
            (acc * base) % m
        } else {
            acc
        }) * pow((base * base) % m, e / 2)) % m == (acc * pow(base, e)) % m,
{
    let h: nat = e / 2;
    let sq: int = base * base;
    lemma_square_is_pow2(base);
    lemma_pow_multiplies(base, 2, h);
    assert(pow(sq, h) == pow(base, 2 * h));
    lemma_pow_mod_noop(sq, h, m);
    let ph: int = pow(sq, h);
    let pr: int = pow(sq % m, h);
    assert(pr % m == ph % m);
    if e % 2 == 1 {
        assert(e == 2 * h + 1);
        lemma_pow_adds(base, 2 * h, 1);
        lemma_pow1(base);
        assert(pow(base, e) == ph * base);
        let ab: int = acc * base;
        lemma_mul_mod_noop_general(ab, pr, m);
        lemma_mul_mod_noop_general(ab, ph, m);
        assert(((ab % m) * pr) % m == (ab * ph) % m);
        assert(ab * ph == acc * (ph * base)) by (nonlinear_arith)
            requires
                ab == acc * base,
        ;
    } else {
        assert(e == 2 * h);
        lemma_mul_mod_noop_general(acc, pr, m);
        lemma_mul_mod_noop_general(acc, ph, m);
    }
}

/// `base` to the power `exp`, modulo `m`, by repeated squaring, for a modulus
/// that is not zero.
pub fn pow_mod(base: &U256, exp: &U256, m: &U256) -> (r: U256)
    requires
        m@ > 0,
    ensures
        r@ == field_pow(base@, exp@, m@),
{
    let mut acc = U256::one().modulo(m);
    let mut cur = base.modulo(m);
    let mut e = *exp;
    proof {
        let mi: int = m@ as int;
        lemma_pow_mod_noop(base@ as int, exp@, mi);
        lemma_mul_mod_noop_general(1, pow(base@ as int, exp@), mi);
        lemma_mul_mod_noop_general(1, pow(cur@ as int, exp@), mi);
    }
    while !e.is_zero()
        invariant
            m@ > 0,
            acc@ < m@,
            cur@ < m@,
            (acc@ * pow(cur@ as int, e@)) % (m@ as int) == pow(base@ as int, exp@) % (m@ as int),
        decreases e@,
    {
        proof {
            lemma_square_and_multiply(acc@ as int, cur@ as int, e@, m@ as int);
        }
        if e.is_odd() {
            acc = mul_mod(&acc, &cur, m);
        }
        cur = mul_mod(&cur, &cur, m);
        e = e.half();
    }
    proof {
        lemma_pow0(cur@ as int);
        lemma_small_mod(acc@, m@);
    }
    acc
}

} // verus!
