//! Elements of the field of integers modulo a prime.

use crate::error::EccError;
use crate::modular::{
    add_mod, field_add, field_div, field_mul, field_pow, field_sub, is_prime, mul_mod,
    normal_exponent, pow_mod, sub_mod,
};
use crate::number_theory::lemma_power_is_inverse;
use crate::secp256k1::{field_prime, secp256k1_p};
use crate::uint::{lemma_limbs_injective, U256};
use vstd::arithmetic::div_mod::{lemma_mul_mod_noop_general, lemma_small_mod};
use vstd::arithmetic::power::{lemma_pow1, pow};
use vstd::prelude::*;

verus! {

/// An element `num` of the integers modulo `prime`.
#[derive(Clone, Copy, Debug, PartialEq, Eq, Structural)]
pub struct S256Field {
    pub num: U256,
    pub prime: U256,
}

impl S256Field {
    /// The element is reduced, and its modulus is large enough to be a prime.
    pub open spec fn wf(&self) -> bool {
        self.prime@ >= 2 && self.num@ < self.prime@
    }

    /// The element `num` of the coordinate field of secp256k1. A number that is
    /// not below the field's modulus is out of range.
    pub fn new(num: U256) -> (r: Result<S256Field, EccError>)
        ensures
            match r {
                Ok(f) => num@ < field_prime() && f.num == num && f.prime@ == field_prime()
                    && f.wf(),
                Err(e) => num@ >= field_prime() && e == EccError::OutOfRange,
            },
    {
        S256Field::new_with_prime(num, secp256k1_p())
    }

    /// The element `num` of the integers modulo `prime`. A modulus below two is
    /// out of range, and so is a number that is not below the modulus.
    pub fn new_with_prime(num: U256, prime: U256) -> (r: Result<S256Field, EccError>)
        ensures
            match r {
                Ok(f) => prime@ >= 2 && num@ < prime@ && f.num == num && f.prime == prime
                    && f.wf(),
                Err(e) => (prime@ < 2 || num@ >= prime@) && e == EccError::OutOfRange,
            },
    {
        if prime.less_than(&U256::from_u64(2)) || !num.less_than(&prime) {
            Err(EccError::OutOfRange)
        } else {
            Ok(S256Field { num, prime })
        }
    }

    /// Whether the two elements have the same number and the same modulus.
    pub fn eq(&self, other: &S256Field) -> (r: bool)
        ensures
            r == (self.num@ == other.num@ && self.prime@ == other.prime@),
            r == (*self == *other),
    {
        proof {
            lemma_limbs_injective(self.num, other.num);
            lemma_limbs_injective(self.prime, other.prime);
        }
        self.num.equals(&other.num) && self.prime.equals(&other.prime)
    }

    /// Whether the two elements differ in their number or in their modulus.
    pub fn ne(&self, other: &S256Field) -> (r: bool)
        ensures
            r == (self.num@ != other.num@ || self.prime@ != other.prime@),
            r == (*self != *other),
    {
        !self.eq(other)
    }

    /// The element raised to a signed power. A negative exponent is first
    /// brought into `1 ..= prime - 1` by way of the modulus `prime - 1`, so that
    /// the exponent `-1` gives the inverse in a prime field.
    pub fn pow(&self, exp: isize) -> (r: S256Field)
        requires
            self.wf(),
        ensures
            r.wf(),
            r.prime == self.prime,
            r.num@ == field_pow(self.num@, normal_exponent(exp as int, self.prime@), self.prime@),
    {
        let e = if exp >= 0 {
            U256::from_u64(exp as u64)
        } else {
            let magnitude: u64 = ((-(exp + 1)) as u64) + 1;
            let modulus = self.prime.minus(&U256::one());
            let rest = U256::from_u64(magnitude).modulo(&modulus);
            proof {
                vstd::arithmetic::div_mod::lemma_mod_bound(magnitude as int, modulus@ as int);
            }
            modulus.minus(&rest)
        };
        let num = pow_mod(&self.num, &e, &self.prime);
        proof {
            vstd::arithmetic::div_mod::lemma_mod_bound(
                vstd::arithmetic::power::pow(self.num@ as int, e@),
                self.prime@ as int,
            );
        }
        S256Field { num, prime: self.prime }
    }

    /// The sum of two elements of one field.
    pub fn add(&self, other: &S256Field) -> (r: Result<S256Field, EccError>)
        requires
            self.wf(),
            other.wf(),
        ensures
            match r {
                Ok(f) => self.prime == other.prime && f.wf() && f.prime == self.prime && f.num@
                    == field_add(self.num@, other.num@, self.prime@),
                Err(e) => self.prime != other.prime && e == EccError::FieldMismatch,
            },
    {
        if !self.prime.equals(&other.prime) {
            proof {
                lemma_limbs_injective(self.prime, other.prime);
            }
            return Err(EccError::FieldMismatch);
        }
        proof {
            lemma_limbs_injective(self.prime, other.prime);
            vstd::arithmetic::div_mod::lemma_mod_bound(
                (self.num@ + other.num@) as int,
                self.prime@ as int,
            );
        }
        Ok(S256Field { num: add_mod(&self.num, &other.num, &self.prime), prime: self.prime })
    }

    /// The difference of two elements of one field.
    pub fn sub(&self, other: &S256Field) -> (r: Result<S256Field, EccError>)
        requires
            self.wf(),
            other.wf(),
        ensures
            match r {
                Ok(f) => self.prime == other.prime && f.wf() && f.prime == self.prime && f.num@
                    == field_sub(self.num@, other.num@, self.prime@),
                Err(e) => self.prime != other.prime && e == EccError::FieldMismatch,
            },
    {
        if !self.prime.equals(&other.prime) {
            proof {
                lemma_limbs_injective(self.prime, other.prime);
            }
            return Err(EccError::FieldMismatch);
        }
        proof {
            lemma_limbs_injective(self.prime, other.prime);
            vstd::arithmetic::div_mod::lemma_mod_bound(
                self.num@ - other.num@,
                self.prime@ as int,
            );
        }
        Ok(S256Field { num: sub_mod(&self.num, &other.num, &self.prime), prime: self.prime })
    }

    /// The product of two elements of one field.
    pub fn mul(&self, other: &S256Field) -> (r: Result<S256Field, EccError>)
        requires
            self.wf(),
            other.wf(),
        ensures
            match r {
                Ok(f) => self.prime == other.prime && f.wf() && f.prime == self.prime && f.num@
                    == field_mul(self.num@, other.num@, self.prime@),
                Err(e) => self.prime != other.prime && e == EccError::FieldMismatch,
            },
    {
        if !self.prime.equals(&other.prime) {
            proof {
                lemma_limbs_injective(self.prime, other.prime);
            }
            return Err(EccError::FieldMismatch);
        }
        proof {
            lemma_limbs_injective(self.prime, other.prime);
            vstd::arithmetic::div_mod::lemma_mod_bound(
                (self.num@ * other.num@) as int,
                self.prime@ as int,
            );
        }
        Ok(S256Field { num: mul_mod(&self.num, &other.num, &self.prime), prime: self.prime })
    }

    /// The quotient of two elements of one field: the first times the power
    /// `prime - 2` of the second, which in a prime field is its inverse.
    pub fn div(&self, other: &S256Field) -> (r: Result<S256Field, EccError>)
        requires
            self.wf(),
            other.wf(),
        ensures
            match r {
                Ok(f) => self.prime == other.prime && f.wf() && f.prime == self.prime && f.num@
                    == field_div(self.num@, other.num@, self.prime@),
                Err(e) => self.prime != other.prime && e == EccError::FieldMismatch,
            },
    {
        if !self.prime.equals(&other.prime) {
            proof {
                lemma_limbs_injective(self.prime, other.prime);
            }
            return Err(EccError::FieldMismatch);
        }
        proof {
            lemma_limbs_injective(self.prime, other.prime);
        }
        let exponent = self.prime.minus(&U256::from_u64(2));
        let inverse = pow_mod(&other.num, &exponent, &self.prime);
        let num = mul_mod(&self.num, &inverse, &self.prime);
        proof {
            vstd::arithmetic::div_mod::lemma_mod_bound(
                (self.num@ * inverse@) as int,
                self.prime@ as int,
            );
        }
        Ok(S256Field { num, prime: self.prime })
    }
}

/// The sum of two elements of one field does not depend on their order.
pub proof fn law_add_commutes(a: S256Field, b: S256Field)
    requires
        a.wf(),
        b.wf(),
        a.prime == b.prime,
    ensures
        field_add(a.num@, b.num@, a.prime@) == field_add(b.num@, a.num@, a.prime@),
{
}

/// The sum of an element and zero is the element.
pub proof fn law_add_zero(a: S256Field)
    requires
        a.wf(),
    ensures
        field_add(a.num@, 0, a.prime@) == a.num@,
{
    lemma_small_mod(a.num@, a.prime@);
}

/// Modulo a prime, a number times another that is not zero, times the power
/// `p - 2` of that other, is the number again.
proof fn lemma_power_cancels(a: nat, b: nat, p: nat)
    requires
        is_prime(p),
        a < p,
        0 < b < p,
    ensures
        (a * b * pow(b as int, (p - 2) as nat)) % (p as int) == a,
{
    let m = p as int;
    let power: int = pow(b as int, (p - 2) as nat);
    lemma_small_mod(b, p);
    lemma_power_is_inverse(b, p);
    assert(a * b * power == a * (b * power)) by (nonlinear_arith);
    lemma_mul_mod_noop_general(a as int, b * power, m);
    lemma_small_mod(a, p);
}

/// In a field of prime modulus, the quotient of a product by one of its
/// factors, where that factor is not zero, is the other factor.
pub proof fn law_div_undoes_mul(a: S256Field, b: S256Field)
    requires
        a.wf(),
        b.wf(),
        a.prime == b.prime,
        is_prime(a.prime@),
        b.num@ != 0,
    ensures
        field_div(field_mul(a.num@, b.num@, a.prime@), b.num@, a.prime@) == a.num@,
{
    let p = a.prime@;
    let m = p as int;
    let power: int = pow(b.num@ as int, (p - 2) as nat);
    lemma_mul_mod_noop_general((a.num@ * b.num@) as int, power, m);
    lemma_power_cancels(a.num@, b.num@, p);
}

/// In a field of prime modulus, the product of an element that is not zero
/// and its power `-1` is one.
pub proof fn law_mul_inverse(a: S256Field)
    requires
        a.wf(),
        is_prime(a.prime@),
        a.num@ != 0,
    ensures
        field_mul(a.num@, field_pow(a.num@, normal_exponent(-1, a.prime@), a.prime@), a.prime@)
            == 1,
{
    let p = a.prime@;
    let m = p as int;
    if p == 2 {
        assert(normal_exponent(-1, p) == 1);
        lemma_pow1(a.num@ as int);
    } else {
        lemma_small_mod(1, (p - 1) as nat);
        assert(normal_exponent(-1, p) == p - 2);
        let power: int = pow(a.num@ as int, (p - 2) as nat);
        lemma_mul_mod_noop_general(a.num@ as int, power, m);
        lemma_power_cancels(1, a.num@, p);
        assert(1 * a.num@ * power == a.num@ * power) by (nonlinear_arith);
    }
}

} // verus!
