//! Points of a curve `y^2 = x^3 + a*x + b` over a prime field, with the group
//! law, scalar multiplication and the verification of ECDSA signatures.

use crate::error::EccError;
use crate::field::S256Field;
use crate::modular::{
    field_add, field_div, field_inv, field_mul, field_pow, field_sub, mul_mod, pow_mod, residue,
};
use crate::secp256k1::{field_prime, generator_view, group_order, G, N};
use crate::signature::Signiture;
use crate::uint::{lemma_limbs_injective, U256};
use vstd::arithmetic::div_mod::{
    lemma_add_mod_noop, lemma_mod_bound, lemma_mul_mod_noop_general, lemma_small_mod,
    lemma_sub_mod_noop,
};
use vstd::arithmetic::power::{lemma_pow1, lemma_pow_adds, lemma_square_is_pow2, pow};
use vstd::prelude::*;

verus! {

/// A point as mathematics sees it: the modulus and the coefficients of its
/// curve, and its coordinates, or none for the point at infinity.
pub struct PointView {
    pub prime: nat,
    pub a: nat,
    pub b: nat,
    pub coords: Option<(nat, nat)>,
}

/// Whether `(x, y)` satisfies `y^2 = x^3 + a*x + b` modulo `prime`.
pub open spec fn on_curve(prime: nat, a: nat, b: nat, x: nat, y: nat) -> bool {
    (y * y) % prime == (x * x * x + a * x + b) % prime
}

/// The point at infinity of the curve of `p`.
pub open spec fn infinity_of(p: PointView) -> PointView {
    PointView { prime: p.prime, a: p.a, b: p.b, coords: None }
}

/// The slope of the line through two points with different first coordinates.
pub open spec fn chord_slope(p: nat, x1: nat, y1: nat, x2: nat, y2: nat) -> nat {
    residue((y2 - y1) * field_inv(residue(x2 - x1, p), p), p)
}

/// The slope of the tangent in a point whose second coordinate is not zero.
pub open spec fn tangent_slope(p: nat, a: nat, x1: nat, y1: nat) -> nat {
    ((3 * x1 * x1 + a) * field_inv((2 * y1) % p, p)) % p
}

/// The point in which the line of slope `s` through `(x1, y1)` and a point with
/// first coordinate `x2` meets the curve again, mirrored at the x-axis.
pub open spec fn third_point(p: nat, s: nat, x1: nat, y1: nat, x2: nat) -> (nat, nat) {
    let x3 = residue(s * s - x1 - x2, p);
    (x3, residue(s * (x1 - x3) - y1, p))
}

/// The sum of two points of one curve.
pub open spec fn point_add(p: PointView, q: PointView) -> PointView {
    if p.coords is None {
        q
    } else if q.coords is None {
        p
    } else {
        let (x1, y1) = p.coords->0;
        let (x2, y2) = q.coords->0;
        if x1 == x2 && y1 != y2 {
            infinity_of(p)
        } else if x1 != x2 {
            let s = chord_slope(p.prime, x1, y1, x2, y2);
            PointView { coords: Some(third_point(p.prime, s, x1, y1, x2)), ..p }
        } else if y1 != 0 {
            let s = tangent_slope(p.prime, p.a, x1, y1);
            PointView { coords: Some(third_point(p.prime, s, x1, y1, x1)), ..p }
        } else {
            infinity_of(p)
        }
    }
}

/// The point with the second coordinate negated; the point at infinity is
/// its own negative.
pub open spec fn negated(p: PointView) -> PointView {
    match p.coords {
        Some((x, y)) => PointView { coords: Some((x, residue(-y, p.prime))), ..p },
        None => p,
    }
}

/// Double-and-add over the bits of `k`, lowest first: `acc` takes `cur` in at
/// each set bit, and `cur` is doubled at every bit.
pub open spec fn double_and_add(acc: PointView, cur: PointView, k: nat) -> PointView
    decreases k,
{
    if k == 0 {
        acc
    } else {
        double_and_add(
            if k % 2 == 1 {
                point_add(acc, cur)
            } else {
                acc
            },
            point_add(cur, cur),
            k / 2,
        )
    }
}

/// The multiple of `p` by `k`, with `k` first reduced by the order of the
/// generator of secp256k1.
pub open spec fn scalar_multiple(p: PointView, k: nat) -> PointView {
    double_and_add(infinity_of(p), p, k % group_order())
}

/// Whether `(r, s)` is accepted as a signature of the digest `z` under the
/// public point `p`.
pub open spec fn signature_accepted(p: PointView, z: nat, r: nat, s: nat) -> bool {
    let n = group_order();
    let s_inv = field_pow(s, (n - 2) as nat, n);
    let u = field_mul(z, s_inv, n);
    let v = field_mul(r, s_inv, n);
    let total = point_add(scalar_multiple(generator_view(), u), scalar_multiple(p, v));
    &&& infinity_of(p) == infinity_of(generator_view())
    &&& total.coords is Some
    &&& (total.coords->0).0 == r
}

/// A point of a curve `y^2 = x^3 + a*x + b`: its two coordinates, or none of
/// them for the point at infinity, and the coefficients of the curve.
#[derive(Clone, Copy, Debug, PartialEq, Eq)]
pub struct S256Point {
    pub x: Option<S256Field>,
    pub y: Option<S256Field>,
    pub a: S256Field,
    pub b: S256Field,
}

impl View for S256Point {
    type V = PointView;

    open spec fn view(&self) -> PointView {
        PointView {
            prime: self.a.prime@,
            a: self.a.num@,
            b: self.b.num@,
            coords: if self.x is Some && self.y is Some {
                Some(((self.x->0).num@, (self.y->0).num@))
            } else {
                None
            },
        }
    }
}

/// `((x mod m) - y) mod m` is `(x - y) mod m`.
proof fn lemma_sub_residue_left(x: int, y: int, m: int)
    requires
        m > 0,
    ensures
        ((x % m) - y) % m == (x - y) % m,
{
    lemma_add_mod_noop(x, -y, m);
    lemma_add_mod_noop(x % m, -y, m);
    vstd::arithmetic::div_mod::lemma_mod_twice(x, m);
}

/// The field operations that compute a chord's slope give `chord_slope`.
proof fn lemma_chord_slope(p: nat, x1: nat, y1: nat, x2: nat, y2: nat)
    requires
        p > 0,
    ensures
        field_div(field_sub(y2, y1, p), field_sub(x2, x1, p), p) == chord_slope(p, x1, y1, x2, y2),
{
    let inv = field_inv(residue(x2 - x1, p), p);
    lemma_mul_mod_noop_general(y2 - y1, inv as int, p as int);
}

/// The field operations that compute a tangent's slope give `tangent_slope`.
proof fn lemma_tangent_slope(p: nat, a: nat, x1: nat, y1: nat)
    requires
        p > 0,
    ensures
        field_div(
            field_add(field_mul(3nat % p, field_pow(x1, 2, p), p), a, p),
            field_mul(2nat % p, y1, p),
            p,
        ) == tangent_slope(p, a, x1, y1),
{
    let m = p as int;
    let x = x1 as int;
    let y = y1 as int;
    lemma_square_is_pow2(x);
    let sq: int = x * x;
    assert(field_pow(x1, 2, p) == sq % m);
    lemma_mul_mod_noop_general(3, sq, m);
    let t: int = ((3int % m) * (sq % m)) % m;
    assert(t == (3 * sq) % m);
    assert(field_mul(3nat % p, field_pow(x1, 2, p), p) == t);
    lemma_add_mod_noop(3 * sq, a as int, m);
    lemma_add_mod_noop(t, a as int, m);
    vstd::arithmetic::div_mod::lemma_mod_twice(3 * sq, m);
    assert((t + a) % m == (3 * sq + a) % m);
    assert(3 * sq == 3 * x * x) by (nonlinear_arith)
        requires
            sq == x * x,
    ;
    let numerator: int = 3 * x * x + a;
    assert(field_add(field_mul(3nat % p, field_pow(x1, 2, p), p), a, p) == numerator % m);
    lemma_mul_mod_noop_general(2, y, m);
    assert(field_mul(2nat % p, y1, p) == (2 * y1) % p);
    let inv = field_inv((2 * y1) % p, p);
    lemma_mul_mod_noop_general(numerator, inv as int, m);
}

/// The field operations that compute the first coordinate of a chord's third
/// point give `s*s - x1 - x2` reduced.
proof fn lemma_chord_x(p: nat, s: nat, x1: nat, x2: nat)
    requires
        p > 0,
    ensures
        field_sub(field_sub(field_pow(s, 2, p), x1, p), x2, p) == residue(s * s - x1 - x2, p),
{
    let m = p as int;
    lemma_square_is_pow2(s as int);
    let sq: int = (s as int) * (s as int);
    assert(field_pow(s, 2, p) == sq % m);
    lemma_sub_residue_left(sq, x1 as int, m);
    lemma_sub_residue_left(sq - x1, x2 as int, m);
}

/// The field operations that compute the first coordinate of a doubled point
/// give `s*s - x1 - x1` reduced.
proof fn lemma_doubled_x(p: nat, s: nat, x1: nat)
    requires
        p > 0,
    ensures
        field_sub(field_pow(s, 2, p), field_mul(2nat % p, x1, p), p) == residue(
            s * s - x1 - x1,
            p,
        ),
{
    let m = p as int;
    lemma_square_is_pow2(s as int);
    let sq: int = (s as int) * (s as int);
    assert(field_pow(s, 2, p) == sq % m);
    lemma_mul_mod_noop_general(2, x1 as int, m);
    lemma_sub_mod_noop(sq, 2 * (x1 as int), m);
}

/// The field operations that compute the second coordinate of the third point
/// give `s*(x1 - x3) - y1` reduced.
proof fn lemma_third_y(p: nat, s: nat, x1: nat, y1: nat, x3: nat)
    requires
        p > 0,
    ensures
        field_sub(field_mul(s, field_sub(x1, x3, p), p), y1, p) == residue(
            s * (x1 - x3) - y1,
            p,
        ),
{
    let m = p as int;
    lemma_mul_mod_noop_general(s as int, x1 - x3, m);
    lemma_sub_residue_left(s * (x1 - x3), y1 as int, m);
}

/// The field operations that test the curve equation decide `on_curve`.
proof fn lemma_curve_equation(p: nat, a: nat, b: nat, x: nat, y: nat)
    requires
        p > 0,
    ensures
        (field_pow(y, 2, p) == field_add(
            field_add(field_pow(x, 3, p), field_mul(a, x, p), p),
            b,
            p,
        )) == on_curve(p, a, b, x, y),
{
    let m = p as int;
    let xi = x as int;
    let ax: int = (a as int) * xi;
    lemma_square_is_pow2(y as int);
    lemma_square_is_pow2(xi);
    lemma_pow_adds(xi, 2, 1);
    lemma_pow1(xi);
    let cube: int = xi * xi * xi;
    assert(pow(xi, 3) == cube);
    lemma_add_mod_noop(cube, ax, m);
    let inner: int = (cube % m + ax % m) % m;
    assert(inner == (cube + ax) % m);
    lemma_add_mod_noop(cube + ax, b as int, m);
    lemma_add_mod_noop(inner, b as int, m);
    vstd::arithmetic::div_mod::lemma_mod_twice(cube + ax, m);
    assert((inner + b) % m == (cube + ax + b) % m);
}

impl S256Point {
    /// The coordinates are there together or not at all, and every field
    /// element of the point is reduced modulo one and the same modulus.
    pub open spec fn wf(&self) -> bool {
        &&& self.a.wf()
        &&& self.b.wf()
        &&& self.b.prime == self.a.prime
        &&& (self.x is Some <==> self.y is Some)
        &&& (self.x is Some ==> (self.x->0).wf() && (self.x->0).prime == self.a.prime)
        &&& (self.y is Some ==> (self.y->0).wf() && (self.y->0).prime == self.a.prime)
    }

    /// Whether the two points lie on curves with the same coefficients and modulus.
    pub open spec fn same_curve(&self, other: &S256Point) -> bool {
        self.a == other.a && self.b == other.b
    }

    /// Whether the point has coordinates that satisfy its curve's equation.
    pub open spec fn satisfies_equation(&self) -> bool {
        self@.coords is Some && on_curve(
            self@.prime,
            self@.a,
            self@.b,
            (self@.coords->0).0,
            (self@.coords->0).1,
        )
    }

    /// The point `(x, y)` of secp256k1. Coordinates of another field are a
    /// field mismatch; coordinates that fail `y^2 = x^3 + 7` are not on the curve.
    pub fn new(x: S256Field, y: S256Field) -> (r: Result<S256Point, EccError>)
        requires
            x.wf(),
            y.wf(),
        ensures
            match r {
                Ok(pt) => {
                    &&& x.prime@ == field_prime()
                    &&& y.prime@ == field_prime()
                    &&& on_curve(field_prime(), 0, 7, x.num@, y.num@)
                    &&& pt.wf()
                    &&& pt.x == Some(x)
                    &&& pt.y == Some(y)
                    &&& pt@ == (PointView {
                        prime: field_prime(),
                        a: 0,
                        b: 7,
                        coords: Some((x.num@, y.num@)),
                    })
                },
                Err(e) => if x.prime@ != field_prime() || y.prime@ != field_prime() {
                    e == EccError::FieldMismatch
                } else {
                    e == EccError::NotOnCurve && !on_curve(field_prime(), 0, 7, x.num@, y.num@)
                },
            },
    {
        let p = crate::secp256k1::secp256k1_p();
        let a = S256Field { num: U256::zero(), prime: p };
        let b = S256Field { num: U256::from_u64(7), prime: p };
        proof {
            lemma_limbs_injective(x.prime, p);
            lemma_limbs_injective(y.prime, p);
        }
        S256Point::new_with_curve(x, y, a, b)
    }

    /// The point `(x, y)` of the curve with the coefficients `a` and `b`.
    /// Elements of different fields are a field mismatch; coordinates that fail
    /// the curve equation are not on the curve.
    pub fn new_with_curve(x: S256Field, y: S256Field, a: S256Field, b: S256Field) -> (r: Result<
        S256Point,
        EccError,
    >)
        requires
            x.wf(),
            y.wf(),
            a.wf(),
            b.wf(),
        ensures
            match r {
                Ok(pt) => {
                    &&& x.prime == a.prime
                    &&& y.prime == a.prime
                    &&& b.prime == a.prime
                    &&& on_curve(a.prime@, a.num@, b.num@, x.num@, y.num@)
                    &&& pt.wf()
                    &&& pt == (S256Point { x: Some(x), y: Some(y), a, b })
                },
                Err(e) => if x.prime != a.prime || y.prime != a.prime || b.prime != a.prime {
                    e == EccError::FieldMismatch
                } else {
                    e == EccError::NotOnCurve && !on_curve(
                        a.prime@,
                        a.num@,
                        b.num@,
                        x.num@,
                        y.num@,
                    )
                },
            },
    {
        proof {
            lemma_limbs_injective(x.prime, a.prime);
            lemma_limbs_injective(y.prime, a.prime);
            lemma_limbs_injective(b.prime, a.prime);
        }
        if !x.prime.equals(&a.prime) || !y.prime.equals(&a.prime) || !b.prime.equals(&a.prime) {
            return Err(EccError::FieldMismatch);
        }
        let left = y.pow(2);
        let right = x.pow(3).add(&a.mul(&x).unwrap()).unwrap().add(&b).unwrap();
        proof {
            lemma_curve_equation(a.prime@, a.num@, b.num@, x.num@, y.num@);
        }
        if left.ne(&right) {
            return Err(EccError::NotOnCurve);
        }
        Ok(S256Point { x: Some(x), y: Some(y), a, b })
    }

    /// The point at infinity of the curve with the coefficients `a` and `b`.
    pub fn new_inf(a: S256Field, b: S256Field) -> (r: S256Point)
        ensures
            r == (S256Point { x: None, y: None, a, b }),
            r@.coords is None,
    {
        S256Point { x: None, y: None, a, b }
    }

    /// Whether this is the point at infinity.
    pub fn is_infinity(&self) -> (r: bool)
        ensures
            r == (self@.coords is None),
    {
        self.x.is_none() || self.y.is_none()
    }

    /// The first coordinate of a point other than the point at infinity.
    pub fn x(&self) -> (r: &S256Field)
        requires
            self.x is Some,
        ensures
            *r == self.x->0,
    {
        self.x.as_ref().unwrap()
    }

    /// The second coordinate of a point other than the point at infinity.
    pub fn y(&self) -> (r: &S256Field)
        requires
            self.y is Some,
        ensures
            *r == self.y->0,
    {
        self.y.as_ref().unwrap()
    }

    /// The negative of the point: the same point with its second coordinate
    /// taken away from zero.
    pub fn negate(&self) -> (r: S256Point)
        requires
            self.wf(),
        ensures
            r.wf(),
            r.same_curve(self),
            r@ == negated(self@),
    {
        match self.y {
            Some(y) => {
                let zero = S256Field { num: U256::zero(), prime: y.prime };
                let flipped = zero.sub(&y).unwrap();
                S256Point { x: self.x, y: Some(flipped), a: self.a, b: self.b }
            },
            None => *self,
        }
    }

    /// Whether the two points have the same coordinates on the same curve.
    pub fn eq(&self, other: &S256Point) -> (r: bool)
        ensures
            r == (*self == *other),
            self.wf() && other.wf() ==> r == (self@ == other@),
    {
        proof {
            if self.wf() && other.wf() && self@ == other@ {
                lemma_limbs_injective(self.a.prime, other.a.prime);
                lemma_limbs_injective(self.a.num, other.a.num);
                lemma_limbs_injective(self.b.num, other.b.num);
                if self.x is Some {
                    lemma_limbs_injective((self.x->0).num, (other.x->0).num);
                    lemma_limbs_injective((self.y->0).num, (other.y->0).num);
                }
            }
        }
        let same_x = match (&self.x, &other.x) {
            (Some(p), Some(q)) => p.eq(q),
            (None, None) => true,
            _ => false,
        };
        let same_y = match (&self.y, &other.y) {
            (Some(p), Some(q)) => p.eq(q),
            (None, None) => true,
            _ => false,
        };
        same_x && same_y && self.a.eq(&other.a) && self.b.eq(&other.b)
    }

    /// Whether the two points differ in a coordinate or in their curve.
    pub fn ne(&self, other: &S256Point) -> (r: bool)
        ensures
            r == (*self != *other),
            self.wf() && other.wf() ==> r == (self@ != other@),
    {
        !self.eq(other)
    }

    /// The sum of two points under the group law of their curve. Points of
    /// different curves are a curve mismatch.
    pub fn add(&self, other: &S256Point) -> (r: Result<S256Point, EccError>)
        requires
            self.wf(),
            other.wf(),
        ensures
            match r {
                Ok(pt) => {
                    &&& self.same_curve(other)
                    &&& pt.wf()
                    &&& pt.same_curve(self)
                    &&& pt@ == point_add(self@, other@)
                },
                Err(e) => !self.same_curve(other) && e == EccError::CurveMismatch,
            },
    {
        if self.a.ne(&other.a) || self.b.ne(&other.b) {
            return Err(EccError::CurveMismatch);
        }
        if self.x.is_none() {
            return Ok(*other);
        }
        if other.x.is_none() {
            return Ok(*self);
        }
        let x1 = self.x.unwrap();
        let y1 = self.y.unwrap();
        let x2 = other.x.unwrap();
        let y2 = other.y.unwrap();
        let ghost p = self.a.prime@;
        proof {
            lemma_limbs_injective(x1.num, x2.num);
            lemma_limbs_injective(y1.num, y2.num);
        }
        if x1.eq(&x2) && y1.ne(&y2) {
            return Ok(S256Point::new_inf(self.a, self.b));
        }
        if x1.ne(&x2) {
            let s = y2.sub(&y1).unwrap().div(&x2.sub(&x1).unwrap()).unwrap();
            let x3 = s.pow(2).sub(&x1).unwrap().sub(&x2).unwrap();
            let y3 = s.mul(&x1.sub(&x3).unwrap()).unwrap().sub(&y1).unwrap();
            proof {
                lemma_chord_slope(p, x1.num@, y1.num@, x2.num@, y2.num@);
                lemma_chord_x(p, s.num@, x1.num@, x2.num@);
                lemma_third_y(p, s.num@, x1.num@, y1.num@, x3.num@);
            }
            return Ok(S256Point { x: Some(x3), y: Some(y3), a: self.a, b: self.b });
        }
        if !y1.num.is_zero() {
            let prime = self.a.prime;
            let two = S256Field { num: U256::from_u64(2).modulo(&prime), prime };
            let three = S256Field { num: U256::from_u64(3).modulo(&prime), prime };
            proof {
                lemma_mod_bound(2, p as int);
                lemma_mod_bound(3, p as int);
            }
            let numerator = three.mul(&x1.pow(2)).unwrap().add(&self.a).unwrap();
            let s = numerator.div(&two.mul(&y1).unwrap()).unwrap();
            let x3 = s.pow(2).sub(&two.mul(&x1).unwrap()).unwrap();
            let y3 = s.mul(&x1.sub(&x3).unwrap()).unwrap().sub(&y1).unwrap();
            proof {
                lemma_tangent_slope(p, self.a.num@, x1.num@, y1.num@);
                lemma_doubled_x(p, s.num@, x1.num@);
                lemma_third_y(p, s.num@, x1.num@, y1.num@, x3.num@);
            }
            return Ok(S256Point { x: Some(x3), y: Some(y3), a: self.a, b: self.b });
        }
        Ok(S256Point::new_inf(self.a, self.b))
    }

    /// The multiple of the point by `coefficient`, by double-and-add over the
    /// bits of the coefficient reduced by the order of the generator.
    pub fn scalar_mul(&self, coefficient: U256) -> (r: S256Point)
        requires
            self.wf(),
        ensures
            r.wf(),
            r.same_curve(self),
            r@ == scalar_multiple(self@, coefficient@),
    {
        let n = N();
        let mut coef = coefficient.modulo(&n);
        let mut current = *self;
        let mut result = S256Point::new_inf(self.a, self.b);
        while !coef.is_zero()
            invariant
                self.wf(),
                current.wf(),
                result.wf(),
                current.same_curve(self),
                result.same_curve(self),
                double_and_add(result@, current@, coef@) == scalar_multiple(
                    self@,
                    coefficient@,
                ),
            decreases coef@,
        {
            if coef.is_odd() {
                result = result.add(&current).unwrap();
            }
            current = current.add(&current).unwrap();
            coef = coef.half();
        }
        result
    }

    /// Whether `sig` is a signature of the digest `z` under this public point:
    /// with `u = z/s` and `v = r/s` modulo the group order, the point
    /// `u*G + v*self` must have coordinates, the first of them equal to `r`.
    /// A point of another curve than secp256k1 verifies nothing.
    pub fn verify(&self, z: U256, sig: &Signiture) -> (r: bool)
        requires
            self.wf(),
        ensures
            r == signature_accepted(self@, z@, sig@.0, sig@.1),
    {
        let n = N();
        let g = G();
        if self.a.ne(&g.a) || self.b.ne(&g.b) {
            proof {
                lemma_limbs_injective(self.a.prime, g.a.prime);
                lemma_limbs_injective(self.a.num, g.a.num);
                lemma_limbs_injective(self.b.num, g.b.num);
            }
            return false;
        }
        let s_inv = pow_mod(&sig.s(), &n.minus(&U256::from_u64(2)), &n);
        let u = mul_mod(&z, &s_inv, &n);
        let v = mul_mod(&sig.r(), &s_inv, &n);
        let total = g.scalar_mul(u).add(&self.scalar_mul(v)).unwrap();
        match total.x {
            Some(x) => x.num.equals(&sig.r()),
            None => false,
        }
    }
}

/// The point at infinity is neutral: added to a point, on either side, it
/// gives that point.
pub proof fn law_infinity_is_neutral(p: S256Point)
    requires
        p.wf(),
    ensures
        point_add(p@, infinity_of(p@)) == p@,
        point_add(infinity_of(p@), p@) == p@,
{
}

/// A point and its negative add up to the point at infinity. The one
/// exception is left out: a point off the x-axis that is its own negative,
/// which takes a modulus of twice its second coordinate, and so an even one.
pub proof fn law_negative_cancels(p: S256Point)
    requires
        p.wf(),
        p@.coords is Some,
        2 * (p@.coords->0).1 != p@.prime,
    ensures
        point_add(p@, negated(p@)) == infinity_of(p@),
{
    let m = p@.prime as int;
    let y = (p@.coords->0).1;
    if y == 0 {
        lemma_small_mod(0, p@.prime);
    } else {
        lemma_small_mod((m - y) as nat, p@.prime);
        vstd::arithmetic::div_mod::lemma_mod_add_multiples_vanish(-y, m);
    }
}

/// The multiple of a point by zero is the point at infinity.
pub proof fn law_multiple_by_zero(p: S256Point)
    requires
        p.wf(),
    ensures
        scalar_multiple(p@, 0) == infinity_of(p@),
{
}

/// The multiple of a point by one is the point.
pub proof fn law_multiple_by_one(p: S256Point)
    requires
        p.wf(),
    ensures
        scalar_multiple(p@, 1) == p@,
{
    reveal_with_fuel(double_and_add, 2);
}

/// The multiple of a point by two is the point added to itself.
pub proof fn law_multiple_by_two(p: S256Point)
    requires
        p.wf(),
    ensures
        scalar_multiple(p@, 2) == point_add(p@, p@),
{
    reveal_with_fuel(double_and_add, 3);
}

/// The multiple of a point by the order of the generator is the point at
/// infinity, and so is every multiple by a multiple of the order.
pub proof fn law_multiple_by_order(p: S256Point, k: nat)
    requires
        p.wf(),
        k % group_order() == 0,
    ensures
        scalar_multiple(p@, k) == infinity_of(p@),
        scalar_multiple(p@, group_order()) == infinity_of(p@),
{
}

} // verus!
