//! Why the sum of two points of a curve over a prime field lies on the curve.
//!
//! The line through the two points meets the cubic `x^3 + a*x + b - y^2` in
//! three places. Dividing out the two known ones leaves a linear factor whose
//! zero is the first coordinate of the sum.

use crate::modular::{field_inv, is_prime, residue};
use crate::number_theory::{lemma_power_is_inverse, lemma_prime_divides_factor};
use crate::point::{chord_slope, on_curve, point_add, tangent_slope, third_point, S256Point};
use vstd::arithmetic::div_mod::{
    lemma_add_mod_noop, lemma_mod_add_multiples_vanish, lemma_mod_bound, lemma_mod_equivalence,
    lemma_mod_twice, lemma_mul_mod_noop_general, lemma_small_mod, lemma_sub_mod_noop,
};
use vstd::prelude::*;

verus! {

/// The right side of the curve equation at `x`.
spec fn cubic(a: int, b: int, x: int) -> int {
    x * x * x + a * x + b
}

/// The height at `x` of the line of slope `s` through `(x1, y1)`.
spec fn line(s: int, x1: int, y1: int, x: int) -> int {
    s * (x - x1) + y1
}

/// What is left of the cubic less the squared line once its zero at `x1` is
/// divided out.
spec fn cofactor(a: int, s: int, x1: int, y1: int, x: int) -> int {
    x * x + x * x1 + x1 * x1 + a - s * (s * (x - x1) + 2 * y1)
}

/// Two integers with the same remainder modulo `m`.
spec fn congruent(u: int, v: int, m: int) -> bool {
    u % m == v % m
}

/// Congruent factors give congruent products.
proof fn lemma_congruent_mul(u: int, v: int, w: int, z: int, m: int)
    requires
        m > 0,
        congruent(u, v, m),
        congruent(w, z, m),
    ensures
        congruent(u * w, v * z, m),
{
    lemma_mul_mod_noop_general(u, w, m);
    lemma_mul_mod_noop_general(v, z, m);
}

/// Congruent terms give congruent sums.
proof fn lemma_congruent_add(u: int, v: int, w: int, z: int, m: int)
    requires
        m > 0,
        congruent(u, v, m),
        congruent(w, z, m),
    ensures
        congruent(u + w, v + z, m),
{
    lemma_add_mod_noop(u, w, m);
    lemma_add_mod_noop(v, z, m);
}

/// Congruent terms give congruent differences.
proof fn lemma_congruent_sub(u: int, v: int, w: int, z: int, m: int)
    requires
        m > 0,
        congruent(u, v, m),
        congruent(w, z, m),
    ensures
        congruent(u - w, v - z, m),
{
    lemma_sub_mod_noop(u, w, m);
    lemma_sub_mod_noop(v, z, m);
}

/// Congruent places give congruent values of the cubic.
proof fn lemma_congruent_cubic(a: int, b: int, x: int, z: int, m: int)
    requires
        m > 0,
        congruent(x, z, m),
    ensures
        congruent(cubic(a, b, x), cubic(a, b, z), m),
{
    lemma_congruent_mul(x, z, x, z, m);
    lemma_congruent_mul(x * x, z * z, x, z, m);
    lemma_congruent_mul(a, a, x, z, m);
    lemma_congruent_add(x * x * x, z * z * z, a * x, a * z, m);
    lemma_congruent_add(x * x * x + a * x, z * z * z + a * z, b, b, m);
}

/// The cubic less the squared line, less its value at `x1`, has the factor
/// `x - x1`.
proof fn lemma_factor_out(a: int, b: int, s: int, x1: int, y1: int, x: int)
    ensures
        cubic(a, b, x) - line(s, x1, y1, x) * line(s, x1, y1, x) - (cubic(a, b, x1) - y1 * y1) == (x
            - x1) * cofactor(a, s, x1, y1, x),
{
    let t = x - x1;
    let l = line(s, x1, y1, x);
    let squares: int = s * (s * t + 2 * y1);
    let cubes: int = x * x + x * x1 + x1 * x1;
    assert(l * l - y1 * y1 == t * squares) by (nonlinear_arith)
        requires
            l == s * t + y1,
            squares == s * (s * t + 2 * y1),
    ;
    assert(x * x * x - x1 * x1 * x1 == t * cubes) by (nonlinear_arith)
        requires
            t == x - x1,
            cubes == x * x + x * x1 + x1 * x1,
    ;
    assert(a * x - a * x1 == t * a) by (nonlinear_arith)
        requires
            t == x - x1,
    ;
    assert(t * (cubes + a - squares) == t * cubes + t * a - t * squares) by (nonlinear_arith);
}

/// The cofactor takes the same value at `x2` and at `s*s - x1 - x2`.
proof fn lemma_cofactor_at_third(a: int, s: int, x1: int, y1: int, x2: int)
    ensures
        cofactor(a, s, x1, y1, s * s - x1 - x2) == cofactor(a, s, x1, y1, x2),
{
    let ss: int = s * s;
    let x3: int = ss - x1 - x2;
    assert(x3 * x3 + x3 * x1 - s * (s * (x3 - x1)) == x2 * x2 + x2 * x1 - s * (s * (x2 - x1)))
        by (nonlinear_arith)
        requires
            x3 == ss - x1 - x2,
            ss == s * s,
    ;
    assert(s * (s * (x3 - x1) + 2 * y1) == s * (s * (x3 - x1)) + s * (2 * y1))
        by (nonlinear_arith);
    assert(s * (s * (x2 - x1) + 2 * y1) == s * (s * (x2 - x1)) + s * (2 * y1))
        by (nonlinear_arith);
}

/// Where `(x1, y1)` is on the curve and the cofactor vanishes modulo `p` at
/// `x2`, the third point of the line of slope `s` is on the curve.
proof fn lemma_third_point_on_curve(p: nat, a: nat, b: nat, s: nat, x1: nat, y1: nat, x2: nat)
    requires
        p > 0,
        on_curve(p, a, b, x1, y1),
        cofactor(a as int, s as int, x1 as int, y1 as int, x2 as int) % (p as int) == 0,
    ensures
        on_curve(
            p,
            a,
            b,
            third_point(p, s, x1, y1, x2).0,
            third_point(p, s, x1, y1, x2).1,
        ),
{
    let m = p as int;
    let (ai, bi, si, xi, yi) = (a as int, b as int, s as int, x1 as int, y1 as int);
    let big: int = si * si - xi - x2;
    let at_start: int = cubic(ai, bi, xi) - yi * yi;
    let left: int = cofactor(ai, si, xi, yi, x2 as int);
    let height: int = line(si, xi, yi, big);
    lemma_factor_out(ai, bi, si, xi, yi, big);
    lemma_cofactor_at_third(ai, si, xi, yi, x2 as int);
    assert(cubic(ai, bi, big) - height * height == at_start + (big - xi) * left);
    // Both terms on the right vanish modulo p.
    assert(cubic(ai, bi, xi) == x1 * x1 * x1 + a * x1 + b);
    lemma_mod_equivalence(cubic(ai, bi, xi), yi * yi, m);
    assert(at_start % m == 0);
    lemma_mul_mod_noop_general(big - xi, left, m);
    assert(((big - xi) * left) % m == 0) by {
        assert((big - xi) * 0 == 0);
        lemma_small_mod(0, p);
    }
    lemma_small_mod(0, p);
    lemma_congruent_add(at_start, 0, (big - xi) * left, 0, m);
    assert((cubic(ai, bi, big) - height * height) % m == 0);
    lemma_mod_equivalence(cubic(ai, bi, big), height * height, m);
    // The reduced coordinates are congruent to the unreduced ones.
    let x3 = third_point(p, s, x1, y1, x2).0;
    let y3 = third_point(p, s, x1, y1, x2).1;
    assert(x3 == big % m);
    lemma_mod_twice(big, m);
    lemma_mod_bound(big, m);
    lemma_small_mod(x3, p);
    assert(congruent(x3 as int, big, m));
    lemma_congruent_cubic(ai, bi, x3 as int, big, m);
    let low: int = si * (xi - x3) - yi;
    assert(y3 == low % m);
    lemma_mod_twice(low, m);
    lemma_mod_bound(low, m);
    lemma_small_mod(y3, p);
    assert(congruent(y3 as int, low, m));
    lemma_congruent_sub(xi, xi, x3 as int, big, m);
    lemma_congruent_mul(si, si, xi - x3, xi - big, m);
    lemma_congruent_sub(si * (xi - x3), si * (xi - big), yi, yi, m);
    let mirrored: int = si * (xi - big) - yi;
    assert(congruent(y3 as int, mirrored, m));
    lemma_congruent_mul(y3 as int, mirrored, y3 as int, mirrored, m);
    assert(mirrored * mirrored == height * height) by (nonlinear_arith)
        requires
            mirrored == si * (xi - big) - yi,
            height == si * (big - xi) + yi,
    ;
    assert(cubic(ai, bi, x3 as int) == x3 * x3 * x3 + a * x3 + b);
    assert((y3 * y3) % p == ((y3 as int) * (y3 as int)) % m);
}

/// The difference of two different numbers below `p` is no multiple of `p`.
proof fn lemma_difference_not_divided(p: nat, x1: nat, x2: nat)
    requires
        x1 < p,
        x2 < p,
        x1 != x2,
    ensures
        0 < residue(x2 - x1, p) < p,
{
    let m = p as int;
    if x2 > x1 {
        lemma_small_mod((x2 - x1) as nat, p);
    } else {
        lemma_mod_add_multiples_vanish(x2 - x1, m);
        lemma_small_mod((x2 - x1 + m) as nat, p);
    }
}

/// Modulo a prime, a product with the difference of two different numbers
/// below the prime vanishes only where the other factor does.
proof fn lemma_cancel_run(p: nat, x1: nat, x2: nat, v: int)
    requires
        is_prime(p),
        x1 < p,
        x2 < p,
        x1 != x2,
        ((x2 - x1) * v) % (p as int) == 0,
    ensures
        v % (p as int) == 0,
{
    let m = p as int;
    let d: nat = residue(x2 - x1, p);
    let reduced: nat = (v % m) as nat;
    lemma_difference_not_divided(p, x1, x2);
    lemma_small_mod(d, p);
    lemma_mod_bound(v, m);
    lemma_mul_mod_noop_general(x2 - x1, v, m);
    assert((d * reduced) % p == 0);
    lemma_prime_divides_factor(p, d, reduced);
    lemma_small_mod(reduced, p);
}

/// Modulo a prime, the slope of a chord times the run between its two points
/// is the rise between them.
proof fn lemma_slope_times_run(p: nat, x1: nat, y1: nat, x2: nat, y2: nat)
    requires
        is_prime(p),
        x1 < p,
        x2 < p,
        x1 != x2,
    ensures
        congruent(chord_slope(p, x1, y1, x2, y2) * (x2 - x1), y2 - y1, p as int),
{
    let m = p as int;
    let d: nat = residue(x2 - x1, p);
    let inv: int = field_inv(d, p) as int;
    let unit: int = (d as int) * inv;
    let si = chord_slope(p, x1, y1, x2, y2) as int;
    let rise: int = y2 - y1;
    lemma_difference_not_divided(p, x1, x2);
    lemma_small_mod(d, p);
    lemma_power_is_inverse(d, p);
    let power: int = vstd::arithmetic::power::pow(d as int, (p - 2) as nat);
    lemma_mul_mod_noop_general(d as int, power, m);
    lemma_small_mod(1, p);
    assert(congruent(unit, 1, m));
    lemma_mod_twice(rise * inv, m);
    assert(congruent(si, rise * inv, m));
    lemma_mod_twice(x2 - x1, m);
    assert(congruent(x2 - x1, d as int, m));
    lemma_congruent_mul(si, rise * inv, x2 - x1, d as int, m);
    lemma_congruent_mul(rise, rise, unit, 1, m);
    assert((rise * inv) * d == rise * unit) by (nonlinear_arith)
        requires
            unit == d * inv,
    ;
}

/// The sum of two points of the curve with different first coordinates is on
/// the curve, over a field of prime modulus.
proof fn lemma_chord_on_curve(p: nat, a: nat, b: nat, x1: nat, y1: nat, x2: nat, y2: nat)
    requires
        is_prime(p),
        x1 < p,
        x2 < p,
        x1 != x2,
        on_curve(p, a, b, x1, y1),
        on_curve(p, a, b, x2, y2),
    ensures
        on_curve(
            p,
            a,
            b,
            third_point(p, chord_slope(p, x1, y1, x2, y2), x1, y1, x2).0,
            third_point(p, chord_slope(p, x1, y1, x2, y2), x1, y1, x2).1,
        ),
{
    let m = p as int;
    let (ai, bi, xi, yi, xj, yj) = (a as int, b as int, x1 as int, y1 as int, x2 as int, y2 as int);
    let s: nat = chord_slope(p, x1, y1, x2, y2);
    let si = s as int;
    lemma_slope_times_run(p, x1, y1, x2, y2);
    // The line passes through the second point, where the cubic less the
    // squared line vanishes as it does at the first.
    let reach: int = line(si, xi, yi, xj);
    lemma_congruent_add(si * (xj - xi), yj - yi, yi, yi, m);
    assert(congruent(reach, yj, m));
    lemma_congruent_mul(reach, yj, reach, yj, m);
    assert(cubic(ai, bi, xj) == x2 * x2 * x2 + a * x2 + b);
    assert(cubic(ai, bi, xi) == x1 * x1 * x1 + a * x1 + b);
    assert(congruent(cubic(ai, bi, xj), yj * yj, m));
    assert(congruent(cubic(ai, bi, xi), yi * yi, m));
    lemma_congruent_sub(cubic(ai, bi, xj), yj * yj, reach * reach, yj * yj, m);
    lemma_congruent_sub(cubic(ai, bi, xi), yi * yi, yi * yi, yi * yi, m);
    lemma_congruent_sub(
        cubic(ai, bi, xj) - reach * reach,
        yj * yj - yj * yj,
        cubic(ai, bi, xi) - yi * yi,
        yi * yi - yi * yi,
        m,
    );
    lemma_small_mod(0, p);
    lemma_factor_out(ai, bi, si, xi, yi, xj);
    // The run is no multiple of the prime, so the cofactor is one.
    lemma_cancel_run(p, x1, x2, cofactor(ai, si, xi, yi, xj));
    lemma_third_point_on_curve(p, a, b, s, x1, y1, x2);
}

/// Over a field of prime modulus, the chord through two points gives the
/// same third point from either end.
proof fn lemma_chord_symmetric(p: nat, x1: nat, y1: nat, x2: nat, y2: nat)
    requires
        is_prime(p),
        x1 < p,
        x2 < p,
        x1 != x2,
    ensures
        third_point(p, chord_slope(p, x1, y1, x2, y2), x1, y1, x2) == third_point(
            p,
            chord_slope(p, x2, y2, x1, y1),
            x2,
            y2,
            x1,
        ),
{
    let m = p as int;
    let s: nat = chord_slope(p, x1, y1, x2, y2);
    let t: nat = chord_slope(p, x2, y2, x1, y1);
    let (si, ti) = (s as int, t as int);
    let run: int = x2 - x1;
    let rise: int = y2 - y1;
    lemma_slope_times_run(p, x1, y1, x2, y2);
    lemma_slope_times_run(p, x2, y2, x1, y1);
    // Both slopes take the run to the rise, so they are one slope.
    lemma_congruent_add(si * run, rise, ti * (x1 - x2), y1 - y2, m);
    assert(si * run + ti * (x1 - x2) == run * (si - ti)) by (nonlinear_arith)
        requires
            run == x2 - x1,
    ;
    lemma_small_mod(0, p);
    lemma_cancel_run(p, x1, x2, si - ti);
    lemma_mod_equivalence(si, ti, m);
    lemma_mod_bound((y2 - y1) * field_inv(residue(x2 - x1, p), p), m);
    lemma_mod_bound((y1 - y2) * field_inv(residue(x1 - x2, p), p), m);
    lemma_small_mod(s, p);
    lemma_small_mod(t, p);
    assert(s == t);
    // The first coordinates are the same number; the second ones differ by
    // the slope times the run less the rise.
    let x3: nat = residue(si * si - x1 - x2, p);
    assert(si * si - x1 - x2 == si * si - x2 - x1);
    let from_first: int = si * (x1 - x3) - y1;
    let from_second: int = si * (x2 - x3) - y2;
    assert(from_second - from_first == si * run - rise) by (nonlinear_arith)
        requires
            from_first == si * (x1 - x3) - y1,
            from_second == si * (x2 - x3) - y2,
            run == x2 - x1,
            rise == y2 - y1,
    ;
    lemma_congruent_sub(si * run, rise, rise, rise, m);
    assert((from_second - from_first) % m == 0);
    lemma_mod_equivalence(from_second, from_first, m);
}

/// The double of a point of the curve whose second coordinate is not zero is
/// on the curve, over a field of odd prime modulus.
proof fn lemma_tangent_on_curve(p: nat, a: nat, b: nat, x1: nat, y1: nat)
    requires
        is_prime(p),
        p > 2,
        x1 < p,
        0 < y1 < p,
        on_curve(p, a, b, x1, y1),
    ensures
        on_curve(
            p,
            a,
            b,
            third_point(p, tangent_slope(p, a, x1, y1), x1, y1, x1).0,
            third_point(p, tangent_slope(p, a, x1, y1), x1, y1, x1).1,
        ),
{
    let m = p as int;
    let (ai, xi, yi) = (a as int, x1 as int, y1 as int);
    let d: nat = (2 * y1) % p;
    let inv: int = field_inv(d, p) as int;
    let unit: int = (d as int) * inv;
    let s: nat = tangent_slope(p, a, x1, y1);
    let si = s as int;
    assert(d != 0) by {
        if d == 0 {
            lemma_prime_divides_factor(p, 2, y1);
            lemma_small_mod(2, p);
            lemma_small_mod(y1, p);
        }
    }
    lemma_mod_bound(2 * yi, m);
    lemma_small_mod(d, p);
    lemma_power_is_inverse(d, p);
    let power: int = vstd::arithmetic::power::pow(d as int, (p - 2) as nat);
    lemma_mul_mod_noop_general(d as int, power, m);
    lemma_small_mod(1, p);
    assert(congruent(unit, 1, m));
    // The slope times twice the height is congruent to the cubic's derivative.
    let steep: int = 3 * xi * xi + ai;
    assert(steep == 3 * x1 * x1 + a);
    lemma_mod_twice(steep * inv, m);
    assert(congruent(si, steep * inv, m));
    lemma_mod_twice(2 * yi, m);
    assert(congruent(2 * yi, d as int, m));
    lemma_congruent_mul(si, steep * inv, 2 * yi, d as int, m);
    lemma_congruent_mul(steep, steep, unit, 1, m);
    assert((steep * inv) * d == steep * unit) by (nonlinear_arith)
        requires
            unit == d * inv,
    ;
    assert(congruent(si * (2 * yi), steep, m));
    // That is the cofactor at the point itself.
    let left: int = cofactor(ai, si, xi, yi, xi);
    assert(left == steep - si * (2 * yi)) by (nonlinear_arith)
        requires
            left == xi * xi + xi * xi + xi * xi + ai - si * (si * (xi - xi) + 2 * yi),
            steep == 3 * xi * xi + ai,
    ;
    lemma_congruent_sub(steep, steep, si * (2 * yi), steep, m);
    lemma_small_mod(0, p);
    assert(left % m == 0);
    lemma_third_point_on_curve(p, a, b, s, x1, y1, x1);
}

/// Over a field of odd prime modulus, the sum of two points of one curve,
/// where it is not the point at infinity, satisfies the curve equation.
pub proof fn law_sum_on_curve(p: S256Point, q: S256Point)
    requires
        p.wf(),
        q.wf(),
        p.same_curve(&q),
        is_prime(p@.prime),
        p@.prime > 2,
        p@.coords is Some ==> p.satisfies_equation(),
        q@.coords is Some ==> q.satisfies_equation(),
    ensures
        point_add(p@, q@).coords is Some ==> on_curve(
            p@.prime,
            p@.a,
            p@.b,
            (point_add(p@, q@).coords->0).0,
            (point_add(p@, q@).coords->0).1,
        ),
{
    if p@.coords is Some && q@.coords is Some {
        let (x1, y1) = p@.coords->0;
        let (x2, y2) = q@.coords->0;
        if x1 != x2 {
            lemma_chord_on_curve(p@.prime, p@.a, p@.b, x1, y1, x2, y2);
        } else if y1 == y2 && y1 != 0 {
            lemma_tangent_on_curve(p@.prime, p@.a, p@.b, x1, y1);
        }
    }
}

/// Over a field of prime modulus, the sum of two points of one curve does
/// not depend on their order.
pub proof fn law_point_add_commutes(p: S256Point, q: S256Point)
    requires
        p.wf(),
        q.wf(),
        p.same_curve(&q),
        is_prime(p@.prime),
    ensures
        point_add(p@, q@) == point_add(q@, p@),
{
    if p@.coords is Some && q@.coords is Some {
        let (x1, y1) = p@.coords->0;
        let (x2, y2) = q@.coords->0;
        if x1 != x2 {
            lemma_chord_symmetric(p@.prime, x1, y1, x2, y2);
        }
    }
}

} // verus!
