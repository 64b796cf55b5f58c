//! What arithmetic modulo a prime rests on: a prime that divides a product
//! divides a factor, and Fermat's little theorem.

use crate::modular::is_prime;
use vstd::arithmetic::div_mod::{
    lemma_fundamental_div_mod, lemma_mod_bound, lemma_mod_equivalence, lemma_mod_multiples_basic,
    lemma_mul_mod_noop_general, lemma_small_mod,
};
use vstd::arithmetic::power::{lemma_pow0, lemma_pow1, lemma_pow_adds, pow};
use vstd::prelude::*;

verus! {

/// The product of the numbers from one to `n`.
spec fn factorial(n: nat) -> nat
    decreases n,
{
    if n == 0 {
        1
    } else {
        n * factorial((n - 1) as nat)
    }
}

/// The product of the numbers of a sequence.
spec fn product(s: Seq<int>) -> int
    decreases s.len(),
{
    if s.len() == 0 {
        1
    } else {
        product(s.drop_last()) * s.last()
    }
}

/// The remainders modulo `p` of the first `n` multiples of `a`.
spec fn multiples(a: nat, p: nat, n: nat) -> Seq<int> {
    Seq::new(n, |i: int| (a * (i + 1)) % (p as int))
}

/// Every number of the sequence lies in `1 ..= m`.
spec fn within(s: Seq<int>, m: int) -> bool {
    forall|i: int| 0 <= i < s.len() ==> 1 <= #[trigger] s[i] <= m
}

/// No number occurs twice in the sequence.
spec fn distinct(s: Seq<int>) -> bool {
    forall|i: int, j: int| 0 <= i < j < s.len() ==> #[trigger] s[i] != #[trigger] s[j]
}

/// A prime that divides a product divides one of the two factors.
pub proof fn lemma_prime_divides_factor(p: nat, a: nat, b: nat)
    requires
        is_prime(p),
        (a * b) % p == 0,
    ensures
        a % p == 0 || b % p == 0,
    decreases a,
{
    let m = p as int;
    if a % p != 0 {
        if a >= p {
            let a0: nat = a % p;
            lemma_mod_bound(a as int, m);
            lemma_mul_mod_noop_general(a as int, b as int, m);
            lemma_prime_divides_factor(p, a0, b);
            lemma_small_mod(a0, p);
        } else if a == 1 {
            assert(a * b == b) by (nonlinear_arith)
                requires
                    a == 1,
            ;
        } else {
            let r: nat = p % a;
            let q: int = m / (a as int);
            assert(r != 0);
            lemma_fundamental_div_mod(m, a as int);
            lemma_mod_bound(m, a as int);
            let ab: int = (a * b) as int;
            let k: int = ab / m;
            lemma_fundamental_div_mod(ab, m);
            assert(r * b == (b - q * k) * m) by (nonlinear_arith)
                requires
                    m == a * q + r,
                    ab == m * k,
                    ab == a * b,
            ;
            lemma_mod_multiples_basic(b - q * k, m);
            lemma_prime_divides_factor(p, r, b);
            lemma_small_mod(r, p);
        }
    }
}

/// Modulo a prime, a factor that the prime does not divide can be cancelled:
/// the case in which the first of the two numbers is the larger.
proof fn lemma_cancel_ordered(p: nat, c: nat, x: nat, y: nat)
    requires
        is_prime(p),
        c % p != 0,
        (c * x) % p == (c * y) % p,
        x >= y,
    ensures
        x % p == y % p,
{
    let m = p as int;
    let d: nat = (x - y) as nat;
    lemma_mod_equivalence((c * x) as int, (c * y) as int, m);
    assert(c * d == c * x - c * y) by (nonlinear_arith)
        requires
            d == x - y,
    ;
    lemma_prime_divides_factor(p, c, d);
    lemma_mod_equivalence(x as int, y as int, m);
}

/// Modulo a prime, a factor that the prime does not divide can be cancelled.
pub proof fn lemma_cancel_factor(p: nat, c: nat, x: nat, y: nat)
    requires
        is_prime(p),
        c % p != 0,
        (c * x) % p == (c * y) % p,
    ensures
        x % p == y % p,
{
    if x >= y {
        lemma_cancel_ordered(p, c, x, y);
    } else {
        lemma_cancel_ordered(p, c, y, x);
    }
}

/// A prime divides no factorial of a smaller number.
proof fn lemma_factorial_not_divided(p: nat, n: nat)
    requires
        is_prime(p),
        n < p,
    ensures
        factorial(n) % p != 0,
    decreases n,
{
    if n == 0 {
        lemma_small_mod(1, p);
    } else {
        lemma_factorial_not_divided(p, (n - 1) as nat);
        if factorial(n) % p == 0 {
            lemma_prime_divides_factor(p, n, factorial((n - 1) as nat));
            lemma_small_mod(n, p);
        }
    }
}

/// The product of a sequence is one of its numbers times the product of the rest.
proof fn lemma_product_remove(s: Seq<int>, j: int)
    requires
        0 <= j < s.len(),
    ensures
        product(s) == s[j] * product(s.remove(j)),
    decreases s.len(),
{
    let rest = s.remove(j);
    if j == s.len() - 1 {
        assert(rest =~= s.drop_last());
        assert(product(s) == s[j] * product(rest)) by (nonlinear_arith)
            requires
                product(s) == product(rest) * s[j],
        ;
    } else {
        let front = s.drop_last();
        lemma_product_remove(front, j);
        assert(rest.drop_last() =~= front.remove(j));
        assert(rest.last() == s.last());
        assert(front[j] == s[j]);
        let inner = product(front.remove(j));
        assert(product(rest) == inner * s.last());
        assert(product(s) == s[j] * product(rest)) by (nonlinear_arith)
            requires
                product(s) == product(front) * s.last(),
                product(front) == s[j] * inner,
                product(rest) == inner * s.last(),
        ;
    }
}

/// Without the number at place `j`, a sequence of distinct numbers in
/// `1 ..= m` that holds `m` at `j` is a sequence of distinct numbers in
/// `1 ..= m - 1`.
proof fn lemma_remove_largest(s: Seq<int>, m: int, j: int)
    requires
        within(s, m),
        distinct(s),
        0 <= j < s.len(),
        s[j] == m,
    ensures
        within(s.remove(j), m - 1),
        distinct(s.remove(j)),
        s.remove(j).len() == s.len() - 1,
{
    let rest = s.remove(j);
    assert forall|i: int| 0 <= i < rest.len() implies 1 <= #[trigger] rest[i] <= m - 1 by {
        if i < j {
            assert(rest[i] == s[i]);
        } else {
            assert(rest[i] == s[i + 1]);
        }
    }
    assert forall|i: int, k: int| 0 <= i < k < rest.len() implies #[trigger] rest[i]
        != #[trigger] rest[k] by {
        let si = if i < j {
            i
        } else {
            i + 1
        };
        let sk = if k < j {
            k
        } else {
            k + 1
        };
        assert(rest[i] == s[si]);
        assert(rest[k] == s[sk]);
        assert(si < sk);
    }
}

/// Distinct numbers in `1 ..= m` are at most `m` in number.
proof fn lemma_pigeonhole(s: Seq<int>, m: int)
    requires
        m >= 0,
        within(s, m),
        distinct(s),
    ensures
        s.len() <= m,
    decreases m,
{
    if m == 0 {
        if s.len() > 0 {
            assert(1 <= s[0] <= 0);
        }
    } else if exists|j: int| 0 <= j < s.len() && s[j] == m {
        let j = choose|j: int| 0 <= j < s.len() && s[j] == m;
        lemma_remove_largest(s, m, j);
        lemma_pigeonhole(s.remove(j), m - 1);
    } else {
        assert forall|i: int| 0 <= i < s.len() implies 1 <= #[trigger] s[i] <= m - 1 by {
            assert(s[i] != m);
        }
        lemma_pigeonhole(s, m - 1);
    }
}

/// The product of `n` distinct numbers in `1 ..= n` is the factorial of `n`.
proof fn lemma_product_of_permutation(s: Seq<int>, n: nat)
    requires
        s.len() == n,
        within(s, n as int),
        distinct(s),
    ensures
        product(s) == factorial(n),
    decreases n,
{
    if n > 0 {
        if exists|j: int| 0 <= j < s.len() && s[j] == n {
            let j = choose|j: int| 0 <= j < s.len() && s[j] == n;
            lemma_remove_largest(s, n as int, j);
            lemma_product_remove(s, j);
            lemma_product_of_permutation(s.remove(j), (n - 1) as nat);
        } else {
            assert forall|i: int| 0 <= i < s.len() implies 1 <= #[trigger] s[i] <= n - 1 by {
                assert(s[i] != n);
            }
            lemma_pigeonhole(s, n - 1);
        }
    }
}

/// Modulo `p`, the product of the first `n` multiples of `a` is the power
/// `a` to the `n` times the factorial of `n`.
proof fn lemma_product_of_multiples(a: nat, p: nat, n: nat)
    requires
        p > 0,
    ensures
        product(multiples(a, p, n)) % (p as int) == (pow(a as int, n) * factorial(n)) % (p as int),
    decreases n,
{
    let m = p as int;
    let s = multiples(a, p, n);
    if n == 0 {
        lemma_pow0(a as int);
    } else {
        let before: nat = (n - 1) as nat;
        let front = multiples(a, p, before);
        lemma_product_of_multiples(a, p, before);
        assert(s.drop_last() =~= front);
        let an: int = (a * n) as int;
        assert(s.last() == an % m);
        let pf = product(front);
        let target: int = pow(a as int, before) * factorial(before);
        assert(pf % m == target % m);
        lemma_mul_mod_noop_general(pf, an, m);
        lemma_mul_mod_noop_general(target, an, m);
        assert((pf * (an % m)) % m == (target * an) % m);
        lemma_pow_adds(a as int, before, 1);
        lemma_pow1(a as int);
        assert(target * an == pow(a as int, n) * factorial(n)) by (nonlinear_arith)
            requires
                target == pow(a as int, before) * factorial(before),
                an == a * n,
                pow(a as int, n) == pow(a as int, before) * a,
                factorial(n) == n * factorial(before),
        ;
    }
}

/// The remainders of the first `p - 1` multiples of a number that the prime
/// `p` does not divide are distinct numbers in `1 ..= p - 1`.
proof fn lemma_multiples_permute(a: nat, p: nat)
    requires
        is_prime(p),
        a % p != 0,
    ensures
        within(multiples(a, p, (p - 1) as nat), p - 1),
        distinct(multiples(a, p, (p - 1) as nat)),
{
    let m = p as int;
    let s = multiples(a, p, (p - 1) as nat);
    assert forall|i: int| 0 <= i < s.len() implies 1 <= #[trigger] s[i] <= p - 1 by {
        let k: nat = (i + 1) as nat;
        lemma_mod_bound((a * k) as int, m);
        if (a * k) % p == 0 {
            lemma_prime_divides_factor(p, a, k);
            lemma_small_mod(k, p);
        }
    }
    assert forall|i: int, j: int| 0 <= i < j < s.len() implies #[trigger] s[i] != #[trigger] s[j] by {
        let k: nat = (i + 1) as nat;
        let l: nat = (j + 1) as nat;
        if (a * k) % p == (a * l) % p {
            lemma_cancel_factor(p, a, k, l);
            lemma_small_mod(k, p);
            lemma_small_mod(l, p);
        }
    }
}

/// Fermat's little theorem: the power `p - 1` of a number that the prime `p`
/// does not divide leaves the remainder one.
pub proof fn lemma_fermat_little(a: nat, p: nat)
    requires
        is_prime(p),
        a % p != 0,
    ensures
        pow(a as int, (p - 1) as nat) % (p as int) == 1,
{
    let m = p as int;
    let n: nat = (p - 1) as nat;
    let s = multiples(a, p, n);
    lemma_multiples_permute(a, p);
    lemma_product_of_permutation(s, n);
    lemma_product_of_multiples(a, p, n);
    lemma_factorial_not_divided(p, n);
    let f: nat = factorial(n);
    let power: int = pow(a as int, n);
    assert(a != 0) by {
        if a == 0 {
            lemma_small_mod(0, p);
        }
    }
    vstd::arithmetic::power::lemma_pow_positive(a as int, n);
    let pw: nat = power as nat;
    assert((f * pw) % p == (f * 1) % p) by {
        assert(f * pw == power * f) by (nonlinear_arith)
            requires
                pw == power,
        ;
    }
    lemma_cancel_factor(p, f, pw, 1);
    lemma_small_mod(1, p);
}

/// Modulo a prime, the power `p - 2` of a number that the prime does not
/// divide is its inverse.
pub proof fn lemma_power_is_inverse(b: nat, p: nat)
    requires
        is_prime(p),
        b % p != 0,
    ensures
        (b * pow(b as int, (p - 2) as nat)) % (p as int) == 1,
{
    let e: nat = (p - 2) as nat;
    lemma_fermat_little(b, p);
    lemma_pow_adds(b as int, e, 1);
    lemma_pow1(b as int);
    assert(b * pow(b as int, e) == pow(b as int, e) * b) by (nonlinear_arith);
}

} // verus!
