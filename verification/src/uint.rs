//! Fixed-width unsigned integers of 256 and 512 bits.
//!
//! A value is held as 64-bit limbs, least significant first, and stands for a
//! natural number: its view. The limb arithmetic itself is done by the `bigint`
//! crate; the functions at the end of this file hand the limbs over and state
//! what comes back.

use vstd::prelude::*;

verus! {

/// Two to the power 256: the first number that a `U256` cannot hold.
pub open spec fn two_256() -> nat {
    0x1_0000_0000_0000_0000_0000_0000_0000_0000_0000_0000_0000_0000_0000_0000_0000_0000nat
}

/// The number that four limbs stand for, least significant limb first.
pub open spec fn limbs_value(w0: u64, w1: u64, w2: u64, w3: u64) -> nat {
    (w0 as nat) + (w1 as nat) * 0x1_0000_0000_0000_0000nat + (w2 as nat)
        * 0x1_0000_0000_0000_0000_0000_0000_0000_0000nat + (w3 as nat)
        * 0x1_0000_0000_0000_0000_0000_0000_0000_0000_0000_0000_0000_0000nat
}

/// The number that a byte string stands for when read most significant byte first.
pub open spec fn be_value(bytes: Seq<u8>) -> nat
    decreases bytes.len(),
{
    if bytes.len() == 0 {
        0
    } else {
        be_value(bytes.drop_last()) * 256 + (bytes.last() as nat)
    }
}

/// An unsigned 256-bit integer: four 64-bit limbs, least significant first.
#[derive(Clone, Copy, Debug, PartialEq, Eq, Structural)]
pub struct U256 {
    pub w0: u64,
    pub w1: u64,
    pub w2: u64,
    pub w3: u64,
}

/// An unsigned 512-bit integer: eight 64-bit limbs, least significant first.
/// It is the double-width room in which products of two `U256` are reduced.
#[derive(Clone, Copy, Debug, PartialEq, Eq, Structural)]
pub struct U512 {
    pub w0: u64,
    pub w1: u64,
    pub w2: u64,
    pub w3: u64,
    pub w4: u64,
    pub w5: u64,
    pub w6: u64,
    pub w7: u64,
}

impl View for U256 {
    type V = nat;

    open spec fn view(&self) -> nat {
        limbs_value(self.w0, self.w1, self.w2, self.w3)
    }
}

impl View for U512 {
    type V = nat;

    open spec fn view(&self) -> nat {
        limbs_value(self.w0, self.w1, self.w2, self.w3) + limbs_value(
            self.w4,
            self.w5,
            self.w6,
            self.w7,
        ) * two_256()
    }
}

/// Four limbs always stand for a number below two to the 256.
pub proof fn lemma_limbs_bound(w0: u64, w1: u64, w2: u64, w3: u64)
    ensures
        limbs_value(w0, w1, w2, w3) < two_256(),
{
}

/// Different limbs stand for different numbers.
pub proof fn lemma_limbs_injective(a: U256, b: U256)
    ensures
        (a@ == b@) <==> (a == b),
{
    if a@ == b@ {
        let base: int = 0x1_0000_0000_0000_0000int;
        let ha: int = (a.w1 as int) + (a.w2 as int) * base + (a.w3 as int) * base * base;
        let hb: int = (b.w1 as int) + (b.w2 as int) * base + (b.w3 as int) * base * base;
        assert(a@ == (a.w0 as int) + ha * base) by (nonlinear_arith)
            requires
                a@ == limbs_value(a.w0, a.w1, a.w2, a.w3),
                ha == (a.w1 as int) + (a.w2 as int) * base + (a.w3 as int) * base * base,
                base == 0x1_0000_0000_0000_0000int,
        ;
        assert(b@ == (b.w0 as int) + hb * base) by (nonlinear_arith)
            requires
                b@ == limbs_value(b.w0, b.w1, b.w2, b.w3),
                hb == (b.w1 as int) + (b.w2 as int) * base + (b.w3 as int) * base * base,
                base == 0x1_0000_0000_0000_0000int,
        ;
        assert(a.w0 == b.w0 && ha == hb) by (nonlinear_arith)
            requires
                (a.w0 as int) + ha * base == (b.w0 as int) + hb * base,
                0 <= a.w0 < base,
                0 <= b.w0 < base,
                base > 0,
        ;
        let ga: int = (a.w2 as int) + (a.w3 as int) * base;
        let gb: int = (b.w2 as int) + (b.w3 as int) * base;
        assert(a.w1 == b.w1 && ga == gb) by (nonlinear_arith)
            requires
                (a.w1 as int) + ga * base == (b.w1 as int) + gb * base,
                0 <= a.w1 < base,
                0 <= b.w1 < base,
                base > 0,
        ;
        assert(a.w2 == b.w2 && a.w3 == b.w3) by (nonlinear_arith)
            requires
                (a.w2 as int) + (a.w3 as int) * base == (b.w2 as int) + (b.w3 as int) * base,
                0 <= a.w2 < base,
                0 <= b.w2 < base,
                base > 0,
        ;
    }
}

impl U256 {
    /// The number zero.
    pub fn zero() -> (r: U256)
        ensures
            r@ == 0,
    {
        U256 { w0: 0, w1: 0, w2: 0, w3: 0 }
    }

    /// The number one.
    pub fn one() -> (r: U256)
        ensures
            r@ == 1,
    {
        U256 { w0: 1, w1: 0, w2: 0, w3: 0 }
    }

    /// The 256-bit integer with the value of `v`.
    pub fn from_u64(v: u64) -> (r: U256)
        ensures
            r@ == v,
    {
        U256 { w0: v, w1: 0, w2: 0, w3: 0 }
    }

    /// Reads at most 32 bytes as a number, most significant byte first.
    pub fn from_big_endian(bytes: &[u8]) -> (r: U256)
        requires
            bytes@.len() <= 32,
        ensures
            r@ == be_value(bytes@),
    {
        u256_from_big_endian(bytes)
    }

    /// Whether the number is zero.
    pub fn is_zero(&self) -> (r: bool)
        ensures
            r == (self@ == 0),
    {
        self.w0 == 0 && self.w1 == 0 && self.w2 == 0 && self.w3 == 0
    }

    /// Whether the number is odd.
    pub fn is_odd(&self) -> (r: bool)
        ensures
            r == (self@ % 2 == 1),
    {
        let low = u256_bitand(*self, U256::one());
        let w: u64 = self.w0;
        assert(w & 1 == w % 2) by (bit_vector);
        assert(0u64 & 0 == 0) by (bit_vector);
        assert(self.w1 & 0 == 0 && self.w2 & 0 == 0 && self.w3 & 0 == 0) by (bit_vector);
        low.w0 == 1
    }

    /// Whether the two numbers are equal.
    pub fn equals(&self, other: &U256) -> (r: bool)
        ensures
            r == (self@ == other@),
    {
        proof {
            lemma_limbs_injective(*self, *other);
        }
        self.w0 == other.w0 && self.w1 == other.w1 && self.w2 == other.w2 && self.w3 == other.w3
    }

    /// Whether this number is smaller than the other.
    pub fn less_than(&self, other: &U256) -> (r: bool)
        ensures
            r == (self@ < other@),
    {
        u256_lt(*self, *other)
    }

    /// The number halved, rounded down.
    pub fn half(&self) -> (r: U256)
        ensures
            r@ == self@ / 2,
    {
        proof {
            vstd::arithmetic::power2::lemma2_to64();
        }
        u256_shr(*self, 1)
    }

    /// The difference of two numbers, the first not smaller than the second.
    pub fn minus(&self, other: &U256) -> (r: U256)
        requires
            self@ >= other@,
        ensures
            r@ == self@ - other@,
    {
        u256_sub(*self, *other)
    }

    /// The remainder of the number on division by a modulus that is not zero.
    pub fn modulo(&self, modulus: &U256) -> (r: U256)
        requires
            modulus@ > 0,
        ensures
            r@ == self@ % modulus@,
    {
        u256_rem(*self, *modulus)
    }

    /// The same number in double width.
    pub fn widen(&self) -> (r: U512)
        ensures
            r@ == self@,
    {
        U512 {
            w0: self.w0,
            w1: self.w1,
            w2: self.w2,
            w3: self.w3,
            w4: 0,
            w5: 0,
            w6: 0,
            w7: 0,
        }
    }
}

impl U512 {
    /// The same number in single width, for a number that fits in it.
    pub fn narrow(&self) -> (r: U256)
        requires
            self@ < two_256(),
        ensures
            r@ == self@,
    {
        proof {
            let hi = limbs_value(self.w4, self.w5, self.w6, self.w7);
            assert(hi == 0) by (nonlinear_arith)
                requires
                    hi * two_256() < two_256(),
                    two_256() > 0,
            ;
        }
        U256 { w0: self.w0, w1: self.w1, w2: self.w2, w3: self.w3 }
    }
}

/// `bigint::uint::U256::from_big_endian`: the bytes read as a number, most
/// significant byte first. The outside function refuses more than 32 bytes; it
/// lays the bytes into its limbs as a little-endian machine holds them.
#[verifier::external_body]
pub(crate) fn u256_from_big_endian(bytes: &[u8]) -> (r: U256)
    requires
        bytes@.len() <= 32,
    ensures
        r@ == be_value(bytes@),
{
    let v = bigint::uint::U256::from_big_endian(bytes);
    U256 { w0: v.0[0], w1: v.0[1], w2: v.0[2], w3: v.0[3] }
}

/// `bigint::uint::U256`'s `Sub`: the difference. The outside function panics where
/// the second number is the larger.
#[verifier::external_body]
pub(crate) fn u256_sub(a: U256, b: U256) -> (r: U256)
    requires
        a@ >= b@,
    ensures
        r@ == a@ - b@,
{
    let v = bigint::uint::U256([a.w0, a.w1, a.w2, a.w3]) - bigint::uint::U256(
        [b.w0, b.w1, b.w2, b.w3],
    );
    U256 { w0: v.0[0], w1: v.0[1], w2: v.0[2], w3: v.0[3] }
}

/// `bigint::uint::U256`'s `Rem`: the remainder of long division. The outside
/// function panics on a zero divisor.
#[verifier::external_body]
pub(crate) fn u256_rem(a: U256, b: U256) -> (r: U256)
    requires
        b@ > 0,
    ensures
        r@ == a@ % b@,
{
    let v = bigint::uint::U256([a.w0, a.w1, a.w2, a.w3]) % bigint::uint::U256(
        [b.w0, b.w1, b.w2, b.w3],
    );
    U256 { w0: v.0[0], w1: v.0[1], w2: v.0[2], w3: v.0[3] }
}

/// `bigint::uint::U256`'s `Shr<usize>`: the number with its bits moved down by
/// `shift` places, which is the quotient by that power of two.
#[verifier::external_body]
pub(crate) fn u256_shr(a: U256, shift: usize) -> (r: U256)
    ensures
        r@ == a@ / vstd::arithmetic::power2::pow2(shift as nat),
{
    let v = bigint::uint::U256([a.w0, a.w1, a.w2, a.w3]) >> shift;
    U256 { w0: v.0[0], w1: v.0[1], w2: v.0[2], w3: v.0[3] }
}

/// `bigint::uint::U256`'s `BitAnd`: the bitwise and, taken limb by limb.
#[verifier::external_body]
pub(crate) fn u256_bitand(a: U256, b: U256) -> (r: U256)
    ensures
        r.w0 == a.w0 & b.w0,
        r.w1 == a.w1 & b.w1,
        r.w2 == a.w2 & b.w2,
        r.w3 == a.w3 & b.w3,
{
    let v = bigint::uint::U256([a.w0, a.w1, a.w2, a.w3]) & bigint::uint::U256(
        [b.w0, b.w1, b.w2, b.w3],
    );
    U256 { w0: v.0[0], w1: v.0[1], w2: v.0[2], w3: v.0[3] }
}

/// `bigint::uint::U256`'s `PartialOrd`, through `<`: the order of the numbers.
#[verifier::external_body]
pub(crate) fn u256_lt(a: U256, b: U256) -> (r: bool)
    ensures
        r == (a@ < b@),
{
    bigint::uint::U256([a.w0, a.w1, a.w2, a.w3]) < bigint::uint::U256([b.w0, b.w1, b.w2, b.w3])
}

/// `bigint::uint::U512`'s `Add`: the sum. The outside function panics where the
/// sum does not fit in 512 bits.
#[verifier::external_body]
pub(crate) fn u512_add(a: U512, b: U512) -> (r: U512)
    requires
        a@ + b@ < two_256() * two_256(),
    ensures
        r@ == a@ + b@,
{
    let v = bigint::uint::U512([a.w0, a.w1, a.w2, a.w3, a.w4, a.w5, a.w6, a.w7])
        + bigint::uint::U512([b.w0, b.w1, b.w2, b.w3, b.w4, b.w5, b.w6, b.w7]);
    U512 {
        w0: v.0[0],
        w1: v.0[1],
        w2: v.0[2],
        w3: v.0[3],
        w4: v.0[4],
        w5: v.0[5],
        w6: v.0[6],
        w7: v.0[7],
    }
}

/// `bigint::uint::U512`'s `Mul`: the product. The outside function panics where
/// the product does not fit in 512 bits.
#[verifier::external_body]
pub(crate) fn u512_mul(a: U512, b: U512) -> (r: U512)
    requires
        a@ * b@ < two_256() * two_256(),
    ensures
        r@ == a@ * b@,
{
    let v = bigint::uint::U512([a.w0, a.w1, a.w2, a.w3, a.w4, a.w5, a.w6, a.w7])
        * bigint::uint::U512([b.w0, b.w1, b.w2, b.w3, b.w4, b.w5, b.w6, b.w7]);
    U512 {
        w0: v.0[0],
        w1: v.0[1],
        w2: v.0[2],
        w3: v.0[3],
        w4: v.0[4],
        w5: v.0[5],
        w6: v.0[6],
        w7: v.0[7],
    }
}

/// `bigint::uint::U512`'s `Rem`: the remainder of long division. The outside
/// function panics on a zero divisor.
#[verifier::external_body]
pub(crate) fn u512_rem(a: U512, b: U512) -> (r: U512)
    requires
        b@ > 0,
    ensures
        r@ == a@ % b@,
{
    let v = bigint::uint::U512([a.w0, a.w1, a.w2, a.w3, a.w4, a.w5, a.w6, a.w7])
        % bigint::uint::U512([b.w0, b.w1, b.w2, b.w3, b.w4, b.w5, b.w6, b.w7]);
    U512 {
        w0: v.0[0],
        w1: v.0[1],
        w2: v.0[2],
        w3: v.0[3],
        w4: v.0[4],
        w5: v.0[5],
        w6: v.0[6],
        w7: v.0[7],
    }
}

} // verus!
