//! Unsigned 256-bit arithmetic for the reward-per-seed accumulator.
//!
//! A product of two 128-bit balances does not fit in 128 bits. The accumulator
//! therefore lives in a 256-bit number made of two 128-bit limbs, and every
//! operation here is stated over the natural number that the limbs stand for.

use vstd::prelude::*;
use vstd::arithmetic::div_mod::lemma_fundamental_div_mod_converse;

verus! {

/// Two to the power 64.
pub const POW64: u128 = 0x1_0000_0000_0000_0000;

/// Two to the power 127.
pub const POW127: u128 = 0x8000_0000_0000_0000_0000_0000_0000_0000;

/// Two to the power 128.
pub open spec fn pow128() -> nat {
    (u128::MAX as nat + 1) as nat
}

/// Two to the power 256.
pub open spec fn pow256() -> nat {
    pow128() * pow128()
}

/// An unsigned 256-bit number, `hi * 2^128 + lo`.
#[derive(Clone, Copy, Debug, PartialEq, Eq, Structural)]
pub struct U256 {
    pub hi: u128,
    pub lo: u128,
}

impl View for U256 {
    type V = nat;

    open spec fn view(&self) -> nat {
        self.hi as nat * pow128() + self.lo as nat
    }
}

/// The value that stands for `n`, for `n` below two to the power 256.
pub open spec fn spec_from_nat(n: nat) -> U256 {
    U256 { hi: (n / pow128()) as u128, lo: (n % pow128()) as u128 }
}

/// `spec_from_nat` is the inverse of the view.
pub proof fn lemma_from_nat(n: nat)
    requires
        n < pow256(),
    ensures
        spec_from_nat(n)@ == n,
{
    let p = pow128() as int;
    let m = n as int;
    assert(m / p < p) by (nonlinear_arith)
        requires
            0 <= m < p * p,
            p > 0,
    ;
    assert(m == (m / p) * p + m % p && 0 <= m % p < p && 0 <= m / p) by (nonlinear_arith)
        requires
            0 <= m,
            p > 0,
    ;
}

/// Every value is `spec_from_nat` of its number.
pub proof fn lemma_from_nat_view(a: U256)
    ensures
        spec_from_nat(a@) == a,
{
    lemma_view_bound(a);
    lemma_from_nat(a@);
    lemma_view_injective(spec_from_nat(a@), a);
}

/// Two values with the same number are the same value.
pub proof fn lemma_view_injective(a: U256, b: U256)
    requires
        a@ == b@,
    ensures
        a == b,
{
    let p = pow128() as int;
    let (ah, al, bh, bl) = (a.hi as int, a.lo as int, b.hi as int, b.lo as int);
    assert(ah == bh && al == bl) by (nonlinear_arith)
        requires
            ah * p + al == bh * p + bl,
            0 <= al < p,
            0 <= bl < p,
    ;
}

/// Every value is below two to the power 256.
pub proof fn lemma_view_bound(a: U256)
    ensures
        a@ < pow256(),
{
    let p = pow128() as int;
    let (ah, al) = (a.hi as int, a.lo as int);
    assert(ah * p + al < p * p) by (nonlinear_arith)
        requires
            0 <= ah < p,
            0 <= al < p,
    ;
}

/// A value with a non-zero high limb is at least two to the power 128.
proof fn lemma_hi_weight(hi: u128)
    ensures
        hi > 0 ==> hi as nat * pow128() >= pow128(),
        hi == 0 ==> hi as nat * pow128() == 0,
{
    let p = pow128() as int;
    let h = hi as int;
    assert(h > 0 ==> h * p >= p) by (nonlinear_arith)
        requires
            p > 0,
    ;
}

/// The high limb decides the order unless the high limbs agree.
proof fn lemma_hi_order(x: u128, y: u128)
    requires
        x < y,
    ensures
        x as nat * pow128() + pow128() <= y as nat * pow128(),
{
    let p = pow128() as int;
    let (a, b) = (x as int, y as int);
    assert(a * p + p <= b * p) by (nonlinear_arith)
        requires
            a < b,
            p > 0,
    ;
}

impl U256 {
    /// The number zero.
    pub fn zero() -> (r: U256)
        ensures
            r@ == 0,
            r == (U256 { hi: 0, lo: 0 }),
    {
        U256 { hi: 0, lo: 0 }
    }

    /// Widens a 128-bit number.
    pub fn from_u128(x: u128) -> (r: U256)
        ensures
            r@ == x,
    {
        U256 { hi: 0, lo: x }
    }

    /// Whether the number is zero.
    pub fn is_zero(&self) -> (r: bool)
        ensures
            r == (self@ == 0),
    {
        proof {
            lemma_hi_weight(self.hi);
        }
        self.hi == 0 && self.lo == 0
    }

    /// The number as 128 bits, if it fits.
    pub fn to_u128(&self) -> (r: Option<u128>)
        ensures
            r == (if self@ <= u128::MAX { Some(self@ as u128) } else { None }),
    {
        proof {
            lemma_hi_weight(self.hi);
        }
        if self.hi == 0 {
            Some(self.lo)
        } else {
            None
        }
    }

    /// Whether `self` is at most `other`.
    pub fn le(&self, other: &U256) -> (r: bool)
        ensures
            r == (self@ <= other@),
    {
        proof {
            if self.hi < other.hi {
                lemma_hi_order(self.hi, other.hi);
            }
            if other.hi < self.hi {
                lemma_hi_order(other.hi, self.hi);
            }
        }
        self.hi < other.hi || (self.hi == other.hi && self.lo <= other.lo)
    }
}

/// The product of two numbers below two to the power 64 fits in 128 bits.
proof fn lemma_limb_product(a: u128, b: u128)
    requires
        a < POW64,
        b < POW64,
    ensures
        a * b <= 0xffff_ffff_ffff_fffe_0000_0000_0000_0001,
{
    let (x, y) = (a as int, b as int);
    assert(x * y <= 0xffff_ffff_ffff_ffff * 0xffff_ffff_ffff_ffff) by (nonlinear_arith)
        requires
            0 <= x <= 0xffff_ffff_ffff_ffff,
            0 <= y <= 0xffff_ffff_ffff_ffff,
    ;
}

/// How the four products of 64-bit halves make up the product of two
/// 128-bit numbers.
proof fn lemma_schoolbook(a1: int, a0: int, b1: int, b0: int, b: int)
    ensures
        (a1 * b + a0) * (b1 * b + b0) == (a1 * b1) * (b * b) + (a0 * b1) * b + (a1 * b0) * b + a0
            * b0,
{
    let y = b1 * b + b0;
    assert((a1 * b + a0) * y == (a1 * b) * y + a0 * y) by (nonlinear_arith);
    assert((a1 * b) * y == (a1 * b) * (b1 * b) + (a1 * b) * b0) by (nonlinear_arith)
        requires
            y == b1 * b + b0,
    ;
    assert(a0 * y == a0 * (b1 * b) + a0 * b0) by (nonlinear_arith)
        requires
            y == b1 * b + b0,
    ;
    assert((a1 * b) * (b1 * b) == (a1 * b1) * (b * b)) by (nonlinear_arith);
    assert((a1 * b) * b0 == (a1 * b0) * b) by (nonlinear_arith);
    assert(a0 * (b1 * b) == (a0 * b1) * b) by (nonlinear_arith);
}

/// The product of two 128-bit numbers, in full.
pub fn full_mul(a: u128, b: u128) -> (r: U256)
    ensures
        r@ == a * b,
{
    let a0: u128 = a % POW64;
    let a1: u128 = a / POW64;
    let b0: u128 = b % POW64;
    let b1: u128 = b / POW64;
    proof {
        lemma_limb_product(a0, b0);
        lemma_limb_product(a0, b1);
        lemma_limb_product(a1, b0);
        lemma_limb_product(a1, b1);
    }
    let p00: u128 = a0 * b0;
    let p01: u128 = a0 * b1;
    let p10: u128 = a1 * b0;
    let p11: u128 = a1 * b1;
    let mid: u128 = p00 / POW64 + p01 % POW64 + p10 % POW64;
    let lo: u128 = (mid % POW64) * POW64 + p00 % POW64;
    proof {
        let w = POW64 as int;
        lemma_schoolbook(a1 as int, a0 as int, b1 as int, b0 as int, w);
        assert(w * w == pow128());
        assert(a as int == a1 * w + a0);
        assert(b as int == b1 * w + b0);
        let carry = p01 / POW64 + p10 / POW64 + mid / POW64;
        assert((p11 + carry) * pow128() + lo == a * b) by (nonlinear_arith)
            requires
                a * b == (a1 * b1) * (w * w) + (a0 * b1) * w + (a1 * b0) * w + a0 * b0,
                p00 == a0 * b0,
                p01 == a0 * b1,
                p10 == a1 * b0,
                p11 == a1 * b1,
                w * w == pow128(),
                lo == (mid % POW64) * w + p00 % POW64,
                mid == p00 / POW64 + p01 % POW64 + p10 % POW64,
                mid == (mid / POW64) * w + mid % POW64,
                p00 == (p00 / POW64) * w + p00 % POW64,
                p01 == (p01 / POW64) * w + p01 % POW64,
                p10 == (p10 / POW64) * w + p10 % POW64,
                carry == p01 / POW64 + p10 / POW64 + mid / POW64,
        ;
        assert(a * b < pow128() * pow128()) by (nonlinear_arith)
            requires
                0 <= a < pow128(),
                0 <= b < pow128(),
        ;
        assert(p11 + carry < pow128()) by (nonlinear_arith)
            requires
                (p11 + carry) * pow128() + lo == a * b,
                a * b < pow128() * pow128(),
                lo >= 0,
                pow128() > 0,
        ;
    }
    let hi: u128 = p11 + p01 / POW64 + p10 / POW64 + mid / POW64;
    U256 { hi, lo }
}

impl U256 {
    /// The sum, unless it passes 256 bits.
    pub fn checked_add(&self, other: &U256) -> (r: Option<U256>)
        ensures
            self@ + other@ < pow256() ==> r is Some && r->0@ == self@ + other@,
            self@ + other@ >= pow256() ==> r is None,
    {
        let carry: u128 = if self.lo > u128::MAX - other.lo {
            1
        } else {
            0
        };
        let lo: u128 = if carry == 1 {
            self.lo - (u128::MAX - other.lo) - 1
        } else {
            self.lo + other.lo
        };
        proof {
            let p = pow128() as int;
            let (sh, oh, c, l) = (self.hi as int, other.hi as int, carry as int, lo as int);
            assert(self@ + other@ == (sh + oh + c) * p + l) by (nonlinear_arith)
                requires
                    self@ == sh * p + self.lo,
                    other@ == oh * p + other.lo,
                    self.lo + other.lo == c * p + l,
            ;
            assert((sh + oh + c) * p + l < p * p <==> sh + oh + c < p) by (nonlinear_arith)
                requires
                    0 <= l < p,
            ;
        }
        if self.hi > u128::MAX - other.hi {
            None
        } else {
            let hi: u128 = self.hi + other.hi;
            if hi > u128::MAX - carry {
                None
            } else {
                Some(U256 { hi: hi + carry, lo })
            }
        }
    }

    /// The difference, unless `other` is the greater.
    pub fn checked_sub(&self, other: &U256) -> (r: Option<U256>)
        ensures
            other@ <= self@ ==> r is Some && r->0@ == self@ - other@,
            other@ > self@ ==> r is None,
    {
        if !other.le(self) {
            return None;
        }
        let borrow: u128 = if self.lo < other.lo {
            1
        } else {
            0
        };
        let lo: u128 = if borrow == 1 {
            u128::MAX - other.lo + self.lo + 1
        } else {
            self.lo - other.lo
        };
        proof {
            if self.hi < other.hi {
                lemma_hi_order(self.hi, other.hi);
            }
            let p = pow128() as int;
            let (sh, oh, c, l) = (self.hi as int, other.hi as int, borrow as int, lo as int);
            assert(sh - oh - c >= 0);
            assert(self@ - other@ == (sh - oh - c) * p + l) by (nonlinear_arith)
                requires
                    self@ == sh * p + self.lo,
                    other@ == oh * p + other.lo,
                    self.lo - other.lo == l - c * p,
            ;
        }
        Some(U256 { hi: self.hi - other.hi - borrow, lo })
    }

    /// The product with a 128-bit number, unless it passes 256 bits.
    pub fn checked_mul_u128(&self, m: u128) -> (r: Option<U256>)
        ensures
            self@ * m < pow256() ==> r is Some && r->0@ == self@ * m,
            self@ * m >= pow256() ==> r is None,
    {
        let low = full_mul(self.lo, m);
        let high = full_mul(self.hi, m);
        proof {
            let p = pow128() as int;
            let (hh, hl, lh, ll) = (high.hi as int, high.lo as int, low.hi as int, low.lo as int);
            let (sh, sl, k, n) = (self.hi as int, self.lo as int, m as int, self@ as int);
            assert(n * k == (sh * k) * p + sl * k) by (nonlinear_arith)
                requires
                    n == sh * p + sl,
            ;
            assert((hh * p + hl) * p + (lh * p + ll) == hh * (p * p) + (hl + lh) * p + ll)
                by (nonlinear_arith);
            assert(self@ * m == hh * (p * p) + (hl + lh) * p + ll);
            assert(hh > 0 ==> hh * (p * p) + (hl + lh) * p + ll >= p * p) by (nonlinear_arith)
                requires
                    hl >= 0,
                    lh >= 0,
                    ll >= 0,
                    p > 0,
            ;
            assert(hl + lh >= p ==> hh * (p * p) + (hl + lh) * p + ll >= p * p)
                by (nonlinear_arith)
                requires
                    hh >= 0,
                    ll >= 0,
                    p > 0,
            ;
            assert(hh == 0 && hl + lh < p ==> hh * (p * p) + (hl + lh) * p + ll < p * p)
                by (nonlinear_arith)
                requires
                    0 <= ll < p,
                    p > 0,
            ;
        }
        if high.hi != 0 || high.lo > u128::MAX - low.hi {
            None
        } else {
            Some(U256 { hi: high.lo + low.hi, lo: low.lo })
        }
    }

    /// Half the number, rounded down, and the bit that was dropped.
    fn halve(&self) -> (r: (U256, u128))
        ensures
            r.1 <= 1,
            self@ == 2 * r.0@ + r.1,
    {
        let half = U256 { hi: self.hi / 2, lo: self.lo / 2 + (self.hi % 2) * POW127 };
        proof {
            let p = pow128() as int;
            let (sh, sl) = (self.hi as int, self.lo as int);
            assert(2 * ((sh / 2) * p + (sl / 2 + (sh % 2) * POW127)) + sl % 2 == sh * p + sl)
                by (nonlinear_arith)
                requires
                    sh == 2 * (sh / 2) + sh % 2,
                    sl == 2 * (sl / 2) + sl % 2,
                    p == 2 * POW127,
            ;
        }
        (half, self.lo % 2)
    }

    /// Twice the number plus one bit.
    fn double_plus(&self, bit: u128) -> (r: U256)
        requires
            bit <= 1,
            2 * self@ + bit < pow256(),
        ensures
            r@ == 2 * self@ + bit,
    {
        proof {
            let p = pow128() as int;
            let (sh, sl) = (self.hi as int, self.lo as int);
            assert(sh < POW127) by (nonlinear_arith)
                requires
                    2 * (sh * p + sl) + bit < p * p,
                    p == 2 * POW127,
                    sl >= 0,
                    bit >= 0,
                    sh >= 0,
            ;
            assert((2 * sh + sl / (POW127 as int)) * p + ((sl % (POW127 as int)) * 2 + bit) == 2
                * (sh * p + sl) + bit) by (nonlinear_arith)
                requires
                    sl == (sl / (POW127 as int)) * POW127 + sl % (POW127 as int),
                    p == 2 * POW127,
            ;
        }
        U256 { hi: 2 * self.hi + self.lo / POW127, lo: (self.lo % POW127) * 2 + bit }
    }

    /// Quotient and remainder of the division by a 128-bit number.
    pub fn div_rem(&self, d: u128) -> (r: (U256, u128))
        requires
            d > 0,
        ensures
            r.0@ == self@ / (d as nat),
            r.1 == self@ % (d as nat),
        decreases self@,
    {
        if self.is_zero() {
            proof {
                lemma_fundamental_div_mod_converse(0, d as int, 0, 0);
            }
            return (U256::zero(), 0);
        }
        let (half, bit) = self.halve();
        let (q1, r1) = half.div_rem(d);
        let over: bool = r1 >= d - r1 - bit;
        let rem: u128 = if over {
            r1 - (d - r1 - bit)
        } else {
            r1 + r1 + bit
        };
        let qbit: u128 = if over {
            1
        } else {
            0
        };
        proof {
            lemma_view_bound(*self);
            let (n, h, q, dd) = (self@ as int, half@ as int, q1@ as int, d as int);
            vstd::arithmetic::div_mod::lemma_fundamental_div_mod(h, dd);
            assert(h == dd * q + r1);
            assert(n == (2 * q + qbit) * dd + rem) by (nonlinear_arith)
                requires
                    n == 2 * h + bit,
                    h == dd * q + r1,
                    2 * r1 + bit == qbit * dd + rem,
            ;
            assert(2 * q + qbit <= n) by (nonlinear_arith)
                requires
                    n == (2 * q + qbit) * dd + rem,
                    dd >= 1,
                    rem >= 0,
                    q >= 0,
                    qbit >= 0,
            ;
            lemma_fundamental_div_mod_converse(n, dd, 2 * q + qbit, rem as int);
        }
        (q1.double_plus(qbit), rem)
    }

    /// The quotient of the division by a 128-bit number.
    pub fn div_u128(&self, d: u128) -> (r: U256)
        requires
            d > 0,
        ensures
            r@ == self@ / (d as nat),
    {
        self.div_rem(d).0
    }
}


} // verus!
