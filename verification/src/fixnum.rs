//! Unsigned binary fixed-point numbers with 48 fractional bits.
//!
//! A value is represented by its raw `bits`; the number it denotes is
//! `bits / 2^48`.  Token amounts, share counts, exchange rates, prices,
//! weights and interest rates are all held in this form.  Every operation
//! is checked: an operation whose mathematical result does not fit in the
//! 128 raw bits reports failure instead of wrapping, and each rounding
//! operation states its exact result as integer floor or ceiling division.

use vstd::arithmetic::div_mod::*;
use vstd::arithmetic::mul::*;
use vstd::arithmetic::power2::*;
use vstd::prelude::*;

verus! {

/// Raw weight of one whole unit: 2^48.
pub const UNIT: u128 = 0x1_0000_0000_0000;

/// An unsigned fixed-point number equal to `bits / 2^48`.
#[derive(Clone, Copy, PartialEq, Eq, Structural, Debug)]
pub struct Fx {
    pub bits: u128,
}

/// Floor of the product of two fixed-point bit patterns: `(a * b) / 2^48`.
pub open spec fn mul_down_spec(a: int, b: int) -> int {
    (a * b) / (UNIT as int)
}

/// Ceiling of the product of two fixed-point bit patterns.
pub open spec fn mul_up_spec(a: int, b: int) -> int {
    ((a * b) + (UNIT as int) - 1) / (UNIT as int)
}

/// Floor of the quotient of two fixed-point bit patterns: `(a * 2^48) / b`.
pub open spec fn div_down_spec(a: int, b: int) -> int {
    (a * (UNIT as int)) / b
}

/// Ceiling of the quotient of two fixed-point bit patterns.
pub open spec fn div_up_spec(a: int, b: int) -> int {
    ((a * (UNIT as int)) + b - 1) / b
}

impl Fx {
    /// Zero.
    pub fn zero() -> (r: Fx)
        ensures
            r.bits == 0,
    {
        Fx { bits: 0 }
    }

    /// One whole unit.
    pub fn one() -> (r: Fx)
        ensures
            r.bits == UNIT,
    {
        Fx { bits: UNIT }
    }

    /// The fixed-point number equal to the integer `x`.
    pub fn from_int(x: u64) -> (r: Fx)
        ensures
            r.bits == x * UNIT,
    {
        Fx { bits: (x as u128) * UNIT }
    }

    /// Checked addition.
    pub fn checked_add(self, other: Fx) -> (r: Option<Fx>)
        ensures
            self.bits + other.bits <= u128::MAX ==> r == Some(Fx {
                bits: (self.bits + other.bits) as u128,
            }),
            self.bits + other.bits > u128::MAX ==> r is None,
    {
        if self.bits <= u128::MAX - other.bits {
            Some(Fx { bits: self.bits + other.bits })
        } else {
            None
        }
    }

    /// Checked subtraction; fails exactly when the result would be negative.
    pub fn checked_sub(self, other: Fx) -> (r: Option<Fx>)
        ensures
            self.bits >= other.bits ==> r == Some(Fx { bits: (self.bits - other.bits) as u128 }),
            self.bits < other.bits ==> r is None,
    {
        if self.bits >= other.bits {
            Some(Fx { bits: self.bits - other.bits })
        } else {
            None
        }
    }

    /// The smaller of two fixed-point numbers.
    pub fn min_of(self, other: Fx) -> (r: Fx)
        ensures
            r.bits == if self.bits <= other.bits {
                self.bits
            } else {
                other.bits
            },
    {
        if self.bits <= other.bits {
            self
        } else {
            other
        }
    }

    /// Product rounded toward zero; fails exactly when the rounded product
    /// does not fit in 128 bits.
    pub fn mul_down(self, other: Fx) -> (r: Option<Fx>)
        ensures
            (mul_down_spec(self.bits as int, other.bits as int) <= u128::MAX as int) ==> (r
                == Some(
                Fx { bits: mul_down_spec(self.bits as int, other.bits as int) as u128 },
            )),
            (mul_down_spec(self.bits as int, other.bits as int) > u128::MAX as int) ==> (r
                is None),
    {
        match mul_full(self.bits, other.bits) {
            Some((q, _)) => Some(Fx { bits: q }),
            None => None,
        }
    }

    /// Product rounded away from zero; fails exactly when the rounded
    /// product does not fit in 128 bits.
    pub fn mul_up(self, other: Fx) -> (r: Option<Fx>)
        ensures
            (mul_up_spec(self.bits as int, other.bits as int) <= u128::MAX as int) ==> (r == Some(
                Fx { bits: mul_up_spec(self.bits as int, other.bits as int) as u128 },
            )),
            (mul_up_spec(self.bits as int, other.bits as int) > u128::MAX as int) ==> (r is None),
    {
        proof {
            lemma_up_from_down(self.bits as int * other.bits as int, UNIT as int);
        }
        match mul_full(self.bits, other.bits) {
            Some((q, has_rem)) => {
                if has_rem {
                    if q == u128::MAX {
                        None
                    } else {
                        Some(Fx { bits: q + 1 })
                    }
                } else {
                    Some(Fx { bits: q })
                }
            },
            None => None,
        }
    }

    /// Quotient rounded toward zero; fails exactly when the rounded
    /// quotient does not fit in 128 bits.
    pub fn div_down(self, other: Fx) -> (r: Option<Fx>)
        requires
            other.bits > 0,
        ensures
            (div_down_spec(self.bits as int, other.bits as int) <= u128::MAX as int) ==> (r
                == Some(
                Fx { bits: div_down_spec(self.bits as int, other.bits as int) as u128 },
            )),
            (div_down_spec(self.bits as int, other.bits as int) > u128::MAX as int) ==> (r
                is None),
    {
        match div_full(self.bits, other.bits) {
            Some((q, _)) => Some(Fx { bits: q }),
            None => None,
        }
    }

    /// Quotient rounded away from zero; fails exactly when the rounded
    /// quotient does not fit in 128 bits.
    pub fn div_up(self, other: Fx) -> (r: Option<Fx>)
        requires
            other.bits > 0,
        ensures
            (div_up_spec(self.bits as int, other.bits as int) <= u128::MAX as int) ==> (r == Some(
                Fx { bits: div_up_spec(self.bits as int, other.bits as int) as u128 },
            )),
            (div_up_spec(self.bits as int, other.bits as int) > u128::MAX as int) ==> (r is None),
    {
        proof {
            lemma_up_from_down(self.bits as int * UNIT as int, other.bits as int);
        }
        match div_full(self.bits, other.bits) {
            Some((q, has_rem)) => {
                if has_rem {
                    if q == u128::MAX {
                        None
                    } else {
                        Some(Fx { bits: q + 1 })
                    }
                } else {
                    Some(Fx { bits: q })
                }
            },
            None => None,
        }
    }
}

/// For a non-negative dividend, the ceiling of `x / d` is the floor plus one
/// exactly when the division is inexact.
proof fn lemma_up_from_down(x: int, d: int)
    requires
        x >= 0,
        d > 0,
    ensures
        (x + d - 1) / d == x / d + if x % d == 0 {
            0int
        } else {
            1int
        },
{
    lemma_fundamental_div_mod(x, d);
    let q = x / d;
    let m = x % d;
    lemma_mod_bound(x, d);
    lemma_div_bound_exact(x, d);
    if m == 0 {
        assert(x + d - 1 == q * d + (d - 1)) by (nonlinear_arith)
            requires
                x == d * q + m,
                m == 0,
        ;
        lemma_fundamental_div_mod_converse(x + d - 1, d, q, d - 1);
    } else {
        assert(x + d - 1 == (q + 1) * d + (m - 1)) by (nonlinear_arith)
            requires
                x == d * q + m,
        ;
        lemma_fundamental_div_mod_converse(x + d - 1, d, q + 1, m - 1);
    }
}

/// Floor division of a non-negative value is non-negative.
pub proof fn lemma_div_bound_exact(x: int, d: int)
    requires
        x >= 0,
        d > 0,
    ensures
        x / d >= 0,
        d * (x / d) <= x,
{
    lemma_div_is_ordered(0, x, d);
    lemma_fundamental_div_mod(x, d);
    lemma_mod_bound(x, d);
}

/// Dividing `k * d + s` by `d` gives `k` plus the quotient of the remainder.
pub proof fn lemma_div_shift(k: int, s: int, d: int)
    requires
        k >= 0,
        s >= 0,
        d > 0,
    ensures
        (k * d + s) / d == k + s / d,
        (k * d + s) % d == s % d,
{
    lemma_fundamental_div_mod(s, d);
    lemma_mod_bound(s, d);
    lemma_div_bound_exact(s, d);
    assert((k * d + s) == (k + s / d) * d + (s % d)) by (nonlinear_arith)
        requires
            s == d * (s / d) + (s % d),
    ;
    lemma_fundamental_div_mod_converse(k * d + s, d, k + s / d, s % d);
}

/// Fixed-point multiplication in full: the floor of `(a * b) / 2^48`
/// together with whether any fractional part was discarded.  Fails exactly
/// when the floor does not fit in 128 bits.
fn mul_full(a: u128, b: u128) -> (r: Option<(u128, bool)>)
    ensures
        (mul_down_spec(a as int, b as int) <= u128::MAX as int) ==> (r == Some(
            (
                mul_down_spec(a as int, b as int) as u128,
                ((a as int * b as int) % (UNIT as int)) != 0,
            ),
        )),
        (mul_down_spec(a as int, b as int) > u128::MAX as int) ==> (r is None),
{
    let ah = a / UNIT;
    let al = a % UNIT;
    let bh = b / UNIT;
    let bl = b % UNIT;
    proof {
        lemma_fundamental_div_mod(a as int, UNIT as int);
        lemma_fundamental_div_mod(b as int, UNIT as int);
        lemma_mod_bound(a as int, UNIT as int);
        lemma_mod_bound(b as int, UNIT as int);
        lemma_div_bound_exact(a as int, UNIT as int);
        lemma_div_bound_exact(b as int, UNIT as int);
        assert(ah <= 0xffff_ffff_ffff_ffff_ffff) by (nonlinear_arith)
            requires
                a as int == (UNIT as int) * (ah as int) + (al as int),
                al >= 0,
                a <= u128::MAX,
                UNIT == 0x1_0000_0000_0000,
        ;
        assert(bh <= 0xffff_ffff_ffff_ffff_ffff) by (nonlinear_arith)
            requires
                b as int == (UNIT as int) * (bh as int) + (bl as int),
                bl >= 0,
                b <= u128::MAX,
                UNIT == 0x1_0000_0000_0000,
        ;
    }
    let ghost prod = a as int * b as int;
    proof {
        // a * b laid out over the 48-bit split of both factors
        assert(prod == (ah as int * bh as int) * (UNIT as int) * (UNIT as int) + (ah as int
            * bl as int + al as int * bh as int) * (UNIT as int) + al as int * bl as int)
            by (nonlinear_arith)
            requires
                prod == a as int * b as int,
                a as int == (UNIT as int) * (ah as int) + (al as int),
                b as int == (UNIT as int) * (bh as int) + (bl as int),
        ;
    }
    if bh != 0 && ah > u128::MAX / bh {
        proof {
            lemma_overflow_high(ah as int, bh as int, al as int, bl as int, prod);
        }
        return None;
    }
    let hh = if bh == 0 {
        0
    } else {
        proof {
            lemma_div_bound_exact(u128::MAX as int, bh as int);
            lemma_mul_inequality(ah as int, (u128::MAX / bh) as int, bh as int);
        }
        ah * bh
    };
    if hh > u128::MAX / UNIT {
        proof {
            assert((hh as int) * (UNIT as int) > u128::MAX as int) by (nonlinear_arith)
                requires
                    hh as int > (u128::MAX as int) / (UNIT as int),
                    UNIT == 0x1_0000_0000_0000,
                    hh >= 0,
            ;
            lemma_sum_parts_ge(ah as int, bh as int, al as int, bl as int, prod);
        }
        return None;
    }
    proof {
        lemma_div_bound_exact(u128::MAX as int, UNIT as int);
        lemma_mul_inequality(hh as int, ((u128::MAX as int) / (UNIT as int)), UNIT as int);
    }
    let t_hh: u128 = hh * UNIT;
    proof {
        assert(ah as int * bl as int <= u128::MAX as int && al as int * bh as int
            <= u128::MAX as int && al as int * bl as int <= u128::MAX as int)
            by (nonlinear_arith)
            requires
                0 <= (ah as int) && (ah as int) <= 0xffff_ffff_ffff_ffff_ffff,
                0 <= (bh as int) && (bh as int) <= 0xffff_ffff_ffff_ffff_ffff,
                0 <= (al as int) && (al as int) < 0x1_0000_0000_0000,
                0 <= (bl as int) && (bl as int) < 0x1_0000_0000_0000,
        ;
    }
    let t_hl: u128 = ah * bl;
    let t_lh: u128 = al * bh;
    let t_ll: u128 = (al * bl) / UNIT;
    proof {
        // floor((a * b) / 2^48) written over the partial products
        lemma_div_shift(
            (ah as int * bh as int) * (UNIT as int) + ah as int * bl as int + al as int
                * bh as int,
            al as int * bl as int,
            UNIT as int,
        );
        assert((ah as int * bh as int) * (UNIT as int) * (UNIT as int) + (ah as int * bl as int
            + al as int * bh as int) * (UNIT as int) == ((ah as int * bh as int) * (UNIT as int)
            + ah as int * bl as int + al as int * bh as int) * (UNIT as int)) by (nonlinear_arith);
        lemma_div_bound_exact(al as int * bl as int, UNIT as int);
    }
    if t_hl > u128::MAX - t_hh {
        return None;
    }
    let s1 = t_hh + t_hl;
    if t_lh > u128::MAX - s1 {
        return None;
    }
    let s2 = s1 + t_lh;
    if t_ll > u128::MAX - s2 {
        return None;
    }
    proof {
        lemma_div_shift(
            (ah as int * bh as int) * (UNIT as int) + ah as int * bl as int + al as int
                * bh as int,
            al as int * bl as int,
            UNIT as int,
        );
    }
    Some((s2 + t_ll, (al * bl) % UNIT != 0))
}

/// When the high-by-high partial product alone exceeds the 128-bit range,
/// so does the rounded product.
proof fn lemma_overflow_high(ah: int, bh: int, al: int, bl: int, prod: int)
    requires
        bh > 0,
        ah > (u128::MAX as int) / bh,
        ah >= 0,
        al >= 0,
        bl >= 0,
        prod == (ah * bh) * (UNIT as int) * (UNIT as int) + (ah * bl + al * bh) * (UNIT as int) + al
            * bl,
    ensures
        prod / (UNIT as int) > u128::MAX as int,
{
    lemma_div_bound_exact(u128::MAX as int, bh);
    lemma_mod_bound(u128::MAX as int, bh);
    lemma_fundamental_div_mod(u128::MAX as int, bh);
    assert(ah * bh > u128::MAX as int) by (nonlinear_arith)
        requires
            ah >= (u128::MAX as int) / bh + 1,
            bh > 0,
            u128::MAX as int == bh * ((u128::MAX as int) / bh) + (u128::MAX as int) % bh,
            (u128::MAX as int) % bh < bh,
    ;
    lemma_sum_parts_ge(ah, bh, al, bl, prod);
}

/// Fixed-point division in full: the floor of `(a * 2^48) / b` together
/// with whether any fractional part was discarded.  Fails exactly when the
/// floor does not fit in 128 bits.
///
/// The quotient is built by 48 steps of binary long division, doubling the
/// initial integer quotient of `a / b` and folding one further quotient bit
/// in per step.
fn div_full(a: u128, b: u128) -> (r: Option<(u128, bool)>)
    requires
        b > 0,
    ensures
        (div_down_spec(a as int, b as int) <= u128::MAX as int) ==> (r == Some(
            (
                div_down_spec(a as int, b as int) as u128,
                ((a as int * UNIT as int) % (b as int)) != 0,
            ),
        )),
        (div_down_spec(a as int, b as int) > u128::MAX as int) ==> (r is None),
{
    let mut q: u128 = a / b;
    let mut rem: u128 = a % b;
    let mut i: u32 = 0;
    proof {
        lemma_fundamental_div_mod(a as int, b as int);
        lemma_mod_bound(a as int, b as int);
        lemma_div_bound_exact(a as int, b as int);
        lemma2_to64();
        lemma2_to64_rest();
        assert(pow2(48) == UNIT);
    }
    while i < 48
        invariant
            b > 0,
            0 <= rem < b,
            i <= 48,
            a as int * pow2(i as nat) == q as int * b as int + rem as int,
        decreases 48 - i,
    {
        proof {
            lemma_pow2_adds(i as nat, (48 - i) as nat);
            lemma_pow2_pos((48 - i) as nat);
            lemma_pow2_pos(i as nat);
        }
        if q > (u128::MAX - 1) / 2 {
            proof {
                // the final quotient is at least twice the current one,
                // which already exceeds the 128-bit range
                lemma_quotient_grows(a as int, b as int, q as int, rem as int, i as nat);
            }
            return None;
        }
        proof {
            lemma_pow2_step(a as int, b as int, q as int, rem as int, i as nat);
        }
        if rem >= b - rem {
            q = 2 * q + 1;
            rem = rem - (b - rem);
        } else {
            q = 2 * q;
            rem = rem + rem;
        }
        i = i + 1;
    }
    proof {
        lemma_fundamental_div_mod_converse(a as int * UNIT as int, b as int, q as int, rem as int);
    }
    Some((q, rem != 0))
}

/// One doubling step of long division: multiplying the dividend by two
/// doubles the quotient and the remainder.
proof fn lemma_pow2_step(a: int, b: int, q: int, rem: int, i: nat)
    requires
        b > 0,
        0 <= rem < b,
        a * pow2(i) == q * b + rem,
    ensures
        a * pow2(i + 1) == (2 * q) * b + 2 * rem,
        a * pow2(i + 1) == (2 * q + 1) * b + (2 * rem - b),
{
    lemma_pow2_adds(i, 1);
    lemma2_to64();
    assert(a * pow2(i + 1) == (2 * q) * b + 2 * rem && a * pow2(i + 1) == (2 * q + 1) * b + (2
        * rem - b)) by (nonlinear_arith)
        requires
            a * pow2(i) == q * b + rem,
            pow2(i + 1) == pow2(i) * 2,
    ;
}

/// While further quotient bits remain, the exact quotient of
/// `a * 2^48 / b` is at least twice the partial quotient.
proof fn lemma_quotient_grows(a: int, b: int, q: int, rem: int, i: nat)
    requires
        b > 0,
        0 <= rem < b,
        q >= 0,
        i < 48,
        a * pow2(i) == q * b + rem,
    ensures
        (a * (UNIT as int)) / b >= 2 * q,
{
    lemma_pow2_adds(i, (48 - i) as nat);
    lemma_pow2_pos((48 - i) as nat);
    lemma_pow2_pos(i as nat);
    lemma2_to64();
    lemma2_to64_rest();
    assert(pow2(48) == UNIT);
    let s = pow2((48 - i) as nat) as int;
    assert(s >= 2) by {
        lemma_pow2_strictly_increases(0, (48 - i) as nat);
        lemma2_to64();
    }
    assert(a * (UNIT as int) == (a * pow2(i)) * s) by (nonlinear_arith)
        requires
            pow2(i) * s == pow2(48),
            pow2(48) == UNIT as int,
    ;
    assert(a * (UNIT as int) >= (2 * q) * b) by (nonlinear_arith)
        requires
            a * pow2(i) == q * b + rem,
            rem >= 0,
            b > 0,
            q >= 0,
            s >= 2,
            pow2(i) * s == pow2(48),
            pow2(48) == UNIT as int,
            a * (UNIT as int) == (a * pow2(i)) * s,
    ;
    lemma_div_multiples_vanish(2 * q, b);
    lemma_div_is_ordered((2 * q) * b, a * (UNIT as int), b);
    assert((b * (2 * q)) / b == 2 * q);
    assert(b * (2 * q) == (2 * q) * b) by (nonlinear_arith);
}

/// Three floors never exceed the rounded-up quotient of the summed
/// dividends.
pub proof fn lemma_div_shift_triple(x1: int, x2: int, x3: int, d: int)
    requires
        x1 >= 0,
        x2 >= 0,
        x3 >= 0,
        d > 0,
    ensures
        x1 / d + x2 / d + x3 / d <= (x1 + x2 + x3 + d - 1) / d,
{
    lemma_fundamental_div_mod(x1, d);
    lemma_fundamental_div_mod(x2, d);
    lemma_fundamental_div_mod(x3, d);
    lemma_mod_bound(x1, d);
    lemma_mod_bound(x2, d);
    lemma_mod_bound(x3, d);
    lemma_div_bound_exact(x1, d);
    lemma_div_bound_exact(x2, d);
    lemma_div_bound_exact(x3, d);
    let q = x1 / d + x2 / d + x3 / d;
    let s = x1 % d + x2 % d + x3 % d + d - 1;
    assert(x1 + x2 + x3 + d - 1 == q * d + s) by (nonlinear_arith)
        requires
            x1 == d * (x1 / d) + x1 % d,
            x2 == d * (x2 / d) + x2 % d,
            x3 == d * (x3 / d) + x3 % d,
            q == x1 / d + x2 / d + x3 / d,
            s == x1 % d + x2 % d + x3 % d + d - 1,
    ;
    lemma_div_shift(q, s, d);
    lemma_div_bound_exact(s, d);
}

/// Checked multiplication of raw 128-bit values.
pub fn checked_mul_u128(a: u128, b: u128) -> (r: Option<u128>)
    ensures
        a * b <= u128::MAX ==> r == Some((a * b) as u128),
        a * b > u128::MAX ==> r is None,
{
    if a == 0 {
        return Some(0);
    }
    if b > u128::MAX / a {
        proof {
            lemma_fundamental_div_mod(u128::MAX as int, a as int);
            lemma_mod_bound(u128::MAX as int, a as int);
            assert(a as int * b as int > u128::MAX as int) by (nonlinear_arith)
                requires
                    b as int >= (u128::MAX as int) / (a as int) + 1,
                    a > 0,
                    u128::MAX as int == a as int * ((u128::MAX as int) / (a as int)) + (
                    u128::MAX as int) % (a as int),
                    (u128::MAX as int) % (a as int) < a as int,
            ;
        }
        return None;
    }
    proof {
        lemma_div_bound_exact(u128::MAX as int, a as int);
        lemma_mul_inequality(b as int, ((u128::MAX as int) / (a as int)), a as int);
        assert(a as int * b as int == b as int * a as int) by (nonlinear_arith);
    }
    Some(a * b)
}

/// A quotient rounded down, scaled back by the divisor, does not exceed the
/// scaled dividend.
pub proof fn lemma_div_down_bound(a: int, v: int)
    requires
        a >= 0,
        v > 0,
    ensures
        div_down_spec(a, v) >= 0,
        div_down_spec(a, v) * v <= a * (UNIT as int),
{
    let u = UNIT as int;
    assert(a * u >= 0) by (nonlinear_arith)
        requires
            a >= 0,
            u > 0,
    ;
    lemma_fundamental_div_mod(a * u, v);
    lemma_mod_bound(a * u, v);
    lemma_div_bound_exact(a * u, v);
    assert(div_down_spec(a, v) * v <= a * u) by (nonlinear_arith)
        requires
            a * u == v * div_down_spec(a, v) + (a * u) % v,
            (a * u) % v >= 0,
    ;
}

/// A quotient rounded up, scaled back by the divisor, covers the scaled
/// dividend.
pub proof fn lemma_div_up_bound(a: int, v: int)
    requires
        a >= 0,
        v > 0,
    ensures
        div_up_spec(a, v) >= 0,
        div_up_spec(a, v) * v >= a * (UNIT as int),
{
    let u = UNIT as int;
    assert(a * u >= 0) by (nonlinear_arith)
        requires
            a >= 0,
            u > 0,
    ;
    lemma_up_from_down(a * u, v);
    lemma_fundamental_div_mod(a * u, v);
    lemma_mod_bound(a * u, v);
    lemma_div_bound_exact(a * u, v);
    let q = (a * u) / v;
    let m = (a * u) % v;
    if m == 0 {
        assert(q * v >= a * u) by (nonlinear_arith)
            requires
                a * u == v * q + m,
                m == 0,
        ;
    } else {
        assert((q + 1) * v >= a * u) by (nonlinear_arith)
            requires
                a * u == v * q + m,
                m < v,
        ;
    }
}

/// A product rounded down, scaled back by the unit, does not exceed the
/// exact product.
pub proof fn lemma_mul_down_bound(s: int, v: int)
    requires
        s >= 0,
        v >= 0,
    ensures
        mul_down_spec(s, v) >= 0,
        mul_down_spec(s, v) * (UNIT as int) <= s * v,
{
    let u = UNIT as int;
    assert(s * v >= 0) by (nonlinear_arith)
        requires
            s >= 0,
            v >= 0,
    ;
    lemma_fundamental_div_mod(s * v, u);
    lemma_mod_bound(s * v, u);
    lemma_div_bound_exact(s * v, u);
    assert(mul_down_spec(s, v) * u <= s * v) by (nonlinear_arith)
        requires
            s * v == u * mul_down_spec(s, v) + (s * v) % u,
            (s * v) % u >= 0,
    ;
}

/// A product rounded up, scaled back by the unit, covers the exact product.
pub proof fn lemma_mul_up_bound(s: int, v: int)
    requires
        s >= 0,
        v >= 0,
    ensures
        mul_up_spec(s, v) >= 0,
        mul_up_spec(s, v) * (UNIT as int) >= s * v,
{
    let u = UNIT as int;
    assert(s * v >= 0) by (nonlinear_arith)
        requires
            s >= 0,
            v >= 0,
    ;
    lemma_up_from_down(s * v, u);
    lemma_fundamental_div_mod(s * v, u);
    lemma_mod_bound(s * v, u);
    lemma_div_bound_exact(s * v, u);
    let q = (s * v) / u;
    let m = (s * v) % u;
    if m == 0 {
        assert(q * u >= s * v) by (nonlinear_arith)
            requires
                s * v == u * q + m,
                m == 0,
        ;
    } else {
        assert((q + 1) * u >= s * v) by (nonlinear_arith)
            requires
                s * v == u * q + m,
                m < u,
        ;
    }
}

/// Law: converting an amount to shares at a positive rate `v` (rounding
/// down) and converting the shares back to an amount (rounding down again)
/// returns at most the original amount, and falls short of it by no more
/// than one rounding unit of the rate.
pub proof fn lemma_round_trip_down(a: int, v: int)
    requires
        a >= 0,
        v > 0,
    ensures
        mul_down_spec(div_down_spec(a, v), v) <= a,
        a - mul_down_spec(div_down_spec(a, v), v) <= v / (UNIT as int) + 1,
{
    let u = UNIT as int;
    let s = div_down_spec(a, v);
    let out = mul_down_spec(s, v);
    lemma_fundamental_div_mod(a * u, v);
    lemma_mod_bound(a * u, v);
    lemma_div_bound_exact(a * u, v);
    assert(a * u >= 0) by (nonlinear_arith)
        requires
            a >= 0,
            u > 0,
    ;
    // upper bound: s * v <= a * u, hence out <= a
    assert(s * v <= a * u) by (nonlinear_arith)
        requires
            a * u == v * s + (a * u) % v,
            (a * u) % v >= 0,
    ;
    lemma_div_is_ordered(s * v, a * u, u);
    lemma_div_multiples_vanish(a, u);
    assert(u * a == a * u) by (nonlinear_arith);
    // lower bound: s * v > a * u - v
    assert(s * v >= a * u - v + 1) by (nonlinear_arith)
        requires
            a * u == v * s + (a * u) % v,
            (a * u) % v < v,
    ;
    let w = v / u;
    lemma_fundamental_div_mod(v, u);
    lemma_mod_bound(v, u);
    lemma_div_bound_exact(v, u);
    // a * u - v + 1 >= (a - w - 1) * u + 1
    assert(a * u - v + 1 >= (a - w - 1) * u + 1) by (nonlinear_arith)
        requires
            v == u * w + v % u,
            v % u < u,
            u > 0,
    ;
    if a - w - 1 >= 0 {
        assert(((a - w - 1) * u + 1) / u == a - w - 1) by {
            lemma_fundamental_div_mod_converse((a - w - 1) * u + 1, u, a - w - 1, 1);
        }
        lemma_div_is_ordered((a - w - 1) * u + 1, s * v, u);
    } else {
        lemma_div_bound_exact(s * v, u);
        assert(out >= 0);
    }
}

/// The rounded product is at least the high-by-high partial product scaled
/// back up by one unit.
proof fn lemma_sum_parts_ge(ah: int, bh: int, al: int, bl: int, prod: int)
    requires
        ah >= 0,
        bh >= 0,
        al >= 0,
        bl >= 0,
        prod == (ah * bh) * (UNIT as int) * (UNIT as int) + (ah * bl + al * bh) * (UNIT as int) + al
            * bl,
    ensures
        prod / (UNIT as int) >= (ah * bh) * (UNIT as int),
{
    let u = UNIT as int;
    let rest = (ah * bl + al * bh) * u + al * bl;
    assert(rest >= 0 && ah * bh >= 0 && (ah * bh) * u * u == ((ah * bh) * u) * u)
        by (nonlinear_arith)
        requires
            ah >= 0,
            bh >= 0,
            al >= 0,
            bl >= 0,
            rest == (ah * bl + al * bh) * u + al * bl,
            u == UNIT as int,
    ;
    lemma_div_shift((ah * bh) * u, rest, u);
    lemma_div_bound_exact(rest, u);
}

} // verus!
