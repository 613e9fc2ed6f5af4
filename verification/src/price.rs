//! Oracle price resolution.
//!
//! The host hands the core a raw feed snapshot per bank.  Resolution checks
//! that the feed matches the bank's configured oracle and that it is fresh
//! enough, and yields a validated snapshot: a point price with a confidence
//! band.  The risk engine asks for the low bound when valuing assets and
//! the high bound when valuing liabilities, which keeps the health
//! computation conservative.

use crate::errors::MarginfiError;
use crate::fixnum::{div_down_spec, Fx, UNIT};
use vstd::arithmetic::div_mod::*;
use vstd::arithmetic::mul::*;
use vstd::prelude::*;

verus! {

/// How the raw feed is produced; a bank accepts only feeds of its
/// configured kind.
#[derive(Clone, Copy, PartialEq, Eq, Structural, Debug)]
pub enum OracleSetup {
    Unconfigured,
    PythEma,
    SwitchboardV2,
    StakedWithPythPush,
}

/// A raw feed snapshot as the host supplies it: already decoded into plain
/// values, not yet checked against the bank's configuration.
#[derive(Clone, Copy, PartialEq, Eq, Structural, Debug)]
pub struct OraclePriceFeed {
    /// Identity of the feed; must match the bank's configured oracle key.
    pub oracle_key: u64,
    /// Kind of oracle that produced the feed.
    pub setup: OracleSetup,
    /// Normalized price per token unit.
    pub ema_price: Fx,
    /// Half-width of the confidence band around the price.
    pub confidence: Fx,
    /// When the feed was observed.
    pub publish_time: u64,
}

/// A validated price: point estimate plus confidence band.
#[derive(Clone, Copy, PartialEq, Eq, Structural, Debug)]
pub struct OraclePriceSnapshot {
    pub price: Fx,
    pub confidence: Fx,
}

/// 10 raised to a small non-negative power.
pub open spec fn pow10(n: nat) -> int
    decreases n,
{
    if n == 0 {
        1
    } else {
        10 * pow10((n - 1) as nat)
    }
}

/// 10 raised to `n`, for exponents up to the 38 that fit in 128 bits.
pub fn exp_10(n: u32) -> (r: u128)
    requires
        n <= 14,
    ensures
        r == pow10(n as nat),
{
    let mut r: u128 = 1;
    let mut i: u32 = 0;
    proof {
        lemma_pow10_bound(n as nat);
    }
    while i < n
        invariant
            i <= n <= 14,
            r == pow10(i as nat),
            r <= pow10(n as nat),
        decreases n - i,
    {
        proof {
            lemma_pow10_grows(i as nat, n as nat);
            lemma_pow10_bound(n as nat);
        }
        r = r * 10;
        i = i + 1;
    }
    r
}

/// Ten to a power of at most fourteen fits comfortably in 128 bits.
proof fn lemma_pow10_bound(n: nat)
    requires
        n <= 14,
    ensures
        0 < pow10(n) <= 100_000_000_000_000,
{
    reveal_with_fuel(pow10, 16);
    lemma_pow10_pos(n);
    if n < 14 {
        lemma_pow10_grows(n, 14);
    }
    assert(pow10(14) == 100_000_000_000_000);
}

/// `pow10` is monotone: a lower exponent gives a value at most ten times
/// smaller per step.
proof fn lemma_pow10_grows(i: nat, n: nat)
    requires
        i < n,
    ensures
        10 * pow10(i) <= pow10(n),
        pow10(i) > 0,
    decreases n,
{
    lemma_pow10_pos(i);
    if i + 1 == n {
    } else {
        lemma_pow10_grows(i, (n - 1) as nat);
        lemma_pow10_pos((n - 1) as nat);
    }
}

/// `pow10` is positive.
proof fn lemma_pow10_pos(n: nat)
    ensures
        pow10(n) > 0,
    decreases n,
{
    if n > 0 {
        lemma_pow10_pos((n - 1) as nat);
    }
}

/// Scales a raw integer feed price by ten to the feed's exponent into the
/// fixed-point form.  A negative exponent divides (rounding down), a
/// positive one multiplies.  Negative prices and products beyond the
/// 128-bit range are arithmetic errors.
pub fn pyth_price_to_fixed(ema_price: i64, expo: i32) -> (r: Result<Fx, MarginfiError>)
    requires
        -14 <= expo <= 14,
    ensures
        ema_price < 0 ==> r == Err::<Fx, MarginfiError>(MarginfiError::MathError),
        ema_price >= 0 && expo == 0 ==> r == Ok::<Fx, MarginfiError>(
            Fx { bits: (ema_price * UNIT) as u128 },
        ),
        ema_price >= 0 && expo < 0 ==> r == Ok::<Fx, MarginfiError>(
            Fx { bits: ((ema_price as int * UNIT as int) / pow10((-expo) as nat)) as u128 },
        ),
        ema_price >= 0 && expo > 0 ==> {
            let exact = ema_price as int * pow10(expo as nat) * UNIT as int;
            if exact <= u128::MAX as int {
                r == Ok::<Fx, MarginfiError>(Fx { bits: exact as u128 })
            } else {
                r == Err::<Fx, MarginfiError>(MarginfiError::MathError)
            }
        },
{
    if ema_price < 0 {
        return Err(MarginfiError::MathError);
    }
    let price = Fx::from_int(ema_price as u64);
    if expo == 0 {
        Ok(price)
    } else if expo < 0 {
        let scale = exp_10((-expo) as u32);
        proof {
            lemma_pow10_bound((-expo) as nat);
        }
        let factor = Fx { bits: scale * UNIT };
        proof {
            lemma_scaled_div_fits(price.bits as int, scale as int);
        }
        match price.div_down(factor) {
            Some(v) => Ok(v),
            None => Err(MarginfiError::MathError),
        }
    } else {
        let scale = exp_10(expo as u32);
        proof {
            lemma_pow10_bound(expo as nat);
        }
        if price.bits > 0 && scale > u128::MAX / price.bits {
            proof {
                lemma_scaled_mul_overflows(price.bits as int, scale as int);
                assert(price.bits as int * scale as int == ema_price as int * pow10(expo as nat)
                    * UNIT as int) by (nonlinear_arith)
                    requires
                        price.bits as int == ema_price as int * UNIT as int,
                        scale == pow10(expo as nat),
                ;
            }
            return Err(MarginfiError::MathError);
        }
        proof {
            if price.bits > 0 {
                lemma_div_bound_aux(u128::MAX as int, price.bits as int);
                lemma_mul_inequality(
                    scale as int,
                    ((u128::MAX as u128) / price.bits) as int,
                    price.bits as int,
                );
            }
            assert(price.bits as int * scale as int == ema_price as int * pow10(expo as nat)
                * UNIT as int) by (nonlinear_arith)
                requires
                    price.bits as int == ema_price as int * UNIT as int,
                    scale == pow10(expo as nat),
            ;
        }
        Ok(Fx { bits: price.bits * scale })
    }
}

/// Dividing by a scale of at least one whole unit cannot overflow: the
/// quotient is bounded by the dividend.
proof fn lemma_scaled_div_fits(a: int, scale: int)
    requires
        0 <= a <= u128::MAX as int,
        scale >= 1,
    ensures
        div_down_spec(a, scale * UNIT as int) <= u128::MAX as int,
        div_down_spec(a, scale * UNIT as int) == a / scale,
{
    let u = UNIT as int;
    assert(scale * u > 0) by (nonlinear_arith)
        requires
            scale >= 1,
            u > 0,
    ;
    lemma_fundamental_div_mod(a, scale);
    lemma_mod_bound(a, scale);
    assert(a * u == (a / scale) * (scale * u) + (a % scale) * u) by (nonlinear_arith)
        requires
            a == scale * (a / scale) + a % scale,
    ;
    assert(0 <= (a % scale) * u < scale * u) by (nonlinear_arith)
        requires
            0 <= a % scale < scale,
            u > 0,
    ;
    lemma_fundamental_div_mod_converse(a * u, scale * u, a / scale, (a % scale) * u);
    lemma_div_is_ordered(0, a, scale);
    assert(a / scale <= a) by (nonlinear_arith)
        requires
            a == scale * (a / scale) + a % scale,
            a % scale >= 0,
            a / scale >= 0,
            scale >= 1,
    ;
}

/// When the scale exceeds the room left above the price, the scaled product
/// exceeds the 128-bit range.
proof fn lemma_scaled_mul_overflows(p: int, scale: int)
    requires
        p > 0,
        scale > (u128::MAX as int) / p,
    ensures
        p * scale > u128::MAX as int,
{
    lemma_fundamental_div_mod(u128::MAX as int, p);
    lemma_mod_bound(u128::MAX as int, p);
    assert(p * scale > u128::MAX as int) by (nonlinear_arith)
        requires
            scale >= (u128::MAX as int) / p + 1,
            p > 0,
            u128::MAX as int == p * ((u128::MAX as int) / p) + (u128::MAX as int) % p,
            (u128::MAX as int) % p < p,
    ;
}

/// Floor division of a non-negative value by a positive one stays within
/// the dividend's range.
proof fn lemma_div_bound_aux(x: int, d: int)
    requires
        x >= 0,
        d > 0,
    ensures
        x / d >= 0,
        d * (x / d) <= x,
{
    lemma_div_is_ordered(0, x, d);
    lemma_fundamental_div_mod(x, d);
    lemma_mod_bound(x, d);
}

/// Checks a raw feed against the bank's configured oracle identity, kind
/// and freshness window, and returns the validated snapshot.
pub fn validate_feed(
    feed: &OraclePriceFeed,
    expected_key: u64,
    expected_setup: OracleSetup,
    now: u64,
    max_age: u64,
) -> (r: Result<OraclePriceSnapshot, MarginfiError>)
    ensures
        (feed.oracle_key != expected_key || feed.setup != expected_setup) ==> r == Err::<
            OraclePriceSnapshot,
            MarginfiError,
        >(MarginfiError::OracleValidationFailed),
        feed.oracle_key == expected_key && feed.setup == expected_setup && feed.publish_time
            + max_age < now ==> r == Err::<OraclePriceSnapshot, MarginfiError>(
            MarginfiError::StaleOracle,
        ),
        feed.oracle_key == expected_key && feed.setup == expected_setup && feed.publish_time
            + max_age >= now ==> r == Ok::<OraclePriceSnapshot, MarginfiError>(
            OraclePriceSnapshot { price: feed.ema_price, confidence: feed.confidence },
        ),
{
    if feed.oracle_key != expected_key || feed.setup != expected_setup {
        return Err(MarginfiError::OracleValidationFailed);
    }
    if feed.publish_time < now && now - feed.publish_time > max_age {
        return Err(MarginfiError::StaleOracle);
    }
    Ok(OraclePriceSnapshot { price: feed.ema_price, confidence: feed.confidence })
}

/// For a bank served by two feeds, checks that they agree within the
/// configured tolerance.
pub fn validate_feeds_agree(a: &OraclePriceFeed, b: &OraclePriceFeed, tolerance: Fx) -> (r: Result<
    (),
    MarginfiError,
>)
    ensures
        (if a.ema_price.bits >= b.ema_price.bits {
            a.ema_price.bits - b.ema_price.bits
        } else {
            b.ema_price.bits - a.ema_price.bits
        }) <= tolerance.bits <==> r == Ok::<(), MarginfiError>(()),
        r is Err ==> r == Err::<(), MarginfiError>(MarginfiError::OracleValidationFailed),
{
    let gap = if a.ema_price.bits >= b.ema_price.bits {
        a.ema_price.bits - b.ema_price.bits
    } else {
        b.ema_price.bits - a.ema_price.bits
    };
    if gap <= tolerance.bits {
        Ok(())
    } else {
        Err(MarginfiError::OracleValidationFailed)
    }
}

impl OraclePriceSnapshot {
    /// The conservative low bound: the price less the confidence band,
    /// clamped at zero.
    pub fn price_low(&self) -> (r: Fx)
        ensures
            r.bits == if self.confidence.bits <= self.price.bits {
                self.price.bits - self.confidence.bits
            } else {
                0
            },
    {
        if self.confidence.bits <= self.price.bits {
            Fx { bits: self.price.bits - self.confidence.bits }
        } else {
            Fx { bits: 0 }
        }
    }

    /// The conservative high bound: the price plus the confidence band.
    pub fn price_high(&self) -> (r: Result<Fx, MarginfiError>)
        ensures
            self.price.bits + self.confidence.bits <= u128::MAX ==> r == Ok::<Fx, MarginfiError>(
                Fx { bits: (self.price.bits + self.confidence.bits) as u128 },
            ),
            self.price.bits + self.confidence.bits > u128::MAX ==> r == Err::<Fx, MarginfiError>(
                MarginfiError::MathError,
            ),
    {
        match self.price.checked_add(self.confidence) {
            Some(v) => Ok(v),
            None => Err(MarginfiError::MathError),
        }
    }

    /// The point estimate.
    pub fn price_point(&self) -> (r: Fx)
        ensures
            r == self.price,
    {
        self.price
    }
}

} // verus!
