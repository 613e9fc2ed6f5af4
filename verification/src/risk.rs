//! The risk engine: prices a position and decides whether it is healthy.
//!
//! For every active balance, the asset side is valued at the low price
//! bound and scaled by the bank's asset weight, rounding down at each step;
//! the liability side is valued at the high price bound and scaled by the
//! liability weight, rounding up.  Health is the comparison of the two
//! sums, so every rounding and both price bounds lean against the account.
//!
//! Initial requirements (used to admit new risk) take the stricter initial
//! weights and cap each bank's counted asset value at the bank's optional
//! initial-value limit; maintenance requirements (used to decide
//! liquidation) take the looser maintenance weights and no cap; equity
//! requirements weigh both sides fully.

use crate::account::{Balance, LendingAccount, MAX_BALANCES};
use crate::bank::Bank;
use crate::errors::MarginfiError;
use crate::fixnum::{mul_down_spec, mul_up_spec, Fx, UNIT};
use crate::price::OraclePriceSnapshot;
use vstd::prelude::*;

verus! {

/// Which rule book a health question is asked under.
#[derive(Clone, Copy, PartialEq, Eq, Structural, Debug)]
pub enum RiskRequirementType {
    /// Strict: gates actions that add risk.
    Initial,
    /// Loose: decides liquidation eligibility.
    Maintenance,
    /// Unweighted: measures plain net worth.
    Equity,
}

/// The asset weight a bank contributes under the given requirement.
pub open spec fn asset_weight_spec(bank: Bank, req: RiskRequirementType) -> int {
    match req {
        RiskRequirementType::Initial => bank.config.asset_weight_init.bits as int,
        RiskRequirementType::Maintenance => bank.config.asset_weight_maint.bits as int,
        RiskRequirementType::Equity => UNIT as int,
    }
}

/// The liability weight a bank contributes under the given requirement.
pub open spec fn liability_weight_spec(bank: Bank, req: RiskRequirementType) -> int {
    match req {
        RiskRequirementType::Initial => bank.config.liability_weight_init.bits as int,
        RiskRequirementType::Maintenance => bank.config.liability_weight_maint.bits as int,
        RiskRequirementType::Equity => UNIT as int,
    }
}

/// The low price bound: the point price less the confidence band, clamped
/// at zero.
pub open spec fn price_low_spec(p: OraclePriceSnapshot) -> int {
    if p.confidence.bits <= p.price.bits {
        p.price.bits - p.confidence.bits
    } else {
        0
    }
}

/// The high price bound: the point price plus the confidence band.
pub open spec fn price_high_spec(p: OraclePriceSnapshot) -> int {
    p.price.bits + p.confidence.bits
}

/// The weighted (asset, liability) value of one balance, or nothing when a
/// step leaves the 128-bit range.
pub open spec fn balance_values_spec(
    bal: Balance,
    bank: Bank,
    price: OraclePriceSnapshot,
    req: RiskRequirementType,
) -> Option<(int, int)> {
    let amount = mul_down_spec(bal.asset_shares.bits as int, bank.asset_share_value.bits as int);
    let v1 = mul_down_spec(amount, price_low_spec(price));
    let v2 = mul_down_spec(v1, asset_weight_spec(bank, req));
    let av = if req == RiskRequirementType::Initial && bank.config.total_asset_value_init_limit
        != 0 && v2 > bank.config.total_asset_value_init_limit * (UNIT as int) {
        bank.config.total_asset_value_init_limit * (UNIT as int)
    } else {
        v2
    };
    let lam = mul_up_spec(bal.liability_shares.bits as int, bank.liability_share_value.bits as int);
    let l1 = mul_up_spec(lam, price_high_spec(price));
    let l2 = mul_up_spec(l1, liability_weight_spec(bank, req));
    if amount > u128::MAX as int || v1 > u128::MAX as int || v2 > u128::MAX as int || lam
        > u128::MAX as int || price_high_spec(price) > u128::MAX as int || l1 > u128::MAX as int
        || l2 > u128::MAX as int {
        None
    } else {
        Some((av, l2))
    }
}

/// The summed weighted values of the first `n` balance slots, or nothing
/// when any step leaves the 128-bit range.
pub open spec fn health_components_spec(
    balances: Seq<Balance>,
    banks: Seq<Bank>,
    prices: Seq<Option<OraclePriceSnapshot>>,
    req: RiskRequirementType,
    n: int,
) -> Option<(int, int)>
    decreases n,
{
    if n <= 0 {
        Some((0int, 0int))
    } else {
        match health_components_spec(balances, banks, prices, req, n - 1) {
            Option::None => Option::None,
            Option::Some((a, l)) => {
                let bal = balances[n - 1];
                if !bal.active {
                    Some((a, l))
                } else {
                    match prices[bal.bank_index as int] {
                        Option::None => Option::None,
                        Option::Some(price) => {
                            match balance_values_spec(bal, banks[bal.bank_index as int], price, req) {
                                Option::None => Option::None,
                                Option::Some((av, lv)) => {
                                    if a + av > u128::MAX as int || l + lv > u128::MAX as int {
                                        Option::None
                                    } else {
                                        Some((a + av, l + lv))
                                    }
                                },
                            }
                        },
                    }
                }
            },
        }
    }
}

/// Whether some active balance references a bank that was handed in with no
/// price snapshot.
pub open spec fn missing_price_spec(
    balances: Seq<Balance>,
    prices: Seq<Option<OraclePriceSnapshot>>,
) -> bool {
    exists|i: int|
        0 <= i < balances.len() && #[trigger] balances[i].active && prices[balances[i].bank_index as int]
            is None
}

/// Every active balance points at an existing bank slot.
pub open spec fn balances_in_range(balances: Seq<Balance>, n_banks: int) -> bool {
    forall|i: int|
        0 <= i < balances.len() && #[trigger] balances[i].active ==> balances[i].bank_index
            < n_banks
}


/// Summed health components always lie in the 128-bit range.
pub proof fn lemma_health_components_nonneg(
    balances: Seq<Balance>,
    banks: Seq<Bank>,
    prices: Seq<Option<OraclePriceSnapshot>>,
    req: RiskRequirementType,
    n: int,
)
    ensures
        health_components_spec(balances, banks, prices, req, n) matches Some((a, l)) ==> a >= 0 && l
            >= 0 && a <= u128::MAX as int && l <= u128::MAX as int,
    decreases n,
{
    if n > 0 {
        lemma_health_components_nonneg(balances, banks, prices, req, n - 1);
        let bal = balances[n - 1];
        if health_components_spec(balances, banks, prices, req, n - 1) is Some && bal.active
            && prices[bal.bank_index as int] is Some {
            let price = prices[bal.bank_index as int]->Some_0;
            let bank = banks[bal.bank_index as int];
            lemma_balance_values_nonneg(bal, bank, price, req);
        }
    }
}

/// A single balance's weighted values are never negative.
proof fn lemma_balance_values_nonneg(
    bal: Balance,
    bank: Bank,
    price: OraclePriceSnapshot,
    req: RiskRequirementType,
)
    ensures
        balance_values_spec(bal, bank, price, req) matches Some((av, lv)) ==> av >= 0 && lv >= 0,
{
    let amount = mul_down_spec(bal.asset_shares.bits as int, bank.asset_share_value.bits as int);
    crate::fixnum::lemma_mul_down_bound(
        bal.asset_shares.bits as int,
        bank.asset_share_value.bits as int,
    );
    crate::fixnum::lemma_mul_down_bound(amount, price_low_spec(price));
    crate::fixnum::lemma_mul_down_bound(
        mul_down_spec(amount, price_low_spec(price)),
        asset_weight_spec(bank, req),
    );
    let lam = mul_up_spec(bal.liability_shares.bits as int, bank.liability_share_value.bits as int);
    crate::fixnum::lemma_mul_up_bound(
        bal.liability_shares.bits as int,
        bank.liability_share_value.bits as int,
    );
    crate::fixnum::lemma_mul_up_bound(lam, price_high_spec(price));
    crate::fixnum::lemma_mul_up_bound(
        mul_up_spec(lam, price_high_spec(price)),
        liability_weight_spec(bank, req),
    );
}

/// `None` results propagate: once a prefix sum overflows, every longer
/// prefix overflows.
pub proof fn lemma_health_none_propagates(
    balances: Seq<Balance>,
    banks: Seq<Bank>,
    prices: Seq<Option<OraclePriceSnapshot>>,
    req: RiskRequirementType,
    n: int,
    m: int,
)
    requires
        health_components_spec(balances, banks, prices, req, n) is None,
        n <= m,
    ensures
        health_components_spec(balances, banks, prices, req, m) is None,
    decreases m - n,
{
    if n < m {
        lemma_health_none_propagates(balances, banks, prices, req, n, m - 1);
    }
}

/// With a price snapshot missing for some active balance, no health value
/// exists at all.
pub proof fn lemma_missing_price_none(
    balances: Seq<Balance>,
    banks: Seq<Bank>,
    prices: Seq<Option<OraclePriceSnapshot>>,
    req: RiskRequirementType,
)
    requires
        missing_price_spec(balances, prices),
        balances.len() == MAX_BALANCES,
    ensures
        health_components_spec(balances, banks, prices, req, MAX_BALANCES as int) is None,
{
    let i = choose|i: int|
        0 <= i < balances.len() && #[trigger] balances[i].active && prices[balances[i].bank_index as int]
            is None;
    assert(health_components_spec(balances, banks, prices, req, i + 1) is None);
    lemma_health_none_propagates(balances, banks, prices, req, i + 1, MAX_BALANCES as int);
}

/// The weighted (asset, liability) value of one active balance; exactly the
/// specified pair, or an arithmetic error when the specification has none.
fn balance_values(bal: &Balance, bank: &Bank, price: &OraclePriceSnapshot, req: RiskRequirementType)
    -> (r: Result<(Fx, Fx), MarginfiError>)
    ensures
        match balance_values_spec(*bal, *bank, *price, req) {
            Option::Some((av, lv)) => r == Ok::<(Fx, Fx), MarginfiError>(
                (Fx { bits: av as u128 }, Fx { bits: lv as u128 }),
            ),
            Option::None => r == Err::<(Fx, Fx), MarginfiError>(MarginfiError::MathError),
        },
{
    let amount = match bal.asset_shares.mul_down(bank.asset_share_value) {
        Some(v) => v,
        None => {
            return Err(MarginfiError::MathError);
        },
    };
    let pl = price.price_low();
    let v1 = match amount.mul_down(pl) {
        Some(v) => v,
        None => {
            return Err(MarginfiError::MathError);
        },
    };
    let w = match req {
        RiskRequirementType::Initial => bank.config.asset_weight_init,
        RiskRequirementType::Maintenance => bank.config.asset_weight_maint,
        RiskRequirementType::Equity => Fx::one(),
    };
    let v2 = match v1.mul_down(w) {
        Some(v) => v,
        None => {
            return Err(MarginfiError::MathError);
        },
    };
    let cap = bank.config.total_asset_value_init_limit;
    let av = if req == RiskRequirementType::Initial && cap != 0 && v2.bits > (cap as u128) * UNIT {
        Fx { bits: (cap as u128) * UNIT }
    } else {
        v2
    };
    let lam = match bal.liability_shares.mul_up(bank.liability_share_value) {
        Some(v) => v,
        None => {
            return Err(MarginfiError::MathError);
        },
    };
    let ph = match price.price_high() {
        Ok(v) => v,
        Err(_) => {
            return Err(MarginfiError::MathError);
        },
    };
    let l1 = match lam.mul_up(ph) {
        Some(v) => v,
        None => {
            return Err(MarginfiError::MathError);
        },
    };
    let lw = match req {
        RiskRequirementType::Initial => bank.config.liability_weight_init,
        RiskRequirementType::Maintenance => bank.config.liability_weight_maint,
        RiskRequirementType::Equity => Fx::one(),
    };
    let l2 = match l1.mul_up(lw) {
        Some(v) => v,
        None => {
            return Err(MarginfiError::MathError);
        },
    };
    Ok((av, l2))
}

/// Sums the weighted asset and liability values of the account under the
/// given requirement.  Fails with a missing-price error when an active
/// balance has no snapshot, and with an arithmetic error when a value
/// leaves the 128-bit range; the result is otherwise exactly the specified
/// sums.
pub fn compute_health_components(
    la: &LendingAccount,
    banks: &Vec<Bank>,
    prices: &Vec<Option<OraclePriceSnapshot>>,
    req: RiskRequirementType,
) -> (r: Result<(Fx, Fx), MarginfiError>)
    requires
        la.wf(),
        balances_in_range(la.balances@, banks@.len() as int),
        prices@.len() == banks@.len(),
    ensures
        missing_price_spec(la.balances@, prices@) ==> r == Err::<(Fx, Fx), MarginfiError>(
            MarginfiError::MissingPrice,
        ),
        !missing_price_spec(la.balances@, prices@) ==> match health_components_spec(
            la.balances@,
            banks@,
            prices@,
            req,
            MAX_BALANCES as int,
        ) {
            Option::Some((a, l)) => r == Ok::<(Fx, Fx), MarginfiError>(
                (Fx { bits: a as u128 }, Fx { bits: l as u128 }),
            ),
            Option::None => r == Err::<(Fx, Fx), MarginfiError>(MarginfiError::MathError),
        },
{
    let mut k: usize = 0;
    while k < MAX_BALANCES
        invariant
            la.wf(),
            balances_in_range(la.balances@, banks@.len() as int),
            prices@.len() == banks@.len(),
            k <= MAX_BALANCES,
            forall|i: int|
                0 <= i < k && #[trigger] la.balances@[i].active ==> !(prices@[la.balances@[i].bank_index as int]
                    is None),
        decreases MAX_BALANCES - k,
    {
        let bal = &la.balances[k];
        if bal.active {
            if prices[bal.bank_index].is_none() {
                return Err(MarginfiError::MissingPrice);
            }
        }
        k = k + 1;
    }
    let mut assets = Fx::zero();
    let mut liabs = Fx::zero();
    let mut k: usize = 0;
    while k < MAX_BALANCES
        invariant
            la.wf(),
            balances_in_range(la.balances@, banks@.len() as int),
            prices@.len() == banks@.len(),
            k <= MAX_BALANCES,
            forall|i: int|
                0 <= i < MAX_BALANCES && #[trigger] la.balances@[i].active
                    ==> !(prices@[la.balances@[i].bank_index as int] is None),
            health_components_spec(la.balances@, banks@, prices@, req, k as int) == Some(
                (assets.bits as int, liabs.bits as int),
            ),
        decreases MAX_BALANCES - k,
    {
        let bal = la.balances[k];
        if bal.active {
            let bank = &banks[bal.bank_index];
            let price = match prices[bal.bank_index] {
                Some(p) => p,
                None => {
                    return Err(MarginfiError::MathError);
                },
            };
            let (av, lv) = match balance_values(&bal, bank, &price, req) {
                Ok(v) => v,
                Err(e) => {
                    proof {
                        lemma_health_none_propagates(
                            la.balances@,
                            banks@,
                            prices@,
                            req,
                            k as int + 1,
                            MAX_BALANCES as int,
                        );
                    }
                    return Err(MarginfiError::MathError);
                },
            };
            assets = match assets.checked_add(av) {
                Some(v) => v,
                None => {
                    proof {
                        lemma_health_none_propagates(
                            la.balances@,
                            banks@,
                            prices@,
                            req,
                            k as int + 1,
                            MAX_BALANCES as int,
                        );
                    }
                    return Err(MarginfiError::MathError);
                },
            };
            liabs = match liabs.checked_add(lv) {
                Some(v) => v,
                None => {
                    proof {
                        lemma_health_none_propagates(
                            la.balances@,
                            banks@,
                            prices@,
                            req,
                            k as int + 1,
                            MAX_BALANCES as int,
                        );
                    }
                    return Err(MarginfiError::MathError);
                },
            };
        }
        k = k + 1;
    }
    Ok((assets, liabs))
}

} // verus!
