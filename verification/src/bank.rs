//! One isolated asset pool: its share ledger, exchange rates, vaults,
//! limits and interest-rate model.
//!
//! Deposits and borrows are not stored as token amounts.  Each pool keeps
//! two share counters and two monotone exchange rates; a balance owns
//! shares, and `shares * share_value` is the token amount it stands for.
//! Interest accrual only moves the two exchange rates, so it costs the same
//! however many accounts hold shares.
//!
//! Every conversion rounds in the direction that favours the pool:
//! minting asset shares and burning liability shares round down, burning
//! asset shares and minting liability shares round up.  Those directions
//! are what preserve the solvency relation [`Bank::solvent`].

use crate::errors::MarginfiError;
use crate::fixnum::{
    div_down_spec, div_up_spec, lemma_div_bound_exact, lemma_div_down_bound, lemma_div_up_bound,
    lemma_mul_down_bound, lemma_mul_up_bound, mul_down_spec, mul_up_spec, Fx, UNIT,
};
use crate::price::OracleSetup;
use vstd::arithmetic::mul::{lemma_mul_inequality, lemma_mul_inequality_converse};
use vstd::prelude::*;

verus! {

/// Banks whose asset carries no special treatment.
pub const ASSET_TAG_DEFAULT: u8 = 0;

/// Banks holding the native staking asset.
pub const ASSET_TAG_SOL: u8 = 1;

/// Banks holding staked-collateral tokens; created permissionlessly and
/// never borrowed from.
pub const ASSET_TAG_STAKED: u8 = 2;

/// Seconds in the protocol's interest year.
pub const SECONDS_PER_YEAR: u64 = 31_536_000;

/// Whether a bank's asset may back arbitrary debt or must stand alone.
#[derive(Clone, Copy, PartialEq, Eq, Structural, Debug)]
pub enum RiskTier {
    /// Freely combined with other collateral and debt.
    Collateral,
    /// An isolated liability may not coexist with any other liability.
    Isolated,
}

/// What the bank currently permits.
#[derive(Clone, Copy, PartialEq, Eq, Structural, Debug)]
pub enum BankOperationalState {
    /// Nothing may touch the bank.
    Paused,
    /// All actions are allowed.
    Operational,
    /// Only actions that shrink exposure are allowed.
    ReduceOnly,
}

/// The kinked interest-rate curve and the fee split.
///
/// The borrow rate is linear in utilization up to the optimal point, where
/// it reaches the plateau rate, then climbs linearly to the maximum rate at
/// full utilization.  Fees are an extra margin on top of the lender-facing
/// rate: a fraction of the base rate plus a fixed yearly rate, once for the
/// insurance fund and once for the protocol.
#[derive(Clone, Copy, PartialEq, Eq, Structural, Debug)]
pub struct InterestRateConfig {
    pub optimal_utilization_rate: Fx,
    pub plateau_interest_rate: Fx,
    pub max_interest_rate: Fx,
    pub insurance_fee_fixed_apr: Fx,
    pub insurance_ir_fee: Fx,
    pub protocol_fixed_fee_apr: Fx,
    pub protocol_ir_fee: Fx,
}

/// A bank's externally supplied parameters.
#[derive(Clone, Copy, PartialEq, Eq, Structural, Debug)]
pub struct BankConfig {
    /// Weight of this asset when admitting new risk.
    pub asset_weight_init: Fx,
    /// Weight of this asset when judging liquidation eligibility.
    pub asset_weight_maint: Fx,
    /// Weight of this debt when admitting new risk.
    pub liability_weight_init: Fx,
    /// Weight of this debt when judging liquidation eligibility.
    pub liability_weight_maint: Fx,
    /// Largest total deposit value the bank accepts, in whole tokens.
    pub deposit_limit: u64,
    /// Largest total borrowed value the bank accepts, in whole tokens.
    pub borrow_limit: u64,
    pub interest_rate_config: InterestRateConfig,
    pub operational_state: BankOperationalState,
    pub oracle_setup: OracleSetup,
    pub oracle_key: u64,
    /// Oldest price snapshot the bank accepts, in seconds.
    pub oracle_max_age: u64,
    pub risk_tier: RiskTier,
    pub asset_tag: u8,
    /// When non-zero, asset value beyond this cap (whole tokens) is
    /// excluded from initial-requirement health sums.
    pub total_asset_value_init_limit: u64,
}

/// Internal consistency of a configuration: asset weights at most one and
/// ordered, liability weights at least one and ordered, the optimal
/// utilization strictly inside (0, 1), and the rate curve non-decreasing.
pub open spec fn config_valid(c: BankConfig) -> bool {
    &&& c.asset_weight_init.bits <= c.asset_weight_maint.bits
    &&& c.asset_weight_maint.bits <= UNIT
    &&& c.liability_weight_maint.bits <= c.liability_weight_init.bits
    &&& c.liability_weight_maint.bits >= UNIT
    &&& 0 < c.interest_rate_config.optimal_utilization_rate.bits
    &&& c.interest_rate_config.optimal_utilization_rate.bits < UNIT
    &&& c.interest_rate_config.plateau_interest_rate.bits
        <= c.interest_rate_config.max_interest_rate.bits
}

impl BankConfig {
    /// Checks internal consistency; succeeds exactly on valid
    /// configurations.
    pub fn validate(&self) -> (r: Result<(), MarginfiError>)
        ensures
            config_valid(*self) <==> r == Ok::<(), MarginfiError>(()),
            !config_valid(*self) <==> r == Err::<(), MarginfiError>(MarginfiError::InvalidConfig),
    {
        let ir = &self.interest_rate_config;
        if self.asset_weight_init.bits <= self.asset_weight_maint.bits
            && self.asset_weight_maint.bits <= UNIT && self.liability_weight_maint.bits
            <= self.liability_weight_init.bits && self.liability_weight_maint.bits >= UNIT && 0
            < ir.optimal_utilization_rate.bits && ir.optimal_utilization_rate.bits < UNIT
            && ir.plateau_interest_rate.bits <= ir.max_interest_rate.bits {
            Ok(())
        } else {
            Err(MarginfiError::InvalidConfig)
        }
    }
}

/// Fields a ledger movement never touches: configuration, exchange rates,
/// accrual clock, fee tallies and the insurance vault.
pub open spec fn same_config_and_rates(pre: Bank, post: Bank) -> bool {
    &&& post.config == pre.config
    &&& post.asset_share_value == pre.asset_share_value
    &&& post.liability_share_value == pre.liability_share_value
    &&& post.last_update == pre.last_update
    &&& post.collected_insurance_fees_outstanding == pre.collected_insurance_fees_outstanding
    &&& post.collected_protocol_fees_outstanding == pre.collected_protocol_fees_outstanding
    &&& post.insurance_vault_balance == pre.insurance_vault_balance
}

/// Shares minted by a deposit of `amount`: the floor of `amount` over the
/// asset share value.
pub open spec fn deposit_shares_spec(pre: Bank, amount: Fx) -> int {
    div_down_spec(amount.bits as int, pre.asset_share_value.bits as int)
}

/// All intermediate values of a deposit stay within 128 bits.
pub open spec fn deposit_fits(pre: Bank, amount: Fx) -> bool {
    let s = deposit_shares_spec(pre, amount);
    &&& s <= u128::MAX as int
    &&& pre.total_asset_shares.bits + s <= u128::MAX as int
    &&& mul_up_spec(pre.total_asset_shares.bits + s, pre.asset_share_value.bits as int)
        <= u128::MAX as int
    &&& pre.liquidity_vault_balance.bits + amount.bits <= u128::MAX as int
}

/// The deposit leaves the bank's total asset value within its deposit
/// limit.
pub open spec fn deposit_within_limit(pre: Bank, amount: Fx) -> bool {
    mul_up_spec(
        pre.total_asset_shares.bits + deposit_shares_spec(pre, amount),
        pre.asset_share_value.bits as int,
    ) <= pre.config.deposit_limit * (UNIT as int)
}

/// Shares burned by a withdrawal of `amount`: the ceiling of `amount` over
/// the asset share value.
pub open spec fn withdraw_shares_spec(pre: Bank, amount: Fx) -> int {
    div_up_spec(amount.bits as int, pre.asset_share_value.bits as int)
}

/// Shares minted by a borrow of `amount`: the ceiling of `amount` over the
/// liability share value.
pub open spec fn borrow_shares_spec(pre: Bank, amount: Fx) -> int {
    div_up_spec(amount.bits as int, pre.liability_share_value.bits as int)
}

/// All intermediate values of a borrow stay within 128 bits.
pub open spec fn borrow_fits(pre: Bank, amount: Fx) -> bool {
    let s = borrow_shares_spec(pre, amount);
    &&& s <= u128::MAX as int
    &&& pre.total_liability_shares.bits + s <= u128::MAX as int
    &&& mul_up_spec(pre.total_liability_shares.bits + s, pre.liability_share_value.bits as int)
        <= u128::MAX as int
}

/// The borrow leaves the bank's total debt value within its borrow limit.
pub open spec fn borrow_within_limit(pre: Bank, amount: Fx) -> bool {
    mul_up_spec(
        pre.total_liability_shares.bits + borrow_shares_spec(pre, amount),
        pre.liability_share_value.bits as int,
    ) <= pre.config.borrow_limit * (UNIT as int)
}

/// Shares burned by a repayment of `amount`: the floor of `amount` over the
/// liability share value.
pub open spec fn repay_shares_spec(pre: Bank, amount: Fx) -> int {
    div_down_spec(amount.bits as int, pre.liability_share_value.bits as int)
}

/// Token value of asset shares, rounded down: what a full withdrawal of
/// them pays out.
pub open spec fn shares_asset_value_spec(pre: Bank, shares: Fx) -> int {
    mul_down_spec(shares.bits as int, pre.asset_share_value.bits as int)
}

/// Token value of liability shares, rounded up: what settling them costs.
pub open spec fn shares_liability_value_spec(pre: Bank, shares: Fx) -> int {
    mul_up_spec(shares.bits as int, pre.liability_share_value.bits as int)
}

/// The bank's total deposit value, rounded up.
pub open spec fn asset_total_up_spec(b: Bank) -> int {
    mul_up_spec(b.total_asset_shares.bits as int, b.asset_share_value.bits as int)
}

/// The bank's total debt value, rounded down.
pub open spec fn liab_total_down_spec(b: Bank) -> int {
    mul_down_spec(b.total_liability_shares.bits as int, b.liability_share_value.bits as int)
}

/// Utilization: debt value over deposit value, rounded down; zero when the
/// bank holds no deposits.
pub open spec fn utilization_spec(b: Bank) -> int {
    if asset_total_up_spec(b) == 0 {
        0
    } else {
        div_down_spec(liab_total_down_spec(b), asset_total_up_spec(b))
    }
}

/// The kinked base borrow rate at the bank's current utilization: linear up
/// to the optimal point, then a steeper line to the maximum rate at full
/// utilization.
pub open spec fn base_rate_spec(b: Bank) -> int {
    let ur = utilization_spec(b);
    let ir = b.config.interest_rate_config;
    if ur <= ir.optimal_utilization_rate.bits {
        div_down_spec(
            mul_down_spec(ur, ir.plateau_interest_rate.bits as int),
            ir.optimal_utilization_rate.bits as int,
        )
    } else {
        ir.plateau_interest_rate.bits + div_down_spec(
            mul_down_spec(
                ur - ir.optimal_utilization_rate.bits,
                ir.max_interest_rate.bits - ir.plateau_interest_rate.bits,
            ),
            UNIT - ir.optimal_utilization_rate.bits,
        )
    }
}

/// Yearly rate of the insurance fee: its share of the base rate plus its
/// fixed part.
pub open spec fn ins_rate_spec(b: Bank) -> int {
    mul_down_spec(base_rate_spec(b), b.config.interest_rate_config.insurance_ir_fee.bits as int)
        + b.config.interest_rate_config.insurance_fee_fixed_apr.bits
}

/// Yearly rate of the protocol fee.
pub open spec fn prot_rate_spec(b: Bank) -> int {
    mul_down_spec(base_rate_spec(b), b.config.interest_rate_config.protocol_ir_fee.bits as int)
        + b.config.interest_rate_config.protocol_fixed_fee_apr.bits
}

/// The full borrower rate: base rate plus both fee rates.
pub open spec fn borrow_rate_spec(b: Bank) -> int {
    base_rate_spec(b) + ins_rate_spec(b) + prot_rate_spec(b)
}

/// Base-rate growth factor over `dt` seconds, rounded down.
pub open spec fn f_base_spec(b: Bank, dt: int) -> int {
    (base_rate_spec(b) * dt) / (SECONDS_PER_YEAR as int)
}

/// Insurance-fee growth factor over `dt` seconds, rounded down.
pub open spec fn f_ins_spec(b: Bank, dt: int) -> int {
    (ins_rate_spec(b) * dt) / (SECONDS_PER_YEAR as int)
}

/// Protocol-fee growth factor over `dt` seconds, rounded down.
pub open spec fn f_prot_spec(b: Bank, dt: int) -> int {
    (prot_rate_spec(b) * dt) / (SECONDS_PER_YEAR as int)
}

/// Borrower growth factor over `dt` seconds, rounded up: debt never grows
/// slower than the lender and fee sides together.
pub open spec fn f_liab_spec(b: Bank, dt: int) -> int {
    (borrow_rate_spec(b) * dt + SECONDS_PER_YEAR as int - 1) / (SECONDS_PER_YEAR as int)
}

/// Lender growth factor: the base factor scaled by utilization, rounded
/// down.
pub open spec fn f_lend_spec(b: Bank, dt: int) -> int {
    mul_down_spec(f_base_spec(b, dt), utilization_spec(b))
}

/// What accrual adds to the asset share value.
pub open spec fn accrual_asv_delta(b: Bank, dt: int) -> int {
    mul_down_spec(b.asset_share_value.bits as int, f_lend_spec(b, dt))
}

/// What accrual adds to the liability share value.
pub open spec fn accrual_lsv_delta(b: Bank, dt: int) -> int {
    mul_up_spec(b.liability_share_value.bits as int, f_liab_spec(b, dt))
}

/// What accrual adds to the outstanding insurance fees.
pub open spec fn accrual_ins_fee(b: Bank, dt: int) -> int {
    mul_down_spec(liab_total_down_spec(b), f_ins_spec(b, dt))
}

/// What accrual adds to the outstanding protocol fees.
pub open spec fn accrual_prot_fee(b: Bank, dt: int) -> int {
    mul_down_spec(liab_total_down_spec(b), f_prot_spec(b, dt))
}

/// The base-rate computation stays within 128 bits.
pub open spec fn base_rate_fits(b: Bank) -> bool {
    let ur = utilization_spec(b);
    let ir = b.config.interest_rate_config;
    if ur <= ir.optimal_utilization_rate.bits {
        &&& mul_down_spec(ur, ir.plateau_interest_rate.bits as int) <= u128::MAX as int
        &&& base_rate_spec(b) <= u128::MAX as int
    } else {
        &&& mul_down_spec(
            ur - ir.optimal_utilization_rate.bits,
            ir.max_interest_rate.bits - ir.plateau_interest_rate.bits,
        ) <= u128::MAX as int
        &&& base_rate_spec(b) <= u128::MAX as int
    }
}

/// Every intermediate value of an accrual over `dt` seconds stays within
/// 128 bits; on these inputs accrual succeeds.
pub open spec fn accrual_fits(b: Bank, dt: int) -> bool {
    &&& asset_total_up_spec(b) <= u128::MAX as int
    &&& liab_total_down_spec(b) <= u128::MAX as int
    &&& utilization_spec(b) <= u128::MAX as int
    &&& base_rate_fits(b)
    &&& ins_rate_spec(b) <= u128::MAX as int
    &&& prot_rate_spec(b) <= u128::MAX as int
    &&& borrow_rate_spec(b) <= u128::MAX as int
    &&& borrow_rate_spec(b) * dt <= u128::MAX as int - (SECONDS_PER_YEAR as int - 1)
    &&& f_lend_spec(b, dt) <= u128::MAX as int
    &&& accrual_asv_delta(b, dt) <= u128::MAX as int
    &&& b.asset_share_value.bits + accrual_asv_delta(b, dt) <= u128::MAX as int
    &&& accrual_lsv_delta(b, dt) <= u128::MAX as int
    &&& b.liability_share_value.bits + accrual_lsv_delta(b, dt) <= u128::MAX as int
    &&& accrual_ins_fee(b, dt) <= u128::MAX as int
    &&& b.collected_insurance_fees_outstanding.bits + accrual_ins_fee(b, dt) <= u128::MAX as int
    &&& accrual_prot_fee(b, dt) <= u128::MAX as int
    &&& b.collected_protocol_fees_outstanding.bits + accrual_prot_fee(b, dt) <= u128::MAX as int
}

/// The state a fresh pool starts in: no shares, unit exchange rates, empty
/// vaults.
pub open spec fn fresh_bank(config: BankConfig, now: u64) -> Bank {
    Bank {
        config,
        total_asset_shares: Fx { bits: 0 },
        total_liability_shares: Fx { bits: 0 },
        asset_share_value: Fx { bits: UNIT },
        liability_share_value: Fx { bits: UNIT },
        liquidity_vault_balance: Fx { bits: 0 },
        insurance_vault_balance: Fx { bits: 0 },
        collected_insurance_fees_outstanding: Fx { bits: 0 },
        collected_protocol_fees_outstanding: Fx { bits: 0 },
        last_update: now,
    }
}

/// One asset pool.
#[derive(Clone, Copy, PartialEq, Eq, Structural, Debug)]
pub struct Bank {
    pub config: BankConfig,
    /// Shares standing for all deposits.
    pub total_asset_shares: Fx,
    /// Shares standing for all debt.
    pub total_liability_shares: Fx,
    /// Token value of one asset share; never decreased by accrual.
    pub asset_share_value: Fx,
    /// Token value of one liability share; never decreased at all.
    pub liability_share_value: Fx,
    /// Tokens sitting in the pool's liquidity vault.
    pub liquidity_vault_balance: Fx,
    /// Tokens sitting in the pool's insurance vault.
    pub insurance_vault_balance: Fx,
    /// Insurance fees accrued but not yet moved out of the liquidity vault.
    pub collected_insurance_fees_outstanding: Fx,
    /// Protocol fees accrued but not yet moved out of the liquidity vault.
    pub collected_protocol_fees_outstanding: Fx,
    /// When interest was last accrued.
    pub last_update: u64,
}

impl Bank {
    /// Structural soundness: a valid configuration and positive exchange
    /// rates, so share/amount conversion is always defined.  The liability
    /// rate starts at one and only ever grows; the asset rate stays
    /// positive but may fall below one under loss socialization.
    pub open spec fn wf(self) -> bool {
        &&& config_valid(self.config)
        &&& self.asset_share_value.bits > 0
        &&& self.liability_share_value.bits >= UNIT
    }

    /// Everything the pool owes or has earmarked, at scale 2^96: the token
    /// value of all asset shares plus the outstanding fee claims.
    pub open spec fn claims(self) -> int {
        self.total_asset_shares.bits * self.asset_share_value.bits
            + (self.collected_insurance_fees_outstanding.bits
            + self.collected_protocol_fees_outstanding.bits) * (UNIT as int)
    }

    /// Everything backing those claims, at scale 2^96: the token value of
    /// all debt owed to the pool plus the tokens in its liquidity vault.
    pub open spec fn backing(self) -> int {
        self.total_liability_shares.bits * self.liability_share_value.bits
            + self.liquidity_vault_balance.bits * (UNIT as int)
    }

    /// The pool can meet all claims on it from its vault and its
    /// outstanding debt.
    pub open spec fn solvent(self) -> bool {
        self.claims() <= self.backing()
    }

    /// A fresh pool: no shares, unit exchange rates, empty vaults.
    pub fn new(config: BankConfig, now: u64) -> (r: Bank)
        ensures
            r == fresh_bank(config, now),
            r.config == config,
            r.total_asset_shares.bits == 0,
            r.total_liability_shares.bits == 0,
            r.asset_share_value.bits == UNIT,
            r.liability_share_value.bits == UNIT,
            r.liquidity_vault_balance.bits == 0,
            r.insurance_vault_balance.bits == 0,
            r.collected_insurance_fees_outstanding.bits == 0,
            r.collected_protocol_fees_outstanding.bits == 0,
            r.last_update == now,
            config_valid(config) ==> r.wf(),
            r.solvent(),
    {
        let r = Bank {
            config,
            total_asset_shares: Fx::zero(),
            total_liability_shares: Fx::zero(),
            asset_share_value: Fx::one(),
            liability_share_value: Fx::one(),
            liquidity_vault_balance: Fx::zero(),
            insurance_vault_balance: Fx::zero(),
            collected_insurance_fees_outstanding: Fx::zero(),
            collected_protocol_fees_outstanding: Fx::zero(),
            last_update: now,
        };
        proof {
            assert(r.claims() == 0 && r.backing() == 0) by (nonlinear_arith)
                requires
                    r.total_asset_shares.bits == 0,
                    r.total_liability_shares.bits == 0,
                    r.collected_insurance_fees_outstanding.bits == 0,
                    r.collected_protocol_fees_outstanding.bits == 0,
                    r.liquidity_vault_balance.bits == 0,
                    r.claims() == r.total_asset_shares.bits * r.asset_share_value.bits + (
                    r.collected_insurance_fees_outstanding.bits
                        + r.collected_protocol_fees_outstanding.bits) * (UNIT as int),
                    r.backing() == r.total_liability_shares.bits * r.liability_share_value.bits
                        + r.liquidity_vault_balance.bits * (UNIT as int),
            ;
        }
        r
    }

    /// Token amount the given asset shares stand for, rounded down.
    pub fn get_asset_amount(&self, shares: Fx) -> (r: Result<Fx, MarginfiError>)
        ensures
            (mul_down_spec(shares.bits as int, self.asset_share_value.bits as int)
                <= u128::MAX as int) ==> (r == Ok::<Fx, MarginfiError>(
                Fx {
                    bits: mul_down_spec(
                        shares.bits as int,
                        self.asset_share_value.bits as int,
                    ) as u128,
                },
            )),
            (mul_down_spec(shares.bits as int, self.asset_share_value.bits as int)
                > u128::MAX as int) ==> (r == Err::<Fx, MarginfiError>(MarginfiError::MathError)),
    {
        match shares.mul_down(self.asset_share_value) {
            Some(v) => Ok(v),
            None => Err(MarginfiError::MathError),
        }
    }

    /// Token amount the given liability shares stand for, rounded up: a
    /// debtor owes the ceiling of the exact value.
    pub fn get_liability_amount(&self, shares: Fx) -> (r: Result<Fx, MarginfiError>)
        ensures
            (mul_up_spec(shares.bits as int, self.liability_share_value.bits as int)
                <= u128::MAX as int) ==> (r == Ok::<Fx, MarginfiError>(
                Fx {
                    bits: mul_up_spec(
                        shares.bits as int,
                        self.liability_share_value.bits as int,
                    ) as u128,
                },
            )),
            (mul_up_spec(shares.bits as int, self.liability_share_value.bits as int)
                > u128::MAX as int) ==> (r == Err::<Fx, MarginfiError>(MarginfiError::MathError)),
    {
        match shares.mul_up(self.liability_share_value) {
            Some(v) => Ok(v),
            None => Err(MarginfiError::MathError),
        }
    }

    /// Asset shares worth the given token amount, rounded down: minting on
    /// deposit never credits more than was paid in.
    pub fn get_asset_shares(&self, amount: Fx) -> (r: Result<Fx, MarginfiError>)
        requires
            self.wf(),
        ensures
            (div_down_spec(amount.bits as int, self.asset_share_value.bits as int)
                <= u128::MAX as int) ==> (r == Ok::<Fx, MarginfiError>(
                Fx {
                    bits: div_down_spec(
                        amount.bits as int,
                        self.asset_share_value.bits as int,
                    ) as u128,
                },
            )),
            (div_down_spec(amount.bits as int, self.asset_share_value.bits as int)
                > u128::MAX as int) ==> (r == Err::<Fx, MarginfiError>(MarginfiError::MathError)),
    {
        match amount.div_down(self.asset_share_value) {
            Some(v) => Ok(v),
            None => Err(MarginfiError::MathError),
        }
    }

    /// Liability shares worth the given token amount, rounded up: minting
    /// on borrow never records less debt than was paid out.
    pub fn get_liability_shares(&self, amount: Fx) -> (r: Result<Fx, MarginfiError>)
        requires
            self.wf(),
        ensures
            (div_up_spec(amount.bits as int, self.liability_share_value.bits as int)
                <= u128::MAX as int) ==> (r == Ok::<Fx, MarginfiError>(
                Fx {
                    bits: div_up_spec(
                        amount.bits as int,
                        self.liability_share_value.bits as int,
                    ) as u128,
                },
            )),
            (div_up_spec(amount.bits as int, self.liability_share_value.bits as int)
                > u128::MAX as int) ==> (r == Err::<Fx, MarginfiError>(MarginfiError::MathError)),
    {
        match amount.div_up(self.liability_share_value) {
            Some(v) => Ok(v),
            None => Err(MarginfiError::MathError),
        }
    }

    /// Accepts `amount` tokens into the vault and mints asset shares for
    /// them, rounding the minted shares down.  Fails on arithmetic overflow
    /// and when the bank's total asset value would exceed its deposit
    /// limit; on failure the bank is untouched.
    pub fn deposit(&mut self, amount: Fx) -> (r: Result<Fx, MarginfiError>)
        requires
            old(self).wf(),
        ensures
            final(self).wf(),
            r is Err ==> *final(self) == *old(self),
            !deposit_fits(*old(self), amount) ==> r == Err::<Fx, MarginfiError>(
                MarginfiError::MathError,
            ),
            deposit_fits(*old(self), amount) && !deposit_within_limit(*old(self), amount) ==> r
                == Err::<Fx, MarginfiError>(MarginfiError::BankAssetCapacityExceeded),
            deposit_fits(*old(self), amount) && deposit_within_limit(*old(self), amount) ==> {
                &&& r == Ok::<Fx, MarginfiError>(
                    Fx { bits: deposit_shares_spec(*old(self), amount) as u128 },
                )
                &&& final(self).total_asset_shares.bits == old(self).total_asset_shares.bits
                    + deposit_shares_spec(*old(self), amount)
                &&& final(self).liquidity_vault_balance.bits
                    == old(self).liquidity_vault_balance.bits + amount.bits
                &&& final(self).total_liability_shares == old(self).total_liability_shares
                &&& same_config_and_rates(*old(self), *final(self))
            },
            old(self).solvent() ==> final(self).solvent(),
    {
        let shares = match amount.div_down(self.asset_share_value) {
            Some(s) => s,
            None => {
                return Err(MarginfiError::MathError);
            },
        };
        let new_total = match self.total_asset_shares.checked_add(shares) {
            Some(t) => t,
            None => {
                return Err(MarginfiError::MathError);
            },
        };
        let total_value = match new_total.mul_up(self.asset_share_value) {
            Some(v) => v,
            None => {
                return Err(MarginfiError::MathError);
            },
        };
        let new_cash = match self.liquidity_vault_balance.checked_add(amount) {
            Some(c) => c,
            None => {
                return Err(MarginfiError::MathError);
            },
        };
        if total_value.bits > (self.config.deposit_limit as u128) * UNIT {
            return Err(MarginfiError::BankAssetCapacityExceeded);
        }
        proof {
            let pre = *self;
            lemma_div_down_bound(amount.bits as int, self.asset_share_value.bits as int);
            assert((pre.total_asset_shares.bits + shares.bits) * pre.asset_share_value.bits
                == pre.total_asset_shares.bits * pre.asset_share_value.bits + shares.bits
                * pre.asset_share_value.bits) by (nonlinear_arith);
        }
        self.total_asset_shares = new_total;
        self.liquidity_vault_balance = new_cash;
        Ok(shares)
    }

    /// Pays `amount` tokens out of the vault and burns the asset shares
    /// they cost, rounding the burned shares up.  Fails on overflow, when
    /// the pool holds fewer shares than would burn, and when the vault
    /// lacks the tokens; on failure the bank is untouched.
    pub fn withdraw_amount(&mut self, amount: Fx) -> (r: Result<Fx, MarginfiError>)
        requires
            old(self).wf(),
        ensures
            final(self).wf(),
            r is Err ==> *final(self) == *old(self),
            withdraw_shares_spec(*old(self), amount) > u128::MAX as int ==> r == Err::<
                Fx,
                MarginfiError,
            >(MarginfiError::MathError),
            withdraw_shares_spec(*old(self), amount) <= u128::MAX as int && withdraw_shares_spec(
                *old(self),
                amount,
            ) > old(self).total_asset_shares.bits ==> r == Err::<Fx, MarginfiError>(
                MarginfiError::MathError,
            ),
            withdraw_shares_spec(*old(self), amount) <= old(self).total_asset_shares.bits
                && amount.bits > old(self).liquidity_vault_balance.bits ==> r == Err::<
                Fx,
                MarginfiError,
            >(MarginfiError::BankLiquidityInsufficient),
            withdraw_shares_spec(*old(self), amount) <= old(self).total_asset_shares.bits
                && amount.bits <= old(self).liquidity_vault_balance.bits ==> {
                &&& r == Ok::<Fx, MarginfiError>(
                    Fx { bits: withdraw_shares_spec(*old(self), amount) as u128 },
                )
                &&& final(self).total_asset_shares.bits == old(self).total_asset_shares.bits
                    - withdraw_shares_spec(*old(self), amount)
                &&& final(self).liquidity_vault_balance.bits
                    == old(self).liquidity_vault_balance.bits - amount.bits
                &&& final(self).total_liability_shares == old(self).total_liability_shares
                &&& same_config_and_rates(*old(self), *final(self))
            },
            old(self).solvent() ==> final(self).solvent(),
    {
        let shares = match amount.div_up(self.asset_share_value) {
            Some(s) => s,
            None => {
                return Err(MarginfiError::MathError);
            },
        };
        if shares.bits > self.total_asset_shares.bits {
            return Err(MarginfiError::MathError);
        }
        if amount.bits > self.liquidity_vault_balance.bits {
            return Err(MarginfiError::BankLiquidityInsufficient);
        }
        proof {
            let pre = *self;
            lemma_div_up_bound(amount.bits as int, self.asset_share_value.bits as int);
            assert((pre.total_asset_shares.bits - shares.bits) * pre.asset_share_value.bits
                == pre.total_asset_shares.bits * pre.asset_share_value.bits - shares.bits
                * pre.asset_share_value.bits) by (nonlinear_arith);
        }
        self.total_asset_shares = Fx { bits: self.total_asset_shares.bits - shares.bits };
        self.liquidity_vault_balance = Fx { bits: self.liquidity_vault_balance.bits - amount.bits };
        Ok(shares)
    }

    /// Burns the given asset shares and pays out their token value, rounded
    /// down.  Fails on overflow, when the pool holds fewer shares, and when
    /// the vault lacks the tokens; on failure the bank is untouched.
    pub fn withdraw_shares(&mut self, shares: Fx) -> (r: Result<Fx, MarginfiError>)
        requires
            old(self).wf(),
        ensures
            final(self).wf(),
            r is Err ==> *final(self) == *old(self),
            r is Ok ==> {
                &&& r == Ok::<Fx, MarginfiError>(
                    Fx { bits: shares_asset_value_spec(*old(self), shares) as u128 },
                )
                &&& final(self).total_asset_shares.bits == old(self).total_asset_shares.bits
                    - shares.bits
                &&& final(self).liquidity_vault_balance.bits
                    == old(self).liquidity_vault_balance.bits - shares_asset_value_spec(
                    *old(self),
                    shares,
                )
                &&& final(self).total_liability_shares == old(self).total_liability_shares
                &&& same_config_and_rates(*old(self), *final(self))
            },
            (shares.bits <= old(self).total_asset_shares.bits && shares_asset_value_spec(
                *old(self),
                shares,
            ) <= old(self).liquidity_vault_balance.bits) <==> (r is Ok),
            old(self).solvent() ==> final(self).solvent(),
    {
        let amount = match shares.mul_down(self.asset_share_value) {
            Some(v) => v,
            None => {
                proof {
                    lemma_mul_down_bound(
                        shares.bits as int,
                        self.asset_share_value.bits as int,
                    );
                }
                return Err(MarginfiError::MathError);
            },
        };
        if shares.bits > self.total_asset_shares.bits {
            return Err(MarginfiError::MathError);
        }
        if amount.bits > self.liquidity_vault_balance.bits {
            return Err(MarginfiError::BankLiquidityInsufficient);
        }
        proof {
            let pre = *self;
            lemma_mul_down_bound(shares.bits as int, self.asset_share_value.bits as int);
            assert((pre.total_asset_shares.bits - shares.bits) * pre.asset_share_value.bits
                == pre.total_asset_shares.bits * pre.asset_share_value.bits - shares.bits
                * pre.asset_share_value.bits) by (nonlinear_arith);
        }
        self.total_asset_shares = Fx { bits: self.total_asset_shares.bits - shares.bits };
        self.liquidity_vault_balance = Fx { bits: self.liquidity_vault_balance.bits - amount.bits };
        Ok(amount)
    }

    /// Pays `amount` tokens out of the vault and mints liability shares for
    /// the debt, rounding the minted shares up.  Fails on overflow, beyond
    /// the borrow limit, and when the vault lacks the tokens; on failure
    /// the bank is untouched.
    pub fn borrow(&mut self, amount: Fx) -> (r: Result<Fx, MarginfiError>)
        requires
            old(self).wf(),
        ensures
            final(self).wf(),
            r is Err ==> *final(self) == *old(self),
            !borrow_fits(*old(self), amount) ==> r == Err::<Fx, MarginfiError>(
                MarginfiError::MathError,
            ),
            borrow_fits(*old(self), amount) && !borrow_within_limit(*old(self), amount) ==> r
                == Err::<Fx, MarginfiError>(MarginfiError::BankLiabilityCapacityExceeded),
            borrow_fits(*old(self), amount) && borrow_within_limit(*old(self), amount)
                && amount.bits > old(self).liquidity_vault_balance.bits ==> r == Err::<
                Fx,
                MarginfiError,
            >(MarginfiError::BankLiquidityInsufficient),
            borrow_fits(*old(self), amount) && borrow_within_limit(*old(self), amount)
                && amount.bits <= old(self).liquidity_vault_balance.bits ==> {
                &&& r == Ok::<Fx, MarginfiError>(
                    Fx { bits: borrow_shares_spec(*old(self), amount) as u128 },
                )
                &&& final(self).total_liability_shares.bits
                    == old(self).total_liability_shares.bits + borrow_shares_spec(
                    *old(self),
                    amount,
                )
                &&& final(self).liquidity_vault_balance.bits
                    == old(self).liquidity_vault_balance.bits - amount.bits
                &&& final(self).total_asset_shares == old(self).total_asset_shares
                &&& same_config_and_rates(*old(self), *final(self))
            },
            old(self).solvent() ==> final(self).solvent(),
    {
        let shares = match amount.div_up(self.liability_share_value) {
            Some(s) => s,
            None => {
                return Err(MarginfiError::MathError);
            },
        };
        let new_total = match self.total_liability_shares.checked_add(shares) {
            Some(t) => t,
            None => {
                return Err(MarginfiError::MathError);
            },
        };
        let total_value = match new_total.mul_up(self.liability_share_value) {
            Some(v) => v,
            None => {
                return Err(MarginfiError::MathError);
            },
        };
        if total_value.bits > (self.config.borrow_limit as u128) * UNIT {
            return Err(MarginfiError::BankLiabilityCapacityExceeded);
        }
        if amount.bits > self.liquidity_vault_balance.bits {
            return Err(MarginfiError::BankLiquidityInsufficient);
        }
        proof {
            let pre = *self;
            lemma_div_up_bound(amount.bits as int, self.liability_share_value.bits as int);
            assert((pre.total_liability_shares.bits + shares.bits) * pre.liability_share_value.bits
                == pre.total_liability_shares.bits * pre.liability_share_value.bits + shares.bits
                * pre.liability_share_value.bits) by (nonlinear_arith);
        }
        self.total_liability_shares = new_total;
        self.liquidity_vault_balance = Fx { bits: self.liquidity_vault_balance.bits - amount.bits };
        Ok(shares)
    }

    /// Accepts `amount` tokens into the vault and burns the liability
    /// shares they pay off, rounding the burned shares down.  Fails on
    /// overflow and when the pool records less debt than would burn; on
    /// failure the bank is untouched.
    pub fn repay_amount(&mut self, amount: Fx) -> (r: Result<Fx, MarginfiError>)
        requires
            old(self).wf(),
        ensures
            final(self).wf(),
            r is Err ==> *final(self) == *old(self),
            r is Err ==> r == Err::<Fx, MarginfiError>(MarginfiError::MathError),
            (repay_shares_spec(*old(self), amount) <= old(self).total_liability_shares.bits
                && old(self).liquidity_vault_balance.bits + amount.bits <= u128::MAX as int) <==> r
                is Ok,
            r is Ok ==> {
                &&& r == Ok::<Fx, MarginfiError>(
                    Fx { bits: repay_shares_spec(*old(self), amount) as u128 },
                )
                &&& final(self).total_liability_shares.bits
                    == old(self).total_liability_shares.bits - repay_shares_spec(
                    *old(self),
                    amount,
                )
                &&& final(self).liquidity_vault_balance.bits
                    == old(self).liquidity_vault_balance.bits + amount.bits
                &&& final(self).total_asset_shares == old(self).total_asset_shares
                &&& same_config_and_rates(*old(self), *final(self))
            },
            old(self).solvent() ==> final(self).solvent(),
    {
        let shares = match amount.div_down(self.liability_share_value) {
            Some(s) => s,
            None => {
                proof {
                    lemma_div_down_bound(
                        amount.bits as int,
                        self.liability_share_value.bits as int,
                    );
                }
                return Err(MarginfiError::MathError);
            },
        };
        if shares.bits > self.total_liability_shares.bits {
            return Err(MarginfiError::MathError);
        }
        let new_cash = match self.liquidity_vault_balance.checked_add(amount) {
            Some(c) => c,
            None => {
                return Err(MarginfiError::MathError);
            },
        };
        proof {
            let pre = *self;
            lemma_div_down_bound(amount.bits as int, self.liability_share_value.bits as int);
            assert((pre.total_liability_shares.bits - shares.bits) * pre.liability_share_value.bits
                == pre.total_liability_shares.bits * pre.liability_share_value.bits - shares.bits
                * pre.liability_share_value.bits) by (nonlinear_arith);
        }
        self.total_liability_shares = Fx { bits: self.total_liability_shares.bits - shares.bits };
        self.liquidity_vault_balance = new_cash;
        Ok(shares)
    }

    /// Accepts into the vault the token value of the given liability shares
    /// (rounded up, as the debtor owes it) and burns them.  Used to settle
    /// a debt in full.  Fails on overflow and when the pool records less
    /// debt than would burn; on failure the bank is untouched.
    pub fn repay_shares(&mut self, shares: Fx) -> (r: Result<Fx, MarginfiError>)
        requires
            old(self).wf(),
        ensures
            final(self).wf(),
            r is Err ==> *final(self) == *old(self),
            r is Err ==> r == Err::<Fx, MarginfiError>(MarginfiError::MathError),
            r is Ok ==> {
                &&& r == Ok::<Fx, MarginfiError>(
                    Fx { bits: shares_liability_value_spec(*old(self), shares) as u128 },
                )
                &&& final(self).total_liability_shares.bits
                    == old(self).total_liability_shares.bits - shares.bits
                &&& final(self).liquidity_vault_balance.bits
                    == old(self).liquidity_vault_balance.bits + shares_liability_value_spec(
                    *old(self),
                    shares,
                )
                &&& final(self).total_asset_shares == old(self).total_asset_shares
                &&& same_config_and_rates(*old(self), *final(self))
            },
            (shares_liability_value_spec(*old(self), shares) <= u128::MAX as int && shares.bits
                <= old(self).total_liability_shares.bits && old(self).liquidity_vault_balance.bits
                + shares_liability_value_spec(*old(self), shares) <= u128::MAX as int) <==> (r
                is Ok),
            old(self).solvent() ==> final(self).solvent(),
    {
        let amount = match shares.mul_up(self.liability_share_value) {
            Some(v) => v,
            None => {
                proof {
                    lemma_mul_up_bound(shares.bits as int, self.liability_share_value.bits as int);
                }
                return Err(MarginfiError::MathError);
            },
        };
        if shares.bits > self.total_liability_shares.bits {
            return Err(MarginfiError::MathError);
        }
        let new_cash = match self.liquidity_vault_balance.checked_add(amount) {
            Some(c) => c,
            None => {
                return Err(MarginfiError::MathError);
            },
        };
        proof {
            let pre = *self;
            lemma_mul_up_bound(shares.bits as int, self.liability_share_value.bits as int);
            assert((pre.total_liability_shares.bits - shares.bits) * pre.liability_share_value.bits
                == pre.total_liability_shares.bits * pre.liability_share_value.bits - shares.bits
                * pre.liability_share_value.bits) by (nonlinear_arith);
        }
        self.total_liability_shares = Fx { bits: self.total_liability_shares.bits - shares.bits };
        self.liquidity_vault_balance = new_cash;
        Ok(amount)
    }

    /// Records new debt worth `amount` without moving tokens, rounding the
    /// minted shares up.  A liquidator taking over a position pays this
    /// way; the tokens never leave the pool.  On failure the bank is
    /// untouched.
    pub fn take_on_liability(&mut self, amount: Fx) -> (r: Result<Fx, MarginfiError>)
        requires
            old(self).wf(),
        ensures
            final(self).wf(),
            r is Err ==> *final(self) == *old(self) && r == Err::<Fx, MarginfiError>(
                MarginfiError::MathError,
            ),
            (borrow_shares_spec(*old(self), amount) <= u128::MAX as int && old(
                self,
            ).total_liability_shares.bits + borrow_shares_spec(*old(self), amount)
                <= u128::MAX as int) <==> (r is Ok),
            r is Ok ==> {
                &&& r == Ok::<Fx, MarginfiError>(
                    Fx { bits: borrow_shares_spec(*old(self), amount) as u128 },
                )
                &&& final(self).total_liability_shares.bits
                    == old(self).total_liability_shares.bits + borrow_shares_spec(
                    *old(self),
                    amount,
                )
                &&& final(self).total_asset_shares == old(self).total_asset_shares
                &&& final(self).liquidity_vault_balance == old(self).liquidity_vault_balance
                &&& same_config_and_rates(*old(self), *final(self))
                &&& final(self).backing() >= old(self).backing() + amount.bits * (UNIT as int)
            },
            old(self).solvent() ==> final(self).solvent(),
    {
        let shares = match amount.div_up(self.liability_share_value) {
            Some(s) => s,
            None => {
                return Err(MarginfiError::MathError);
            },
        };
        let new_total = match self.total_liability_shares.checked_add(shares) {
            Some(t) => t,
            None => {
                return Err(MarginfiError::MathError);
            },
        };
        proof {
            let pre = *self;
            lemma_div_up_bound(amount.bits as int, self.liability_share_value.bits as int);
            assert((pre.total_liability_shares.bits + shares.bits) * pre.liability_share_value.bits
                == pre.total_liability_shares.bits * pre.liability_share_value.bits + shares.bits
                * pre.liability_share_value.bits) by (nonlinear_arith);
        }
        self.total_liability_shares = new_total;
        Ok(shares)
    }

    /// Erases debt worth `amount` without moving tokens, rounding the
    /// burned shares down.  A liquidated debtor is relieved this way.  On
    /// failure the bank is untouched.
    pub fn relieve_liability(&mut self, amount: Fx) -> (r: Result<Fx, MarginfiError>)
        requires
            old(self).wf(),
        ensures
            final(self).wf(),
            r is Err ==> *final(self) == *old(self) && r == Err::<Fx, MarginfiError>(
                MarginfiError::MathError,
            ),
            (repay_shares_spec(*old(self), amount) <= old(self).total_liability_shares.bits) <==> (
            r is Ok),
            r is Ok ==> {
                &&& r == Ok::<Fx, MarginfiError>(
                    Fx { bits: repay_shares_spec(*old(self), amount) as u128 },
                )
                &&& final(self).total_liability_shares.bits
                    == old(self).total_liability_shares.bits - repay_shares_spec(
                    *old(self),
                    amount,
                )
                &&& final(self).total_asset_shares == old(self).total_asset_shares
                &&& final(self).liquidity_vault_balance == old(self).liquidity_vault_balance
                &&& same_config_and_rates(*old(self), *final(self))
                &&& final(self).backing() >= old(self).backing() - amount.bits * (UNIT as int)
            },
    {
        let shares = match amount.div_down(self.liability_share_value) {
            Some(s) => s,
            None => {
                proof {
                    lemma_div_down_bound(
                        amount.bits as int,
                        self.liability_share_value.bits as int,
                    );
                }
                return Err(MarginfiError::MathError);
            },
        };
        if shares.bits > self.total_liability_shares.bits {
            return Err(MarginfiError::MathError);
        }
        proof {
            let pre = *self;
            lemma_div_down_bound(amount.bits as int, self.liability_share_value.bits as int);
            assert((pre.total_liability_shares.bits - shares.bits) * pre.liability_share_value.bits
                == pre.total_liability_shares.bits * pre.liability_share_value.bits - shares.bits
                * pre.liability_share_value.bits) by (nonlinear_arith);
        }
        self.total_liability_shares = Fx { bits: self.total_liability_shares.bits - shares.bits };
        Ok(shares)
    }

    /// Erases the given liability shares outright, as bankruptcy handling
    /// does once the loss is covered elsewhere.  On failure the bank is
    /// untouched.
    pub fn forgive_liability_shares(&mut self, shares: Fx) -> (r: Result<(), MarginfiError>)
        requires
            old(self).wf(),
        ensures
            final(self).wf(),
            r is Err ==> *final(self) == *old(self) && r == Err::<(), MarginfiError>(
                MarginfiError::MathError,
            ),
            (shares.bits <= old(self).total_liability_shares.bits) <==> (r is Ok),
            r is Ok ==> {
                &&& final(self).total_liability_shares.bits
                    == old(self).total_liability_shares.bits - shares.bits
                &&& final(self).total_asset_shares == old(self).total_asset_shares
                &&& final(self).liquidity_vault_balance == old(self).liquidity_vault_balance
                &&& same_config_and_rates(*old(self), *final(self))
                &&& final(self).backing() == old(self).backing() - shares.bits * old(
                    self,
                ).liability_share_value.bits
            },
    {
        if shares.bits > self.total_liability_shares.bits {
            return Err(MarginfiError::MathError);
        }
        proof {
            let pre = *self;
            assert((pre.total_liability_shares.bits - shares.bits) * pre.liability_share_value.bits
                == pre.total_liability_shares.bits * pre.liability_share_value.bits - shares.bits
                * pre.liability_share_value.bits) by (nonlinear_arith);
        }
        self.total_liability_shares = Fx { bits: self.total_liability_shares.bits - shares.bits };
        Ok(())
    }

    /// Moves tokens from the liquidity vault to the insurance vault, as the
    /// liquidation fee does.  On failure the bank is untouched.
    pub fn transfer_liquidity_to_insurance(&mut self, amount: Fx) -> (r: Result<(), MarginfiError>)
        requires
            old(self).wf(),
        ensures
            final(self).wf(),
            r is Err ==> *final(self) == *old(self),
            amount.bits > old(self).liquidity_vault_balance.bits ==> r == Err::<
                (),
                MarginfiError,
            >(MarginfiError::BankLiquidityInsufficient),
            amount.bits <= old(self).liquidity_vault_balance.bits && old(
                self,
            ).insurance_vault_balance.bits + amount.bits > u128::MAX as int ==> r == Err::<
                (),
                MarginfiError,
            >(MarginfiError::MathError),
            amount.bits <= old(self).liquidity_vault_balance.bits && old(
                self,
            ).insurance_vault_balance.bits + amount.bits <= u128::MAX as int ==> {
                &&& r == Ok::<(), MarginfiError>(())
                &&& final(self).liquidity_vault_balance.bits
                    == old(self).liquidity_vault_balance.bits - amount.bits
                &&& final(self).insurance_vault_balance.bits
                    == old(self).insurance_vault_balance.bits + amount.bits
                &&& final(self).total_asset_shares == old(self).total_asset_shares
                &&& final(self).total_liability_shares == old(self).total_liability_shares
                &&& final(self).asset_share_value == old(self).asset_share_value
                &&& final(self).liability_share_value == old(self).liability_share_value
                &&& final(self).collected_insurance_fees_outstanding == old(
                    self,
                ).collected_insurance_fees_outstanding
                &&& final(self).collected_protocol_fees_outstanding == old(
                    self,
                ).collected_protocol_fees_outstanding
                &&& final(self).config == old(self).config
                &&& final(self).last_update == old(self).last_update
                &&& final(self).backing() == old(self).backing() - amount.bits * (UNIT as int)
                &&& final(self).claims() == old(self).claims()
            },
    {
        if amount.bits > self.liquidity_vault_balance.bits {
            return Err(MarginfiError::BankLiquidityInsufficient);
        }
        let new_ins = match self.insurance_vault_balance.checked_add(amount) {
            Some(v) => v,
            None => {
                return Err(MarginfiError::MathError);
            },
        };
        self.liquidity_vault_balance = Fx { bits: self.liquidity_vault_balance.bits - amount.bits };
        self.insurance_vault_balance = new_ins;
        Ok(())
    }

    /// Moves tokens from the insurance vault into the liquidity vault, as
    /// bankruptcy handling does to cover bad debt.  On failure the bank is
    /// untouched.
    pub fn payout_insurance_to_liquidity(&mut self, amount: Fx) -> (r: Result<(), MarginfiError>)
        requires
            old(self).wf(),
        ensures
            final(self).wf(),
            r is Err ==> *final(self) == *old(self) && r == Err::<(), MarginfiError>(
                MarginfiError::MathError,
            ),
            (amount.bits <= old(self).insurance_vault_balance.bits && old(
                self,
            ).liquidity_vault_balance.bits + amount.bits <= u128::MAX as int) <==> (r is Ok),
            r is Ok ==> {
                &&& final(self).insurance_vault_balance.bits
                    == old(self).insurance_vault_balance.bits - amount.bits
                &&& final(self).liquidity_vault_balance.bits
                    == old(self).liquidity_vault_balance.bits + amount.bits
                &&& final(self).total_asset_shares == old(self).total_asset_shares
                &&& final(self).total_liability_shares == old(self).total_liability_shares
                &&& final(self).asset_share_value == old(self).asset_share_value
                &&& final(self).liability_share_value == old(self).liability_share_value
                &&& final(self).collected_insurance_fees_outstanding == old(
                    self,
                ).collected_insurance_fees_outstanding
                &&& final(self).collected_protocol_fees_outstanding == old(
                    self,
                ).collected_protocol_fees_outstanding
                &&& final(self).config == old(self).config
                &&& final(self).last_update == old(self).last_update
                &&& final(self).backing() == old(self).backing() + amount.bits * (UNIT as int)
                &&& final(self).claims() == old(self).claims()
            },
            old(self).solvent() ==> final(self).solvent(),
    {
        if amount.bits > self.insurance_vault_balance.bits {
            return Err(MarginfiError::MathError);
        }
        let new_cash = match self.liquidity_vault_balance.checked_add(amount) {
            Some(v) => v,
            None => {
                return Err(MarginfiError::MathError);
            },
        };
        self.insurance_vault_balance = Fx { bits: self.insurance_vault_balance.bits - amount.bits };
        self.liquidity_vault_balance = new_cash;
        Ok(())
    }

    /// Burns the asset shares worth `amount` (rounded up) without moving
    /// tokens: the seized side of a collateral transfer between two
    /// accounts.  On failure the bank is untouched.
    pub fn seize_asset_amount(&mut self, amount: Fx) -> (r: Result<Fx, MarginfiError>)
        requires
            old(self).wf(),
        ensures
            final(self).wf(),
            r is Err ==> *final(self) == *old(self) && r == Err::<Fx, MarginfiError>(
                MarginfiError::MathError,
            ),
            (withdraw_shares_spec(*old(self), amount) <= old(self).total_asset_shares.bits) <==> (r
                is Ok),
            r is Ok ==> {
                &&& r == Ok::<Fx, MarginfiError>(
                    Fx { bits: withdraw_shares_spec(*old(self), amount) as u128 },
                )
                &&& final(self).total_asset_shares.bits == old(self).total_asset_shares.bits
                    - withdraw_shares_spec(*old(self), amount)
                &&& final(self).total_liability_shares == old(self).total_liability_shares
                &&& final(self).liquidity_vault_balance == old(self).liquidity_vault_balance
                &&& same_config_and_rates(*old(self), *final(self))
                &&& final(self).claims() <= old(self).claims() - amount.bits * (UNIT as int)
            },
            old(self).solvent() ==> final(self).solvent(),
    {
        let shares = match amount.div_up(self.asset_share_value) {
            Some(s) => s,
            None => {
                return Err(MarginfiError::MathError);
            },
        };
        if shares.bits > self.total_asset_shares.bits {
            return Err(MarginfiError::MathError);
        }
        proof {
            let pre = *self;
            lemma_div_up_bound(amount.bits as int, self.asset_share_value.bits as int);
            assert((pre.total_asset_shares.bits - shares.bits) * pre.asset_share_value.bits
                == pre.total_asset_shares.bits * pre.asset_share_value.bits - shares.bits
                * pre.asset_share_value.bits) by (nonlinear_arith);
        }
        self.total_asset_shares = Fx { bits: self.total_asset_shares.bits - shares.bits };
        Ok(shares)
    }

    /// Mints asset shares worth `amount` (rounded down) without moving
    /// tokens: the granted side of a collateral transfer between two
    /// accounts.  Alone this adds claims; the caller pairs it with a
    /// seizure of at least the same amount.  On failure the bank is
    /// untouched.
    pub fn grant_asset_amount(&mut self, amount: Fx) -> (r: Result<Fx, MarginfiError>)
        requires
            old(self).wf(),
        ensures
            final(self).wf(),
            r is Err ==> *final(self) == *old(self) && r == Err::<Fx, MarginfiError>(
                MarginfiError::MathError,
            ),
            (deposit_shares_spec(*old(self), amount) <= u128::MAX as int && old(
                self,
            ).total_asset_shares.bits + deposit_shares_spec(*old(self), amount)
                <= u128::MAX as int) <==> (r is Ok),
            r is Ok ==> {
                &&& r == Ok::<Fx, MarginfiError>(
                    Fx { bits: deposit_shares_spec(*old(self), amount) as u128 },
                )
                &&& final(self).total_asset_shares.bits == old(self).total_asset_shares.bits
                    + deposit_shares_spec(*old(self), amount)
                &&& final(self).total_liability_shares == old(self).total_liability_shares
                &&& final(self).liquidity_vault_balance == old(self).liquidity_vault_balance
                &&& same_config_and_rates(*old(self), *final(self))
                &&& final(self).claims() <= old(self).claims() + amount.bits * (UNIT as int)
            },
    {
        let shares = match amount.div_down(self.asset_share_value) {
            Some(s) => s,
            None => {
                return Err(MarginfiError::MathError);
            },
        };
        let new_total = match self.total_asset_shares.checked_add(shares) {
            Some(t) => t,
            None => {
                return Err(MarginfiError::MathError);
            },
        };
        proof {
            let pre = *self;
            lemma_div_down_bound(amount.bits as int, self.asset_share_value.bits as int);
            assert((pre.total_asset_shares.bits + shares.bits) * pre.asset_share_value.bits
                == pre.total_asset_shares.bits * pre.asset_share_value.bits + shares.bits
                * pre.asset_share_value.bits) by (nonlinear_arith);
        }
        self.total_asset_shares = new_total;
        Ok(shares)
    }

    /// Burns the given asset shares outright without moving tokens, as when
    /// a liquidator pays with their own deposit in the bank.  On failure
    /// the bank is untouched.
    pub fn burn_asset_shares_only(&mut self, shares: Fx) -> (r: Result<(), MarginfiError>)
        requires
            old(self).wf(),
        ensures
            final(self).wf(),
            r is Err ==> *final(self) == *old(self) && r == Err::<(), MarginfiError>(
                MarginfiError::MathError,
            ),
            (shares.bits <= old(self).total_asset_shares.bits) <==> (r is Ok),
            r is Ok ==> {
                &&& final(self).total_asset_shares.bits == old(self).total_asset_shares.bits
                    - shares.bits
                &&& final(self).total_liability_shares == old(self).total_liability_shares
                &&& final(self).liquidity_vault_balance == old(self).liquidity_vault_balance
                &&& same_config_and_rates(*old(self), *final(self))
                &&& final(self).claims() == old(self).claims() - shares.bits * old(
                    self,
                ).asset_share_value.bits
            },
            old(self).solvent() ==> final(self).solvent(),
    {
        if shares.bits > self.total_asset_shares.bits {
            return Err(MarginfiError::MathError);
        }
        proof {
            let pre = *self;
            assert((pre.total_asset_shares.bits - shares.bits) * pre.asset_share_value.bits
                == pre.total_asset_shares.bits * pre.asset_share_value.bits - shares.bits
                * pre.asset_share_value.bits && shares.bits * pre.asset_share_value.bits >= 0)
                by (nonlinear_arith);
        }
        self.total_asset_shares = Fx { bits: self.total_asset_shares.bits - shares.bits };
        Ok(())
    }

    /// Spreads a loss across all depositors by lowering the asset share
    /// value just enough to absorb it, rounding the cut up so the pool
    /// never keeps claims it cannot back.  Fails when no asset shares exist
    /// to carry the loss or the cut would wipe the exchange rate out
    /// entirely; on failure the bank is untouched.
    pub fn socialize_loss(&mut self, loss: Fx) -> (r: Result<(), MarginfiError>)
        requires
            old(self).wf(),
        ensures
            final(self).wf(),
            r is Err ==> *final(self) == *old(self) && r == Err::<(), MarginfiError>(
                MarginfiError::MathError,
            ),
            loss.bits == 0 ==> r == Ok::<(), MarginfiError>(()) && *final(self) == *old(self),
            (loss.bits > 0 && old(self).total_asset_shares.bits > 0 && div_up_spec(
                loss.bits as int,
                old(self).total_asset_shares.bits as int,
            ) < old(self).asset_share_value.bits) ==> (r is Ok),
            r is Ok && loss.bits > 0 ==> {
                &&& final(self).asset_share_value.bits == old(self).asset_share_value.bits
                    - div_up_spec(loss.bits as int, old(self).total_asset_shares.bits as int)
                &&& final(self).liability_share_value == old(self).liability_share_value
                &&& final(self).total_asset_shares == old(self).total_asset_shares
                &&& final(self).total_liability_shares == old(self).total_liability_shares
                &&& final(self).liquidity_vault_balance == old(self).liquidity_vault_balance
                &&& final(self).insurance_vault_balance == old(self).insurance_vault_balance
                &&& final(self).collected_insurance_fees_outstanding == old(
                    self,
                ).collected_insurance_fees_outstanding
                &&& final(self).collected_protocol_fees_outstanding == old(
                    self,
                ).collected_protocol_fees_outstanding
                &&& final(self).config == old(self).config
                &&& final(self).last_update == old(self).last_update
                &&& final(self).claims() <= old(self).claims() - loss.bits * (UNIT as int)
                &&& final(self).backing() == old(self).backing()
            },
    {
        if loss.bits == 0 {
            return Ok(());
        }
        if self.total_asset_shares.bits == 0 {
            return Err(MarginfiError::MathError);
        }
        let cut = match loss.div_up(self.total_asset_shares) {
            Some(c) => c,
            None => {
                return Err(MarginfiError::MathError);
            },
        };
        if cut.bits >= self.asset_share_value.bits {
            return Err(MarginfiError::MathError);
        }
        proof {
            let pre = *self;
            lemma_div_up_bound(loss.bits as int, self.total_asset_shares.bits as int);
            assert(pre.total_asset_shares.bits * (pre.asset_share_value.bits - cut.bits)
                == pre.total_asset_shares.bits * pre.asset_share_value.bits
                - pre.total_asset_shares.bits * cut.bits && pre.total_asset_shares.bits * cut.bits
                == cut.bits * pre.total_asset_shares.bits) by (nonlinear_arith);
        }
        self.asset_share_value = Fx { bits: self.asset_share_value.bits - cut.bits };
        Ok(())
    }

    /// Brings the exchange rates up to date with the clock.
    ///
    /// A call at or before the last update is a no-op.  Otherwise the
    /// borrower side compounds by the full borrow rate over the elapsed
    /// time (rounded up), the lender side by the base rate scaled by
    /// utilization (rounded down), and the fee rates accrue on the
    /// outstanding debt into the fee tallies (rounded down).  Both exchange
    /// rates are non-decreasing, and the debt side grows by at least the
    /// lender and fee sides together, so a solvent bank stays solvent.  On
    /// arithmetic overflow nothing changes.
    pub fn accrue_interest(&mut self, now: u64) -> (r: Result<(), MarginfiError>)
        requires
            old(self).wf(),
        ensures
            final(self).wf(),
            r is Err ==> *final(self) == *old(self) && r == Err::<(), MarginfiError>(
                MarginfiError::MathError,
            ),
            now <= old(self).last_update ==> r == Ok::<(), MarginfiError>(()) && *final(self)
                == *old(self),
            now > old(self).last_update && accrual_fits(
                *old(self),
                now - old(self).last_update,
            ) ==> r is Ok,
            now > old(self).last_update && r is Ok ==> {
                &&& final(self).asset_share_value.bits == old(self).asset_share_value.bits
                    + accrual_asv_delta(*old(self), now - old(self).last_update)
                &&& final(self).liability_share_value.bits == old(self).liability_share_value.bits
                    + accrual_lsv_delta(*old(self), now - old(self).last_update)
                &&& final(self).collected_insurance_fees_outstanding.bits == old(
                    self,
                ).collected_insurance_fees_outstanding.bits + accrual_ins_fee(
                    *old(self),
                    now - old(self).last_update,
                )
                &&& final(self).collected_protocol_fees_outstanding.bits == old(
                    self,
                ).collected_protocol_fees_outstanding.bits + accrual_prot_fee(
                    *old(self),
                    now - old(self).last_update,
                )
                &&& final(self).last_update == now
                &&& final(self).total_asset_shares == old(self).total_asset_shares
                &&& final(self).total_liability_shares == old(self).total_liability_shares
                &&& final(self).liquidity_vault_balance == old(self).liquidity_vault_balance
                &&& final(self).insurance_vault_balance == old(self).insurance_vault_balance
                &&& final(self).config == old(self).config
            },
            final(self).asset_share_value.bits >= old(self).asset_share_value.bits,
            final(self).liability_share_value.bits >= old(self).liability_share_value.bits,
            old(self).solvent() ==> final(self).solvent(),
    {
        if now <= self.last_update {
            return Ok(());
        }
        let dt: u64 = now - self.last_update;
        let ghost pre = *self;
        let ghost dt_i = dt as int;
        let asset_up = match self.total_asset_shares.mul_up(self.asset_share_value) {
            Some(v) => v,
            None => {
                return Err(MarginfiError::MathError);
            },
        };
        let liab_down = match self.total_liability_shares.mul_down(self.liability_share_value) {
            Some(v) => v,
            None => {
                return Err(MarginfiError::MathError);
            },
        };
        let ur = if asset_up.bits == 0 {
            Fx::zero()
        } else {
            match liab_down.div_down(asset_up) {
                Some(v) => v,
                None => {
                    return Err(MarginfiError::MathError);
                },
            }
        };
        proof {
            assert(ur.bits == utilization_spec(pre));
        }
        let ir = self.config.interest_rate_config;
        let base = if ur.bits <= ir.optimal_utilization_rate.bits {
            let t = match ur.mul_down(ir.plateau_interest_rate) {
                Some(v) => v,
                None => {
                    return Err(MarginfiError::MathError);
                },
            };
            match t.div_down(ir.optimal_utilization_rate) {
                Some(v) => v,
                None => {
                    return Err(MarginfiError::MathError);
                },
            }
        } else {
            let excess = Fx { bits: ur.bits - ir.optimal_utilization_rate.bits };
            let span = Fx {
                bits: ir.max_interest_rate.bits - ir.plateau_interest_rate.bits,
            };
            let t = match excess.mul_down(span) {
                Some(v) => v,
                None => {
                    return Err(MarginfiError::MathError);
                },
            };
            let seg = match t.div_down(Fx { bits: UNIT - ir.optimal_utilization_rate.bits }) {
                Some(v) => v,
                None => {
                    return Err(MarginfiError::MathError);
                },
            };
            match ir.plateau_interest_rate.checked_add(seg) {
                Some(v) => v,
                None => {
                    return Err(MarginfiError::MathError);
                },
            }
        };
        proof {
            assert(base.bits == base_rate_spec(pre));
        }
        let ins_margin = match base.mul_down(ir.insurance_ir_fee) {
            Some(v) => v,
            None => {
                return Err(MarginfiError::MathError);
            },
        };
        let ins_rate = match ins_margin.checked_add(ir.insurance_fee_fixed_apr) {
            Some(v) => v,
            None => {
                return Err(MarginfiError::MathError);
            },
        };
        let prot_margin = match base.mul_down(ir.protocol_ir_fee) {
            Some(v) => v,
            None => {
                return Err(MarginfiError::MathError);
            },
        };
        let prot_rate = match prot_margin.checked_add(ir.protocol_fixed_fee_apr) {
            Some(v) => v,
            None => {
                return Err(MarginfiError::MathError);
            },
        };
        let br_half = match base.checked_add(ins_rate) {
            Some(v) => v,
            None => {
                return Err(MarginfiError::MathError);
            },
        };
        let br = match br_half.checked_add(prot_rate) {
            Some(v) => v,
            None => {
                return Err(MarginfiError::MathError);
            },
        };
        let br_dt = match crate::fixnum::checked_mul_u128(br.bits, dt as u128) {
            Some(v) => v,
            None => {
                return Err(MarginfiError::MathError);
            },
        };
        if br_dt > u128::MAX - (SECONDS_PER_YEAR as u128 - 1) {
            return Err(MarginfiError::MathError);
        }
        let f_liab = Fx {
            bits: (br_dt + (SECONDS_PER_YEAR as u128 - 1)) / (SECONDS_PER_YEAR as u128),
        };
        proof {
            lemma_rate_dt_fits(base.bits as int, br.bits as int, dt_i);
            lemma_rate_dt_fits(ins_rate.bits as int, br.bits as int, dt_i);
            lemma_rate_dt_fits(prot_rate.bits as int, br.bits as int, dt_i);
        }
        let base_dt = match crate::fixnum::checked_mul_u128(base.bits, dt as u128) {
            Some(v) => v,
            None => {
                return Err(MarginfiError::MathError);
            },
        };
        let f_base = Fx { bits: base_dt / (SECONDS_PER_YEAR as u128) };
        let ins_dt = match crate::fixnum::checked_mul_u128(ins_rate.bits, dt as u128) {
            Some(v) => v,
            None => {
                return Err(MarginfiError::MathError);
            },
        };
        let f_ins = Fx { bits: ins_dt / (SECONDS_PER_YEAR as u128) };
        let prot_dt = match crate::fixnum::checked_mul_u128(prot_rate.bits, dt as u128) {
            Some(v) => v,
            None => {
                return Err(MarginfiError::MathError);
            },
        };
        let f_prot = Fx { bits: prot_dt / (SECONDS_PER_YEAR as u128) };
        let f_lend = match f_base.mul_down(ur) {
            Some(v) => v,
            None => {
                return Err(MarginfiError::MathError);
            },
        };
        let delta_asv = match self.asset_share_value.mul_down(f_lend) {
            Some(v) => v,
            None => {
                return Err(MarginfiError::MathError);
            },
        };
        let new_asv = match self.asset_share_value.checked_add(delta_asv) {
            Some(v) => v,
            None => {
                return Err(MarginfiError::MathError);
            },
        };
        let delta_lsv = match self.liability_share_value.mul_up(f_liab) {
            Some(v) => v,
            None => {
                return Err(MarginfiError::MathError);
            },
        };
        let new_lsv = match self.liability_share_value.checked_add(delta_lsv) {
            Some(v) => v,
            None => {
                return Err(MarginfiError::MathError);
            },
        };
        let fee_ins = match liab_down.mul_down(f_ins) {
            Some(v) => v,
            None => {
                return Err(MarginfiError::MathError);
            },
        };
        let new_fi = match self.collected_insurance_fees_outstanding.checked_add(fee_ins) {
            Some(v) => v,
            None => {
                return Err(MarginfiError::MathError);
            },
        };
        let fee_prot = match liab_down.mul_down(f_prot) {
            Some(v) => v,
            None => {
                return Err(MarginfiError::MathError);
            },
        };
        let new_fp = match self.collected_protocol_fees_outstanding.checked_add(fee_prot) {
            Some(v) => v,
            None => {
                return Err(MarginfiError::MathError);
            },
        };
        proof {
            lemma_accrual_solvency(pre, dt_i);
            let u = UNIT as int;
            let a = pre.total_asset_shares.bits as int;
            let l = pre.total_liability_shares.bits as int;
            assert(a * new_asv.bits == a * pre.asset_share_value.bits + a * delta_asv.bits && l
                * new_lsv.bits == l * pre.liability_share_value.bits + l * delta_lsv.bits)
                by (nonlinear_arith)
                requires
                    new_asv.bits == pre.asset_share_value.bits + delta_asv.bits,
                    new_lsv.bits == pre.liability_share_value.bits + delta_lsv.bits,
            ;
        }
        self.asset_share_value = new_asv;
        self.liability_share_value = new_lsv;
        self.collected_insurance_fees_outstanding = new_fi;
        self.collected_protocol_fees_outstanding = new_fp;
        self.last_update = now;
        Ok(())
    }
}

/// A component rate times the elapsed time fits whenever the full borrow
/// rate times the elapsed time does.
proof fn lemma_rate_dt_fits(part: int, whole: int, dt: int)
    requires
        0 <= part <= whole,
        dt >= 0,
        whole * dt <= u128::MAX as int,
    ensures
        part * dt <= u128::MAX as int,
{
    lemma_mul_inequality(part, whole, dt);
}

/// Over one accrual, what the debt side grows by covers what the lender
/// side and both fee tallies grow by: the pool never credits more than
/// borrowers owe.
proof fn lemma_accrual_solvency(b: Bank, dt: int)
    requires
        b.wf(),
        dt >= 0,
    ensures
        b.total_asset_shares.bits * accrual_asv_delta(b, dt) + (accrual_ins_fee(b, dt)
            + accrual_prot_fee(b, dt)) * (UNIT as int) <= b.total_liability_shares.bits
            * accrual_lsv_delta(b, dt),
        accrual_asv_delta(b, dt) >= 0,
        accrual_lsv_delta(b, dt) >= 0,
        accrual_ins_fee(b, dt) >= 0,
        accrual_prot_fee(b, dt) >= 0,
{
    let u = UNIT as int;
    let y = SECONDS_PER_YEAR as int;
    let a = b.total_asset_shares.bits as int;
    let l = b.total_liability_shares.bits as int;
    let asv = b.asset_share_value.bits as int;
    let lsv = b.liability_share_value.bits as int;
    let au = asset_total_up_spec(b);
    let ld = liab_total_down_spec(b);
    let ur = utilization_spec(b);
    let base = base_rate_spec(b);
    let insr = ins_rate_spec(b);
    let protr = prot_rate_spec(b);
    let brr = borrow_rate_spec(b);
    let fb = f_base_spec(b, dt);
    let fi = f_ins_spec(b, dt);
    let fp = f_prot_spec(b, dt);
    let fl = f_liab_spec(b, dt);
    let flend = f_lend_spec(b, dt);
    let dasv = accrual_asv_delta(b, dt);
    let dlsv = accrual_lsv_delta(b, dt);
    let feei = accrual_ins_fee(b, dt);
    let feep = accrual_prot_fee(b, dt);

    lemma_mul_up_bound(a, asv);
    lemma_mul_down_bound(l, lsv);
    lemma_nonneg(b, dt);
    lemma_mul_down_bound(asv, flend);
    lemma_mul_down_bound(fb, ur);
    lemma_mul_up_bound(lsv, fl);
    lemma_mul_down_bound(ld, fi);
    lemma_mul_down_bound(ld, fp);

    // the asset-side chain: a * dasv * u <= l * lsv * fb
    if au == 0 {
        assert(ur == 0);
        assert(flend == 0) by {
            lemma_zero_mul_down(fb);
        }
        assert(dasv == 0) by {
            lemma_zero_mul_down(asv);
        }
        assert(a * dasv == 0) by (nonlinear_arith)
            requires
                dasv == 0,
        ;
        assert(l * lsv * fb >= 0) by (nonlinear_arith)
            requires
                l >= 0,
                lsv >= 0,
                fb >= 0,
        ;
    } else {
        lemma_div_down_bound(ld, au);
        assert(a * dasv * u * u <= l * lsv * fb * u) by (nonlinear_arith)
            requires
                dasv * u <= asv * flend,
                flend * u <= fb * ur,
                ur * au <= ld * u,
                a * asv <= au * u,
                ld * u <= l * lsv,
                a >= 0,
                asv >= 0,
                au >= 0,
                ld >= 0,
                ur >= 0,
                fb >= 0,
                flend >= 0,
                u > 0,
                dasv >= 0,
                l >= 0,
                lsv >= 0,
        ;
        lemma_cancel_unit(a * dasv * u, l * lsv * fb);
    }
    // the fee-side chains: fee * u * u <= l * lsv * f
    assert(feei * u * u <= l * lsv * fi && feep * u * u <= l * lsv * fp) by (nonlinear_arith)
        requires
            feei * u <= ld * fi,
            feep * u <= ld * fp,
            ld * u <= l * lsv,
            fi >= 0,
            fp >= 0,
            ld >= 0,
            u > 0,
            l >= 0,
            lsv >= 0,
            feei >= 0,
            feep >= 0,
    ;
    // the debt side covers the parts
    lemma_liab_factor_covers(b, dt);
    assert(l * lsv * fl <= l * dlsv * u) by (nonlinear_arith)
        requires
            lsv * fl <= dlsv * u,
            l >= 0,
    ;
    assert(l * lsv * (fb + fi + fp) <= l * lsv * fl) by (nonlinear_arith)
        requires
            fb + fi + fp <= fl,
            l >= 0,
            lsv >= 0,
    ;
    assert(l * lsv * (fb + fi + fp) == l * lsv * fb + l * lsv * fi + l * lsv * fp)
        by (nonlinear_arith);
    lemma_cancel_unit_sum(a * dasv, feei + feep, l * dlsv);
}

/// Multiplying by a zero factor gives zero.
proof fn lemma_zero_mul_down(x: int)
    ensures
        mul_down_spec(x, 0) == 0,
{
    assert(x * 0 == 0) by (nonlinear_arith);
}

/// Cancels one unit factor from both sides of an inequality.
proof fn lemma_cancel_unit(lhs_u: int, rhs: int)
    requires
        lhs_u * (UNIT as int) <= rhs * (UNIT as int),
    ensures
        lhs_u <= rhs,
{
    lemma_mul_inequality_converse(lhs_u, rhs, UNIT as int);
}

/// From `x * u + f * u * u <= t * u` concludes `x + f * u <= t`.
proof fn lemma_cancel_unit_sum(x: int, f: int, t: int)
    requires
        x * (UNIT as int) + f * (UNIT as int) * (UNIT as int) <= t * (UNIT as int),
    ensures
        x + f * (UNIT as int) <= t,
{
    let u = UNIT as int;
    assert((x + f * u) * u == x * u + f * u * u) by (nonlinear_arith);
    lemma_mul_inequality_converse(x + f * u, t, u);
}

/// Non-negativity of every accrual intermediate.
proof fn lemma_nonneg(b: Bank, dt: int)
    requires
        b.wf(),
        dt >= 0,
    ensures
        utilization_spec(b) >= 0,
        base_rate_spec(b) >= 0,
        ins_rate_spec(b) >= 0,
        prot_rate_spec(b) >= 0,
        f_base_spec(b, dt) >= 0,
        f_ins_spec(b, dt) >= 0,
        f_prot_spec(b, dt) >= 0,
        f_liab_spec(b, dt) >= 0,
        f_lend_spec(b, dt) >= 0,
        accrual_asv_delta(b, dt) >= 0,
        accrual_lsv_delta(b, dt) >= 0,
        accrual_ins_fee(b, dt) >= 0,
        accrual_prot_fee(b, dt) >= 0,
        liab_total_down_spec(b) >= 0,
        asset_total_up_spec(b) >= 0,
{
    let u = UNIT as int;
    let y = SECONDS_PER_YEAR as int;
    let ir = b.config.interest_rate_config;
    lemma_mul_up_bound(b.total_asset_shares.bits as int, b.asset_share_value.bits as int);
    lemma_mul_down_bound(
        b.total_liability_shares.bits as int,
        b.liability_share_value.bits as int,
    );
    if asset_total_up_spec(b) != 0 {
        lemma_div_down_bound(liab_total_down_spec(b), asset_total_up_spec(b));
    }
    let ur = utilization_spec(b);
    if ur <= ir.optimal_utilization_rate.bits {
        lemma_mul_down_bound(ur, ir.plateau_interest_rate.bits as int);
        lemma_div_down_bound(
            mul_down_spec(ur, ir.plateau_interest_rate.bits as int),
            ir.optimal_utilization_rate.bits as int,
        );
    } else {
        lemma_mul_down_bound(
            ur - ir.optimal_utilization_rate.bits,
            ir.max_interest_rate.bits - ir.plateau_interest_rate.bits,
        );
        lemma_div_down_bound(
            mul_down_spec(
                ur - ir.optimal_utilization_rate.bits,
                ir.max_interest_rate.bits - ir.plateau_interest_rate.bits,
            ),
            UNIT as int - ir.optimal_utilization_rate.bits,
        );
    }
    let base = base_rate_spec(b);
    lemma_mul_down_bound(base, ir.insurance_ir_fee.bits as int);
    lemma_mul_down_bound(base, ir.protocol_ir_fee.bits as int);
    assert(base_rate_spec(b) * dt >= 0 && ins_rate_spec(b) * dt >= 0 && prot_rate_spec(b) * dt >= 0
        && borrow_rate_spec(b) * dt >= 0) by (nonlinear_arith)
        requires
            base_rate_spec(b) >= 0,
            ins_rate_spec(b) >= 0,
            prot_rate_spec(b) >= 0,
            borrow_rate_spec(b) >= 0,
            dt >= 0,
    ;
    lemma_div_bound_exact(base_rate_spec(b) * dt, y);
    lemma_div_bound_exact(ins_rate_spec(b) * dt, y);
    lemma_div_bound_exact(prot_rate_spec(b) * dt, y);
    lemma_div_bound_exact(borrow_rate_spec(b) * dt + y - 1, y);
    lemma_mul_down_bound(f_base_spec(b, dt), ur);
    lemma_mul_down_bound(b.asset_share_value.bits as int, f_lend_spec(b, dt));
    lemma_mul_up_bound(b.liability_share_value.bits as int, f_liab_spec(b, dt));
    lemma_mul_down_bound(liab_total_down_spec(b), f_ins_spec(b, dt));
    lemma_mul_down_bound(liab_total_down_spec(b), f_prot_spec(b, dt));
}

/// The rounded-up borrower factor is at least the sum of the three
/// rounded-down component factors.
proof fn lemma_liab_factor_covers(b: Bank, dt: int)
    requires
        b.wf(),
        dt >= 0,
    ensures
        f_base_spec(b, dt) + f_ins_spec(b, dt) + f_prot_spec(b, dt) <= f_liab_spec(b, dt),
{
    let y = SECONDS_PER_YEAR as int;
    lemma_nonneg(b, dt);
    let x1 = base_rate_spec(b) * dt;
    let x2 = ins_rate_spec(b) * dt;
    let x3 = prot_rate_spec(b) * dt;
    assert(borrow_rate_spec(b) * dt == x1 + x2 + x3) by (nonlinear_arith)
        requires
            borrow_rate_spec(b) == base_rate_spec(b) + ins_rate_spec(b) + prot_rate_spec(b),
            x1 == base_rate_spec(b) * dt,
            x2 == ins_rate_spec(b) * dt,
            x3 == prot_rate_spec(b) * dt,
    ;
    assert(x1 >= 0 && x2 >= 0 && x3 >= 0) by (nonlinear_arith)
        requires
            base_rate_spec(b) >= 0,
            ins_rate_spec(b) >= 0,
            prot_rate_spec(b) >= 0,
            dt >= 0,
            x1 == base_rate_spec(b) * dt,
            x2 == ins_rate_spec(b) * dt,
            x3 == prot_rate_spec(b) * dt,
    ;
    crate::fixnum::lemma_div_shift_triple(x1, x2, x3, y);
}

/// Summed claims of a set of banks, at scale 2^96: the token value of every
/// deposit plus every outstanding fee.
pub open spec fn total_claims(banks: Seq<Bank>) -> int
    decreases banks.len(),
{
    if banks.len() == 0 {
        0
    } else {
        total_claims(banks.drop_last()) + banks.last().claims()
    }
}

/// Summed backing of a set of banks, at scale 2^96: the token value of
/// every debt owed to a pool plus every liquidity vault.
pub open spec fn total_backing(banks: Seq<Bank>) -> int
    decreases banks.len(),
{
    if banks.len() == 0 {
        0
    } else {
        total_backing(banks.drop_last()) + banks.last().backing()
    }
}

/// Law: total system solvency.  Over any set of solvent banks, the summed
/// value of all deposits and fee claims never exceeds the summed value of
/// all debt owed to the pools plus the tokens in their liquidity vaults.
/// Every ledger operation and every accrual preserves each bank's
/// solvency, so the system-wide relation holds at any reachable point.
pub proof fn lemma_total_system_solvency(banks: Seq<Bank>)
    requires
        forall|i: int| 0 <= i < banks.len() ==> #[trigger] banks[i].solvent(),
    ensures
        total_claims(banks) <= total_backing(banks),
    decreases banks.len(),
{
    if banks.len() > 0 {
        assert(banks.last().solvent());
        lemma_total_system_solvency(banks.drop_last());
    }
}

} // verus!
