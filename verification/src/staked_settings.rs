//! Group-wide settings for staked-collateral banks, and the two
//! permissionless operations that apply them: creating such a bank and
//! propagating updated settings into an existing one.

use crate::bank::{
    config_valid, Bank, BankConfig, BankOperationalState, InterestRateConfig, RiskTier,
    ASSET_TAG_STAKED,
};
use crate::errors::MarginfiError;
use crate::fixnum::{Fx, UNIT};
use crate::price::OracleSetup;
use vstd::prelude::*;

verus! {

/// Raw bits of the placeholder liability weights a staked-collateral bank
/// carries; such banks are never borrowed from.
pub const STAKED_LIABILITY_WEIGHT_INIT_BITS: u128 = 422_212_465_065_984;

/// Raw bits of the placeholder maintenance liability weight (one and a
/// quarter).
pub const STAKED_LIABILITY_WEIGHT_MAINT_BITS: u128 = 351_843_720_888_320;

/// The settings a group keeps for all its staked-collateral banks.
#[derive(Clone, Copy, PartialEq, Eq, Structural, Debug)]
pub struct StakedSettings {
    pub oracle: u64,
    pub asset_weight_init: Fx,
    pub asset_weight_maint: Fx,
    pub deposit_limit: u64,
    pub total_asset_value_init_limit: u64,
    pub oracle_max_age: u64,
    pub risk_tier: RiskTier,
}

/// The configuration a fresh staked-collateral bank gets from the settings:
/// placeholder liability weights and rate curve, no borrowing, and the
/// staked asset tag.
pub open spec fn staked_bank_config(settings: StakedSettings) -> BankConfig {
    BankConfig {
        asset_weight_init: settings.asset_weight_init,
        asset_weight_maint: settings.asset_weight_maint,
        liability_weight_init: Fx { bits: STAKED_LIABILITY_WEIGHT_INIT_BITS },
        liability_weight_maint: Fx { bits: STAKED_LIABILITY_WEIGHT_MAINT_BITS },
        deposit_limit: settings.deposit_limit,
        borrow_limit: 0,
        interest_rate_config: InterestRateConfig {
            optimal_utilization_rate: Fx { bits: (UNIT / 2) as u128 },
            plateau_interest_rate: Fx { bits: 0 },
            max_interest_rate: Fx { bits: 0 },
            insurance_fee_fixed_apr: Fx { bits: 0 },
            insurance_ir_fee: Fx { bits: 0 },
            protocol_fixed_fee_apr: Fx { bits: 0 },
            protocol_ir_fee: Fx { bits: 0 },
        },
        operational_state: BankOperationalState::Operational,
        oracle_setup: OracleSetup::StakedWithPythPush,
        oracle_key: settings.oracle,
        oracle_max_age: settings.oracle_max_age,
        risk_tier: settings.risk_tier,
        asset_tag: ASSET_TAG_STAKED,
        total_asset_value_init_limit: settings.total_asset_value_init_limit,
    }
}

/// Adds a staked-collateral bank with sane defaults, so a freshly minted
/// staked token can back borrowing without the group admin's involvement.
/// Succeeds exactly when the settings yield a valid configuration.
pub fn lending_pool_add_bank_permissionless(settings: &StakedSettings, now: u64) -> (r: Result<
    Bank,
    MarginfiError,
>)
    ensures
        config_valid(staked_bank_config(*settings)) ==> (r == Ok::<Bank, MarginfiError>(
            crate::bank::fresh_bank(staked_bank_config(*settings), now),
        )),
        !config_valid(staked_bank_config(*settings)) ==> r == Err::<Bank, MarginfiError>(
            MarginfiError::InvalidConfig,
        ),
        r matches Ok(b) ==> b.wf() && b.solvent(),
{
    let config = BankConfig {
        asset_weight_init: settings.asset_weight_init,
        asset_weight_maint: settings.asset_weight_maint,
        liability_weight_init: Fx { bits: STAKED_LIABILITY_WEIGHT_INIT_BITS },
        liability_weight_maint: Fx { bits: STAKED_LIABILITY_WEIGHT_MAINT_BITS },
        deposit_limit: settings.deposit_limit,
        borrow_limit: 0,
        interest_rate_config: InterestRateConfig {
            optimal_utilization_rate: Fx { bits: UNIT / 2 },
            plateau_interest_rate: Fx::zero(),
            max_interest_rate: Fx::zero(),
            insurance_fee_fixed_apr: Fx::zero(),
            insurance_ir_fee: Fx::zero(),
            protocol_fixed_fee_apr: Fx::zero(),
            protocol_ir_fee: Fx::zero(),
        },
        operational_state: BankOperationalState::Operational,
        oracle_setup: OracleSetup::StakedWithPythPush,
        oracle_key: settings.oracle,
        oracle_max_age: settings.oracle_max_age,
        risk_tier: settings.risk_tier,
        asset_tag: ASSET_TAG_STAKED,
        total_asset_value_init_limit: settings.total_asset_value_init_limit,
    };
    match config.validate() {
        Ok(()) => {},
        Err(e) => {
            return Err(e);
        },
    }
    Ok(Bank::new(config, now))
}

/// Propagates a group's staked-collateral settings into one of its banks;
/// anyone may call it.  The updated configuration must still validate, or
/// the bank is left untouched.
pub fn propagate_staked_settings(settings: &StakedSettings, bank: &mut Bank) -> (r: Result<
    (),
    MarginfiError,
>)
    ensures
        r is Err ==> *final(bank) == *old(bank) && r == Err::<(), MarginfiError>(
            MarginfiError::InvalidConfig,
        ),
        r is Ok ==> *final(bank) == (Bank {
            config: BankConfig {
                oracle_key: settings.oracle,
                asset_weight_init: settings.asset_weight_init,
                asset_weight_maint: settings.asset_weight_maint,
                deposit_limit: settings.deposit_limit,
                total_asset_value_init_limit: settings.total_asset_value_init_limit,
                oracle_max_age: settings.oracle_max_age,
                risk_tier: settings.risk_tier,
                ..old(bank).config
            },
            ..*old(bank)
        }),
        (r is Ok) <==> config_valid(
            BankConfig {
                oracle_key: settings.oracle,
                asset_weight_init: settings.asset_weight_init,
                asset_weight_maint: settings.asset_weight_maint,
                deposit_limit: settings.deposit_limit,
                total_asset_value_init_limit: settings.total_asset_value_init_limit,
                oracle_max_age: settings.oracle_max_age,
                risk_tier: settings.risk_tier,
                ..old(bank).config
            },
        ),
        r is Ok ==> (old(bank).wf() ==> final(bank).wf()) && final(bank).solvent() == old(
            bank,
        ).solvent(),
{
    let mut new_config = bank.config;
    new_config.oracle_key = settings.oracle;
    new_config.asset_weight_init = settings.asset_weight_init;
    new_config.asset_weight_maint = settings.asset_weight_maint;
    new_config.deposit_limit = settings.deposit_limit;
    new_config.total_asset_value_init_limit = settings.total_asset_value_init_limit;
    new_config.oracle_max_age = settings.oracle_max_age;
    new_config.risk_tier = settings.risk_tier;
    match new_config.validate() {
        Ok(()) => {},
        Err(e) => {
            return Err(e);
        },
    }
    bank.config = new_config;
    Ok(())
}

} // verus!
