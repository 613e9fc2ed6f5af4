// End-to-end scenarios over a small simulated group: interest accrual over
// a year, a two-bank liquidation with its fee split, the isolated-tier
// borrowing rule, and flashloan brackets.

use marginfi_core::account::{
    MarginfiAccount, FLASHLOAN_ENABLED_FLAG, IN_FLASHLOAN_FLAG,
};
use marginfi_core::actions::{
    lending_account_end_flashloan, lending_account_start_flashloan, process_borrow,
    process_deposit, process_liquidate_account, process_repay, process_withdraw, BatchInstruction,
};
use marginfi_core::bank::{Bank, BankConfig, BankOperationalState, InterestRateConfig, RiskTier};
use marginfi_core::errors::MarginfiError;
use marginfi_core::fixnum::{Fx, UNIT};
use marginfi_core::price::{OraclePriceSnapshot, OracleSetup};

fn fx(n: u64) -> Fx {
    Fx::from_int(n)
}

fn frac(num: u128, den: u128) -> Fx {
    Fx { bits: num * UNIT / den }
}

/// The default test rate curve: optimal utilization one half, plateau rate
/// six tenths, maximum rate three, no fees.
fn default_ir() -> InterestRateConfig {
    InterestRateConfig {
        optimal_utilization_rate: frac(1, 2),
        plateau_interest_rate: frac(6, 10),
        max_interest_rate: fx(3),
        insurance_fee_fixed_apr: fx(0),
        insurance_ir_fee: fx(0),
        protocol_fixed_fee_apr: fx(0),
        protocol_ir_fee: fx(0),
    }
}

fn test_bank(oracle_key: u64, isolated: bool) -> Bank {
    Bank::new(
        BankConfig {
            asset_weight_init: fx(1),
            asset_weight_maint: fx(1),
            liability_weight_init: fx(1),
            liability_weight_maint: fx(1),
            deposit_limit: 1_000_000_000,
            borrow_limit: 1_000_000_000,
            interest_rate_config: default_ir(),
            operational_state: BankOperationalState::Operational,
            oracle_setup: OracleSetup::PythEma,
            oracle_key,
            oracle_max_age: 60,
            risk_tier: if isolated {
                RiskTier::Isolated
            } else {
                RiskTier::Collateral
            },
            asset_tag: 0,
            total_asset_value_init_limit: 0,
        },
        0,
    )
}

fn snapshot(price_units: u64) -> Option<OraclePriceSnapshot> {
    Some(OraclePriceSnapshot { price: fx(price_units), confidence: Fx { bits: 0 } })
}

fn abs_diff(a: u128, b: u128) -> u128 {
    if a >= b {
        a - b
    } else {
        b - a
    }
}

// Scenario: interest accrues over a year and lands on both sides of the
// book.  A lender supplies 1000 in the borrowed bank, the borrower takes
// 99 against separate collateral; after one year the borrower repays the
// 99 principal and owes about 11.761 in accrued interest, matched by the
// lender's growth to about 1011.761.
#[test]
fn automatic_interest_payments() {
    // bank 0: the collateral bank (unit price); bank 1: the borrowed bank
    let mut banks = vec![test_bank(0, false), test_bank(1, false)];
    let prices = vec![snapshot(1), snapshot(10)];

    let mut lender = MarginfiAccount::new(1);
    let mut borrower = MarginfiAccount::new(2);

    process_deposit(&mut banks, 1, &mut lender, 1_000, 0).unwrap();
    process_deposit(&mut banks, 0, &mut borrower, 1_000, 0).unwrap();
    process_borrow(&mut banks, 1, &mut borrower, 99, &prices, 0).unwrap();

    // a year goes by; the repayment triggers accrual
    let year: u64 = 365 * 24 * 60 * 60;
    process_repay(&mut banks, 1, &mut borrower, 99, false, year).unwrap();

    let residual = banks[1]
        .get_liability_amount(borrower.lending_account.balances[1].liability_shares)
        .unwrap();
    let expected = 11_761 * UNIT / 1_000;
    let tolerance = 2 * UNIT / 10_000;
    assert!(abs_diff(residual.bits, expected) <= tolerance);

    let lender_assets = banks[1]
        .get_asset_amount(lender.lending_account.balances[0].asset_shares)
        .unwrap();
    let expected = 1_011_761 * UNIT / 1_000;
    assert!(abs_diff(lender_assets.bits, expected) <= tolerance);
}

// Scenario: a two-bank liquidation.  The lender holds 2000 of the borrowed
// token; the borrower posts 100 collateral (price 10) and borrows 999.
// After the collateral weights drop to a quarter and a half, seizing one
// collateral token leaves the borrower with 99 collateral and about 989.50
// of debt, the liquidator with 1990.25 of deposits, and the insurance
// vault with about 0.25.
#[test]
fn marginfi_account_liquidation_success() {
    // bank 0: the borrowed bank (unit price); bank 1: the collateral bank
    let mut banks = vec![test_bank(0, false), test_bank(1, false)];
    let prices = vec![snapshot(1), snapshot(10)];

    let mut lender = MarginfiAccount::new(1);
    let mut borrower = MarginfiAccount::new(2);

    process_deposit(&mut banks, 0, &mut lender, 2_000, 0).unwrap();
    process_deposit(&mut banks, 1, &mut borrower, 100, 0).unwrap();
    process_borrow(&mut banks, 0, &mut borrower, 999, &prices, 0).unwrap();

    // synthetically drop the collateral weights
    banks[1].config.asset_weight_init = frac(1, 4);
    banks[1].config.asset_weight_maint = frac(1, 2);

    process_liquidate_account(
        &mut banks,
        1,
        0,
        &mut lender,
        &mut borrower,
        1,
        &prices,
        0,
    )
    .unwrap();

    let tolerance = UNIT / 100_000;

    // the liquidator holds one collateral token
    let lender_collateral = banks[1]
        .get_asset_amount(lender.lending_account.balances[1].asset_shares)
        .unwrap();
    assert_eq!(lender_collateral, fx(1));

    // and 1990.25 of deposits after paying for it
    let lender_deposits = banks[0]
        .get_asset_amount(lender.lending_account.balances[0].asset_shares)
        .unwrap();
    assert!(abs_diff(lender_deposits.bits, 1_990_25 * UNIT / 100) <= tolerance);

    // the borrower keeps 99 collateral tokens
    let borrower_collateral = banks[1]
        .get_asset_amount(borrower.lending_account.balances[0].asset_shares)
        .unwrap();
    assert_eq!(borrower_collateral, fx(99));

    // and owes about 989.50
    let borrower_debt = banks[0]
        .get_liability_amount(borrower.lending_account.balances[1].liability_shares)
        .unwrap();
    assert!(abs_diff(borrower_debt.bits, 989_50 * UNIT / 100) <= tolerance);

    // the insurance vault received about 0.25
    assert!(abs_diff(banks[0].insurance_vault_balance.bits, 25 * UNIT / 100) <= tolerance);
}

#[test]
fn marginfi_account_liquidation_failure_liquidatee_not_unhealthy() {
    let mut banks = vec![test_bank(0, false), test_bank(1, false)];
    let prices = vec![snapshot(1), snapshot(10)];

    let mut lender = MarginfiAccount::new(1);
    let mut borrower = MarginfiAccount::new(2);

    process_deposit(&mut banks, 0, &mut lender, 200, 0).unwrap();
    process_deposit(&mut banks, 1, &mut borrower, 100, 0).unwrap();
    process_borrow(&mut banks, 0, &mut borrower, 100, &prices, 0).unwrap();

    let res = process_liquidate_account(
        &mut banks,
        1,
        0,
        &mut lender,
        &mut borrower,
        1,
        &prices,
        0,
    );
    assert!(res.is_err());
    assert_eq!(res.unwrap_err(), MarginfiError::IllegalLiquidation);
}

#[test]
fn marginfi_account_liquidation_failure_liquidation_too_severe() {
    let mut banks = vec![test_bank(0, false), test_bank(1, false)];
    let prices = vec![snapshot(1), snapshot(10)];

    let mut lender = MarginfiAccount::new(1);
    let mut borrower = MarginfiAccount::new(2);

    process_deposit(&mut banks, 0, &mut lender, 200, 0).unwrap();
    process_deposit(&mut banks, 1, &mut borrower, 10, 0).unwrap();
    process_borrow(&mut banks, 0, &mut borrower, 61, &prices, 0).unwrap();

    banks[1].config.asset_weight_init = frac(1, 4);
    banks[1].config.asset_weight_maint = frac(1, 2);

    // seizing all ten collateral tokens would flip the borrower healthy
    let res = process_liquidate_account(
        &mut banks,
        1,
        0,
        &mut lender,
        &mut borrower,
        10,
        &prices,
        0,
    );
    assert_eq!(res.unwrap_err(), MarginfiError::IllegalLiquidation);

    // a single token is fine
    let res = process_liquidate_account(
        &mut banks,
        1,
        0,
        &mut lender,
        &mut borrower,
        1,
        &prices,
        0,
    );
    assert!(res.is_ok());
}

#[test]
fn marginfi_account_liquidation_failure_liquidator_no_collateral() {
    // bank 0: borrowed (heavier liability weights); banks 1 and 2: collateral
    let mut banks = vec![test_bank(0, false), test_bank(1, false), test_bank(2, false)];
    banks[0].config.liability_weight_init = frac(12, 10);
    banks[0].config.liability_weight_maint = frac(11, 10);
    let prices = vec![snapshot(1), snapshot(10), snapshot(10)];

    let mut lender = MarginfiAccount::new(1);
    let mut borrower = MarginfiAccount::new(2);

    process_deposit(&mut banks, 0, &mut lender, 200, 0).unwrap();
    process_deposit(&mut banks, 1, &mut borrower, 10, 0).unwrap();
    process_deposit(&mut banks, 2, &mut borrower, 1, 0).unwrap();
    process_borrow(&mut banks, 0, &mut borrower, 60, &prices, 0).unwrap();

    banks[1].config.asset_weight_init = frac(1, 4);
    banks[1].config.asset_weight_maint = frac(3, 10);

    // the borrower only holds one token in bank 2
    let res = process_liquidate_account(
        &mut banks,
        2,
        0,
        &mut lender,
        &mut borrower,
        2,
        &prices,
        0,
    );
    assert_eq!(res.unwrap_err(), MarginfiError::IllegalLiquidation);

    let res = process_liquidate_account(
        &mut banks,
        2,
        0,
        &mut lender,
        &mut borrower,
        1,
        &prices,
        0,
    );
    assert!(res.is_ok());
}

#[test]
fn marginfi_account_liquidation_failure_bank_not_liquidatable() {
    let mut banks = vec![test_bank(0, false), test_bank(1, false), test_bank(2, false)];
    let prices = vec![snapshot(1), snapshot(10), snapshot(10)];

    let mut lender = MarginfiAccount::new(1);
    let mut borrower = MarginfiAccount::new(2);

    process_deposit(&mut banks, 0, &mut lender, 200, 0).unwrap();
    process_deposit(&mut banks, 1, &mut borrower, 10, 0).unwrap();
    process_deposit(&mut banks, 2, &mut borrower, 1, 0).unwrap();
    process_borrow(&mut banks, 0, &mut borrower, 60, &prices, 0).unwrap();

    banks[1].config.asset_weight_init = frac(1, 4);
    banks[1].config.asset_weight_maint = frac(4, 10);

    // the borrower owes nothing in bank 1, so it cannot serve as the
    // liability side
    let res = process_liquidate_account(
        &mut banks,
        2,
        1,
        &mut lender,
        &mut borrower,
        1,
        &prices,
        0,
    );
    assert_eq!(res.unwrap_err(), MarginfiError::IllegalLiquidation);

    let res = process_liquidate_account(
        &mut banks,
        1,
        0,
        &mut lender,
        &mut borrower,
        1,
        &prices,
        0,
    );
    assert!(res.is_ok());
}

// Scenario: the isolated tier.  An account borrowing an isolated asset may
// hold no other liability; once the isolated debt is fully repaid, a
// different borrow succeeds, and the isolated borrow is then refused in
// turn.
#[test]
fn isolated_borrows() {
    // bank 0: collateral deposits; bank 1: isolated; bank 2: ordinary
    let mut banks = vec![test_bank(0, false), test_bank(1, true), test_bank(2, false)];
    let prices = vec![snapshot(1), snapshot(10), snapshot(10)];

    let mut lender = MarginfiAccount::new(1);
    let mut borrower = MarginfiAccount::new(2);

    process_deposit(&mut banks, 1, &mut lender, 1_000, 0).unwrap();
    process_deposit(&mut banks, 2, &mut lender, 1_000, 0).unwrap();
    process_deposit(&mut banks, 0, &mut borrower, 1_000, 0).unwrap();

    let res = process_borrow(&mut banks, 1, &mut borrower, 10, &prices, 0);
    assert!(res.is_ok());

    let res = process_borrow(&mut banks, 2, &mut borrower, 10, &prices, 0);
    assert!(res.is_err());
    assert_eq!(res.unwrap_err(), MarginfiError::IsolatedAccountIllegalState);

    process_repay(&mut banks, 1, &mut borrower, 0, true, 0).unwrap();

    let res = process_borrow(&mut banks, 2, &mut borrower, 10, &prices, 0);
    assert!(res.is_ok());

    let res = process_borrow(&mut banks, 1, &mut borrower, 10, &prices, 0);
    assert!(res.is_err());
    assert_eq!(res.unwrap_err(), MarginfiError::IsolatedAccountIllegalState);
}

fn flashloan_setup() -> (Vec<Bank>, Vec<Option<OraclePriceSnapshot>>, MarginfiAccount, MarginfiAccount) {
    let mut banks = vec![test_bank(0, false)];
    let prices = vec![snapshot(10)];
    let mut lender = MarginfiAccount::new(1);
    process_deposit(&mut banks, 0, &mut lender, 1_000, 0).unwrap();
    let borrower = MarginfiAccount::new(2);
    (banks, prices, lender, borrower)
}

// Scenario: a flashloan bracket with a net-zero borrow and repayment
// succeeds even though the account is unhealthy in between.
#[test]
fn flashloan_success_1op() {
    let (mut banks, prices, _lender, mut borrower) = flashloan_setup();
    borrower.set_flag(FLASHLOAN_ENABLED_FLAG).unwrap();

    // batch: start, borrow, repay, end
    let batch = vec![
        BatchInstruction { is_end_flashloan: false, account_id: 2 },
        BatchInstruction { is_end_flashloan: false, account_id: 2 },
        BatchInstruction { is_end_flashloan: false, account_id: 2 },
        BatchInstruction { is_end_flashloan: true, account_id: 2 },
    ];
    lending_account_start_flashloan(&mut borrower, 2, &batch, 0, 3).unwrap();
    process_borrow(&mut banks, 0, &mut borrower, 1_000, &prices, 0).unwrap();
    process_repay(&mut banks, 0, &mut borrower, 1_000, true, 0).unwrap();
    lending_account_end_flashloan(&banks, &mut borrower, &prices).unwrap();

    assert!(!borrower.get_flag(IN_FLASHLOAN_FLAG));
}

#[test]
fn flashloan_success_3op() {
    let (mut banks, prices, _lender, mut borrower) = flashloan_setup();
    borrower.set_flag(FLASHLOAN_ENABLED_FLAG).unwrap();

    let batch = vec![
        BatchInstruction { is_end_flashloan: false, account_id: 2 },
        BatchInstruction { is_end_flashloan: false, account_id: 2 },
        BatchInstruction { is_end_flashloan: false, account_id: 2 },
        BatchInstruction { is_end_flashloan: false, account_id: 2 },
        BatchInstruction { is_end_flashloan: false, account_id: 2 },
        BatchInstruction { is_end_flashloan: false, account_id: 2 },
        BatchInstruction { is_end_flashloan: false, account_id: 2 },
        BatchInstruction { is_end_flashloan: true, account_id: 2 },
    ];
    lending_account_start_flashloan(&mut borrower, 2, &batch, 0, 7).unwrap();
    for _ in 0..3 {
        process_borrow(&mut banks, 0, &mut borrower, 1_000, &prices, 0).unwrap();
        process_repay(&mut banks, 0, &mut borrower, 1_000, true, 0).unwrap();
    }
    lending_account_end_flashloan(&banks, &mut borrower, &prices).unwrap();
}

// Scenario: a bracket left with an unresolved borrow fails the final
// health check.
#[test]
fn flashloan_fail_account_health() {
    let (mut banks, prices, _lender, mut borrower) = flashloan_setup();
    borrower.set_flag(FLASHLOAN_ENABLED_FLAG).unwrap();

    let batch = vec![
        BatchInstruction { is_end_flashloan: false, account_id: 2 },
        BatchInstruction { is_end_flashloan: false, account_id: 2 },
        BatchInstruction { is_end_flashloan: true, account_id: 2 },
    ];
    lending_account_start_flashloan(&mut borrower, 2, &batch, 0, 2).unwrap();
    process_borrow(&mut banks, 0, &mut borrower, 1_000, &prices, 0).unwrap();
    let res = lending_account_end_flashloan(&banks, &mut borrower, &prices);
    assert_eq!(res.unwrap_err(), MarginfiError::RiskEngineInitRejected);
}

// The opt-in flag is deprecated: a bracket works without it.
#[test]
fn flashloan_ok_missing_flag() {
    let (mut banks, prices, _lender, mut borrower) = flashloan_setup();

    let batch = vec![
        BatchInstruction { is_end_flashloan: false, account_id: 2 },
        BatchInstruction { is_end_flashloan: false, account_id: 2 },
        BatchInstruction { is_end_flashloan: false, account_id: 2 },
        BatchInstruction { is_end_flashloan: true, account_id: 2 },
    ];
    lending_account_start_flashloan(&mut borrower, 2, &batch, 0, 3).unwrap();
    process_borrow(&mut banks, 0, &mut borrower, 1_000, &prices, 0).unwrap();
    process_repay(&mut banks, 0, &mut borrower, 1_000, true, 0).unwrap();
    let res = lending_account_end_flashloan(&banks, &mut borrower, &prices);
    assert!(res.is_ok());
}

// A bracket whose declared end slot holds no bracket-closing instruction
// never opens.
#[test]
fn flashloan_fail_missing_fe_ix() {
    let (_banks, _prices, _lender, mut borrower) = flashloan_setup();
    borrower.set_flag(FLASHLOAN_ENABLED_FLAG).unwrap();

    let batch = vec![
        BatchInstruction { is_end_flashloan: false, account_id: 2 },
        BatchInstruction { is_end_flashloan: false, account_id: 2 },
        BatchInstruction { is_end_flashloan: false, account_id: 2 },
    ];
    let res = lending_account_start_flashloan(&mut borrower, 2, &batch, 0, 2);
    assert_eq!(res.unwrap_err(), MarginfiError::IllegalFlashloan);
}

// The bracket-closing instruction must come after the opening one.
#[test]
fn flashloan_fail_invalid_end_fl_order() {
    let (_banks, _prices, _lender, mut borrower) = flashloan_setup();
    borrower.set_flag(FLASHLOAN_ENABLED_FLAG).unwrap();

    let batch = vec![
        BatchInstruction { is_end_flashloan: true, account_id: 2 },
        BatchInstruction { is_end_flashloan: false, account_id: 2 },
        BatchInstruction { is_end_flashloan: false, account_id: 2 },
    ];
    let res = lending_account_start_flashloan(&mut borrower, 2, &batch, 1, 0);
    assert_eq!(res.unwrap_err(), MarginfiError::IllegalFlashloan);
}

// The bracket-closing instruction must target the account that opened it.
#[test]
fn flashloan_fail_invalid_end_fl_different_m_account() {
    let (_banks, _prices, _lender, mut borrower) = flashloan_setup();
    borrower.set_flag(FLASHLOAN_ENABLED_FLAG).unwrap();

    let batch = vec![
        BatchInstruction { is_end_flashloan: false, account_id: 2 },
        BatchInstruction { is_end_flashloan: false, account_id: 2 },
        BatchInstruction { is_end_flashloan: true, account_id: 1 },
    ];
    let res = lending_account_start_flashloan(&mut borrower, 2, &batch, 0, 2);
    assert_eq!(res.unwrap_err(), MarginfiError::IllegalFlashloan);
}

// A second bracket may not open inside the first.
#[test]
fn flashloan_fail_already_in_flashloan() {
    let (_banks, _prices, _lender, mut borrower) = flashloan_setup();
    borrower.set_flag(FLASHLOAN_ENABLED_FLAG).unwrap();

    let batch = vec![
        BatchInstruction { is_end_flashloan: false, account_id: 2 },
        BatchInstruction { is_end_flashloan: false, account_id: 2 },
        BatchInstruction { is_end_flashloan: false, account_id: 2 },
        BatchInstruction { is_end_flashloan: true, account_id: 2 },
    ];
    lending_account_start_flashloan(&mut borrower, 2, &batch, 0, 3).unwrap();
    let res = lending_account_start_flashloan(&mut borrower, 2, &batch, 1, 3);
    assert_eq!(res.unwrap_err(), MarginfiError::IllegalFlashloan);
}

// Closing balances: a balance with real deposits or debt cannot close; a
// dust-level residue can, and a repay-all on dust reports no liability.
#[test]
fn lending_account_close_balance() {
    // work in thousandths of a token so sub-unit amounts exist
    let mut banks = vec![test_bank(0, false), test_bank(1, false), test_bank(2, false)];
    let prices = vec![snapshot(1), snapshot(10), snapshot(10)];

    let mut lender = MarginfiAccount::new(1);
    process_deposit(&mut banks, 1, &mut lender, 1_000_000, 0).unwrap();
    process_deposit(&mut banks, 2, &mut lender, 1_000_000, 0).unwrap();

    let res = marginfi_core::actions::lending_account_close_balance(&mut banks, 2, &mut lender, 0);
    assert_eq!(res.unwrap_err(), MarginfiError::IllegalBalanceState);

    let mut borrower = MarginfiAccount::new(2);
    process_deposit(&mut banks, 0, &mut borrower, 1_000_000, 0).unwrap();

    // borrow ten milli-tokens in each bank
    process_borrow(&mut banks, 1, &mut borrower, 10, &prices, 0).unwrap();
    process_borrow(&mut banks, 2, &mut borrower, 10, &prices, 0).unwrap();

    let res = marginfi_core::actions::lending_account_close_balance(&mut banks, 2, &mut borrower, 0);
    assert_eq!(res.unwrap_err(), MarginfiError::IllegalBalanceState);

    // a second later, repay the principal; a hair of interest is left
    process_repay(&mut banks, 1, &mut borrower, 10, false, 1).unwrap();

    // the residue is below the dust threshold: repay-all finds no liability
    let res = process_repay(&mut banks, 1, &mut borrower, 1, true, 1);
    assert_eq!(res.unwrap_err(), MarginfiError::NoLiabilityFound);

    let res = marginfi_core::actions::lending_account_close_balance(&mut banks, 1, &mut borrower, 1);
    assert!(res.is_ok());
}

// Regression: after a position closes, its freed slot does not shadow the
// remaining balances.
#[test]
fn marginfi_account_correct_balance_selection_after_closing_position() {
    let mut banks = vec![test_bank(0, false), test_bank(1, false)];
    let prices = vec![snapshot(1), snapshot(10)];

    let mut lender = MarginfiAccount::new(1);
    process_deposit(&mut banks, 1, &mut lender, 1_000, 0).unwrap();
    process_deposit(&mut banks, 0, &mut lender, 2_000, 0).unwrap();

    process_withdraw(&mut banks, 1, &mut lender, 0, true, &prices, 0).unwrap();

    let slot = lender
        .lending_account
        .balances
        .iter()
        .position(|b| b.active && b.bank_index == 0)
        .unwrap();
    let amount = banks[0]
        .get_asset_amount(lender.lending_account.balances[slot].asset_shares)
        .unwrap();
    assert_eq!(amount, fx(2_000));
}
