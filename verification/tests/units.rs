// Unit tests: exact rounding of the fixed-point core, oracle resolution,
// configuration validation, account plumbing, the instruction-hash wrapper,
// and one input for every error kind.

use marginfi_core::account::{
    MarginfiAccount, DISABLED_FLAG, FLASHLOAN_ENABLED_FLAG, IN_FLASHLOAN_FLAG, MAX_BALANCES,
    TRANSFER_AUTHORITY_ALLOWED_FLAG,
};
use marginfi_core::actions::{
    process_borrow, process_deposit, process_repay, process_withdraw,
};
use marginfi_core::bank::{Bank, BankConfig, BankOperationalState, InterestRateConfig, RiskTier};
use marginfi_core::errors::MarginfiError;
use marginfi_core::fixnum::{Fx, UNIT};
use marginfi_core::price::{
    exp_10, pyth_price_to_fixed, validate_feed, validate_feeds_agree, OraclePriceFeed,
    OraclePriceSnapshot, OracleSetup,
};
use marginfi_core::staked_settings::{
    lending_pool_add_bank_permissionless, propagate_staked_settings, StakedSettings,
};
use sha2::Digest;

fn fx(n: u64) -> Fx {
    Fx::from_int(n)
}

fn frac(num: u128, den: u128) -> Fx {
    Fx { bits: num * UNIT / den }
}

fn plain_config(oracle_key: u64) -> BankConfig {
    BankConfig {
        asset_weight_init: fx(1),
        asset_weight_maint: fx(1),
        liability_weight_init: fx(1),
        liability_weight_maint: fx(1),
        deposit_limit: 1_000_000,
        borrow_limit: 1_000_000,
        interest_rate_config: InterestRateConfig {
            optimal_utilization_rate: frac(1, 2),
            plateau_interest_rate: frac(1, 2),
            max_interest_rate: fx(4),
            insurance_fee_fixed_apr: fx(0),
            insurance_ir_fee: fx(0),
            protocol_fixed_fee_apr: fx(0),
            protocol_ir_fee: fx(0),
        },
        operational_state: BankOperationalState::Operational,
        oracle_setup: OracleSetup::PythEma,
        oracle_key,
        oracle_max_age: 60,
        risk_tier: RiskTier::Collateral,
        asset_tag: 0,
        total_asset_value_init_limit: 0,
    }
}

fn unit_prices(n: usize) -> Vec<Option<OraclePriceSnapshot>> {
    (0..n).map(|_| Some(OraclePriceSnapshot { price: fx(1), confidence: Fx { bits: 0 } })).collect()
}

// ---- fixed-point core ----

#[test]
fn fixnum_rounding_directions() {
    let three = fx(3);
    let two = fx(2);
    // 3 / 2 in both directions
    assert_eq!(three.div_down(two).unwrap().bits, 3 * UNIT / 2);
    assert_eq!(three.div_up(two).unwrap().bits, 3 * UNIT / 2);
    // 1 / 3 rounds differently each way
    let down = fx(1).div_down(three).unwrap();
    let up = fx(1).div_up(three).unwrap();
    assert_eq!(up.bits, down.bits + 1);
    // multiplication: a third of a third loses a fraction of a bit
    let d = down.mul_down(down).unwrap();
    let u = down.mul_up(down).unwrap();
    assert_eq!(u.bits, d.bits + 1);
    // exact products stay exact
    assert_eq!(fx(6), fx(2).mul_down(fx(3)).unwrap());
    assert_eq!(fx(6), fx(2).mul_up(fx(3)).unwrap());
}

#[test]
fn fixnum_checked_limits() {
    let max = Fx { bits: u128::MAX };
    assert!(max.checked_add(fx(1)).is_none());
    assert!(fx(1).checked_sub(fx(2)).is_none());
    assert!(max.mul_down(fx(2)).is_none());
    // dividing by less than one grows the value beyond range
    assert!(max.div_down(Fx { bits: 1 }).is_none());
    assert_eq!(fx(5).checked_sub(fx(2)).unwrap(), fx(3));
}

// The deposit/withdraw round trip never pays out more than was paid in, and
// the shortfall is bounded by one rounding unit of the share value.
#[test]
fn round_trip_shortfall_bounded() {
    for value_bits in [UNIT, UNIT + 12_345, 3 * UNIT / 2, 7 * UNIT] {
        let v = Fx { bits: value_bits };
        for amount in [1u64, 7, 999, 1_000_000] {
            let a = fx(amount);
            let shares = a.div_down(v).unwrap();
            let out = shares.mul_down(v).unwrap();
            assert!(out.bits <= a.bits);
            assert!(a.bits - out.bits <= value_bits / UNIT + 1);
        }
    }
}

// ---- oracle price resolution ----

#[test]
fn pyth_price_scaling() {
    // 1234 at exponent -2 is 12.34
    assert_eq!(
        pyth_price_to_fixed(1_234, -2).unwrap().bits,
        1_234 * UNIT / 100
    );
    // positive exponents multiply
    assert_eq!(pyth_price_to_fixed(5, 3).unwrap(), fx(5_000));
    assert_eq!(pyth_price_to_fixed(42, 0).unwrap(), fx(42));
    // negative prices are arithmetic errors
    assert_eq!(pyth_price_to_fixed(-1, 0).unwrap_err(), MarginfiError::MathError);
    assert_eq!(exp_10(6), 1_000_000);
}

#[test]
fn feed_validation() {
    let feed = OraclePriceFeed {
        oracle_key: 7,
        setup: OracleSetup::PythEma,
        ema_price: fx(10),
        confidence: fx(1),
        publish_time: 100,
    };
    // fresh and matching
    let snap = validate_feed(&feed, 7, OracleSetup::PythEma, 130, 60).unwrap();
    assert_eq!(snap.price, fx(10));
    // identity mismatch
    assert_eq!(
        validate_feed(&feed, 8, OracleSetup::PythEma, 130, 60).unwrap_err(),
        MarginfiError::OracleValidationFailed
    );
    // kind mismatch
    assert_eq!(
        validate_feed(&feed, 7, OracleSetup::SwitchboardV2, 130, 60).unwrap_err(),
        MarginfiError::OracleValidationFailed
    );
    // too old
    assert_eq!(
        validate_feed(&feed, 7, OracleSetup::PythEma, 200, 60).unwrap_err(),
        MarginfiError::StaleOracle
    );
    // confidence bounds lean against the position
    assert_eq!(snap.price_low(), fx(9));
    assert_eq!(snap.price_high().unwrap(), fx(11));
    assert_eq!(snap.price_point(), fx(10));
}

#[test]
fn dual_feed_agreement() {
    let a = OraclePriceFeed {
        oracle_key: 1,
        setup: OracleSetup::PythEma,
        ema_price: fx(10),
        confidence: fx(0),
        publish_time: 0,
    };
    let mut b = a;
    b.ema_price = fx(11);
    assert!(validate_feeds_agree(&a, &b, fx(1)).is_ok());
    assert_eq!(
        validate_feeds_agree(&a, &b, frac(1, 2)).unwrap_err(),
        MarginfiError::OracleValidationFailed
    );
}

// ---- bank configuration and ledger ----

#[test]
fn config_validation() {
    assert!(plain_config(0).validate().is_ok());
    let mut c = plain_config(0);
    c.asset_weight_init = frac(3, 2);
    assert_eq!(c.validate().unwrap_err(), MarginfiError::InvalidConfig);
    let mut c = plain_config(0);
    c.interest_rate_config.optimal_utilization_rate = fx(0);
    assert_eq!(c.validate().unwrap_err(), MarginfiError::InvalidConfig);
    let mut c = plain_config(0);
    c.interest_rate_config.plateau_interest_rate = fx(5);
    assert_eq!(c.validate().unwrap_err(), MarginfiError::InvalidConfig);
    let mut c = plain_config(0);
    c.liability_weight_maint = frac(1, 2);
    assert_eq!(c.validate().unwrap_err(), MarginfiError::InvalidConfig);
}

// A deposit lands in exactly one active balance, moves exactly the paid
// amount into the vault, and accounts for it in the balance's shares.
#[test]
fn marginfi_account_deposit_success() {
    let mut banks = vec![Bank::new(plain_config(0), 0)];
    let mut acc = MarginfiAccount::new(1);

    let pre_vault = banks[0].liquidity_vault_balance;
    let res = process_deposit(&mut banks, 0, &mut acc, 1_000, 0);
    assert!(res.is_ok());
    let post_vault = banks[0].liquidity_vault_balance;

    let active: Vec<_> = acc.lending_account.balances.iter().filter(|b| b.active).collect();
    assert_eq!(1, active.len());

    let expected = fx(1_000);
    assert_eq!(expected.bits, post_vault.bits - pre_vault.bits);
    let accounted = banks[0].get_asset_amount(active[0].asset_shares).unwrap();
    assert!(expected.bits - accounted.bits <= 1);
}

// A deposit beyond the bank's cap is refused outright; one within it still
// goes through afterwards.
#[test]
fn marginfi_account_deposit_failure_capacity_exceeded() {
    let mut cfg = plain_config(0);
    cfg.deposit_limit = 1_000;
    let mut banks = vec![Bank::new(cfg, 0)];
    let mut acc = MarginfiAccount::new(1);

    let res = process_deposit(&mut banks, 0, &mut acc, 2_345, 0);
    assert_eq!(res.unwrap_err(), MarginfiError::BankAssetCapacityExceeded);

    let res = process_deposit(&mut banks, 0, &mut acc, 456, 0);
    assert!(res.is_ok());
}

#[test]
fn deposit_capacity_and_state_errors() {
    let mut cfg = plain_config(0);
    cfg.deposit_limit = 500;
    let mut banks = vec![Bank::new(cfg, 0)];
    let mut acc = MarginfiAccount::new(1);
    assert_eq!(
        process_deposit(&mut banks, 0, &mut acc, 501, 0).unwrap_err(),
        MarginfiError::BankAssetCapacityExceeded
    );
    process_deposit(&mut banks, 0, &mut acc, 500, 0).unwrap();

    banks[0].config.operational_state = BankOperationalState::ReduceOnly;
    assert_eq!(
        process_deposit(&mut banks, 0, &mut acc, 1, 0).unwrap_err(),
        MarginfiError::BankReduceOnly
    );
    banks[0].config.operational_state = BankOperationalState::Paused;
    assert_eq!(
        process_deposit(&mut banks, 0, &mut acc, 1, 0).unwrap_err(),
        MarginfiError::BankPaused
    );

    let mut disabled = MarginfiAccount::new(2);
    disabled.account_flags = DISABLED_FLAG;
    banks[0].config.operational_state = BankOperationalState::Operational;
    assert_eq!(
        process_deposit(&mut banks, 0, &mut disabled, 1, 0).unwrap_err(),
        MarginfiError::AccountDisabled
    );
}

#[test]
fn borrow_capacity_liquidity_and_health_errors() {
    let mut cfg = plain_config(0);
    cfg.borrow_limit = 50;
    let mut banks = vec![Bank::new(cfg, 0), Bank::new(plain_config(1), 0)];
    let prices = unit_prices(2);

    let mut lender = MarginfiAccount::new(1);
    process_deposit(&mut banks, 0, &mut lender, 100, 0).unwrap();

    let mut borrower = MarginfiAccount::new(2);
    process_deposit(&mut banks, 1, &mut borrower, 10_000, 0).unwrap();

    // beyond the borrow limit
    assert_eq!(
        process_borrow(&mut banks, 0, &mut borrower, 60, &prices, 0).unwrap_err(),
        MarginfiError::BankLiabilityCapacityExceeded
    );
    // within the limit but beyond the vault
    banks[0].config.borrow_limit = 1_000_000;
    assert_eq!(
        process_borrow(&mut banks, 0, &mut borrower, 200, &prices, 0).unwrap_err(),
        MarginfiError::BankLiquidityInsufficient
    );

    // an unhealthy borrow is rejected and leaves everything untouched
    let mut poor = MarginfiAccount::new(3);
    process_deposit(&mut banks, 1, &mut poor, 10, 0).unwrap();
    let banks_before = banks.clone();
    let poor_before = poor.clone();
    assert_eq!(
        process_borrow(&mut banks, 0, &mut poor, 50, &prices, 0).unwrap_err(),
        MarginfiError::RiskEngineInitRejected
    );
    assert_eq!(banks, banks_before);
    assert_eq!(poor, poor_before);

    // a missing snapshot for a touched bank is its own error
    let mut gappy = unit_prices(2);
    gappy[1] = None;
    assert_eq!(
        process_borrow(&mut banks, 0, &mut poor, 1, &gappy, 0).unwrap_err(),
        MarginfiError::MissingPrice
    );
}

#[test]
fn withdraw_errors_and_offsetting() {
    let mut banks = vec![Bank::new(plain_config(0), 0), Bank::new(plain_config(1), 0)];
    let prices = unit_prices(2);

    let mut lender = MarginfiAccount::new(1);
    process_deposit(&mut banks, 0, &mut lender, 1_000, 0).unwrap();

    let mut borrower = MarginfiAccount::new(2);
    process_deposit(&mut banks, 1, &mut borrower, 1_000, 0).unwrap();
    process_borrow(&mut banks, 0, &mut borrower, 100, &prices, 0).unwrap();

    // a balance carrying debt cannot withdraw
    assert_eq!(
        process_withdraw(&mut banks, 0, &mut borrower, 1, false, &prices, 0).unwrap_err(),
        MarginfiError::IllegalBalanceState
    );
    // no balance at all
    assert_eq!(
        process_withdraw(&mut banks, 1, &mut lender, 1, false, &prices, 0).unwrap_err(),
        MarginfiError::BankAccountNotFound
    );
    // a repayment against a missing balance
    assert_eq!(
        process_repay(&mut banks, 1, &mut lender, 1, false, 0).unwrap_err(),
        MarginfiError::BankAccountNotFound
    );

    // depositing into the indebted balance settles the debt first
    process_deposit(&mut banks, 0, &mut borrower, 150, 0).unwrap();
    let slot = borrower
        .lending_account
        .balances
        .iter()
        .position(|b| b.active && b.bank_index == 0)
        .unwrap();
    let bal = borrower.lending_account.balances[slot];
    assert_eq!(bal.liability_shares, fx(0));
    assert_eq!(bal.asset_shares, fx(50));

    // full withdrawal empties and closes the balance; a second one finds
    // no assets
    process_withdraw(&mut banks, 0, &mut borrower, 0, true, &prices, 0).unwrap();
    assert!(!borrower.lending_account.balances[slot].active);
    assert_eq!(
        process_withdraw(&mut banks, 0, &mut borrower, 1, true, &prices, 0).unwrap_err(),
        MarginfiError::BankAccountNotFound
    );
    // an empty active balance has no assets to withdraw in full
    let mut tiny = MarginfiAccount::new(3);
    process_deposit(&mut banks, 0, &mut tiny, 1, 0).unwrap();
    process_withdraw(&mut banks, 0, &mut tiny, 1, false, &prices, 0).unwrap();
    assert_eq!(
        process_withdraw(&mut banks, 0, &mut tiny, 0, true, &prices, 0).unwrap_err(),
        MarginfiError::NoAssetFound
    );
}

#[test]
fn balance_slots_fill_up() {
    let mut banks: Vec<Bank> = (0..17).map(|i| Bank::new(plain_config(i as u64), 0)).collect();
    let mut acc = MarginfiAccount::new(1);
    for i in 0..MAX_BALANCES {
        process_deposit(&mut banks, i, &mut acc, 1, 0).unwrap();
    }
    assert_eq!(
        process_deposit(&mut banks, MAX_BALANCES, &mut acc, 1, 0).unwrap_err(),
        MarginfiError::LendingAccountBalanceSlotsFull
    );
}

#[test]
fn interest_accrual_is_monotone_and_idempotent() {
    let mut cfg = plain_config(0);
    cfg.interest_rate_config.protocol_ir_fee = frac(1, 10);
    cfg.interest_rate_config.insurance_ir_fee = frac(5, 100);
    let mut banks = vec![Bank::new(cfg, 0), Bank::new(plain_config(1), 0)];
    let prices = unit_prices(2);

    let mut lender = MarginfiAccount::new(1);
    process_deposit(&mut banks, 0, &mut lender, 1_000, 0).unwrap();
    let mut borrower = MarginfiAccount::new(2);
    process_deposit(&mut banks, 1, &mut borrower, 1_000, 0).unwrap();
    process_borrow(&mut banks, 0, &mut borrower, 500, &prices, 0).unwrap();

    let asv0 = banks[0].asset_share_value;
    let lsv0 = banks[0].liability_share_value;

    let mut b = banks[0];
    b.accrue_interest(1_000_000).unwrap();
    assert!(b.asset_share_value.bits > asv0.bits);
    assert!(b.liability_share_value.bits > lsv0.bits);
    assert!(b.collected_protocol_fees_outstanding.bits > 0);
    assert!(b.collected_insurance_fees_outstanding.bits > 0);

    // a second accrual at the same time changes nothing
    let frozen = b;
    b.accrue_interest(1_000_000).unwrap();
    assert_eq!(b, frozen);
    // nor does one dated earlier
    b.accrue_interest(10).unwrap();
    assert_eq!(b, frozen);

    // debt grows by at least the lender and fee sides together
    let lender_growth = (b.asset_share_value.bits - asv0.bits) * b.total_asset_shares.bits;
    let debt_growth = (b.liability_share_value.bits - lsv0.bits) * b.total_liability_shares.bits;
    let fee_growth = (b.collected_protocol_fees_outstanding.bits
        + b.collected_insurance_fees_outstanding.bits) * UNIT;
    assert!(debt_growth >= lender_growth + fee_growth);
}

// Beyond the optimal point the rate climbs the steep segment: at eighty
// percent utilization with a half plateau and a max of four, the borrow
// rate is 0.5 + (0.3 / 0.5) * 3.5 = 2.6, so debt of 80 grows to 288 over
// a year.
#[test]
fn interest_rate_steep_segment() {
    let mut banks = vec![Bank::new(plain_config(0), 0), Bank::new(plain_config(1), 0)];
    let prices = unit_prices(2);

    let mut lender = MarginfiAccount::new(1);
    process_deposit(&mut banks, 0, &mut lender, 100, 0).unwrap();
    let mut borrower = MarginfiAccount::new(2);
    process_deposit(&mut banks, 1, &mut borrower, 1_000, 0).unwrap();
    process_borrow(&mut banks, 0, &mut borrower, 80, &prices, 0).unwrap();

    let year = 365 * 24 * 60 * 60;
    banks[0].accrue_interest(year).unwrap();
    let debt = banks[0]
        .get_liability_amount(
            borrower
                .lending_account
                .balances
                .iter()
                .find(|b| b.active && b.bank_index == 0)
                .unwrap()
                .liability_shares,
        )
        .unwrap();
    let expected = 288 * UNIT;
    let tolerance = UNIT / 100_000;
    let gap = if debt.bits >= expected { debt.bits - expected } else { expected - debt.bits };
    assert!(gap <= tolerance);
}

// Depositing and then withdrawing everything never pays out more than was
// paid in, even at a grown share value.
#[test]
fn deposit_withdraw_round_trip_never_gains() {
    let mut banks = vec![Bank::new(plain_config(0), 0), Bank::new(plain_config(1), 0)];
    let prices = unit_prices(2);

    // grow the share value away from one
    let mut lender = MarginfiAccount::new(1);
    process_deposit(&mut banks, 0, &mut lender, 997, 0).unwrap();
    let mut borrower = MarginfiAccount::new(2);
    process_deposit(&mut banks, 1, &mut borrower, 10_000, 0).unwrap();
    process_borrow(&mut banks, 0, &mut borrower, 331, &prices, 0).unwrap();
    banks[0].accrue_interest(12_345_678).unwrap();
    assert!(banks[0].asset_share_value.bits > UNIT);

    let mut user = MarginfiAccount::new(3);
    for amount in [1u64, 13, 997] {
        process_deposit(&mut banks, 0, &mut user, amount, 100_000_000).unwrap();
        let out =
            process_withdraw(&mut banks, 0, &mut user, 0, true, &prices, 100_000_000).unwrap();
        assert!(out.bits <= amount as u128 * UNIT);
        // short by at most one rounding unit of the share value
        assert!(amount as u128 * UNIT - out.bits <= banks[0].asset_share_value.bits / UNIT + 1);
    }
}

// ---- account plumbing ----

#[test]
fn account_flags() {
    let mut acc = MarginfiAccount::new(1);

    acc.set_flag(FLASHLOAN_ENABLED_FLAG).unwrap();
    assert_eq!(acc.account_flags, FLASHLOAN_ENABLED_FLAG);
    assert!(acc.get_flag(FLASHLOAN_ENABLED_FLAG));

    acc.unset_flag(FLASHLOAN_ENABLED_FLAG).unwrap();
    assert_eq!(acc.account_flags, 0);

    let res = acc.set_flag(DISABLED_FLAG);
    assert!(res.is_err());
    assert_eq!(res.unwrap_err(), MarginfiError::IllegalFlag);

    let res = acc.unset_flag(IN_FLASHLOAN_FLAG);
    assert!(res.is_err());
    assert_eq!(res.unwrap_err(), MarginfiError::IllegalFlag);
}

#[test]
fn marginfi_account_authority_transfer_no_flag_set() {
    let mut acc = MarginfiAccount::new(1);
    let res = acc.transfer_authority(9);
    assert!(res.is_err());
    assert_eq!(res.unwrap_err(), MarginfiError::IllegalAccountAuthorityTransfer);

    acc.set_flag(TRANSFER_AUTHORITY_ALLOWED_FLAG).unwrap();
    acc.transfer_authority(9).unwrap();
    assert_eq!(acc.authority, 9);
}

#[test]
fn observation_indexes_follow_balances() {
    let mut banks: Vec<Bank> = (0..4).map(|i| Bank::new(plain_config(i as u64), 0)).collect();
    let mut acc = MarginfiAccount::new(1);
    process_deposit(&mut banks, 2, &mut acc, 10, 0).unwrap();
    process_deposit(&mut banks, 0, &mut acc, 10, 0).unwrap();

    // actives in slot order, extras appended once, exclusions dropped
    let ids = acc.lending_account.observation_bank_indexes(&vec![0, 3], &vec![]);
    assert_eq!(ids, vec![2, 0, 3]);
    let ids = acc.lending_account.observation_bank_indexes(&vec![], &vec![2]);
    assert_eq!(ids, vec![0]);
    let ids = acc.lending_account.observation_bank_indexes(&vec![3, 3], &vec![0]);
    assert_eq!(ids, vec![2, 3]);
}

// ---- bankruptcy numbers ----

#[test]
fn bankruptcy_socializes_uncovered_debt() {
    let mut banks = vec![Bank::new(plain_config(0), 0), Bank::new(plain_config(1), 0)];
    let prices = unit_prices(2);

    let mut lender = MarginfiAccount::new(1);
    process_deposit(&mut banks, 0, &mut lender, 1_000, 0).unwrap();
    let mut borrower = MarginfiAccount::new(2);
    process_deposit(&mut banks, 1, &mut borrower, 500, 0).unwrap();
    process_borrow(&mut banks, 0, &mut borrower, 400, &prices, 0).unwrap();

    // the borrower's collateral vanishes from the books: simulate a full
    // seizure by a prior liquidation, leaving pure bad debt
    let slot = borrower
        .lending_account
        .balances
        .iter()
        .position(|b| b.active && b.bank_index == 1)
        .unwrap();
    let mut bal = borrower.lending_account.balances[slot];
    banks[1].total_asset_shares =
        Fx { bits: banks[1].total_asset_shares.bits - bal.asset_shares.bits };
    bal.asset_shares = fx(0);
    borrower.lending_account.balances[slot] = bal;

    // seed the insurance vault with 100
    banks[0].insurance_vault_balance = fx(100);

    // a healthy account does not qualify
    assert_eq!(
        marginfi_core::actions::lending_pool_handle_bankruptcy(
            &mut banks, 0, &mut lender, &prices, 0
        )
        .unwrap_err(),
        MarginfiError::AccountNotBankrupt
    );

    let asv_before = banks[0].asset_share_value;
    marginfi_core::actions::lending_pool_handle_bankruptcy(
        &mut banks, 0, &mut borrower, &prices, 0,
    )
    .unwrap();

    // the debt is gone, the insurance vault is drained, and the remaining
    // 300 spread over 1000 deposited shares cut the share value by 0.3
    let dslot = borrower
        .lending_account
        .balances
        .iter()
        .position(|b| b.active && b.bank_index == 0)
        .unwrap();
    assert_eq!(borrower.lending_account.balances[dslot].liability_shares, fx(0));
    assert_eq!(banks[0].insurance_vault_balance, fx(0));
    assert_eq!(banks[0].total_liability_shares, fx(0));
    // the cut rounds up so the pool never keeps claims it cannot back
    assert_eq!(
        asv_before.bits - banks[0].asset_share_value.bits,
        3 * UNIT / 10 + 1
    );
}

// ---- instruction hashing ----

// The discriminator must really be the first eight bytes of the SHA-256 of
// `namespace:name`: a wrapper that handed anything else back would fail.
#[test]
fn function_hash_matches_digest() {
    let hash = marginfi_core::ix_utils::get_function_hash("global", "init_user");
    let digest = sha2::Sha256::digest("global:init_user".as_bytes());
    assert_eq!(&hash[..], &digest[..8]);
    // a different name gives a different discriminator
    let other = marginfi_core::ix_utils::get_function_hash("global", "fresh_deposit");
    assert_ne!(hash, other);
}

// ---- staked-collateral settings ----

#[test]
fn staked_settings_create_and_propagate() {
    let settings = StakedSettings {
        oracle: 77,
        asset_weight_init: frac(8, 10),
        asset_weight_maint: frac(9, 10),
        deposit_limit: 5_000,
        total_asset_value_init_limit: 1_000,
        oracle_max_age: 30,
        risk_tier: RiskTier::Collateral,
    };
    let bank = lending_pool_add_bank_permissionless(&settings, 42).unwrap();
    assert_eq!(bank.config.oracle_key, 77);
    assert_eq!(bank.config.borrow_limit, 0);
    assert_eq!(bank.config.asset_tag, marginfi_core::bank::ASSET_TAG_STAKED);
    assert_eq!(bank.last_update, 42);
    assert_eq!(bank.asset_share_value, fx(1));

    // weights out of order are refused
    let mut bad = settings;
    bad.asset_weight_init = fx(1);
    bad.asset_weight_maint = frac(1, 2);
    assert_eq!(
        lending_pool_add_bank_permissionless(&bad, 42).unwrap_err(),
        MarginfiError::InvalidConfig
    );

    // propagation rewrites exactly the settings-owned fields
    let mut target = Bank::new(plain_config(0), 0);
    propagate_staked_settings(&settings, &mut target).unwrap();
    assert_eq!(target.config.oracle_key, 77);
    assert_eq!(target.config.asset_weight_init, frac(8, 10));
    assert_eq!(target.config.deposit_limit, 5_000);
    assert_eq!(target.config.oracle_max_age, 30);
    // and leaves the rest alone
    assert_eq!(target.config.borrow_limit, plain_config(0).borrow_limit);

    let before = target;
    assert_eq!(
        propagate_staked_settings(&bad, &mut target).unwrap_err(),
        MarginfiError::InvalidConfig
    );
    assert_eq!(target, before);
}
