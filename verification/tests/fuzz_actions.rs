// Action-level tests on a small simulated group: two identical banks, a
// handful of accounts, and one seeding account per the harness convention.

use marginfi_core::account::MarginfiAccount;
use marginfi_core::actions::{
    lending_pool_handle_bankruptcy, process_borrow, process_deposit, process_liquidate_account,
    process_repay,
};
use marginfi_core::bank::{Bank, BankConfig, BankOperationalState, InterestRateConfig, RiskTier};
use marginfi_core::fixnum::{Fx, UNIT};
use marginfi_core::price::{pyth_price_to_fixed, OraclePriceSnapshot, OracleSetup};

struct Harness {
    banks: Vec<Bank>,
    accounts: Vec<MarginfiAccount>,
    oracle_raw: Vec<i64>,
    now: u64,
}

fn fx(n: u64) -> Fx {
    Fx::from_int(n)
}

fn frac(num: u128, den: u128) -> Fx {
    Fx { bits: num * UNIT / den }
}

fn dummy_config(oracle_key: u64) -> BankConfig {
    BankConfig {
        asset_weight_init: fx(1),
        asset_weight_maint: fx(1),
        liability_weight_init: fx(1),
        liability_weight_maint: fx(1),
        deposit_limit: 1_000_000_000_000,
        borrow_limit: 1_000_000_000_000,
        interest_rate_config: InterestRateConfig {
            optimal_utilization_rate: frac(1, 2),
            plateau_interest_rate: frac(1, 2),
            max_interest_rate: fx(4),
            insurance_fee_fixed_apr: frac(1, 100),
            insurance_ir_fee: frac(5, 100),
            protocol_fixed_fee_apr: frac(1, 100),
            protocol_ir_fee: frac(1, 10),
        },
        operational_state: BankOperationalState::Operational,
        oracle_setup: OracleSetup::PythEma,
        oracle_key,
        oracle_max_age: 60,
        risk_tier: RiskTier::Collateral,
        asset_tag: 0,
        total_asset_value_init_limit: 0,
    }
}

impl Harness {
    fn setup(n_banks: usize, n_users: usize) -> Harness {
        let mut banks = Vec::new();
        let mut oracle_raw = Vec::new();
        for i in 0..n_banks {
            banks.push(Bank::new(dummy_config(i as u64), 0));
            oracle_raw.push(10i64);
        }
        let mut accounts = Vec::new();
        for i in 0..(n_users + 1) {
            accounts.push(MarginfiAccount::new(i as u64));
        }
        let mut h = Harness { banks, accounts, oracle_raw, now: 0 };
        // seed every bank through the extra account
        let seeder = n_users;
        for b in 0..n_banks {
            h.process_action_deposit(seeder, b, 1_000).unwrap();
        }
        h
    }

    fn prices(&self) -> Vec<Option<OraclePriceSnapshot>> {
        self.oracle_raw
            .iter()
            .map(|raw| {
                Some(OraclePriceSnapshot {
                    price: pyth_price_to_fixed(*raw, 0).unwrap(),
                    confidence: Fx { bits: 0 },
                })
            })
            .collect()
    }

    fn process_action_deposit(
        &mut self,
        user: usize,
        bank: usize,
        amount: u64,
    ) -> Result<Fx, marginfi_core::errors::MarginfiError> {
        process_deposit(&mut self.banks, bank, &mut self.accounts[user], amount, self.now)
    }

    fn process_action_borrow(
        &mut self,
        user: usize,
        bank: usize,
        amount: u64,
    ) -> Result<Fx, marginfi_core::errors::MarginfiError> {
        let prices = self.prices();
        process_borrow(&mut self.banks, bank, &mut self.accounts[user], amount, &prices, self.now)
    }

    fn process_action_repay(
        &mut self,
        user: usize,
        bank: usize,
        amount: u64,
        repay_all: bool,
    ) -> Result<Fx, marginfi_core::errors::MarginfiError> {
        process_repay(
            &mut self.banks,
            bank,
            &mut self.accounts[user],
            amount,
            repay_all,
            self.now,
        )
    }

    fn process_update_oracle(&mut self, bank: usize, delta: i64) {
        self.oracle_raw[bank] += delta;
    }

    /// The first bank the account holds collateral in and the first it owes
    /// in, as the liquidation harness picks them.
    fn liquidation_banks(&self, user: usize) -> Option<(usize, usize)> {
        let balances = &self.accounts[user].lending_account.balances;
        let mut asset_bank = None;
        let mut liab_bank = None;
        for b in balances.iter() {
            if b.active && b.asset_shares.bits > 0 && asset_bank.is_none() {
                asset_bank = Some(b.bank_index);
            }
            if b.active && b.liability_shares.bits > 0 && liab_bank.is_none() {
                liab_bank = Some(b.bank_index);
            }
        }
        match (asset_bank, liab_bank) {
            (Some(a), Some(l)) => Some((a, l)),
            _ => None,
        }
    }

    fn process_liquidate_account(
        &mut self,
        liquidator: usize,
        liquidatee: usize,
        amount: u64,
    ) -> Result<(), marginfi_core::errors::MarginfiError> {
        let (asset_bank, liab_bank) = self.liquidation_banks(liquidatee).unwrap();
        let prices = self.prices();
        let (a, b) = two_accounts(&mut self.accounts, liquidator, liquidatee);
        process_liquidate_account(
            &mut self.banks,
            asset_bank,
            liab_bank,
            a,
            b,
            amount,
            &prices,
            self.now,
        )
    }
}

fn two_accounts(
    accounts: &mut Vec<MarginfiAccount>,
    i: usize,
    j: usize,
) -> (&mut MarginfiAccount, &mut MarginfiAccount) {
    assert!(i != j);
    if i < j {
        let (lo, hi) = accounts.split_at_mut(j);
        (&mut lo[i], &mut hi[0])
    } else {
        let (lo, hi) = accounts.split_at_mut(i);
        (&mut hi[0], &mut lo[j])
    }
}

#[test]
fn deposit_test() {
    let mut a = Harness::setup(2, 2);

    a.process_action_deposit(0, 0, 1000).unwrap();

    assert_eq!(
        a.accounts[0].lending_account.balances[0].asset_shares,
        Fx::from_int(1000)
    );
}

#[test]
fn borrow_test() {
    let mut a = Harness::setup(2, 2);

    a.process_action_deposit(1, 1, 1000).unwrap();
    a.process_action_deposit(0, 0, 1000).unwrap();
    a.process_action_borrow(0, 1, 100).unwrap();

    {
        let balances = &a.accounts[0].lending_account.balances;
        assert_eq!(balances[0].asset_shares, Fx::from_int(1000));
        assert_eq!(balances[1].liability_shares, Fx::from_int(100));
    }

    a.process_action_repay(0, 1, 100, false).unwrap();

    assert_eq!(
        a.accounts[0].lending_account.balances[1].liability_shares,
        Fx::from_int(0)
    );
}

#[test]
fn liquidation_test() {
    let mut a = Harness::setup(2, 3);

    a.process_action_deposit(1, 1, 1000).unwrap();
    a.process_action_deposit(0, 0, 1000).unwrap();
    a.process_action_borrow(0, 1, 500).unwrap();

    a.process_update_oracle(1, 10_000_000_000_000);

    a.process_action_deposit(2, 1, 1000).unwrap();

    a.process_liquidate_account(2, 0, 50).unwrap();

    assert_eq!(
        a.accounts[0].lending_account.balances[0].asset_shares,
        Fx::from_int(950)
    );
}

#[test]
fn liquidation_and_bankruptcy() {
    let mut a = Harness::setup(2, 3);

    a.process_action_deposit(1, 1, 1000).unwrap();
    a.process_action_deposit(0, 0, 1000).unwrap();
    a.process_action_borrow(0, 1, 500).unwrap();

    a.process_update_oracle(1, 1_000_000_000_000);

    a.process_action_deposit(2, 1, 1000).unwrap();

    a.process_liquidate_account(2, 0, 1000).unwrap();

    let prices = a.prices();
    lending_pool_handle_bankruptcy(&mut a.banks, 1, &mut a.accounts[0], &prices, a.now).unwrap();

    assert_eq!(
        a.accounts[0].lending_account.balances[0].asset_shares,
        Fx::from_int(0)
    );
    assert_eq!(
        a.accounts[0].lending_account.balances[0].liability_shares,
        Fx::from_int(0)
    );
}

#[test]
fn price_update() {
    let mut a = Harness::setup(2, 3);

    let price = a.oracle_raw[0];

    a.process_update_oracle(0, 1100);

    let new_price = a.oracle_raw[0];
    assert_eq!(price, new_price - 1100);
}
