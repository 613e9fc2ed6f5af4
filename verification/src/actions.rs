//! The action processor: one deterministic procedure per economic action.
//!
//! Every action re-runs interest accrual on each bank it touches, stages
//! its changes, runs the risk checks the action calls for, and only then
//! commits.  An action that fails anywhere leaves every entity exactly as
//! it found it: the caller sees success with the net token movement, or one
//! specific error and no change at all.

use crate::account::{
    fresh_balance, has_flag_spec, slot_matches, Balance, LendingAccount, MarginfiAccount,
    DISABLED_FLAG, EMPTY_BALANCE_THRESHOLD_BITS, IN_FLASHLOAN_FLAG, MAX_BALANCES,
};
use crate::bank::{
    accrual_asv_delta, accrual_ins_fee, accrual_lsv_delta, accrual_prot_fee, deposit_shares_spec,
    repay_shares_spec, shares_liability_value_spec, Bank, BankOperationalState,
};
use crate::errors::MarginfiError;
use crate::fixnum::{lemma_div_bound_exact, Fx, UNIT};
use crate::price::OraclePriceSnapshot;
use crate::risk::{
    balances_in_range, compute_health_components, health_components_spec, RiskRequirementType,
};
use vstd::arithmetic::div_mod::{lemma_div_is_ordered, lemma_fundamental_div_mod, lemma_mod_bound};
use vstd::prelude::*;

verus! {

/// Two accounts hold the same position.
pub open spec fn same_account(a: MarginfiAccount, b: MarginfiAccount) -> bool {
    &&& a.authority == b.authority
    &&& a.account_flags == b.account_flags
    &&& a.lending_account.balances@ == b.lending_account.balances@
}

/// An exact copy of an account, made before the first write so any error
/// path can restore it.
pub fn snapshot_account(a: &MarginfiAccount) -> (r: MarginfiAccount)
    ensures
        same_account(r, *a),
        r.lending_account.balances@.len() == a.lending_account.balances@.len(),
{
    let mut balances: Vec<Balance> = Vec::new();
    let mut k: usize = 0;
    let n = a.lending_account.balances.len();
    while k < n
        invariant
            k <= n,
            n == a.lending_account.balances@.len(),
            balances@ == a.lending_account.balances@.subrange(0, k as int),
        decreases n - k,
    {
        balances.push(a.lending_account.balances[k]);
        proof {
            assert(balances@ =~= a.lending_account.balances@.subrange(0, k as int + 1));
        }
        k = k + 1;
    }
    proof {
        assert(balances@ =~= a.lending_account.balances@);
    }
    MarginfiAccount {
        authority: a.authority,
        account_flags: a.account_flags,
        lending_account: LendingAccount { balances },
    }
}

/// The bank as a successful accrual at `now` leaves it.
pub open spec fn accrued_bank(b: Bank, now: u64) -> Bank {
    if now <= b.last_update {
        b
    } else {
        Bank {
            asset_share_value: Fx {
                bits: (b.asset_share_value.bits + accrual_asv_delta(
                    b,
                    now - b.last_update,
                )) as u128,
            },
            liability_share_value: Fx {
                bits: (b.liability_share_value.bits + accrual_lsv_delta(
                    b,
                    now - b.last_update,
                )) as u128,
            },
            collected_insurance_fees_outstanding: Fx {
                bits: (b.collected_insurance_fees_outstanding.bits + accrual_ins_fee(
                    b,
                    now - b.last_update,
                )) as u128,
            },
            collected_protocol_fees_outstanding: Fx {
                bits: (b.collected_protocol_fees_outstanding.bits + accrual_prot_fee(
                    b,
                    now - b.last_update,
                )) as u128,
            },
            last_update: now,
            ..b
        }
    }
}

/// The balance an increase or decrease starts from: the account's active
/// balance for the bank, or a freshly activated slot.
pub open spec fn start_balance(
    acc: MarginfiAccount,
    s: int,
    bank_index: usize,
    now: u64,
) -> Balance {
    if slot_matches(acc.lending_account.balances@, s, bank_index) {
        acc.lending_account.balances@[s]
    } else {
        fresh_balance(bank_index, now)
    }
}

/// Exact effect of paying `amount` into a balance with the offsetting rule:
/// outstanding debt is settled first and only the remainder is deposited,
/// so a balance never carries both sides at once.
pub open spec fn increase_commits(
    b0: Bank,
    b1: Bank,
    bal0: Balance,
    bal1: Balance,
    amount: Fx,
) -> bool {
    let debt = shares_liability_value_spec(b0, bal0.liability_shares);
    if amount.bits < debt {
        let rs = repay_shares_spec(b0, amount);
        &&& b1 == (Bank {
            total_liability_shares: Fx { bits: (b0.total_liability_shares.bits - rs) as u128 },
            liquidity_vault_balance: Fx {
                bits: (b0.liquidity_vault_balance.bits + amount.bits) as u128,
            },
            ..b0
        })
        &&& bal1 == (Balance {
            liability_shares: Fx { bits: (bal0.liability_shares.bits - rs) as u128 },
            ..bal0
        })
    } else {
        let rest = Fx { bits: (amount.bits - debt) as u128 };
        let ds = deposit_shares_spec(b0, rest);
        &&& b1 == (Bank {
            total_liability_shares: Fx {
                bits: (b0.total_liability_shares.bits - bal0.liability_shares.bits) as u128,
            },
            total_asset_shares: Fx { bits: (b0.total_asset_shares.bits + ds) as u128 },
            liquidity_vault_balance: Fx {
                bits: (b0.liquidity_vault_balance.bits + amount.bits) as u128,
            },
            ..b0
        })
        &&& bal1 == (Balance {
            liability_shares: Fx { bits: 0 },
            asset_shares: Fx { bits: (bal0.asset_shares.bits + ds) as u128 },
            ..bal0
        })
    }
}

/// Every intermediate value of an offsetting increase stays within range:
/// on these inputs the increase cannot fail for arithmetic reasons.
pub open spec fn increase_fits(b: Bank, bal: Balance, amount: Fx) -> bool {
    let debt = shares_liability_value_spec(b, bal.liability_shares);
    &&& debt <= u128::MAX as int
    &&& b.liquidity_vault_balance.bits + amount.bits <= u128::MAX as int
    &&& if amount.bits < debt {
        repay_shares_spec(b, amount) <= b.total_liability_shares.bits
    } else {
        let rest = Fx { bits: (amount.bits - debt) as u128 };
        let ds = deposit_shares_spec(b, rest);
        &&& bal.liability_shares.bits <= b.total_liability_shares.bits
        &&& ds <= u128::MAX as int
        &&& b.total_asset_shares.bits + ds <= u128::MAX as int
        &&& crate::fixnum::mul_up_spec(
            b.total_asset_shares.bits + ds,
            b.asset_share_value.bits as int,
        ) <= u128::MAX as int
        &&& bal.asset_shares.bits + ds <= u128::MAX as int
    }
}

/// The deposited remainder of an offsetting increase stays within the
/// bank's deposit limit; a pure repayment has no cap.
pub open spec fn increase_within_limit(b: Bank, bal: Balance, amount: Fx) -> bool {
    let debt = shares_liability_value_spec(b, bal.liability_shares);
    amount.bits < debt || {
        let rest = Fx { bits: (amount.bits - debt) as u128 };
        crate::fixnum::mul_up_spec(
            b.total_asset_shares.bits + deposit_shares_spec(b, rest),
            b.asset_share_value.bits as int,
        ) <= b.config.deposit_limit * (UNIT as int)
    }
}

/// A floor quotient of something strictly below `s` divisors is below `s`.
proof fn lemma_small_div(x: int, s: int, v: int)
    requires
        0 <= x,
        x < s * v,
        v > 0,
    ensures
        x / v < s,
{
    lemma_fundamental_div_mod(x, v);
    lemma_mod_bound(x, v);
    lemma_div_bound_exact(x, v);
    assert(x / v < s) by (nonlinear_arith)
        requires
            x == v * (x / v) + x % v,
            x % v >= 0,
            x < s * v,
            v > 0,
            x / v >= 0,
    ;
}

/// Settles a balance's debt from `amount` and deposits the remainder,
/// never leaving both sides of the balance set.  The bank takes the full
/// `amount` into its vault.  On failure both are untouched.
fn increase_balance(bank: &mut Bank, bal: &mut Balance, amount: Fx) -> (r: Result<
    (),
    MarginfiError,
>)
    requires
        old(bank).wf(),
    ensures
        final(bank).wf(),
        r is Err ==> *final(bank) == *old(bank) && *final(bal) == *old(bal),
        r is Err ==> r == Err::<(), MarginfiError>(MarginfiError::MathError) || r == Err::<
            (),
            MarginfiError,
        >(MarginfiError::BankAssetCapacityExceeded),
        r is Ok ==> increase_commits(*old(bank), *final(bank), *old(bal), *final(bal), amount),
        increase_fits(*old(bank), *old(bal), amount) && increase_within_limit(
            *old(bank),
            *old(bal),
            amount,
        ) ==> (r is Ok),
        increase_fits(*old(bank), *old(bal), amount) && !increase_within_limit(
            *old(bank),
            *old(bal),
            amount,
        ) ==> r == Err::<(), MarginfiError>(MarginfiError::BankAssetCapacityExceeded),
        old(bank).solvent() ==> final(bank).solvent(),
    {
        let snap = *bank;
        let debt = match bank.get_liability_amount(bal.liability_shares) {
            Ok(v) => v,
            Err(e) => {
                return Err(e);
            },
        };
        if amount.bits < debt.bits {
            proof {
                let u = UNIT as int;
                let x = bal.liability_shares.bits as int
                    * bank.liability_share_value.bits as int;
                assert(x >= 0) by (nonlinear_arith)
                    requires
                        bal.liability_shares.bits >= 0,
                        bank.liability_share_value.bits >= 0,
                        x == bal.liability_shares.bits as int
                            * bank.liability_share_value.bits as int,
                ;
                lemma_fundamental_div_mod(x + u - 1, u);
                lemma_mod_bound(x + u - 1, u);
                lemma_small_div(
                    amount.bits as int * u,
                    bal.liability_shares.bits as int,
                    bank.liability_share_value.bits as int,
                );
            }
            let shares = match bank.repay_amount(amount) {
                Ok(v) => v,
                Err(e) => {
                    return Err(e);
                },
            };
            bal.liability_shares = Fx { bits: bal.liability_shares.bits - shares.bits };
            Ok(())
        } else {
            let _paid = match bank.repay_shares(bal.liability_shares) {
                Ok(v) => v,
                Err(e) => {
                    return Err(e);
                },
            };
            let rest = Fx { bits: amount.bits - debt.bits };
            let minted = match bank.deposit(rest) {
                Ok(s) => s,
                Err(e) => {
                    *bank = snap;
                    return Err(e);
                },
            };
            let new_assets = match bal.asset_shares.checked_add(minted) {
                Some(v) => v,
                None => {
                    *bank = snap;
                    return Err(MarginfiError::MathError);
                },
            };
            bal.liability_shares = Fx { bits: 0 };
            bal.asset_shares = new_assets;
            Ok(())
        }
    }

/// Exact effect of taking `amount` out of a balance with the offsetting
/// rule: held assets are consumed first and only the remainder is borrowed.
pub open spec fn decrease_commits(
    b0: Bank,
    b1: Bank,
    bal0: Balance,
    bal1: Balance,
    amount: Fx,
) -> bool {
    let hold = crate::bank::shares_asset_value_spec(b0, bal0.asset_shares);
    if amount.bits <= hold {
        let ws = crate::bank::withdraw_shares_spec(b0, amount);
        &&& b1 == (Bank {
            total_asset_shares: Fx { bits: (b0.total_asset_shares.bits - ws) as u128 },
            liquidity_vault_balance: Fx {
                bits: (b0.liquidity_vault_balance.bits - amount.bits) as u128,
            },
            ..b0
        })
        &&& bal1 == (Balance {
            asset_shares: Fx { bits: (bal0.asset_shares.bits - ws) as u128 },
            ..bal0
        })
    } else {
        let rest = Fx { bits: (amount.bits - hold) as u128 };
        let bs = crate::bank::borrow_shares_spec(b0, rest);
        &&& b1 == (Bank {
            total_asset_shares: Fx {
                bits: (b0.total_asset_shares.bits - bal0.asset_shares.bits) as u128,
            },
            total_liability_shares: Fx { bits: (b0.total_liability_shares.bits + bs) as u128 },
            liquidity_vault_balance: Fx {
                bits: (b0.liquidity_vault_balance.bits - amount.bits) as u128,
            },
            ..b0
        })
        &&& bal1 == (Balance {
            asset_shares: Fx { bits: 0 },
            liability_shares: Fx { bits: (bal0.liability_shares.bits + bs) as u128 },
            ..bal0
        })
    }
}

/// Every intermediate value of an offsetting decrease stays within range:
/// on these inputs the decrease cannot fail for arithmetic or liquidity
/// reasons.
pub open spec fn decrease_fits(b: Bank, bal: Balance, amount: Fx, allow_borrow: bool) -> bool {
    let hold = crate::bank::shares_asset_value_spec(b, bal.asset_shares);
    &&& hold <= u128::MAX as int
    &&& if amount.bits <= hold {
        &&& crate::bank::withdraw_shares_spec(b, amount) <= b.total_asset_shares.bits
        &&& amount.bits <= b.liquidity_vault_balance.bits
    } else {
        let rest = Fx { bits: (amount.bits - hold) as u128 };
        let bs = crate::bank::borrow_shares_spec(b, rest);
        &&& allow_borrow
        &&& bal.asset_shares.bits <= b.total_asset_shares.bits
        &&& bs <= u128::MAX as int
        &&& b.total_liability_shares.bits + bs <= u128::MAX as int
        &&& crate::fixnum::mul_up_spec(
            b.total_liability_shares.bits + bs,
            b.liability_share_value.bits as int,
        ) <= u128::MAX as int
        &&& amount.bits <= b.liquidity_vault_balance.bits
        &&& bal.liability_shares.bits + bs <= u128::MAX as int
    }
}

/// The borrowed remainder of an offsetting decrease stays within the bank's
/// borrow limit; a withdrawal from held assets has no cap.
pub open spec fn decrease_within_limit(b: Bank, bal: Balance, amount: Fx) -> bool {
    let hold = crate::bank::shares_asset_value_spec(b, bal.asset_shares);
    amount.bits <= hold || {
        let rest = Fx { bits: (amount.bits - hold) as u128 };
        crate::fixnum::mul_up_spec(
            b.total_liability_shares.bits + crate::bank::borrow_shares_spec(b, rest),
            b.liability_share_value.bits as int,
        ) <= b.config.borrow_limit * (UNIT as int)
    }
}

/// A ceiling quotient of at most `s` divisors is at most `s`.
proof fn lemma_div_up_le(a: int, s: int, v: int)
    requires
        0 <= a,
        0 <= s,
        a * (UNIT as int) <= s * v,
        v > 0,
    ensures
        crate::fixnum::div_up_spec(a, v) <= s,
{
    let u = UNIT as int;
    crate::fixnum::lemma_div_shift(s, v - 1, v);
    lemma_div_is_ordered(a * u + v - 1, s * v + v - 1, v);
    assert(s * v + v - 1 == s * v + (v - 1));
    lemma_div_bound_exact(v - 1, v);
    assert((v - 1) / v == 0) by {
        lemma_small_div(v - 1, 1, v);
    }
}

/// Consumes held assets from the balance for `amount` and, when allowed,
/// borrows the remainder; never leaves both sides of the balance set.  The
/// bank pays the full `amount` out of its vault.  On failure both are
/// untouched.
fn decrease_balance(bank: &mut Bank, bal: &mut Balance, amount: Fx, allow_borrow: bool) -> (r:
    Result<(), MarginfiError>)
    requires
        old(bank).wf(),
    ensures
        final(bank).wf(),
        r is Err ==> *final(bank) == *old(bank) && *final(bal) == *old(bal),
        r is Ok ==> decrease_commits(*old(bank), *final(bank), *old(bal), *final(bal), amount),
        r is Ok && !allow_borrow ==> final(bal).liability_shares == old(bal).liability_shares,
        decrease_fits(*old(bank), *old(bal), amount, allow_borrow) && decrease_within_limit(
            *old(bank),
            *old(bal),
            amount,
        ) ==> (r is Ok),
        decrease_fits(*old(bank), *old(bal), amount, allow_borrow) && !decrease_within_limit(
            *old(bank),
            *old(bal),
            amount,
        ) ==> r == Err::<(), MarginfiError>(MarginfiError::BankLiabilityCapacityExceeded),
        (crate::bank::shares_asset_value_spec(*old(bank), old(bal).asset_shares)
            <= u128::MAX as int && amount.bits > crate::bank::shares_asset_value_spec(
            *old(bank),
            old(bal).asset_shares,
        ) && !allow_borrow) ==> r == Err::<(), MarginfiError>(MarginfiError::IllegalBalanceState),
        (crate::bank::shares_asset_value_spec(*old(bank), old(bal).asset_shares)
            <= u128::MAX as int && amount.bits <= crate::bank::shares_asset_value_spec(
            *old(bank),
            old(bal).asset_shares,
        ) && crate::bank::withdraw_shares_spec(*old(bank), amount)
            <= old(bank).total_asset_shares.bits && amount.bits > old(
            bank,
        ).liquidity_vault_balance.bits) ==> r == Err::<(), MarginfiError>(
            MarginfiError::BankLiquidityInsufficient,
        ),
        old(bank).solvent() ==> final(bank).solvent(),
{
    let snap = *bank;
    let hold = match bank.get_asset_amount(bal.asset_shares) {
        Ok(v) => v,
        Err(e) => {
            return Err(e);
        },
    };
    if amount.bits <= hold.bits {
        proof {
            crate::fixnum::lemma_mul_down_bound(
                bal.asset_shares.bits as int,
                bank.asset_share_value.bits as int,
            );
            let x = bal.asset_shares.bits as int * bank.asset_share_value.bits as int;
            lemma_div_up_le(
                amount.bits as int,
                bal.asset_shares.bits as int,
                bank.asset_share_value.bits as int,
            );
        }
        let shares = match bank.withdraw_amount(amount) {
            Ok(s) => s,
            Err(e) => {
                return Err(e);
            },
        };
        bal.asset_shares = Fx { bits: bal.asset_shares.bits - shares.bits };
        Ok(())
    } else {
        if !allow_borrow {
            return Err(MarginfiError::IllegalBalanceState);
        }
        let _out = match bank.withdraw_shares(bal.asset_shares) {
            Ok(v) => v,
            Err(e) => {
                return Err(e);
            },
        };
        let rest = Fx { bits: amount.bits - hold.bits };
        let minted = match bank.borrow(rest) {
            Ok(s) => s,
            Err(e) => {
                *bank = snap;
                return Err(e);
            },
        };
        let new_liabs = match bal.liability_shares.checked_add(minted) {
            Some(v) => v,
            None => {
                *bank = snap;
                return Err(MarginfiError::MathError);
            },
        };
        bal.asset_shares = Fx { bits: 0 };
        bal.liability_shares = new_liabs;
        Ok(())
    }
}

/// Exact effect of a withdrawal: a full withdrawal pays out the balance's
/// asset value (rounded down) and closes the slot; a partial one pays the
/// requested amount and burns shares rounded up.
pub open spec fn withdraw_commits(
    b0: Bank,
    b1: Bank,
    bal0: Balance,
    bal1: Balance,
    moved: Fx,
    withdraw_all: bool,
) -> bool {
    if withdraw_all {
        &&& moved.bits == crate::bank::shares_asset_value_spec(b0, bal0.asset_shares)
        &&& b1 == (Bank {
            total_asset_shares: Fx {
                bits: (b0.total_asset_shares.bits - bal0.asset_shares.bits) as u128,
            },
            liquidity_vault_balance: Fx {
                bits: (b0.liquidity_vault_balance.bits - moved.bits) as u128,
            },
            ..b0
        })
        &&& bal1 == crate::account::inactive_balance()
    } else {
        &&& decrease_commits(b0, b1, bal0, bal1, moved)
        &&& bal1.liability_shares == bal0.liability_shares
    }
}

/// A slot can serve the bank: an active balance for it already exists, or
/// some slot is unused.
pub open spec fn slot_available(acc: MarginfiAccount, bank_index: usize) -> bool {
    ||| exists|i: int|
        0 <= i < MAX_BALANCES && #[trigger] slot_matches(
            acc.lending_account.balances@,
            i,
            bank_index,
        )
    ||| exists|i: int|
        0 <= i < MAX_BALANCES && !(#[trigger] acc.lending_account.balances@[i].active)
}

/// Accrual at `now` cannot fail on this bank.
pub open spec fn accrual_ok(b: Bank, now: u64) -> bool {
    now <= b.last_update || crate::bank::accrual_fits(b, now - b.last_update)
}

/// Every step of this deposit fits, whichever slot serves it: the account
/// is enabled, the bank fully operational, accrual cannot fail, a slot is
/// free, and the offsetting increase stays in range.
pub open spec fn deposit_prepared(
    pre_banks: Seq<Bank>,
    bank_index: usize,
    pre_acc: MarginfiAccount,
    amount: u64,
    now: u64,
) -> bool {
    let ab = accrued_bank(pre_banks[bank_index as int], now);
    let amt = Fx { bits: ((amount as u128) * UNIT) as u128 };
    &&& !has_flag_spec(pre_acc.account_flags, DISABLED_FLAG)
    &&& pre_banks[bank_index as int].config.operational_state == BankOperationalState::Operational
    &&& accrual_ok(pre_banks[bank_index as int], now)
    &&& slot_available(pre_acc, bank_index)
    &&& forall|i: int|
        0 <= i < MAX_BALANCES && #[trigger] slot_matches(
            pre_acc.lending_account.balances@,
            i,
            bank_index,
        ) ==> increase_fits(ab, pre_acc.lending_account.balances@[i], amt)
    &&& ((forall|i: int|
        0 <= i < MAX_BALANCES ==> !slot_matches(pre_acc.lending_account.balances@, i, bank_index))
        ==> increase_fits(ab, fresh_balance(bank_index, now), amt))
}

/// The deposit's deposited remainder stays within the bank's deposit limit,
/// whichever slot serves it.
pub open spec fn deposit_capped(
    pre_banks: Seq<Bank>,
    bank_index: usize,
    pre_acc: MarginfiAccount,
    amount: u64,
    now: u64,
) -> bool {
    let ab = accrued_bank(pre_banks[bank_index as int], now);
    let amt = Fx { bits: ((amount as u128) * UNIT) as u128 };
    &&& forall|i: int|
        0 <= i < MAX_BALANCES && #[trigger] slot_matches(
            pre_acc.lending_account.balances@,
            i,
            bank_index,
        ) ==> increase_within_limit(ab, pre_acc.lending_account.balances@[i], amt)
    &&& ((forall|i: int|
        0 <= i < MAX_BALANCES ==> !slot_matches(pre_acc.lending_account.balances@, i, bank_index))
        ==> increase_within_limit(ab, fresh_balance(bank_index, now), amt))
}

/// The banks a single-bank action leaves untouched.
pub open spec fn untouched_banks(pre: Seq<Bank>, post: Seq<Bank>, idx: int) -> bool {
    &&& post.len() == pre.len()
    &&& forall|i: int| 0 <= i < pre.len() && i != idx ==> post[i] == pre[i]
}

/// Updating a slot that holds (or held) the acted-on bank keeps the account
/// well-formed.
proof fn lemma_account_wf_after_set(
    pre: LendingAccount,
    post: LendingAccount,
    s: int,
    nb: Balance,
    bank_index: usize,
)
    requires
        pre.wf(),
        0 <= s < MAX_BALANCES,
        post.balances@ == pre.balances@.update(s, nb),
        nb.active ==> nb.bank_index == bank_index && (forall|i: int|
            0 <= i < MAX_BALANCES && i != s && pre.balances@[i].active
                ==> pre.balances@[i].bank_index != bank_index),
    ensures
        post.wf(),
{
    assert forall|i: int, j: int|
        0 <= i < MAX_BALANCES && 0 <= j < MAX_BALANCES && i != j && post.balances@[i].active
            && post.balances@[j].active implies post.balances@[i].bank_index
        != post.balances@[j].bank_index by {
        assert(pre.balances@[i].active || i == s);
        assert(pre.balances@[j].active || j == s);
    }
}

/// The final state of the account's position holds an initial-requirement
/// healthy position.
pub open spec fn initial_health_ok(
    acc: MarginfiAccount,
    banks: Seq<Bank>,
    prices: Seq<Option<OraclePriceSnapshot>>,
) -> bool {
    match health_components_spec(
        acc.lending_account.balances@,
        banks,
        prices,
        RiskRequirementType::Initial,
        MAX_BALANCES as int,
    ) {
        Option::Some((a, l)) => a >= l,
        Option::None => false,
    }
}

/// Supplies `amount` tokens to a bank for the account.  The touched bank is
/// brought up to date with the clock first; the paid amount settles any
/// outstanding debt on the balance before the rest is deposited.  Deposits
/// need no health check: they only improve the position.  On any failure
/// nothing changes.
pub fn process_deposit(
    banks: &mut Vec<Bank>,
    bank_index: usize,
    account: &mut MarginfiAccount,
    amount: u64,
    now: u64,
) -> (r: Result<Fx, MarginfiError>)
    requires
        old(account).wf(),
        bank_index < old(banks)@.len(),
        old(banks)@[bank_index as int].wf(),
    ensures
        final(account).wf(),
        untouched_banks(old(banks)@, final(banks)@, bank_index as int),
        final(banks)@[bank_index as int].wf(),
        r is Err ==> final(banks)@ == old(banks)@ && same_account(*final(account), *old(account)),
        old(banks)@[bank_index as int].solvent() ==> final(banks)@[bank_index as int].solvent(),
        has_flag_spec(old(account).account_flags, DISABLED_FLAG) ==> r == Err::<Fx, MarginfiError>(
            MarginfiError::AccountDisabled,
        ),
        !has_flag_spec(old(account).account_flags, DISABLED_FLAG) && old(
            banks,
        )@[bank_index as int].config.operational_state == BankOperationalState::Paused ==> r
            == Err::<Fx, MarginfiError>(MarginfiError::BankPaused),
        !has_flag_spec(old(account).account_flags, DISABLED_FLAG) && old(
            banks,
        )@[bank_index as int].config.operational_state == BankOperationalState::ReduceOnly ==> r
            == Err::<Fx, MarginfiError>(MarginfiError::BankReduceOnly),
        r matches Ok(moved) ==> moved.bits == amount * UNIT,
        r is Ok ==> exists|s: int|
            #![auto]
            0 <= s < MAX_BALANCES && final(account).lending_account.balances@ == old(
                account,
            ).lending_account.balances@.update(s, final(account).lending_account.balances@[s])
                && increase_commits(
                accrued_bank(old(banks)@[bank_index as int], now),
                final(banks)@[bank_index as int],
                start_balance(*old(account), s, bank_index, now),
                final(account).lending_account.balances@[s],
                Fx { bits: ((amount as u128) * UNIT) as u128 },
            ),
        deposit_prepared(old(banks)@, bank_index, *old(account), amount, now) && deposit_capped(
            old(banks)@,
            bank_index,
            *old(account),
            amount,
            now,
        ) ==> (r is Ok),
        deposit_prepared(old(banks)@, bank_index, *old(account), amount, now) && !deposit_capped(
            old(banks)@,
            bank_index,
            *old(account),
            amount,
            now,
        ) ==> r == Err::<Fx, MarginfiError>(MarginfiError::BankAssetCapacityExceeded),
        final(account).authority == old(account).authority,
        final(account).account_flags == old(account).account_flags,
{
    if account.get_flag(DISABLED_FLAG) {
        return Err(MarginfiError::AccountDisabled);
    }
    let mut bank = banks[bank_index];
    match bank.config.operational_state {
        BankOperationalState::Paused => {
            return Err(MarginfiError::BankPaused);
        },
        BankOperationalState::ReduceOnly => {
            return Err(MarginfiError::BankReduceOnly);
        },
        BankOperationalState::Operational => {},
    }
    let snap_acc = snapshot_account(account);
    match bank.accrue_interest(now) {
        Ok(()) => {},
        Err(e) => {
            return Err(e);
        },
    }
    let slot = match account.lending_account.find_or_create_balance(bank_index, now) {
        Ok(s) => s,
        Err(e) => {
            return Err(e);
        },
    };
    let mut bal = account.lending_account.balances[slot];
    let amt = Fx::from_int(amount);
    match increase_balance(&mut bank, &mut bal, amt) {
        Ok(()) => {},
        Err(e) => {
            *account = snap_acc;
            return Err(e);
        },
    }
    let ghost mid = *account;
    let ghost bal0 = account.lending_account.balances@[slot as int];
    account.lending_account.set_balance(slot, bal);
    proof {
        lemma_account_wf_after_set(
            mid.lending_account,
            account.lending_account,
            slot as int,
            bal,
            bank_index,
        );
        assert(account.lending_account.balances@ =~= old(
            account,
        ).lending_account.balances@.update(slot as int, bal));
        if slot_matches(old(account).lending_account.balances@, slot as int, bank_index) {
            assert(bal0 == start_balance(*old(account), slot as int, bank_index, now));
        } else {
            assert(mid.lending_account.balances@ == old(
                account,
            ).lending_account.balances@.update(slot as int, fresh_balance(bank_index, now)));
            assert(bal0 == fresh_balance(bank_index, now));
        }
    }
    banks[bank_index] = bank;
    proof {
        let s = slot as int;
        assert(0 <= s < MAX_BALANCES && account.lending_account.balances@ == old(
            account,
        ).lending_account.balances@.update(s, account.lending_account.balances@[s])
            && increase_commits(
            accrued_bank(old(banks)@[bank_index as int], now),
            banks@[bank_index as int],
            start_balance(*old(account), s, bank_index, now),
            account.lending_account.balances@[s],
            Fx { bits: ((amount as u128) * UNIT) as u128 },
        )) by {
            assert(account.lending_account.balances@ =~= old(
                account,
            ).lending_account.balances@.update(s, account.lending_account.balances@[s]));
        }
    }
    Ok(amt)
}

/// Exact effect of a repayment: the paid amount burns debt shares rounded
/// down, and a full repayment of an otherwise empty balance closes the
/// slot.
pub open spec fn repay_commits(
    b0: Bank,
    b1: Bank,
    bal0: Balance,
    bal1: Balance,
    pay: Fx,
    repay_all: bool,
) -> bool {
    let rs = repay_shares_spec(b0, pay);
    &&& b1 == (Bank {
        total_liability_shares: Fx { bits: (b0.total_liability_shares.bits - rs) as u128 },
        liquidity_vault_balance: Fx {
            bits: (b0.liquidity_vault_balance.bits + pay.bits) as u128,
        },
        ..b0
    })
    &&& if repay_all && bal0.asset_shares.bits < EMPTY_BALANCE_THRESHOLD_BITS {
        bal1 == crate::account::inactive_balance()
    } else {
        bal1 == (Balance {
            liability_shares: Fx { bits: (bal0.liability_shares.bits - rs) as u128 },
            ..bal0
        })
    }
}

/// The amount a repayment settles: the full current debt for a repay-all,
/// and the requested amount capped at the debt otherwise.
pub open spec fn repay_pay_spec(ab: Bank, bal: Balance, amount: u64, repay_all: bool) -> int {
    let debt = shares_liability_value_spec(ab, bal.liability_shares);
    if repay_all {
        debt
    } else {
        if (amount as u128) * UNIT <= debt {
            (amount as u128) * UNIT as int
        } else {
            debt
        }
    }
}

/// Every step of this repayment fits: the account is enabled, the bank not
/// paused, accrual cannot fail, a balance for the bank exists, a repay-all
/// finds a non-dust debt, and the burned shares and vault growth stay in
/// range.
pub open spec fn repay_prepared(
    pre_banks: Seq<Bank>,
    bank_index: usize,
    pre_acc: MarginfiAccount,
    amount: u64,
    repay_all: bool,
    now: u64,
) -> bool {
    let ab = accrued_bank(pre_banks[bank_index as int], now);
    &&& !has_flag_spec(pre_acc.account_flags, DISABLED_FLAG)
    &&& pre_banks[bank_index as int].config.operational_state != BankOperationalState::Paused
    &&& accrual_ok(pre_banks[bank_index as int], now)
    &&& exists|i: int|
        0 <= i < MAX_BALANCES && #[trigger] slot_matches(
            pre_acc.lending_account.balances@,
            i,
            bank_index,
        )
    &&& forall|i: int|
        0 <= i < MAX_BALANCES && #[trigger] slot_matches(
            pre_acc.lending_account.balances@,
            i,
            bank_index,
        ) ==> {
            let bal = pre_acc.lending_account.balances@[i];
            let pay = repay_pay_spec(ab, bal, amount, repay_all);
            &&& shares_liability_value_spec(ab, bal.liability_shares) <= u128::MAX as int
            &&& (repay_all ==> bal.liability_shares.bits >= EMPTY_BALANCE_THRESHOLD_BITS)
            &&& repay_shares_spec(ab, Fx { bits: pay as u128 }) <= ab.total_liability_shares.bits
            &&& ab.liquidity_vault_balance.bits + pay <= u128::MAX as int
        }
}

/// Burning the shares a payment of at most the balance's debt is worth
/// never burns more shares than the balance holds.
proof fn lemma_repay_within_balance(pay: int, s: int, lsv: int, debt: int)
    requires
        0 <= pay,
        0 <= s,
        lsv >= UNIT as int,
        debt == crate::fixnum::mul_up_spec(s, lsv),
        pay <= debt,
    ensures
        crate::fixnum::div_down_spec(pay, lsv) <= s,
{
    let u = UNIT as int;
    let x = s * lsv;
    assert(x >= 0) by (nonlinear_arith)
        requires
            s >= 0,
            lsv >= 0,
            x == s * lsv,
    ;
    lemma_fundamental_div_mod(x + u - 1, u);
    lemma_mod_bound(x + u - 1, u);
    // debt * u <= x + u - 1, hence pay * u <= x + u - 1
    assert(pay * u <= x + u - 1);
    lemma_div_is_ordered(pay * u, x + u - 1, lsv);
    crate::fixnum::lemma_div_shift(s, u - 1, lsv);
    lemma_small_div(u - 1, 1, lsv);
}

/// Pays back debt in a bank for the account.  The paid amount is capped at
/// the outstanding debt; a full repayment derives the amount from the
/// current debt and requires a non-dust liability.  Repaying needs no
/// health check: it only improves the position.  On any failure nothing
/// changes.
pub fn process_repay(
    banks: &mut Vec<Bank>,
    bank_index: usize,
    account: &mut MarginfiAccount,
    amount: u64,
    repay_all: bool,
    now: u64,
) -> (r: Result<Fx, MarginfiError>)
    requires
        old(account).wf(),
        bank_index < old(banks)@.len(),
        old(banks)@[bank_index as int].wf(),
    ensures
        final(account).wf(),
        untouched_banks(old(banks)@, final(banks)@, bank_index as int),
        final(banks)@[bank_index as int].wf(),
        r is Err ==> final(banks)@ == old(banks)@ && same_account(*final(account), *old(account)),
        old(banks)@[bank_index as int].solvent() ==> final(banks)@[bank_index as int].solvent(),
        has_flag_spec(old(account).account_flags, DISABLED_FLAG) ==> r == Err::<Fx, MarginfiError>(
            MarginfiError::AccountDisabled,
        ),
        !has_flag_spec(old(account).account_flags, DISABLED_FLAG) && old(
            banks,
        )@[bank_index as int].config.operational_state == BankOperationalState::Paused ==> r
            == Err::<Fx, MarginfiError>(MarginfiError::BankPaused),
        r is Ok ==> exists|s: int|
            #![auto]
            0 <= s < MAX_BALANCES && slot_matches(old(account).lending_account.balances@, s, bank_index)
                && final(account).lending_account.balances@ == old(
                account,
            ).lending_account.balances@.update(s, final(account).lending_account.balances@[s])
                && repay_commits(
                accrued_bank(old(banks)@[bank_index as int], now),
                final(banks)@[bank_index as int],
                old(account).lending_account.balances@[s],
                final(account).lending_account.balances@[s],
                r->Ok_0,
                repay_all,
            ) && (r->Ok_0.bits as int) == repay_pay_spec(
                accrued_bank(old(banks)@[bank_index as int], now),
                old(account).lending_account.balances@[s],
                amount,
                repay_all,
            ),
        repay_prepared(old(banks)@, bank_index, *old(account), amount, repay_all, now) ==> (r
            is Ok),
        (!has_flag_spec(old(account).account_flags, DISABLED_FLAG) && old(
            banks,
        )@[bank_index as int].config.operational_state != BankOperationalState::Paused
            && accrual_ok(old(banks)@[bank_index as int], now) && (forall|i: int|
            0 <= i < MAX_BALANCES && #[trigger] old(account).lending_account.balances@[i].active
                ==> old(account).lending_account.balances@[i].bank_index != bank_index)) ==> r
            == Err::<Fx, MarginfiError>(MarginfiError::BankAccountNotFound),
        (!has_flag_spec(old(account).account_flags, DISABLED_FLAG) && old(
            banks,
        )@[bank_index as int].config.operational_state != BankOperationalState::Paused
            && accrual_ok(old(banks)@[bank_index as int], now) && repay_all && (exists|i: int|
            0 <= i < MAX_BALANCES && #[trigger] slot_matches(
                old(account).lending_account.balances@,
                i,
                bank_index,
            )) && (forall|i: int|
            0 <= i < MAX_BALANCES && #[trigger] slot_matches(
                old(account).lending_account.balances@,
                i,
                bank_index,
            ) ==> shares_liability_value_spec(
                accrued_bank(old(banks)@[bank_index as int], now),
                old(account).lending_account.balances@[i].liability_shares,
            ) <= u128::MAX as int
                && old(account).lending_account.balances@[i].liability_shares.bits
                < EMPTY_BALANCE_THRESHOLD_BITS)) ==> r == Err::<Fx, MarginfiError>(
            MarginfiError::NoLiabilityFound,
        ),
        final(account).authority == old(account).authority,
        final(account).account_flags == old(account).account_flags,
{
    if account.get_flag(DISABLED_FLAG) {
        return Err(MarginfiError::AccountDisabled);
    }
    let mut bank = banks[bank_index];
    match bank.config.operational_state {
        BankOperationalState::Paused => {
            return Err(MarginfiError::BankPaused);
        },
        _ => {},
    }
    match bank.accrue_interest(now) {
        Ok(()) => {},
        Err(e) => {
            return Err(e);
        },
    }
    let slot = match account.lending_account.find_balance(bank_index) {
        Some(s) => s,
        None => {
            return Err(MarginfiError::BankAccountNotFound);
        },
    };
    let mut bal = account.lending_account.balances[slot];
    let debt = match bank.get_liability_amount(bal.liability_shares) {
        Ok(v) => v,
        Err(e) => {
            return Err(e);
        },
    };
    let pay = if repay_all {
        if bal.is_empty_liabilities() {
            return Err(MarginfiError::NoLiabilityFound);
        }
        debt
    } else {
        let amt = Fx::from_int(amount);
        amt.min_of(debt)
    };
    proof {
        lemma_repay_within_balance(
            pay.bits as int,
            bal.liability_shares.bits as int,
            bank.liability_share_value.bits as int,
            debt.bits as int,
        );
    }
    let shares = match bank.repay_amount(pay) {
        Ok(v) => v,
        Err(e) => {
            return Err(e);
        },
    };
    bal.liability_shares = Fx { bits: bal.liability_shares.bits - shares.bits };
    if repay_all && bal.asset_shares.bits < EMPTY_BALANCE_THRESHOLD_BITS {
        bal = Balance::inactive();
    }
    let ghost mid = *account;
    account.lending_account.set_balance(slot, bal);
    proof {
        lemma_account_wf_after_set(
            mid.lending_account,
            account.lending_account,
            slot as int,
            bal,
            bank_index,
        );
        assert(account.lending_account.balances@ =~= old(
            account,
        ).lending_account.balances@.update(slot as int, bal));
    }
    banks[bank_index] = bank;
    proof {
        let s = slot as int;
        assert(0 <= s < MAX_BALANCES && slot_matches(
            old(account).lending_account.balances@,
            s,
            bank_index,
        ) && account.lending_account.balances@ == old(
            account,
        ).lending_account.balances@.update(s, account.lending_account.balances@[s])
            && repay_commits(
            accrued_bank(old(banks)@[bank_index as int], now),
            banks@[bank_index as int],
            old(account).lending_account.balances@[s],
            account.lending_account.balances@[s],
            pay,
            repay_all,
        )) by {
            assert(account.lending_account.balances@ =~= old(
                account,
            ).lending_account.balances@.update(s, account.lending_account.balances@[s]));
        }
    }
    Ok(pay)
}

/// The bank a withdrawal leaves behind, given the accrued bank and the
/// slot's starting balance.
pub open spec fn withdraw_result_bank(ab: Bank, bal: Balance, amount: u64, withdraw_all: bool) -> Bank {
    if withdraw_all {
        Bank {
            total_asset_shares: Fx {
                bits: (ab.total_asset_shares.bits - bal.asset_shares.bits) as u128,
            },
            liquidity_vault_balance: Fx {
                bits: (ab.liquidity_vault_balance.bits - crate::bank::shares_asset_value_spec(
                    ab,
                    bal.asset_shares,
                )) as u128,
            },
            ..ab
        }
    } else {
        let amt = Fx { bits: ((amount as u128) * UNIT) as u128 };
        Bank {
            total_asset_shares: Fx {
                bits: (ab.total_asset_shares.bits - crate::bank::withdraw_shares_spec(
                    ab,
                    amt,
                )) as u128,
            },
            liquidity_vault_balance: Fx {
                bits: (ab.liquidity_vault_balance.bits - amt.bits) as u128,
            },
            ..ab
        }
    }
}

/// The balance a withdrawal leaves behind.
pub open spec fn withdraw_result_balance(
    ab: Bank,
    bal: Balance,
    amount: u64,
    withdraw_all: bool,
) -> Balance {
    if withdraw_all {
        crate::account::inactive_balance()
    } else {
        let amt = Fx { bits: ((amount as u128) * UNIT) as u128 };
        Balance {
            asset_shares: Fx {
                bits: (bal.asset_shares.bits - crate::bank::withdraw_shares_spec(ab, amt)) as u128,
            },
            ..bal
        }
    }
}

/// Every step of this withdrawal fits: the account is enabled, the bank not
/// paused, accrual cannot fail, a debt-free balance for the bank exists,
/// and the burned shares and vault payout stay in range.
pub open spec fn withdraw_prepared(
    pre_banks: Seq<Bank>,
    bank_index: usize,
    pre_acc: MarginfiAccount,
    amount: u64,
    withdraw_all: bool,
    now: u64,
) -> bool {
    let ab = accrued_bank(pre_banks[bank_index as int], now);
    let amt = Fx { bits: ((amount as u128) * UNIT) as u128 };
    &&& !has_flag_spec(pre_acc.account_flags, DISABLED_FLAG)
    &&& pre_banks[bank_index as int].config.operational_state != BankOperationalState::Paused
    &&& accrual_ok(pre_banks[bank_index as int], now)
    &&& exists|i: int|
        0 <= i < MAX_BALANCES && #[trigger] slot_matches(
            pre_acc.lending_account.balances@,
            i,
            bank_index,
        )
    &&& forall|i: int|
        0 <= i < MAX_BALANCES && #[trigger] slot_matches(
            pre_acc.lending_account.balances@,
            i,
            bank_index,
        ) ==> {
            let bal = pre_acc.lending_account.balances@[i];
            &&& bal.liability_shares.bits == 0
            &&& if withdraw_all {
                &&& bal.asset_shares.bits >= EMPTY_BALANCE_THRESHOLD_BITS
                &&& crate::bank::shares_asset_value_spec(ab, bal.asset_shares)
                    <= u128::MAX as int
                &&& bal.asset_shares.bits <= ab.total_asset_shares.bits
                &&& crate::bank::shares_asset_value_spec(ab, bal.asset_shares)
                    <= ab.liquidity_vault_balance.bits
            } else {
                decrease_fits(ab, bal, amt, false)
            }
        }
}

/// The position left by this withdrawal meets initial requirements: the
/// health of the account with slot `i` and the touched bank replaced by
/// their post-withdrawal states.
pub open spec fn withdraw_healthy_after(
    pre_banks: Seq<Bank>,
    bank_index: usize,
    pre_acc: MarginfiAccount,
    i: int,
    amount: u64,
    withdraw_all: bool,
    prices: Seq<Option<OraclePriceSnapshot>>,
    now: u64,
) -> bool {
    let ab = accrued_bank(pre_banks[bank_index as int], now);
    let bal = pre_acc.lending_account.balances@[i];
    match health_components_spec(
        pre_acc.lending_account.balances@.update(
            i,
            withdraw_result_balance(ab, bal, amount, withdraw_all),
        ),
        pre_banks.update(bank_index as int, withdraw_result_bank(ab, bal, amount, withdraw_all)),
        prices,
        RiskRequirementType::Initial,
        MAX_BALANCES as int,
    ) {
        Option::Some((a, l)) => a >= l,
        Option::None => false,
    }
}

/// As `withdraw_healthy_after`, but the health value exists and falls
/// short: the case the risk engine rejects.
pub open spec fn withdraw_rejected_after(
    pre_banks: Seq<Bank>,
    bank_index: usize,
    pre_acc: MarginfiAccount,
    i: int,
    amount: u64,
    withdraw_all: bool,
    prices: Seq<Option<OraclePriceSnapshot>>,
    now: u64,
) -> bool {
    let ab = accrued_bank(pre_banks[bank_index as int], now);
    let bal = pre_acc.lending_account.balances@[i];
    match health_components_spec(
        pre_acc.lending_account.balances@.update(
            i,
            withdraw_result_balance(ab, bal, amount, withdraw_all),
        ),
        pre_banks.update(bank_index as int, withdraw_result_bank(ab, bal, amount, withdraw_all)),
        prices,
        RiskRequirementType::Initial,
        MAX_BALANCES as int,
    ) {
        Option::Some((a, l)) => a < l,
        Option::None => false,
    }
}

/// Takes `amount` tokens (or the whole position) out of a bank for the
/// account.  The balance must carry no debt.  Unless the account is inside
/// a flashloan bracket, the action commits only if the position still meets
/// initial requirements afterwards; a rejected or failed withdrawal leaves
/// everything untouched.
#[verifier::rlimit(100)]
pub fn process_withdraw(
    banks: &mut Vec<Bank>,
    bank_index: usize,
    account: &mut MarginfiAccount,
    amount: u64,
    withdraw_all: bool,
    prices: &Vec<Option<OraclePriceSnapshot>>,
    now: u64,
) -> (r: Result<Fx, MarginfiError>)
    requires
        old(account).wf(),
        bank_index < old(banks)@.len(),
        old(banks)@[bank_index as int].wf(),
        balances_in_range(old(account).lending_account.balances@, old(banks)@.len() as int),
        prices@.len() == old(banks)@.len(),
    ensures
        final(account).wf(),
        untouched_banks(old(banks)@, final(banks)@, bank_index as int),
        final(banks)@[bank_index as int].wf(),
        r is Err ==> final(banks)@ == old(banks)@ && same_account(*final(account), *old(account)),
        old(banks)@[bank_index as int].solvent() ==> final(banks)@[bank_index as int].solvent(),
        r is Ok && !has_flag_spec(old(account).account_flags, IN_FLASHLOAN_FLAG)
            ==> initial_health_ok(*final(account), final(banks)@, prices@),
        has_flag_spec(old(account).account_flags, DISABLED_FLAG) ==> r == Err::<Fx, MarginfiError>(
            MarginfiError::AccountDisabled,
        ),
        !has_flag_spec(old(account).account_flags, DISABLED_FLAG) && old(
            banks,
        )@[bank_index as int].config.operational_state == BankOperationalState::Paused ==> r
            == Err::<Fx, MarginfiError>(MarginfiError::BankPaused),
        !withdraw_all && (r is Ok) ==> r == Ok::<Fx, MarginfiError>(
            Fx { bits: ((amount as u128) * UNIT) as u128 },
        ),
        withdraw_prepared(old(banks)@, bank_index, *old(account), amount, withdraw_all, now) && (
        has_flag_spec(old(account).account_flags, IN_FLASHLOAN_FLAG) || (forall|i: int|
            0 <= i < MAX_BALANCES && #[trigger] slot_matches(
                old(account).lending_account.balances@,
                i,
                bank_index,
            ) ==> withdraw_healthy_after(
                old(banks)@,
                bank_index,
                *old(account),
                i,
                amount,
                withdraw_all,
                prices@,
                now,
            ))) ==> (r is Ok),
        withdraw_prepared(old(banks)@, bank_index, *old(account), amount, withdraw_all, now)
            && !has_flag_spec(old(account).account_flags, IN_FLASHLOAN_FLAG) && (forall|i: int|
            0 <= i < MAX_BALANCES && #[trigger] slot_matches(
                old(account).lending_account.balances@,
                i,
                bank_index,
            ) ==> withdraw_rejected_after(
                old(banks)@,
                bank_index,
                *old(account),
                i,
                amount,
                withdraw_all,
                prices@,
                now,
            )) ==> r == Err::<Fx, MarginfiError>(MarginfiError::RiskEngineInitRejected),
        (!has_flag_spec(old(account).account_flags, DISABLED_FLAG) && old(
            banks,
        )@[bank_index as int].config.operational_state != BankOperationalState::Paused
            && accrual_ok(old(banks)@[bank_index as int], now) && (forall|i: int|
            0 <= i < MAX_BALANCES && #[trigger] old(account).lending_account.balances@[i].active
                ==> old(account).lending_account.balances@[i].bank_index != bank_index)) ==> r
            == Err::<Fx, MarginfiError>(MarginfiError::BankAccountNotFound),
        (!has_flag_spec(old(account).account_flags, DISABLED_FLAG) && old(
            banks,
        )@[bank_index as int].config.operational_state != BankOperationalState::Paused
            && accrual_ok(old(banks)@[bank_index as int], now) && (exists|i: int|
            0 <= i < MAX_BALANCES && #[trigger] slot_matches(
                old(account).lending_account.balances@,
                i,
                bank_index,
            )) && (forall|i: int|
            0 <= i < MAX_BALANCES && #[trigger] slot_matches(
                old(account).lending_account.balances@,
                i,
                bank_index,
            ) ==> old(account).lending_account.balances@[i].liability_shares.bits != 0)) ==> r
            == Err::<Fx, MarginfiError>(MarginfiError::IllegalBalanceState),
        (!has_flag_spec(old(account).account_flags, DISABLED_FLAG) && old(
            banks,
        )@[bank_index as int].config.operational_state != BankOperationalState::Paused
            && accrual_ok(old(banks)@[bank_index as int], now) && withdraw_all && (exists|i: int|
            0 <= i < MAX_BALANCES && #[trigger] slot_matches(
                old(account).lending_account.balances@,
                i,
                bank_index,
            )) && (forall|i: int|
            0 <= i < MAX_BALANCES && #[trigger] slot_matches(
                old(account).lending_account.balances@,
                i,
                bank_index,
            ) ==> old(account).lending_account.balances@[i].liability_shares.bits == 0 && old(
                account,
            ).lending_account.balances@[i].asset_shares.bits < EMPTY_BALANCE_THRESHOLD_BITS))
            ==> r == Err::<Fx, MarginfiError>(MarginfiError::NoAssetFound),
        r matches Ok(moved) ==> exists|s: int|
            #![auto]
            0 <= s < MAX_BALANCES && slot_matches(old(account).lending_account.balances@, s, bank_index)
                && final(account).lending_account.balances@ == old(
                account,
            ).lending_account.balances@.update(s, final(account).lending_account.balances@[s])
                && withdraw_commits(
                accrued_bank(old(banks)@[bank_index as int], now),
                final(banks)@[bank_index as int],
                old(account).lending_account.balances@[s],
                final(account).lending_account.balances@[s],
                moved,
                withdraw_all,
            ),
        final(account).authority == old(account).authority,
        final(account).account_flags == old(account).account_flags,
{
    if account.get_flag(DISABLED_FLAG) {
        return Err(MarginfiError::AccountDisabled);
    }
    let snap_bank = banks[bank_index];
    let mut bank = banks[bank_index];
    match bank.config.operational_state {
        BankOperationalState::Paused => {
            return Err(MarginfiError::BankPaused);
        },
        _ => {},
    }
    match bank.accrue_interest(now) {
        Ok(()) => {},
        Err(e) => {
            return Err(e);
        },
    }
    let ghost b_acc = bank;
    let slot = match account.lending_account.find_balance(bank_index) {
        Some(s) => s,
        None => {
            return Err(MarginfiError::BankAccountNotFound);
        },
    };
    proof {
        assert(slot_matches(old(account).lending_account.balances@, slot as int, bank_index));
        assert(b_acc == accrued_bank(old(banks)@[bank_index as int], now));
    }
    let mut bal = account.lending_account.balances[slot];
    let ghost bal0 = bal;
    if bal.liability_shares.bits != 0 {
        return Err(MarginfiError::IllegalBalanceState);
    }
    let snap_acc = snapshot_account(account);
    let moved: Fx;
    if withdraw_all {
        if bal.is_empty_assets() {
            return Err(MarginfiError::NoAssetFound);
        }
        moved = match bank.withdraw_shares(bal.asset_shares) {
            Ok(v) => v,
            Err(e) => {
                return Err(e);
            },
        };
        bal = Balance::inactive();
    } else {
        let amt = Fx::from_int(amount);
        match decrease_balance(&mut bank, &mut bal, amt, false) {
            Ok(()) => {},
            Err(e) => {
                return Err(e);
            },
        }
        moved = amt;
    }
    let ghost mid = *account;
    account.lending_account.set_balance(slot, bal);
    proof {
        lemma_account_wf_after_set(
            mid.lending_account,
            account.lending_account,
            slot as int,
            bal,
            bank_index,
        );
        assert(account.lending_account.balances@ =~= old(
            account,
        ).lending_account.balances@.update(slot as int, bal));
    }
    banks[bank_index] = bank;
    proof {
        let s = slot as int;
        assert(account.lending_account.balances@ == old(
            account,
        ).lending_account.balances@.update(s, account.lending_account.balances@[s])
            && withdraw_commits(
            accrued_bank(old(banks)@[bank_index as int], now),
            banks@[bank_index as int],
            old(account).lending_account.balances@[s],
            account.lending_account.balances@[s],
            moved,
            withdraw_all,
        )) by {
            assert(account.lending_account.balances@ =~= old(
                account,
            ).lending_account.balances@.update(s, account.lending_account.balances@[s]));
        }
        assert(bal == withdraw_result_balance(b_acc, bal0, amount, withdraw_all));
        assert(bank == withdraw_result_bank(b_acc, bal0, amount, withdraw_all));
        assert(account.lending_account.balances@ =~= old(
            account,
        ).lending_account.balances@.update(
            slot as int,
            withdraw_result_balance(b_acc, bal0, amount, withdraw_all),
        ));
        assert(banks@ =~= old(banks)@.update(
            bank_index as int,
            withdraw_result_bank(b_acc, bal0, amount, withdraw_all),
        ));
    }
    if !account.get_flag(IN_FLASHLOAN_FLAG) {
        let healthy = match compute_health_components(
            &account.lending_account,
            banks,
            prices,
            RiskRequirementType::Initial,
        ) {
            Ok((a, l)) => a.bits >= l.bits,
            Err(e) => {
                proof {
                    if crate::risk::missing_price_spec(account.lending_account.balances@, prices@) {
                        crate::risk::lemma_missing_price_none(
                            account.lending_account.balances@,
                            banks@,
                            prices@,
                            RiskRequirementType::Initial,
                        );
                    }
                }
                banks[bank_index] = snap_bank;
                *account = snap_acc;
                proof {
                    assert(banks@ =~= old(banks)@);
                }
                return Err(e);
            },
        };
        proof {
            crate::risk::lemma_health_components_nonneg(
                account.lending_account.balances@,
                banks@,
                prices@,
                RiskRequirementType::Initial,
                MAX_BALANCES as int,
            );
        }
        if !healthy {
            banks[bank_index] = snap_bank;
            *account = snap_acc;
            proof {
                assert(banks@ =~= old(banks)@);
            }
            return Err(MarginfiError::RiskEngineInitRejected);
        }
    }
    Ok(moved)
}

/// The bank a borrow leaves behind, given the accrued bank and the slot's
/// starting balance: held assets are consumed first, only the remainder
/// becomes debt.
pub open spec fn borrow_result_bank(ab: Bank, bal: Balance, amount: u64) -> Bank {
    let amt = Fx { bits: ((amount as u128) * UNIT) as u128 };
    let hold = crate::bank::shares_asset_value_spec(ab, bal.asset_shares);
    if amt.bits <= hold {
        Bank {
            total_asset_shares: Fx {
                bits: (ab.total_asset_shares.bits - crate::bank::withdraw_shares_spec(
                    ab,
                    amt,
                )) as u128,
            },
            liquidity_vault_balance: Fx {
                bits: (ab.liquidity_vault_balance.bits - amt.bits) as u128,
            },
            ..ab
        }
    } else {
        let rest = Fx { bits: (amt.bits - hold) as u128 };
        Bank {
            total_asset_shares: Fx {
                bits: (ab.total_asset_shares.bits - bal.asset_shares.bits) as u128,
            },
            total_liability_shares: Fx {
                bits: (ab.total_liability_shares.bits + crate::bank::borrow_shares_spec(
                    ab,
                    rest,
                )) as u128,
            },
            liquidity_vault_balance: Fx {
                bits: (ab.liquidity_vault_balance.bits - amt.bits) as u128,
            },
            ..ab
        }
    }
}

/// The balance a borrow leaves behind.
pub open spec fn borrow_result_balance(ab: Bank, bal: Balance, amount: u64) -> Balance {
    let amt = Fx { bits: ((amount as u128) * UNIT) as u128 };
    let hold = crate::bank::shares_asset_value_spec(ab, bal.asset_shares);
    if amt.bits <= hold {
        Balance {
            asset_shares: Fx {
                bits: (bal.asset_shares.bits - crate::bank::withdraw_shares_spec(ab, amt)) as u128,
            },
            ..bal
        }
    } else {
        let rest = Fx { bits: (amt.bits - hold) as u128 };
        Balance {
            asset_shares: Fx { bits: 0 },
            liability_shares: Fx {
                bits: (bal.liability_shares.bits + crate::bank::borrow_shares_spec(
                    ab,
                    rest,
                )) as u128,
            },
            ..bal
        }
    }
}

/// Every step of this borrow fits: the account is enabled, the bank fully
/// operational, accrual cannot fail, a slot is free, and the offsetting
/// decrease stays in range and within the borrow limit.
pub open spec fn borrow_prepared(
    pre_banks: Seq<Bank>,
    bank_index: usize,
    pre_acc: MarginfiAccount,
    amount: u64,
    now: u64,
) -> bool {
    let ab = accrued_bank(pre_banks[bank_index as int], now);
    let amt = Fx { bits: ((amount as u128) * UNIT) as u128 };
    &&& !has_flag_spec(pre_acc.account_flags, DISABLED_FLAG)
    &&& pre_banks[bank_index as int].config.operational_state == BankOperationalState::Operational
    &&& accrual_ok(pre_banks[bank_index as int], now)
    &&& slot_available(pre_acc, bank_index)
    &&& forall|i: int|
        0 <= i < MAX_BALANCES && #[trigger] slot_matches(
            pre_acc.lending_account.balances@,
            i,
            bank_index,
        ) ==> decrease_fits(ab, pre_acc.lending_account.balances@[i], amt, true)
            && decrease_within_limit(ab, pre_acc.lending_account.balances@[i], amt)
    &&& ((forall|i: int|
        0 <= i < MAX_BALANCES ==> !slot_matches(pre_acc.lending_account.balances@, i, bank_index))
        ==> decrease_fits(ab, fresh_balance(bank_index, now), amt, true) && decrease_within_limit(
        ab,
        fresh_balance(bank_index, now),
        amt,
    ))
}

/// The committed borrow at slot `s` respects the one-isolated-liability
/// rule: a new non-dust debt in an isolated bank tolerates no other
/// liability, and in any bank tolerates no isolated liability elsewhere.
pub open spec fn borrow_isolation_ok(
    pre_banks: Seq<Bank>,
    bank_index: usize,
    pre_acc: MarginfiAccount,
    s: int,
    amount: u64,
    now: u64,
) -> bool {
    let ab = accrued_bank(pre_banks[bank_index as int], now);
    let bal1 = borrow_result_balance(ab, start_balance(pre_acc, s, bank_index, now), amount);
    bal1.liability_shares.bits >= EMPTY_BALANCE_THRESHOLD_BITS ==> {
        &&& (pre_banks[bank_index as int].config.risk_tier == crate::bank::RiskTier::Isolated
            ==> (forall|j: int|
            0 <= j < MAX_BALANCES && j != s ==> !(
            #[trigger] pre_acc.lending_account.balances@[j].active
                && pre_acc.lending_account.balances@[j].liability_shares.bits
                >= EMPTY_BALANCE_THRESHOLD_BITS)))
        &&& (pre_banks[bank_index as int].config.risk_tier != crate::bank::RiskTier::Isolated
            ==> !crate::account::has_isolated_liability_seq(
            pre_acc.lending_account.balances@.update(s, bal1),
            pre_banks.update(bank_index as int, borrow_result_bank(
                ab,
                start_balance(pre_acc, s, bank_index, now),
                amount,
            )),
        ))
    }
}

/// The position left by a borrow committed at slot `s` meets initial
/// requirements.
pub open spec fn borrow_healthy_after(
    pre_banks: Seq<Bank>,
    bank_index: usize,
    pre_acc: MarginfiAccount,
    s: int,
    amount: u64,
    prices: Seq<Option<OraclePriceSnapshot>>,
    now: u64,
) -> bool {
    let ab = accrued_bank(pre_banks[bank_index as int], now);
    let bal0 = start_balance(pre_acc, s, bank_index, now);
    match health_components_spec(
        pre_acc.lending_account.balances@.update(s, borrow_result_balance(ab, bal0, amount)),
        pre_banks.update(bank_index as int, borrow_result_bank(ab, bal0, amount)),
        prices,
        RiskRequirementType::Initial,
        MAX_BALANCES as int,
    ) {
        Option::Some((a, l)) => a >= l,
        Option::None => false,
    }
}

/// As `borrow_healthy_after`, but the health value exists and falls short:
/// the case the risk engine rejects.
pub open spec fn borrow_rejected_after(
    pre_banks: Seq<Bank>,
    bank_index: usize,
    pre_acc: MarginfiAccount,
    s: int,
    amount: u64,
    prices: Seq<Option<OraclePriceSnapshot>>,
    now: u64,
) -> bool {
    let ab = accrued_bank(pre_banks[bank_index as int], now);
    let bal0 = start_balance(pre_acc, s, bank_index, now);
    match health_components_spec(
        pre_acc.lending_account.balances@.update(s, borrow_result_balance(ab, bal0, amount)),
        pre_banks.update(bank_index as int, borrow_result_bank(ab, bal0, amount)),
        prices,
        RiskRequirementType::Initial,
        MAX_BALANCES as int,
    ) {
        Option::Some((a, l)) => a < l,
        Option::None => false,
    }
}

/// Borrows `amount` tokens from a bank for the account, consuming any held
/// assets in the bank first.  The bank must be fully operational; at most
/// one liability may exist when any of them is isolated-tier; and unless
/// the account is inside a flashloan bracket, the action commits only if
/// the position still meets initial requirements afterwards.  On any
/// failure nothing changes.
#[verifier::rlimit(100)]
pub fn process_borrow(
    banks: &mut Vec<Bank>,
    bank_index: usize,
    account: &mut MarginfiAccount,
    amount: u64,
    prices: &Vec<Option<OraclePriceSnapshot>>,
    now: u64,
) -> (r: Result<Fx, MarginfiError>)
    requires
        old(account).wf(),
        bank_index < old(banks)@.len(),
        old(banks)@[bank_index as int].wf(),
        balances_in_range(old(account).lending_account.balances@, old(banks)@.len() as int),
        prices@.len() == old(banks)@.len(),
    ensures
        final(account).wf(),
        untouched_banks(old(banks)@, final(banks)@, bank_index as int),
        final(banks)@[bank_index as int].wf(),
        r is Err ==> final(banks)@ == old(banks)@ && same_account(*final(account), *old(account)),
        old(banks)@[bank_index as int].solvent() ==> final(banks)@[bank_index as int].solvent(),
        r is Ok && !has_flag_spec(old(account).account_flags, IN_FLASHLOAN_FLAG)
            ==> initial_health_ok(*final(account), final(banks)@, prices@),
        has_flag_spec(old(account).account_flags, DISABLED_FLAG) ==> r == Err::<Fx, MarginfiError>(
            MarginfiError::AccountDisabled,
        ),
        !has_flag_spec(old(account).account_flags, DISABLED_FLAG) && old(
            banks,
        )@[bank_index as int].config.operational_state == BankOperationalState::Paused ==> r
            == Err::<Fx, MarginfiError>(MarginfiError::BankPaused),
        !has_flag_spec(old(account).account_flags, DISABLED_FLAG) && old(
            banks,
        )@[bank_index as int].config.operational_state == BankOperationalState::ReduceOnly ==> r
            == Err::<Fx, MarginfiError>(MarginfiError::BankReduceOnly),
        r is Ok ==> r == Ok::<Fx, MarginfiError>(Fx { bits: ((amount as u128) * UNIT) as u128 }),
        r is Ok ==> exists|s: int|
            #![auto]
            0 <= s < MAX_BALANCES && final(account).lending_account.balances@ == old(
                account,
            ).lending_account.balances@.update(s, final(account).lending_account.balances@[s])
                && decrease_commits(
                accrued_bank(old(banks)@[bank_index as int], now),
                final(banks)@[bank_index as int],
                start_balance(*old(account), s, bank_index, now),
                final(account).lending_account.balances@[s],
                Fx { bits: ((amount as u128) * UNIT) as u128 },
            ),
        r is Ok ==> forall|s: int|
            0 <= s < MAX_BALANCES && #[trigger] slot_matches(
                final(account).lending_account.balances@,
                s,
                bank_index,
            ) && final(account).lending_account.balances@[s].liability_shares.bits
                >= EMPTY_BALANCE_THRESHOLD_BITS ==> {
                &&& (final(banks)@[bank_index as int].config.risk_tier
                    == crate::bank::RiskTier::Isolated ==> (forall|j: int|
                    0 <= j < MAX_BALANCES && j != s
                        ==> !(#[trigger] final(account).lending_account.balances@[j].active
                        && final(account).lending_account.balances@[j].liability_shares.bits
                        >= EMPTY_BALANCE_THRESHOLD_BITS)))
                &&& (final(banks)@[bank_index as int].config.risk_tier
                    != crate::bank::RiskTier::Isolated
                    ==> !crate::account::has_isolated_liability_seq(
                    final(account).lending_account.balances@,
                    final(banks)@,
                ))
            },
        borrow_prepared(old(banks)@, bank_index, *old(account), amount, now) && (forall|i: int|
            0 <= i < MAX_BALANCES && #[trigger] slot_matches(
                old(account).lending_account.balances@,
                i,
                bank_index,
            ) ==> borrow_isolation_ok(old(banks)@, bank_index, *old(account), i, amount, now) && (
            has_flag_spec(old(account).account_flags, IN_FLASHLOAN_FLAG) || borrow_healthy_after(
                old(banks)@,
                bank_index,
                *old(account),
                i,
                amount,
                prices@,
                now,
            ))) && ((forall|i: int|
            0 <= i < MAX_BALANCES ==> !slot_matches(
                old(account).lending_account.balances@,
                i,
                bank_index,
            )) ==> (forall|j: int|
            0 <= j < MAX_BALANCES && !(#[trigger] old(
                account,
            ).lending_account.balances@[j].active) ==> borrow_isolation_ok(
                old(banks)@,
                bank_index,
                *old(account),
                j,
                amount,
                now,
            ) && (has_flag_spec(old(account).account_flags, IN_FLASHLOAN_FLAG)
                || borrow_healthy_after(
                old(banks)@,
                bank_index,
                *old(account),
                j,
                amount,
                prices@,
                now,
            )))) ==> (r is Ok),
        borrow_prepared(old(banks)@, bank_index, *old(account), amount, now) && !has_flag_spec(
            old(account).account_flags,
            IN_FLASHLOAN_FLAG,
        ) && (forall|i: int|
            0 <= i < MAX_BALANCES && #[trigger] slot_matches(
                old(account).lending_account.balances@,
                i,
                bank_index,
            ) ==> borrow_isolation_ok(old(banks)@, bank_index, *old(account), i, amount, now)
                && borrow_rejected_after(
                old(banks)@,
                bank_index,
                *old(account),
                i,
                amount,
                prices@,
                now,
            )) && ((forall|i: int|
            0 <= i < MAX_BALANCES ==> !slot_matches(
                old(account).lending_account.balances@,
                i,
                bank_index,
            )) ==> (forall|j: int|
            0 <= j < MAX_BALANCES && !(#[trigger] old(
                account,
            ).lending_account.balances@[j].active) ==> borrow_isolation_ok(
                old(banks)@,
                bank_index,
                *old(account),
                j,
                amount,
                now,
            ) && borrow_rejected_after(
                old(banks)@,
                bank_index,
                *old(account),
                j,
                amount,
                prices@,
                now,
            ))) ==> r == Err::<Fx, MarginfiError>(MarginfiError::RiskEngineInitRejected),
        final(account).authority == old(account).authority,
        final(account).account_flags == old(account).account_flags,
{
    if account.get_flag(DISABLED_FLAG) {
        return Err(MarginfiError::AccountDisabled);
    }
    let snap_bank = banks[bank_index];
    let mut bank = banks[bank_index];
    match bank.config.operational_state {
        BankOperationalState::Paused => {
            return Err(MarginfiError::BankPaused);
        },
        BankOperationalState::ReduceOnly => {
            return Err(MarginfiError::BankReduceOnly);
        },
        BankOperationalState::Operational => {},
    }
    let snap_acc = snapshot_account(account);
    match bank.accrue_interest(now) {
        Ok(()) => {},
        Err(e) => {
            return Err(e);
        },
    }
    let ghost b_acc = bank;
    let slot = match account.lending_account.find_or_create_balance(bank_index, now) {
        Ok(s) => s,
        Err(e) => {
            return Err(e);
        },
    };
    let mut bal = account.lending_account.balances[slot];
    let ghost bal0 = bal;
    proof {
        assert(b_acc == accrued_bank(old(banks)@[bank_index as int], now));
        if slot_matches(old(account).lending_account.balances@, slot as int, bank_index) {
            assert(bal0 == start_balance(*old(account), slot as int, bank_index, now));
        } else {
            assert(!old(account).lending_account.balances@[slot as int].active);
            assert(forall|i: int|
                0 <= i < MAX_BALANCES ==> !slot_matches(
                    old(account).lending_account.balances@,
                    i,
                    bank_index,
                ));
            assert(bal0 == start_balance(*old(account), slot as int, bank_index, now));
        }
    }
    let amt = Fx::from_int(amount);
    match decrease_balance(&mut bank, &mut bal, amt, true) {
        Ok(()) => {},
        Err(e) => {
            *account = snap_acc;
            return Err(e);
        },
    }
    let ghost mid = *account;
    account.lending_account.set_balance(slot, bal);
    proof {
        lemma_account_wf_after_set(
            mid.lending_account,
            account.lending_account,
            slot as int,
            bal,
            bank_index,
        );
        assert(account.lending_account.balances@ =~= old(
            account,
        ).lending_account.balances@.update(slot as int, bal));
        if slot_matches(old(account).lending_account.balances@, slot as int, bank_index) {
            assert(bal0 == start_balance(*old(account), slot as int, bank_index, now));
        } else {
            assert(mid.lending_account.balances@ == old(
                account,
            ).lending_account.balances@.update(slot as int, fresh_balance(bank_index, now)));
            assert(bal0 == fresh_balance(bank_index, now));
        }
    }
    banks[bank_index] = bank;
    proof {
        let s = slot as int;
        assert(account.lending_account.balances@ == old(
            account,
        ).lending_account.balances@.update(s, account.lending_account.balances@[s])
            && decrease_commits(
            accrued_bank(old(banks)@[bank_index as int], now),
            banks@[bank_index as int],
            start_balance(*old(account), s, bank_index, now),
            account.lending_account.balances@[s],
            amt,
        )) by {
            assert(account.lending_account.balances@ =~= old(
                account,
            ).lending_account.balances@.update(s, account.lending_account.balances@[s]));
        }
        assert(bal == borrow_result_balance(
            b_acc,
            start_balance(*old(account), s, bank_index, now),
            amount,
        ));
        assert(bank == borrow_result_bank(
            b_acc,
            start_balance(*old(account), s, bank_index, now),
            amount,
        ));
        assert(account.lending_account.balances@ =~= old(
            account,
        ).lending_account.balances@.update(
            s,
            borrow_result_balance(b_acc, start_balance(*old(account), s, bank_index, now), amount),
        ));
        assert(banks@ =~= old(banks)@.update(
            bank_index as int,
            borrow_result_bank(b_acc, start_balance(*old(account), s, bank_index, now), amount),
        ));
    }
    // the one-isolated-liability rule, on the committed state
    if bal.liability_shares.bits >= EMPTY_BALANCE_THRESHOLD_BITS {
        let violated = if matches!(bank.config.risk_tier, crate::bank::RiskTier::Isolated) {
            account.lending_account.has_other_liability(slot)
        } else {
            account.lending_account.has_isolated_liability(banks)
        };
        proof {
            if borrow_isolation_ok(old(banks)@, bank_index, *old(account), slot as int, amount, now) {
                assert(!violated) by {
                    if matches!(bank.config.risk_tier, crate::bank::RiskTier::Isolated) {
                        if violated {
                            let w = choose|i: int|
                                0 <= i < MAX_BALANCES && i != slot as int
                                    && #[trigger] account.lending_account.balances@[i].active
                                    && account.lending_account.balances@[i].liability_shares.bits
                                    >= EMPTY_BALANCE_THRESHOLD_BITS;
                            assert(account.lending_account.balances@[w] == old(
                                account,
                            ).lending_account.balances@[w]);
                        }
                    }
                }
            }
        }
        if violated {
            banks[bank_index] = snap_bank;
            *account = snap_acc;
            proof {
                assert(banks@ =~= old(banks)@);
            }
            return Err(MarginfiError::IsolatedAccountIllegalState);
        }
    }
    if !account.get_flag(IN_FLASHLOAN_FLAG) {
        let healthy = match compute_health_components(
            &account.lending_account,
            banks,
            prices,
            RiskRequirementType::Initial,
        ) {
            Ok((a, l)) => a.bits >= l.bits,
            Err(e) => {
                proof {
                    if crate::risk::missing_price_spec(account.lending_account.balances@, prices@) {
                        crate::risk::lemma_missing_price_none(
                            account.lending_account.balances@,
                            banks@,
                            prices@,
                            RiskRequirementType::Initial,
                        );
                    }
                }
                banks[bank_index] = snap_bank;
                *account = snap_acc;
                proof {
                    assert(banks@ =~= old(banks)@);
                }
                return Err(e);
            },
        };
        proof {
            crate::risk::lemma_health_components_nonneg(
                account.lending_account.balances@,
                banks@,
                prices@,
                RiskRequirementType::Initial,
                MAX_BALANCES as int,
            );
        }
        if !healthy {
            banks[bank_index] = snap_bank;
            *account = snap_acc;
            proof {
                assert(banks@ =~= old(banks)@);
            }
            return Err(MarginfiError::RiskEngineInitRejected);
        }
    }
    Ok(amt)
}

/// Closes an empty balance slot: both sides must be below the dust
/// threshold.  The freed slot can then serve another bank.  On any failure
/// nothing changes.
pub fn lending_account_close_balance(
    banks: &mut Vec<Bank>,
    bank_index: usize,
    account: &mut MarginfiAccount,
    now: u64,
) -> (r: Result<(), MarginfiError>)
    requires
        old(account).wf(),
        bank_index < old(banks)@.len(),
        old(banks)@[bank_index as int].wf(),
    ensures
        final(account).wf(),
        untouched_banks(old(banks)@, final(banks)@, bank_index as int),
        final(banks)@[bank_index as int].wf(),
        r is Err ==> final(banks)@ == old(banks)@ && same_account(*final(account), *old(account)),
        old(banks)@[bank_index as int].solvent() ==> final(banks)@[bank_index as int].solvent(),
        r is Ok ==> exists|s: int|
            #![auto]
            0 <= s < MAX_BALANCES && slot_matches(old(account).lending_account.balances@, s, bank_index)
                && old(account).lending_account.balances@[s].asset_shares.bits
                < EMPTY_BALANCE_THRESHOLD_BITS && old(
                account,
            ).lending_account.balances@[s].liability_shares.bits < EMPTY_BALANCE_THRESHOLD_BITS
                && final(account).lending_account.balances@ == old(
                account,
            ).lending_account.balances@.update(s, crate::account::inactive_balance()),
        (!has_flag_spec(old(account).account_flags, DISABLED_FLAG) && old(
            banks,
        )@[bank_index as int].config.operational_state != BankOperationalState::Paused
            && accrual_ok(old(banks)@[bank_index as int], now) && (exists|i: int|
            0 <= i < MAX_BALANCES && #[trigger] slot_matches(
                old(account).lending_account.balances@,
                i,
                bank_index,
            )) && (forall|i: int|
            0 <= i < MAX_BALANCES && #[trigger] slot_matches(
                old(account).lending_account.balances@,
                i,
                bank_index,
            ) ==> old(account).lending_account.balances@[i].asset_shares.bits
                < EMPTY_BALANCE_THRESHOLD_BITS && old(
                account,
            ).lending_account.balances@[i].liability_shares.bits
                < EMPTY_BALANCE_THRESHOLD_BITS)) ==> (r is Ok),
        (!has_flag_spec(old(account).account_flags, DISABLED_FLAG) && old(
            banks,
        )@[bank_index as int].config.operational_state != BankOperationalState::Paused
            && accrual_ok(old(banks)@[bank_index as int], now) && (forall|i: int|
            0 <= i < MAX_BALANCES && #[trigger] old(account).lending_account.balances@[i].active
                ==> old(account).lending_account.balances@[i].bank_index != bank_index)) ==> r
            == Err::<(), MarginfiError>(MarginfiError::BankAccountNotFound),
        (!has_flag_spec(old(account).account_flags, DISABLED_FLAG) && old(
            banks,
        )@[bank_index as int].config.operational_state != BankOperationalState::Paused
            && accrual_ok(old(banks)@[bank_index as int], now) && (exists|i: int|
            0 <= i < MAX_BALANCES && #[trigger] slot_matches(
                old(account).lending_account.balances@,
                i,
                bank_index,
            )) && (forall|i: int|
            0 <= i < MAX_BALANCES && #[trigger] slot_matches(
                old(account).lending_account.balances@,
                i,
                bank_index,
            ) ==> !(old(account).lending_account.balances@[i].asset_shares.bits
                < EMPTY_BALANCE_THRESHOLD_BITS && old(
                account,
            ).lending_account.balances@[i].liability_shares.bits
                < EMPTY_BALANCE_THRESHOLD_BITS))) ==> r == Err::<(), MarginfiError>(
            MarginfiError::IllegalBalanceState,
        ),
        final(account).authority == old(account).authority,
        final(account).account_flags == old(account).account_flags,
{
    if account.get_flag(DISABLED_FLAG) {
        return Err(MarginfiError::AccountDisabled);
    }
    let mut bank = banks[bank_index];
    match bank.config.operational_state {
        BankOperationalState::Paused => {
            return Err(MarginfiError::BankPaused);
        },
        _ => {},
    }
    match bank.accrue_interest(now) {
        Ok(()) => {},
        Err(e) => {
            return Err(e);
        },
    }
    let slot = match account.lending_account.find_balance(bank_index) {
        Some(s) => s,
        None => {
            return Err(MarginfiError::BankAccountNotFound);
        },
    };
    let bal = account.lending_account.balances[slot];
    if !(bal.asset_shares.bits < EMPTY_BALANCE_THRESHOLD_BITS && bal.liability_shares.bits
        < EMPTY_BALANCE_THRESHOLD_BITS) {
        return Err(MarginfiError::IllegalBalanceState);
    }
    let ghost mid = *account;
    account.lending_account.set_balance(slot, Balance::inactive());
    proof {
        lemma_account_wf_after_set(
            mid.lending_account,
            account.lending_account,
            slot as int,
            crate::account::inactive_balance(),
            bank_index,
        );
    }
    banks[bank_index] = bank;
    Ok(())
}

/// Share of the seized collateral's value kept by the liquidator as their
/// incentive: two and a half percent, in raw fixed-point bits.
pub const LIQUIDATION_LIQUIDATOR_FEE_BITS: u128 = 7_036_874_417_766;

/// Share of the seized collateral's value routed to the liability bank's
/// insurance vault: two and a half percent, in raw fixed-point bits.
pub const LIQUIDATION_INSURANCE_FEE_BITS: u128 = 7_036_874_417_766;

/// The maintenance-requirement health components of an account.
pub open spec fn maint_health(
    acc: MarginfiAccount,
    banks: Seq<Bank>,
    prices: Seq<Option<OraclePriceSnapshot>>,
) -> Option<(int, int)> {
    health_components_spec(
        acc.lending_account.balances@,
        banks,
        prices,
        RiskRequirementType::Maintenance,
        MAX_BALANCES as int,
    )
}

/// What every accepted liquidation guarantees: the target was unhealthy
/// under maintenance requirements before and is no healthier than
/// break-even after, so a liquidator can never seize more collateral than
/// it takes to bring the target back toward balance.
pub open spec fn liquidation_checks_ok(
    pre_ee: MarginfiAccount,
    post_ee: MarginfiAccount,
    mid_banks: Seq<Bank>,
    post_banks: Seq<Bank>,
    prices: Seq<Option<OraclePriceSnapshot>>,
) -> bool {
    match (maint_health(pre_ee, mid_banks, prices), maint_health(post_ee, post_banks, prices)) {
        (Option::Some((pa, pl)), Option::Some((qa, ql))) => pa < pl && qa <= ql,
        _ => false,
    }
}

/// Value of the seized collateral at the asset bank's low price bound.
pub open spec fn liquidation_seized_value(p: OraclePriceSnapshot, asset_amount: u64) -> int {
    crate::fixnum::mul_down_spec(asset_amount * UNIT, crate::risk::price_low_spec(p))
}

/// Debt the liquidator takes on: the collateral value less the liquidator
/// fee, at the liability bank's high price bound.
pub open spec fn liquidation_take_amount(seized_value: int, lp: OraclePriceSnapshot) -> int {
    crate::fixnum::div_down_spec(
        crate::fixnum::mul_down_spec(
            seized_value,
            (UNIT - LIQUIDATION_LIQUIDATOR_FEE_BITS) as int,
        ),
        crate::risk::price_high_spec(lp),
    )
}

/// Debt the target is relieved of: the collateral value less both fees.
pub open spec fn liquidation_relief_amount(seized_value: int, lp: OraclePriceSnapshot) -> int {
    crate::fixnum::div_down_spec(
        crate::fixnum::mul_down_spec(
            seized_value,
            (UNIT - LIQUIDATION_LIQUIDATOR_FEE_BITS - LIQUIDATION_INSURANCE_FEE_BITS) as int,
        ),
        crate::risk::price_high_spec(lp),
    )
}

/// Exact collateral and fee movement of an accepted liquidation: the asset
/// bank's shares shrink by the seizure (rounded up) and grow by the grant
/// (rounded down); the insurance vault receives the fee between what the
/// liquidator pays and what the target is relieved of; the target's
/// collateral balance shrinks by the seized shares and the liquidator's
/// grows by the granted ones.
pub open spec fn liquidation_moves_ok(
    pre_banks: Seq<Bank>,
    post_banks: Seq<Bank>,
    pre_ee: MarginfiAccount,
    post_ee: MarginfiAccount,
    pre_or: MarginfiAccount,
    post_or: MarginfiAccount,
    a_idx: usize,
    l_idx: usize,
    asset_amount: u64,
    now: u64,
    prices: Seq<Option<OraclePriceSnapshot>>,
) -> bool {
    let aab = accrued_bank(pre_banks[a_idx as int], now);
    let alb = accrued_bank(pre_banks[l_idx as int], now);
    let amt = Fx { bits: ((asset_amount as u128) * UNIT) as u128 };
    let ws = crate::bank::withdraw_shares_spec(aab, amt);
    let ds = deposit_shares_spec(aab, amt);
    let av = liquidation_seized_value(prices[a_idx as int]->Some_0, asset_amount);
    let take = liquidation_take_amount(av, prices[l_idx as int]->Some_0);
    let relief = liquidation_relief_amount(av, prices[l_idx as int]->Some_0);
    &&& prices[a_idx as int] is Some
    &&& prices[l_idx as int] is Some
    &&& post_banks[a_idx as int].total_asset_shares.bits == aab.total_asset_shares.bits - ws + ds
    &&& post_banks[l_idx as int].insurance_vault_balance.bits == alb.insurance_vault_balance.bits
        + (take - relief)
    &&& exists|s: int|
        #![auto]
        0 <= s < MAX_BALANCES && slot_matches(pre_ee.lending_account.balances@, s, a_idx)
            && post_ee.lending_account.balances@[s].asset_shares.bits
            == pre_ee.lending_account.balances@[s].asset_shares.bits - ws
    &&& exists|s: int|
        #![auto]
        0 <= s < MAX_BALANCES && slot_matches(post_or.lending_account.balances@, s, a_idx)
            && post_or.lending_account.balances@[s].asset_shares.bits == start_balance(
            pre_or,
            s,
            a_idx,
            now,
        ).asset_shares.bits + ds
    &&& exists|s: int|
        #![auto]
        0 <= s < MAX_BALANCES && slot_matches(pre_ee.lending_account.balances@, s, l_idx) && {
            let bal0 = pre_ee.lending_account.balances@[s];
            let bal1 = post_ee.lending_account.balances@[s];
            let debt = shares_liability_value_spec(alb, bal0.liability_shares);
            if relief < debt {
                bal1.liability_shares.bits == bal0.liability_shares.bits - repay_shares_spec(
                    alb,
                    Fx { bits: relief as u128 },
                ) && bal1.asset_shares == bal0.asset_shares
            } else {
                bal1.liability_shares.bits == 0 && bal1.asset_shares.bits
                    == bal0.asset_shares.bits + deposit_shares_spec(
                    alb,
                    Fx { bits: (relief - debt) as u128 },
                )
            }
        }
    &&& exists|s: int|
        #![auto]
        0 <= s < MAX_BALANCES && slot_matches(post_or.lending_account.balances@, s, l_idx) && {
            let or0 = start_balance(pre_or, s, l_idx, now);
            let or1 = post_or.lending_account.balances@[s];
            let hold = crate::bank::shares_asset_value_spec(alb, or0.asset_shares);
            if take <= hold {
                or1.asset_shares.bits == or0.asset_shares.bits - crate::bank::withdraw_shares_spec(
                    alb,
                    Fx { bits: take as u128 },
                ) && or1.liability_shares == or0.liability_shares
            } else {
                or1.asset_shares.bits == 0 && or1.liability_shares.bits
                    == or0.liability_shares.bits + crate::bank::borrow_shares_spec(
                    alb,
                    Fx { bits: (take - hold) as u128 },
                )
            }
        }
}

/// Both touched banks of a two-bank action, freshly accrued.
pub open spec fn two_banks_accrued(banks: Seq<Bank>, a_idx: int, l_idx: int, now: u64) -> Seq<
    Bank,
> {
    banks.update(a_idx, accrued_bank(banks[a_idx], now)).update(
        l_idx,
        accrued_bank(banks[l_idx], now),
    )
}

/// Seizes `asset_amount` of the target's collateral in the asset bank for
/// the liquidator, at a discount off the oracle price: the liquidator takes
/// on debt in the liability bank worth the collateral less their fee, the
/// target's debt shrinks by the collateral value less both fees, and the
/// difference is paid into the liability bank's insurance vault.
///
/// Accepted only when the target's maintenance health is negative before
/// and no better than break-even after (the fee slice can leave it slightly
/// worse), and the liquidator meets initial requirements afterwards.  On
/// any failure every entity is left exactly as found.
#[verifier::rlimit(100)]
pub fn process_liquidate_account(
    banks: &mut Vec<Bank>,
    asset_bank_index: usize,
    liab_bank_index: usize,
    liquidator: &mut MarginfiAccount,
    liquidatee: &mut MarginfiAccount,
    asset_amount: u64,
    prices: &Vec<Option<OraclePriceSnapshot>>,
    now: u64,
) -> (r: Result<(), MarginfiError>)
    requires
        old(liquidator).wf(),
        old(liquidatee).wf(),
        asset_bank_index < old(banks)@.len(),
        liab_bank_index < old(banks)@.len(),
        old(banks)@[asset_bank_index as int].wf(),
        old(banks)@[liab_bank_index as int].wf(),
        balances_in_range(old(liquidator).lending_account.balances@, old(banks)@.len() as int),
        balances_in_range(old(liquidatee).lending_account.balances@, old(banks)@.len() as int),
        prices@.len() == old(banks)@.len(),
    ensures
        final(liquidator).wf(),
        final(liquidatee).wf(),
        final(banks)@.len() == old(banks)@.len(),
        forall|i: int|
            0 <= i < old(banks)@.len() && i != asset_bank_index && i != liab_bank_index
                ==> final(banks)@[i] == old(banks)@[i],
        final(banks)@[asset_bank_index as int].wf(),
        final(banks)@[liab_bank_index as int].wf(),
        r is Err ==> final(banks)@ == old(banks)@ && same_account(*final(liquidator), *old(liquidator))
            && same_account(*final(liquidatee), *old(liquidatee)),
        r is Ok ==> liquidation_checks_ok(
            *old(liquidatee),
            *final(liquidatee),
            two_banks_accrued(old(banks)@, asset_bank_index as int, liab_bank_index as int, now),
            final(banks)@,
            prices@,
        ),
        r is Ok ==> initial_health_ok(*final(liquidator), final(banks)@, prices@),
        r is Ok ==> liquidation_moves_ok(
            old(banks)@,
            final(banks)@,
            *old(liquidatee),
            *final(liquidatee),
            *old(liquidator),
            *final(liquidator),
            asset_bank_index,
            liab_bank_index,
            asset_amount,
            now,
            prices@,
        ),
        asset_bank_index == liab_bank_index ==> r == Err::<(), MarginfiError>(
            MarginfiError::IllegalLiquidation,
        ),
        (asset_bank_index != liab_bank_index && !has_flag_spec(
            old(liquidator).account_flags,
            DISABLED_FLAG,
        ) && !has_flag_spec(old(liquidatee).account_flags, DISABLED_FLAG) && old(
            banks,
        )@[asset_bank_index as int].config.operational_state != BankOperationalState::Paused
            && old(banks)@[liab_bank_index as int].config.operational_state
            != BankOperationalState::Paused && accrual_ok(old(banks)@[asset_bank_index as int], now)
            && accrual_ok(old(banks)@[liab_bank_index as int], now) && (match maint_health(
            *old(liquidatee),
            two_banks_accrued(old(banks)@, asset_bank_index as int, liab_bank_index as int, now),
            prices@,
        ) {
            Option::Some((a, l)) => a >= l,
            Option::None => false,
        })) ==> r == Err::<(), MarginfiError>(MarginfiError::IllegalLiquidation),
{
    if asset_bank_index == liab_bank_index {
        return Err(MarginfiError::IllegalLiquidation);
    }
    if liquidator.get_flag(DISABLED_FLAG) || liquidatee.get_flag(DISABLED_FLAG) {
        return Err(MarginfiError::AccountDisabled);
    }
    let snap_a_bank = banks[asset_bank_index];
    let snap_l_bank = banks[liab_bank_index];
    let snap_or = snapshot_account(liquidator);
    let snap_ee = snapshot_account(liquidatee);
    let mut a_bank = banks[asset_bank_index];
    let mut l_bank = banks[liab_bank_index];
    if matches!(a_bank.config.operational_state, BankOperationalState::Paused) || matches!(
        l_bank.config.operational_state,
        BankOperationalState::Paused,
    ) {
        return Err(MarginfiError::BankPaused);
    }
    match a_bank.accrue_interest(now) {
        Ok(()) => {},
        Err(e) => {
            return Err(e);
        },
    }
    match l_bank.accrue_interest(now) {
        Ok(()) => {},
        Err(e) => {
            return Err(e);
        },
    }
    let ghost a_acc = a_bank;
    let ghost l_acc = l_bank;
    proof {
        assert(a_acc == accrued_bank(old(banks)@[asset_bank_index as int], now));
        assert(l_acc == accrued_bank(old(banks)@[liab_bank_index as int], now));
    }
    banks[asset_bank_index] = a_bank;
    banks[liab_bank_index] = l_bank;
    proof {
        assert(banks@ =~= two_banks_accrued(
            old(banks)@,
            asset_bank_index as int,
            liab_bank_index as int,
            now,
        ));
    }
    let ghost mid_banks = banks@;
    // the target must be unhealthy under maintenance requirements
    let (pre_a, pre_l) = match compute_health_components(
        &liquidatee.lending_account,
        banks,
        prices,
        RiskRequirementType::Maintenance,
    ) {
        Ok(v) => v,
        Err(e) => {
            proof {
                if crate::risk::missing_price_spec(liquidatee.lending_account.balances@, prices@) {
                    crate::risk::lemma_missing_price_none(
                        liquidatee.lending_account.balances@,
                        banks@,
                        prices@,
                        RiskRequirementType::Maintenance,
                    );
                }
            }
            banks[asset_bank_index] = snap_a_bank;
            banks[liab_bank_index] = snap_l_bank;
            proof {
                assert(banks@ =~= old(banks)@);
            }
            return Err(e);
        },
    };
    proof {
        crate::risk::lemma_health_components_nonneg(
            liquidatee.lending_account.balances@,
            banks@,
            prices@,
            RiskRequirementType::Maintenance,
            MAX_BALANCES as int,
        );
    }
    if pre_a.bits >= pre_l.bits {
        banks[asset_bank_index] = snap_a_bank;
        banks[liab_bank_index] = snap_l_bank;
        proof {
            assert(banks@ =~= old(banks)@);
        }
        return Err(MarginfiError::IllegalLiquidation);
    }
    // the target must hold the seized collateral and owe in the liability bank
    let ee_asset_slot = match liquidatee.lending_account.find_balance(asset_bank_index) {
        Some(s) => s,
        None => {
            banks[asset_bank_index] = snap_a_bank;
            banks[liab_bank_index] = snap_l_bank;
            proof {
                assert(banks@ =~= old(banks)@);
            }
            return Err(MarginfiError::IllegalLiquidation);
        },
    };
    let ee_liab_slot = match liquidatee.lending_account.find_balance(liab_bank_index) {
        Some(s) => s,
        None => {
            banks[asset_bank_index] = snap_a_bank;
            banks[liab_bank_index] = snap_l_bank;
            proof {
                assert(banks@ =~= old(banks)@);
            }
            return Err(MarginfiError::IllegalLiquidation);
        },
    };
    let mut ee_abal = liquidatee.lending_account.balances[ee_asset_slot];
    let mut ee_lbal = liquidatee.lending_account.balances[ee_liab_slot];
    let ghost ee_lbal0 = ee_lbal;
    if ee_lbal.liability_shares.bits < EMPTY_BALANCE_THRESHOLD_BITS {
        banks[asset_bank_index] = snap_a_bank;
        banks[liab_bank_index] = snap_l_bank;
        proof {
            assert(banks@ =~= old(banks)@);
        }
        return Err(MarginfiError::IllegalLiquidation);
    }
    // price the seized collateral and split its value
    let outcome = liquidation_amounts(&a_bank, &l_bank, asset_amount, prices, asset_bank_index, liab_bank_index);
    let (asset_amt, liq_amount, fin_amount, fee_amount) = match outcome {
        Ok(v) => v,
        Err(e) => {
            banks[asset_bank_index] = snap_a_bank;
            banks[liab_bank_index] = snap_l_bank;
            proof {
                assert(banks@ =~= old(banks)@);
            }
            return Err(e);
        },
    };
    // move the collateral; the target must hold enough of it
    let needed = match asset_amt.div_up(a_bank.asset_share_value) {
        Some(s) => s,
        None => {
            banks[asset_bank_index] = snap_a_bank;
            banks[liab_bank_index] = snap_l_bank;
            proof {
                assert(banks@ =~= old(banks)@);
            }
            return Err(MarginfiError::MathError);
        },
    };
    if needed.bits > ee_abal.asset_shares.bits {
        banks[asset_bank_index] = snap_a_bank;
        banks[liab_bank_index] = snap_l_bank;
        proof {
            assert(banks@ =~= old(banks)@);
        }
        return Err(MarginfiError::IllegalLiquidation);
    }
    let seize_shares = match a_bank.seize_asset_amount(asset_amt) {
        Ok(s) => s,
        Err(_) => {
            banks[asset_bank_index] = snap_a_bank;
            banks[liab_bank_index] = snap_l_bank;
            proof {
                assert(banks@ =~= old(banks)@);
            }
            return Err(MarginfiError::MathError);
        },
    };
    ee_abal.asset_shares = Fx { bits: ee_abal.asset_shares.bits - seize_shares.bits };
    let grant_shares = match a_bank.grant_asset_amount(asset_amt) {
        Ok(s) => s,
        Err(_) => {
            banks[asset_bank_index] = snap_a_bank;
            banks[liab_bank_index] = snap_l_bank;
            proof {
                assert(banks@ =~= old(banks)@);
            }
            return Err(MarginfiError::MathError);
        },
    };
    // relieve the target's debt, flipping any excess into assets
    let debt_value = match l_bank.get_liability_amount(ee_lbal.liability_shares) {
        Ok(v) => v,
        Err(e) => {
            banks[asset_bank_index] = snap_a_bank;
            banks[liab_bank_index] = snap_l_bank;
            proof {
                assert(banks@ =~= old(banks)@);
            }
            return Err(e);
        },
    };
    if fin_amount.bits < debt_value.bits {
        proof {
            lemma_repay_within_balance(
                fin_amount.bits as int,
                ee_lbal.liability_shares.bits as int,
                l_bank.liability_share_value.bits as int,
                debt_value.bits as int,
            );
        }
        let rs = match l_bank.relieve_liability(fin_amount) {
            Ok(s) => s,
            Err(e) => {
                banks[asset_bank_index] = snap_a_bank;
                banks[liab_bank_index] = snap_l_bank;
                proof {
                    assert(banks@ =~= old(banks)@);
                }
                return Err(e);
            },
        };
        ee_lbal.liability_shares = Fx { bits: ee_lbal.liability_shares.bits - rs.bits };
    } else {
        match l_bank.forgive_liability_shares(ee_lbal.liability_shares) {
            Ok(()) => {},
            Err(e) => {
                banks[asset_bank_index] = snap_a_bank;
                banks[liab_bank_index] = snap_l_bank;
                proof {
                    assert(banks@ =~= old(banks)@);
                }
                return Err(e);
            },
        }
        let rest = Fx { bits: fin_amount.bits - debt_value.bits };
        let flip = match l_bank.grant_asset_amount(rest) {
            Ok(s) => s,
            Err(e) => {
                banks[asset_bank_index] = snap_a_bank;
                banks[liab_bank_index] = snap_l_bank;
                proof {
                    assert(banks@ =~= old(banks)@);
                }
                return Err(e);
            },
        };
        let new_assets = match ee_lbal.asset_shares.checked_add(flip) {
            Some(v) => v,
            None => {
                banks[asset_bank_index] = snap_a_bank;
                banks[liab_bank_index] = snap_l_bank;
                proof {
                    assert(banks@ =~= old(banks)@);
                }
                return Err(MarginfiError::MathError);
            },
        };
        ee_lbal.liability_shares = Fx { bits: 0 };
        ee_lbal.asset_shares = new_assets;
    }
    // the liquidator pays: first with assets held in the liability bank,
    // then by taking on debt
    let or_liab_slot = match liquidator.lending_account.find_or_create_balance(
        liab_bank_index,
        now,
    ) {
        Ok(s) => s,
        Err(e) => {
            banks[asset_bank_index] = snap_a_bank;
            banks[liab_bank_index] = snap_l_bank;
            proof {
                assert(banks@ =~= old(banks)@);
            }
            return Err(e);
        },
    };
    let ghost or_mid1 = *liquidator;
    let mut or_lbal = liquidator.lending_account.balances[or_liab_slot];
    let ghost or_lbal0 = or_lbal;
    proof {
        if slot_matches(old(liquidator).lending_account.balances@, or_liab_slot as int, liab_bank_index) {
            assert(or_lbal0 == start_balance(
                *old(liquidator),
                or_liab_slot as int,
                liab_bank_index,
                now,
            ));
        } else {
            assert(!old(liquidator).lending_account.balances@[or_liab_slot as int].active);
            assert(or_lbal0 == start_balance(
                *old(liquidator),
                or_liab_slot as int,
                liab_bank_index,
                now,
            ));
        }
    }
    let hold = match l_bank.get_asset_amount(or_lbal.asset_shares) {
        Ok(v) => v,
        Err(e) => {
            banks[asset_bank_index] = snap_a_bank;
            banks[liab_bank_index] = snap_l_bank;
            *liquidator = snap_or;
            proof {
                assert(banks@ =~= old(banks)@);
            }
            return Err(e);
        },
    };
    if liq_amount.bits <= hold.bits {
        proof {
            crate::fixnum::lemma_mul_down_bound(
                or_lbal.asset_shares.bits as int,
                l_bank.asset_share_value.bits as int,
            );
            lemma_div_up_le(
                liq_amount.bits as int,
                or_lbal.asset_shares.bits as int,
                l_bank.asset_share_value.bits as int,
            );
        }
        let ws = match l_bank.seize_asset_amount(liq_amount) {
            Ok(s) => s,
            Err(e) => {
                banks[asset_bank_index] = snap_a_bank;
                banks[liab_bank_index] = snap_l_bank;
                *liquidator = snap_or;
                proof {
                    assert(banks@ =~= old(banks)@);
                }
                return Err(e);
            },
        };
        or_lbal.asset_shares = Fx { bits: or_lbal.asset_shares.bits - ws.bits };
    } else {
        match l_bank.burn_asset_shares_only(or_lbal.asset_shares) {
            Ok(()) => {},
            Err(e) => {
                banks[asset_bank_index] = snap_a_bank;
                banks[liab_bank_index] = snap_l_bank;
                *liquidator = snap_or;
                proof {
                    assert(banks@ =~= old(banks)@);
                }
                return Err(e);
            },
        }
        let rest = Fx { bits: liq_amount.bits - hold.bits };
        let bs = match l_bank.take_on_liability(rest) {
            Ok(s) => s,
            Err(e) => {
                banks[asset_bank_index] = snap_a_bank;
                banks[liab_bank_index] = snap_l_bank;
                *liquidator = snap_or;
                proof {
                    assert(banks@ =~= old(banks)@);
                }
                return Err(e);
            },
        };
        let new_liabs = match or_lbal.liability_shares.checked_add(bs) {
            Some(v) => v,
            None => {
                banks[asset_bank_index] = snap_a_bank;
                banks[liab_bank_index] = snap_l_bank;
                *liquidator = snap_or;
                proof {
                    assert(banks@ =~= old(banks)@);
                }
                return Err(MarginfiError::MathError);
            },
        };
        or_lbal.asset_shares = Fx { bits: 0 };
        or_lbal.liability_shares = new_liabs;
    }
    // route the fee slice to the insurance vault
    match l_bank.transfer_liquidity_to_insurance(fee_amount) {
        Ok(()) => {},
        Err(e) => {
            banks[asset_bank_index] = snap_a_bank;
            banks[liab_bank_index] = snap_l_bank;
            *liquidator = snap_or;
            proof {
                assert(banks@ =~= old(banks)@);
            }
            return Err(e);
        },
    }
    // grant the liquidator the seized collateral
    let or_asset_slot = match liquidator.lending_account.find_or_create_balance(
        asset_bank_index,
        now,
    ) {
        Ok(s) => s,
        Err(e) => {
            banks[asset_bank_index] = snap_a_bank;
            banks[liab_bank_index] = snap_l_bank;
            *liquidator = snap_or;
            proof {
                assert(banks@ =~= old(banks)@);
            }
            return Err(e);
        },
    };
    let ghost or_mid2 = *liquidator;
    let mut or_abal = liquidator.lending_account.balances[or_asset_slot];
    let ghost or_abal0 = or_abal;
    let new_or_assets = match or_abal.asset_shares.checked_add(grant_shares) {
        Some(v) => v,
        None => {
            banks[asset_bank_index] = snap_a_bank;
            banks[liab_bank_index] = snap_l_bank;
            *liquidator = snap_or;
            proof {
                assert(banks@ =~= old(banks)@);
            }
            return Err(MarginfiError::MathError);
        },
    };
    or_abal.asset_shares = new_or_assets;
    // commit all staged state
    let ghost mid_ee1 = *liquidatee;
    liquidatee.lending_account.set_balance(ee_asset_slot, ee_abal);
    proof {
        lemma_account_wf_after_set(
            mid_ee1.lending_account,
            liquidatee.lending_account,
            ee_asset_slot as int,
            ee_abal,
            asset_bank_index,
        );
    }
    let ghost mid_ee2 = *liquidatee;
    liquidatee.lending_account.set_balance(ee_liab_slot, ee_lbal);
    proof {
        lemma_account_wf_after_set(
            mid_ee2.lending_account,
            liquidatee.lending_account,
            ee_liab_slot as int,
            ee_lbal,
            liab_bank_index,
        );
    }
    let ghost mid_or1 = *liquidator;
    liquidator.lending_account.set_balance(or_liab_slot, or_lbal);
    proof {
        lemma_account_wf_after_set(
            mid_or1.lending_account,
            liquidator.lending_account,
            or_liab_slot as int,
            or_lbal,
            liab_bank_index,
        );
    }
    let ghost mid_or2 = *liquidator;
    liquidator.lending_account.set_balance(or_asset_slot, or_abal);
    proof {
        lemma_account_wf_after_set(
            mid_or2.lending_account,
            liquidator.lending_account,
            or_asset_slot as int,
            or_abal,
            asset_bank_index,
        );
    }
    banks[asset_bank_index] = a_bank;
    banks[liab_bank_index] = l_bank;
    // severity: the target must be no healthier than break-even
    let (post_a, post_l) = match compute_health_components(
        &liquidatee.lending_account,
        banks,
        prices,
        RiskRequirementType::Maintenance,
    ) {
        Ok(v) => v,
        Err(e) => {
            banks[asset_bank_index] = snap_a_bank;
            banks[liab_bank_index] = snap_l_bank;
            *liquidator = snap_or;
            *liquidatee = snap_ee;
            proof {
                assert(banks@ =~= old(banks)@);
            }
            return Err(e);
        },
    };
    if post_a.bits > post_l.bits {
        banks[asset_bank_index] = snap_a_bank;
        banks[liab_bank_index] = snap_l_bank;
        *liquidator = snap_or;
        *liquidatee = snap_ee;
        proof {
            assert(banks@ =~= old(banks)@);
        }
        return Err(MarginfiError::IllegalLiquidation);
    }
    // the liquidator must meet initial requirements afterwards
    let healthy = match compute_health_components(
        &liquidator.lending_account,
        banks,
        prices,
        RiskRequirementType::Initial,
    ) {
        Ok((a, l)) => a.bits >= l.bits,
        Err(e) => {
            banks[asset_bank_index] = snap_a_bank;
            banks[liab_bank_index] = snap_l_bank;
            *liquidator = snap_or;
            *liquidatee = snap_ee;
            proof {
                assert(banks@ =~= old(banks)@);
            }
            return Err(e);
        },
    };
    if !healthy {
        banks[asset_bank_index] = snap_a_bank;
        banks[liab_bank_index] = snap_l_bank;
        *liquidator = snap_or;
        *liquidatee = snap_ee;
        proof {
            assert(banks@ =~= old(banks)@);
        }
        return Err(MarginfiError::RiskEngineInitRejected);
    }
    proof {
        crate::risk::lemma_health_components_nonneg(
            liquidator.lending_account.balances@,
            banks@,
            prices@,
            RiskRequirementType::Initial,
            MAX_BALANCES as int,
        );
        crate::risk::lemma_health_components_nonneg(
            liquidatee.lending_account.balances@,
            banks@,
            prices@,
            RiskRequirementType::Maintenance,
            MAX_BALANCES as int,
        );
        crate::risk::lemma_health_components_nonneg(
            old(liquidatee).lending_account.balances@,
            mid_banks,
            prices@,
            RiskRequirementType::Maintenance,
            MAX_BALANCES as int,
        );
        // the exact collateral and fee movement
        assert(deposit_shares_spec(a_acc, asset_amt) == crate::fixnum::div_down_spec(
            asset_amt.bits as int,
            a_acc.asset_share_value.bits as int,
        ));
        assert(banks@[asset_bank_index as int].total_asset_shares.bits
            == a_acc.total_asset_shares.bits - crate::bank::withdraw_shares_spec(a_acc, asset_amt)
            + deposit_shares_spec(a_acc, asset_amt));
        assert(banks@[liab_bank_index as int].insurance_vault_balance.bits
            == l_acc.insurance_vault_balance.bits + fee_amount.bits);
        assert(ee_asset_slot != ee_liab_slot);
        assert(liquidatee.lending_account.balances@[ee_asset_slot as int] == ee_abal);
        assert(liquidatee.lending_account.balances@[ee_asset_slot as int].asset_shares.bits
            == old(liquidatee).lending_account.balances@[ee_asset_slot as int].asset_shares.bits
            - crate::bank::withdraw_shares_spec(a_acc, asset_amt));
        assert(or_asset_slot != or_liab_slot);
        assert(liquidator.lending_account.balances@[or_asset_slot as int] == or_abal);
        if slot_matches(old(liquidator).lending_account.balances@, or_asset_slot as int, asset_bank_index) {
            assert(or_abal0 == start_balance(
                *old(liquidator),
                or_asset_slot as int,
                asset_bank_index,
                now,
            ));
        } else {
            assert(!slot_matches(
                or_mid1.lending_account.balances@,
                or_asset_slot as int,
                asset_bank_index,
            ));
            assert(or_mid2.lending_account.balances@[or_asset_slot as int] == fresh_balance(
                asset_bank_index,
                now,
            ));
            assert(or_abal0.asset_shares.bits == 0);
        }
        assert(exists|s: int|
            #![auto]
            0 <= s < MAX_BALANCES && slot_matches(
                old(liquidatee).lending_account.balances@,
                s,
                asset_bank_index,
            ) && liquidatee.lending_account.balances@[s].asset_shares.bits == old(
                liquidatee,
            ).lending_account.balances@[s].asset_shares.bits - crate::bank::withdraw_shares_spec(
                a_acc,
                asset_amt,
            )) by {
            assert(slot_matches(
                old(liquidatee).lending_account.balances@,
                ee_asset_slot as int,
                asset_bank_index,
            ) && liquidatee.lending_account.balances@[ee_asset_slot as int].asset_shares.bits
                == old(
                liquidatee,
            ).lending_account.balances@[ee_asset_slot as int].asset_shares.bits
                - crate::bank::withdraw_shares_spec(a_acc, asset_amt));
        }
        assert(exists|s: int|
            #![auto]
            0 <= s < MAX_BALANCES && slot_matches(
                liquidator.lending_account.balances@,
                s,
                asset_bank_index,
            ) && liquidator.lending_account.balances@[s].asset_shares.bits == start_balance(
                *old(liquidator),
                s,
                asset_bank_index,
                now,
            ).asset_shares.bits + deposit_shares_spec(a_acc, asset_amt)) by {
            assert(slot_matches(
                liquidator.lending_account.balances@,
                or_asset_slot as int,
                asset_bank_index,
            ) && liquidator.lending_account.balances@[or_asset_slot as int].asset_shares.bits
                == start_balance(
                *old(liquidator),
                or_asset_slot as int,
                asset_bank_index,
                now,
            ).asset_shares.bits + deposit_shares_spec(a_acc, asset_amt));
        }
        // the target's debt leg
        assert(slot_matches(
            old(liquidatee).lending_account.balances@,
            ee_liab_slot as int,
            liab_bank_index,
        ));
        assert(liquidatee.lending_account.balances@[ee_liab_slot as int] == ee_lbal);
        assert(ee_lbal0 == old(liquidatee).lending_account.balances@[ee_liab_slot as int]);
        // the liquidator's payment leg
        assert(liquidator.lending_account.balances@[or_liab_slot as int] == or_lbal);
        assert(slot_matches(
            liquidator.lending_account.balances@,
            or_liab_slot as int,
            liab_bank_index,
        ));
    }
    Ok(())
}

/// Prices one liquidation: the seized collateral's value at the asset
/// bank's low price bound, the debt the liquidator takes on (value less the
/// liquidator fee), the debt the target is relieved of (value less both
/// fees), and the insurance fee in between.
fn liquidation_amounts(
    a_bank: &Bank,
    l_bank: &Bank,
    asset_amount: u64,
    prices: &Vec<Option<OraclePriceSnapshot>>,
    asset_bank_index: usize,
    liab_bank_index: usize,
) -> (r: Result<(Fx, Fx, Fx, Fx), MarginfiError>)
    requires
        asset_bank_index < prices@.len(),
        liab_bank_index < prices@.len(),
    ensures
        r matches Ok((amt, liq, fin, fee)) ==> {
            &&& amt.bits == asset_amount * UNIT
            &&& liq.bits >= fin.bits
            &&& fee.bits == liq.bits - fin.bits
            &&& prices@[asset_bank_index as int] is Some
            &&& prices@[liab_bank_index as int] is Some
            &&& liq.bits == liquidation_take_amount(
                liquidation_seized_value(
                    prices@[asset_bank_index as int]->Some_0,
                    asset_amount,
                ),
                prices@[liab_bank_index as int]->Some_0,
            )
            &&& fin.bits == liquidation_relief_amount(
                liquidation_seized_value(
                    prices@[asset_bank_index as int]->Some_0,
                    asset_amount,
                ),
                prices@[liab_bank_index as int]->Some_0,
            )
        },
{
    let asset_amt = Fx::from_int(asset_amount);
    let a_price = match prices[asset_bank_index] {
        Some(p) => p,
        None => {
            return Err(MarginfiError::MissingPrice);
        },
    };
    let l_price = match prices[liab_bank_index] {
        Some(p) => p,
        None => {
            return Err(MarginfiError::MissingPrice);
        },
    };
    let asset_value = match asset_amt.mul_down(a_price.price_low()) {
        Some(v) => v,
        None => {
            return Err(MarginfiError::MathError);
        },
    };
    let liq_discount = Fx { bits: UNIT - LIQUIDATION_LIQUIDATOR_FEE_BITS };
    let fin_discount = Fx {
        bits: UNIT - LIQUIDATION_LIQUIDATOR_FEE_BITS - LIQUIDATION_INSURANCE_FEE_BITS,
    };
    let liq_value = match asset_value.mul_down(liq_discount) {
        Some(v) => v,
        None => {
            return Err(MarginfiError::MathError);
        },
    };
    let fin_value = match asset_value.mul_down(fin_discount) {
        Some(v) => v,
        None => {
            return Err(MarginfiError::MathError);
        },
    };
    let lp_high = match l_price.price_high() {
        Ok(v) => v,
        Err(e) => {
            return Err(e);
        },
    };
    if lp_high.bits == 0 {
        return Err(MarginfiError::MathError);
    }
    let liq_amount = match liq_value.div_down(lp_high) {
        Some(v) => v,
        None => {
            return Err(MarginfiError::MathError);
        },
    };
    let fin_amount = match fin_value.div_down(lp_high) {
        Some(v) => v,
        None => {
            return Err(MarginfiError::MathError);
        },
    };
    proof {
        // the target's relief never exceeds what the liquidator pays
        crate::fixnum::lemma_mul_down_bound(asset_value.bits as int, fin_discount.bits as int);
        crate::fixnum::lemma_mul_down_bound(asset_value.bits as int, liq_discount.bits as int);
        vstd::arithmetic::mul::lemma_mul_inequality(
            fin_discount.bits as int,
            liq_discount.bits as int,
            asset_value.bits as int,
        );
        assert(asset_value.bits as int * fin_discount.bits as int == fin_discount.bits as int
            * asset_value.bits as int && asset_value.bits as int * liq_discount.bits as int
            == liq_discount.bits as int * asset_value.bits as int) by (nonlinear_arith);
        lemma_div_is_ordered(
            fin_value.bits as int * UNIT as int,
            liq_value.bits as int * UNIT as int,
            lp_high.bits as int,
        );
        lemma_div_is_ordered(
            fin_value.bits as int,
            liq_value.bits as int,
            UNIT as int,
        );
        vstd::arithmetic::mul::lemma_mul_inequality(
            fin_value.bits as int,
            liq_value.bits as int,
            UNIT as int,
        );
    }
    let fee_amount = Fx { bits: liq_amount.bits - fin_amount.bits };
    Ok((asset_amt, liq_amount, fin_amount, fee_amount))
}

/// The unweighted net-worth components of an account.
pub open spec fn equity_health(
    acc: MarginfiAccount,
    banks: Seq<Bank>,
    prices: Seq<Option<OraclePriceSnapshot>>,
) -> Option<(int, int)> {
    health_components_spec(
        acc.lending_account.balances@,
        banks,
        prices,
        RiskRequirementType::Equity,
        MAX_BALANCES as int,
    )
}

/// Whether an account qualifies for bankruptcy handling: its remaining
/// assets are worth less than the bankruptcy threshold while it still owes
/// a non-dust debt.
pub open spec fn account_bankrupt(
    acc: MarginfiAccount,
    banks: Seq<Bank>,
    prices: Seq<Option<OraclePriceSnapshot>>,
) -> bool {
    match equity_health(acc, banks, prices) {
        Option::Some((a, l)) => a < crate::account::BANKRUPT_THRESHOLD_BITS && l
            >= crate::account::ZERO_AMOUNT_THRESHOLD_BITS,
        Option::None => false,
    }
}

/// The bank bankruptcy handling leaves behind: the insurance vault covers
/// what it can of the debt's ceiling value, the covered tokens move into
/// the liquidity vault, the remainder is socialized by cutting the asset
/// share value (rounded up), and the forgiven shares leave the debt total.
pub open spec fn bankruptcy_result_bank(ab: Bank, z: Fx) -> Bank {
    let bad = shares_liability_value_spec(ab, z);
    let covered = if bad <= ab.insurance_vault_balance.bits {
        bad
    } else {
        ab.insurance_vault_balance.bits as int
    };
    let soc = bad - covered;
    Bank {
        insurance_vault_balance: Fx { bits: (ab.insurance_vault_balance.bits - covered) as u128 },
        liquidity_vault_balance: Fx { bits: (ab.liquidity_vault_balance.bits + covered) as u128 },
        asset_share_value: if soc > 0 {
            Fx {
                bits: (ab.asset_share_value.bits - crate::fixnum::div_up_spec(
                    soc,
                    ab.total_asset_shares.bits as int,
                )) as u128,
            }
        } else {
            ab.asset_share_value
        },
        total_liability_shares: Fx { bits: (ab.total_liability_shares.bits - z.bits) as u128 },
        ..ab
    }
}

/// The account's net worth is measurable and disqualifies it from
/// bankruptcy handling: assets above the threshold or no non-dust debt.
pub open spec fn account_not_bankrupt(
    acc: MarginfiAccount,
    banks: Seq<Bank>,
    prices: Seq<Option<OraclePriceSnapshot>>,
) -> bool {
    match equity_health(acc, banks, prices) {
        Option::Some((a, l)) => !(a < crate::account::BANKRUPT_THRESHOLD_BITS && l
            >= crate::account::ZERO_AMOUNT_THRESHOLD_BITS),
        Option::None => false,
    }
}

/// Every step of this bankruptcy resolution fits: accrual cannot fail, the
/// account qualifies, it owes a non-dust debt in the bank, and the
/// insurance draw, socialized cut and share forgiveness stay in range.
pub open spec fn bankruptcy_prepared(
    pre_banks: Seq<Bank>,
    bank_index: usize,
    pre_acc: MarginfiAccount,
    prices: Seq<Option<OraclePriceSnapshot>>,
    now: u64,
) -> bool {
    let ab = accrued_bank(pre_banks[bank_index as int], now);
    &&& accrual_ok(pre_banks[bank_index as int], now)
    &&& account_bankrupt(pre_acc, pre_banks.update(bank_index as int, ab), prices)
    &&& exists|i: int|
        0 <= i < MAX_BALANCES && #[trigger] slot_matches(
            pre_acc.lending_account.balances@,
            i,
            bank_index,
        )
    &&& forall|i: int|
        0 <= i < MAX_BALANCES && #[trigger] slot_matches(
            pre_acc.lending_account.balances@,
            i,
            bank_index,
        ) ==> {
            let z = pre_acc.lending_account.balances@[i].liability_shares;
            let bad = shares_liability_value_spec(ab, z);
            let covered = if bad <= ab.insurance_vault_balance.bits {
                bad
            } else {
                ab.insurance_vault_balance.bits as int
            };
            &&& z.bits >= EMPTY_BALANCE_THRESHOLD_BITS
            &&& bad <= u128::MAX as int
            &&& ab.liquidity_vault_balance.bits + covered <= u128::MAX as int
            &&& (bad - covered > 0 ==> ab.total_asset_shares.bits > 0
                && crate::fixnum::div_up_spec(bad - covered, ab.total_asset_shares.bits as int)
                < ab.asset_share_value.bits)
            &&& z.bits <= ab.total_liability_shares.bits
        }
}

/// Settles the unpayable debt a bankrupt account owes one bank: the
/// insurance vault covers what it can, any rest is socialized across the
/// bank's depositors by lowering the asset share value, and the account's
/// debt in the bank is erased.  This is the terminal step that keeps the
/// pool's claims covered.  On any failure nothing changes.
pub fn lending_pool_handle_bankruptcy(
    banks: &mut Vec<Bank>,
    bank_index: usize,
    account: &mut MarginfiAccount,
    prices: &Vec<Option<OraclePriceSnapshot>>,
    now: u64,
) -> (r: Result<(), MarginfiError>)
    requires
        old(account).wf(),
        bank_index < old(banks)@.len(),
        old(banks)@[bank_index as int].wf(),
        balances_in_range(old(account).lending_account.balances@, old(banks)@.len() as int),
        prices@.len() == old(banks)@.len(),
    ensures
        final(account).wf(),
        untouched_banks(old(banks)@, final(banks)@, bank_index as int),
        final(banks)@[bank_index as int].wf(),
        r is Err ==> final(banks)@ == old(banks)@ && same_account(*final(account), *old(account)),
        old(banks)@[bank_index as int].solvent() ==> final(banks)@[bank_index as int].solvent(),
        r is Ok ==> account_bankrupt(
            *old(account),
            old(banks)@.update(
                bank_index as int,
                accrued_bank(old(banks)@[bank_index as int], now),
            ),
            prices@,
        ),
        r is Ok ==> exists|s: int|
            #![auto]
            0 <= s < MAX_BALANCES && slot_matches(old(account).lending_account.balances@, s, bank_index)
                && final(account).lending_account.balances@ == old(
                account,
            ).lending_account.balances@.update(
                s,
                (Balance {
                    liability_shares: Fx { bits: 0 },
                    ..old(account).lending_account.balances@[s]
                }),
            ) && final(banks)@[bank_index as int] == bankruptcy_result_bank(
                accrued_bank(old(banks)@[bank_index as int], now),
                old(account).lending_account.balances@[s].liability_shares,
            ),
        bankruptcy_prepared(old(banks)@, bank_index, *old(account), prices@, now) ==> (r is Ok),
        (accrual_ok(old(banks)@[bank_index as int], now) && account_not_bankrupt(
            *old(account),
            old(banks)@.update(
                bank_index as int,
                accrued_bank(old(banks)@[bank_index as int], now),
            ),
            prices@,
        )) ==> r == Err::<(), MarginfiError>(MarginfiError::AccountNotBankrupt),
        final(account).authority == old(account).authority,
        final(account).account_flags == old(account).account_flags,
{
    let snap_bank = banks[bank_index];
    let mut bank = banks[bank_index];
    match bank.accrue_interest(now) {
        Ok(()) => {},
        Err(e) => {
            return Err(e);
        },
    }
    let ghost b_acc = bank;
    proof {
        assert(b_acc == accrued_bank(old(banks)@[bank_index as int], now));
    }
    banks[bank_index] = bank;
    proof {
        assert(banks@ =~= old(banks)@.update(
            bank_index as int,
            accrued_bank(old(banks)@[bank_index as int], now),
        ));
    }
    let (eq_a, eq_l) = match compute_health_components(
        &account.lending_account,
        banks,
        prices,
        RiskRequirementType::Equity,
    ) {
        Ok(v) => v,
        Err(e) => {
            proof {
                if crate::risk::missing_price_spec(account.lending_account.balances@, prices@) {
                    crate::risk::lemma_missing_price_none(
                        account.lending_account.balances@,
                        banks@,
                        prices@,
                        RiskRequirementType::Equity,
                    );
                }
            }
            banks[bank_index] = snap_bank;
            proof {
                assert(banks@ =~= old(banks)@);
            }
            return Err(e);
        },
    };
    proof {
        crate::risk::lemma_health_components_nonneg(
            account.lending_account.balances@,
            banks@,
            prices@,
            RiskRequirementType::Equity,
            MAX_BALANCES as int,
        );
    }
    if !(eq_a.bits < crate::account::BANKRUPT_THRESHOLD_BITS && eq_l.bits
        >= crate::account::ZERO_AMOUNT_THRESHOLD_BITS) {
        banks[bank_index] = snap_bank;
        proof {
            assert(banks@ =~= old(banks)@);
        }
        return Err(MarginfiError::AccountNotBankrupt);
    }
    let slot = match account.lending_account.find_balance(bank_index) {
        Some(s) => s,
        None => {
            banks[bank_index] = snap_bank;
            proof {
                assert(banks@ =~= old(banks)@);
            }
            return Err(MarginfiError::BankAccountNotFound);
        },
    };
    let mut bal = account.lending_account.balances[slot];
    let ghost bal0 = bal;
    proof {
        assert(slot_matches(old(account).lending_account.balances@, slot as int, bank_index));
    }
    if bal.liability_shares.bits < EMPTY_BALANCE_THRESHOLD_BITS {
        banks[bank_index] = snap_bank;
        proof {
            assert(banks@ =~= old(banks)@);
        }
        return Err(MarginfiError::NoLiabilityFound);
    }
    let bad_debt = match bank.get_liability_amount(bal.liability_shares) {
        Ok(v) => v,
        Err(e) => {
            banks[bank_index] = snap_bank;
            proof {
                assert(banks@ =~= old(banks)@);
            }
            return Err(e);
        },
    };
    let covered = bad_debt.min_of(bank.insurance_vault_balance);
    match bank.payout_insurance_to_liquidity(covered) {
        Ok(()) => {},
        Err(e) => {
            banks[bank_index] = snap_bank;
            proof {
                assert(banks@ =~= old(banks)@);
            }
            return Err(e);
        },
    }
    let ghost b1 = bank;
    let socialized = Fx { bits: bad_debt.bits - covered.bits };
    match bank.socialize_loss(socialized) {
        Ok(()) => {},
        Err(e) => {
            banks[bank_index] = snap_bank;
            proof {
                assert(banks@ =~= old(banks)@);
            }
            return Err(e);
        },
    }
    let ghost b2 = bank;
    match bank.forgive_liability_shares(bal.liability_shares) {
        Ok(()) => {},
        Err(e) => {
            banks[bank_index] = snap_bank;
            proof {
                assert(banks@ =~= old(banks)@);
            }
            return Err(e);
        },
    }
    proof {
        // the debt's ceiling value covers the exact scaled debt, so the
        // insurance payout plus the socialized cut covers what forgiving
        // the shares removes from the pool's backing
        crate::fixnum::lemma_mul_up_bound(
            bal.liability_shares.bits as int,
            b_acc.liability_share_value.bits as int,
        );
        let u = UNIT as int;
        assert(bad_debt.bits * u >= bal.liability_shares.bits
            * b_acc.liability_share_value.bits);
        if old(banks)@[bank_index as int].solvent() {
            assert(b_acc.claims() <= b_acc.backing());
            assert(b1.claims() == b_acc.claims());
            assert(b1.backing() == b_acc.backing() + covered.bits * u);
            assert(b2.claims() <= b1.claims() - socialized.bits * u);
            assert(b2.backing() == b1.backing());
            assert(bank.claims() == b2.claims());
            assert(bank.backing() == b2.backing() - bal.liability_shares.bits
                * b2.liability_share_value.bits);
            assert(b2.liability_share_value == b_acc.liability_share_value);
            assert(bank.claims() <= bank.backing());
        }
    }
    bal.liability_shares = Fx { bits: 0 };
    let ghost mid = *account;
    account.lending_account.set_balance(slot, bal);
    proof {
        lemma_account_wf_after_set(
            mid.lending_account,
            account.lending_account,
            slot as int,
            bal,
            bank_index,
        );
        assert(account.lending_account.balances@ =~= old(
            account,
        ).lending_account.balances@.update(slot as int, bal));
    }
    banks[bank_index] = bank;
    proof {
        assert(banks@[bank_index as int] == bankruptcy_result_bank(b_acc, bal0.liability_shares));
    }
    Ok(())
}

/// One instruction of the host's atomic batch, as the flashloan bracket
/// check needs to see it: whether it ends a flashloan, and for which
/// account.
#[derive(Clone, Copy, PartialEq, Eq, Structural, Debug)]
pub struct BatchInstruction {
    pub is_end_flashloan: bool,
    pub account_id: u64,
}

/// Whether a flashloan bracket may open: a matching end instruction for the
/// same account stands strictly later in the batch, and the account is
/// neither disabled nor already inside a bracket.
pub open spec fn flashloan_start_ok(
    acc: MarginfiAccount,
    account_id: u64,
    batch: Seq<BatchInstruction>,
    current_index: usize,
    end_index: usize,
) -> bool {
    &&& !has_flag_spec(acc.account_flags, DISABLED_FLAG)
    &&& !has_flag_spec(acc.account_flags, IN_FLASHLOAN_FLAG)
    &&& current_index < end_index
    &&& (end_index as int) < batch.len()
    &&& batch[end_index as int].is_end_flashloan
    &&& batch[end_index as int].account_id == account_id
}

/// Opens a flashloan bracket: marks the account in-flashloan after checking
/// that a matching end instruction for this very account appears later in
/// the same atomic batch.  While the mark is set, borrows and withdrawals
/// skip their per-instruction health check.
pub fn lending_account_start_flashloan(
    account: &mut MarginfiAccount,
    account_id: u64,
    batch: &Vec<BatchInstruction>,
    current_index: usize,
    end_index: usize,
) -> (r: Result<(), MarginfiError>)
    ensures
        flashloan_start_ok(*old(account), account_id, batch@, current_index, end_index) ==> r
            == Ok::<(), MarginfiError>(()) && final(account).account_flags == (
        old(account).account_flags | IN_FLASHLOAN_FLAG) && final(account).authority == old(
            account,
        ).authority && final(account).lending_account == old(account).lending_account,
        has_flag_spec(old(account).account_flags, DISABLED_FLAG) ==> r == Err::<
            (),
            MarginfiError,
        >(MarginfiError::AccountDisabled) && *final(account) == *old(account),
        !has_flag_spec(old(account).account_flags, DISABLED_FLAG) && !flashloan_start_ok(
            *old(account),
            account_id,
            batch@,
            current_index,
            end_index,
        ) ==> r == Err::<(), MarginfiError>(MarginfiError::IllegalFlashloan) && *final(account)
            == *old(account),
{
    if account.get_flag(DISABLED_FLAG) {
        return Err(MarginfiError::AccountDisabled);
    }
    if account.get_flag(IN_FLASHLOAN_FLAG) {
        return Err(MarginfiError::IllegalFlashloan);
    }
    if !(current_index < end_index && end_index < batch.len()) {
        return Err(MarginfiError::IllegalFlashloan);
    }
    let end_ix = &batch[end_index];
    if !(end_ix.is_end_flashloan && end_ix.account_id == account_id) {
        return Err(MarginfiError::IllegalFlashloan);
    }
    account.account_flags = account.account_flags | IN_FLASHLOAN_FLAG;
    Ok(())
}

/// Closes a flashloan bracket: performs the one deferred
/// initial-requirement health check against the account's final state and
/// clears the in-flashloan mark.  An unhealthy final state fails the whole
/// bracket and leaves the account unchanged.
pub fn lending_account_end_flashloan(
    banks: &Vec<Bank>,
    account: &mut MarginfiAccount,
    prices: &Vec<Option<OraclePriceSnapshot>>,
) -> (r: Result<(), MarginfiError>)
    requires
        old(account).wf(),
        balances_in_range(old(account).lending_account.balances@, banks@.len() as int),
        prices@.len() == banks@.len(),
    ensures
        r is Err ==> *final(account) == *old(account),
        !has_flag_spec(old(account).account_flags, IN_FLASHLOAN_FLAG) ==> r == Err::<
            (),
            MarginfiError,
        >(MarginfiError::IllegalFlashloan),
        has_flag_spec(old(account).account_flags, IN_FLASHLOAN_FLAG) ==> ((r is Ok)
            <==> initial_health_ok(*old(account), banks@, prices@)),
        r is Ok ==> final(account).account_flags == (old(account).account_flags
            & !IN_FLASHLOAN_FLAG) && final(account).authority == old(account).authority
            && final(account).lending_account == old(account).lending_account,
{
    if !account.get_flag(IN_FLASHLOAN_FLAG) {
        return Err(MarginfiError::IllegalFlashloan);
    }
    let healthy = match compute_health_components(
        &account.lending_account,
        banks,
        prices,
        RiskRequirementType::Initial,
    ) {
        Ok((a, l)) => a.bits >= l.bits,
        Err(e) => {
            proof {
                if crate::risk::missing_price_spec(account.lending_account.balances@, prices@) {
                    crate::risk::lemma_missing_price_none(
                        account.lending_account.balances@,
                        banks@,
                        prices@,
                        RiskRequirementType::Initial,
                    );
                }
            }
            return Err(e);
        },
    };
    proof {
        crate::risk::lemma_health_components_nonneg(
            account.lending_account.balances@,
            banks@,
            prices@,
            RiskRequirementType::Initial,
            MAX_BALANCES as int,
        );
    }
    if !healthy {
        return Err(MarginfiError::RiskEngineInitRejected);
    }
    account.account_flags = account.account_flags & !IN_FLASHLOAN_FLAG;
    Ok(())
}

} // verus!
