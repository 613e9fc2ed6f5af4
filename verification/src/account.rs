//! One participant's position: a fixed-size set of per-bank balances, a
//! flag word, and the authority that may act on it.
//!
//! A balance slot is reused rather than reallocated: it is activated lazily
//! on the first deposit or borrow into its bank and deactivated when the
//! position in that bank is closed.  At most one active balance may carry a
//! liability in an isolated-tier bank, and then no other liability at all.

use crate::bank::{Bank, RiskTier};
use crate::errors::MarginfiError;
use crate::fixnum::Fx;
use vstd::prelude::*;

verus! {

/// The account is frozen; nothing may act on it.
pub const DISABLED_FLAG: u64 = 1;

/// Set between a flashloan start and its end; never user-settable.
pub const IN_FLASHLOAN_FLAG: u64 = 2;

/// Legacy opt-in to flashloans; user-settable.
pub const FLASHLOAN_ENABLED_FLAG: u64 = 4;

/// Permits transferring the account authority; user-settable.
pub const TRANSFER_AUTHORITY_ALLOWED_FLAG: u64 = 8;

/// Number of balance slots every account carries.
pub const MAX_BALANCES: usize = 16;

/// Raw bits of one ten-thousandth of a token: shares below this are dust
/// and the balance side counts as empty.
pub const EMPTY_BALANCE_THRESHOLD_BITS: u128 = 28_147_497_671;

/// Raw bits of one ten-thousandth of a token: amounts below this are
/// treated as zero.
pub const ZERO_AMOUNT_THRESHOLD_BITS: u128 = 28_147_497_671;

/// An account whose total assets are worth less than this is bankrupt if
/// it still owes anything.
pub const BANKRUPT_THRESHOLD_BITS: u128 = 28_147_497_671;

/// One account's stake in one bank.
#[derive(Clone, Copy, PartialEq, Eq, Structural, Debug)]
pub struct Balance {
    /// Whether the slot is in use.
    pub active: bool,
    /// Which bank the shares belong to: an index into the host's bank list.
    pub bank_index: usize,
    /// Deposit shares held.
    pub asset_shares: Fx,
    /// Debt shares owed.
    pub liability_shares: Fx,
    /// Emission rewards earned but not yet claimed.
    pub emissions_outstanding: Fx,
    /// When the balance last changed.
    pub last_update: u64,
}

impl Balance {
    /// An unused slot.
    pub fn inactive() -> (r: Balance)
        ensures
            r == inactive_balance(),
    {
        Balance {
            active: false,
            bank_index: 0,
            asset_shares: Fx::zero(),
            liability_shares: Fx::zero(),
            emissions_outstanding: Fx::zero(),
            last_update: 0,
        }
    }

    /// A freshly activated slot for the given bank.
    pub fn fresh(bank_index: usize, now: u64) -> (r: Balance)
        ensures
            r == fresh_balance(bank_index, now),
    {
        Balance {
            active: true,
            bank_index,
            asset_shares: Fx::zero(),
            liability_shares: Fx::zero(),
            emissions_outstanding: Fx::zero(),
            last_update: now,
        }
    }

    /// The asset side counts as empty below the dust threshold.
    pub fn is_empty_assets(&self) -> (r: bool)
        ensures
            r == (self.asset_shares.bits < EMPTY_BALANCE_THRESHOLD_BITS),
    {
        self.asset_shares.bits < EMPTY_BALANCE_THRESHOLD_BITS
    }

    /// The liability side counts as empty below the dust threshold.
    pub fn is_empty_liabilities(&self) -> (r: bool)
        ensures
            r == (self.liability_shares.bits < EMPTY_BALANCE_THRESHOLD_BITS),
    {
        self.liability_shares.bits < EMPTY_BALANCE_THRESHOLD_BITS
    }
}

/// The balance an unused slot holds.
pub open spec fn inactive_balance() -> Balance {
    Balance {
        active: false,
        bank_index: 0,
        asset_shares: Fx { bits: 0 },
        liability_shares: Fx { bits: 0 },
        emissions_outstanding: Fx { bits: 0 },
        last_update: 0,
    }
}

/// The balance a freshly activated slot holds.
pub open spec fn fresh_balance(bank_index: usize, now: u64) -> Balance {
    Balance {
        active: true,
        bank_index,
        asset_shares: Fx { bits: 0 },
        liability_shares: Fx { bits: 0 },
        emissions_outstanding: Fx { bits: 0 },
        last_update: now,
    }
}

/// Whether slot `i` is an active balance for `bank_index`.
pub open spec fn slot_matches(balances: Seq<Balance>, i: int, bank_index: usize) -> bool {
    balances[i].active && balances[i].bank_index == bank_index
}

/// The set of per-bank balances of one account.
#[derive(Clone, PartialEq, Eq, Debug)]
pub struct LendingAccount {
    pub balances: Vec<Balance>,
}

impl LendingAccount {
    /// Structural soundness: the fixed number of slots, and no bank held in
    /// two active slots at once.
    pub open spec fn wf(self) -> bool {
        &&& self.balances@.len() == MAX_BALANCES
        &&& forall|i: int, j: int|
            0 <= i < MAX_BALANCES && 0 <= j < MAX_BALANCES && i != j && self.balances@[i].active
                && self.balances@[j].active ==> self.balances@[i].bank_index
                != self.balances@[j].bank_index
    }

    /// An account with every slot unused.
    pub fn new() -> (r: LendingAccount)
        ensures
            r.wf(),
            forall|i: int| 0 <= i < MAX_BALANCES ==> r.balances@[i] == inactive_balance(),
    {
        let mut balances: Vec<Balance> = Vec::new();
        let mut k: usize = 0;
        while k < MAX_BALANCES
            invariant
                k <= MAX_BALANCES,
                balances@.len() == k,
                forall|i: int| 0 <= i < k ==> balances@[i] == inactive_balance(),
            decreases MAX_BALANCES - k,
        {
            balances.push(Balance::inactive());
            k = k + 1;
        }
        LendingAccount { balances }
    }

    /// The slot holding the active balance for `bank_index`, if any.
    pub fn find_balance(&self, bank_index: usize) -> (r: Option<usize>)
        requires
            self.wf(),
        ensures
            match r {
                Some(i) => i < MAX_BALANCES && slot_matches(self.balances@, i as int, bank_index),
                None => forall|i: int|
                    0 <= i < MAX_BALANCES ==> !slot_matches(self.balances@, i, bank_index),
            },
    {
        let mut k: usize = 0;
        while k < MAX_BALANCES
            invariant
                self.wf(),
                k <= MAX_BALANCES,
                forall|i: int| 0 <= i < k ==> !slot_matches(self.balances@, i, bank_index),
            decreases MAX_BALANCES - k,
        {
            let b = &self.balances[k];
            if b.active && b.bank_index == bank_index {
                return Some(k);
            }
            k = k + 1;
        }
        None
    }

    /// The slot holding the active balance for `bank_index`, activating a
    /// free slot when none exists.  Fails only when every slot is in use
    /// for another bank, and then changes nothing.
    pub fn find_or_create_balance(&mut self, bank_index: usize, now: u64) -> (r: Result<
        usize,
        MarginfiError,
    >)
        requires
            old(self).wf(),
        ensures
            final(self).wf(),
            r is Err ==> r == Err::<usize, MarginfiError>(
                MarginfiError::LendingAccountBalanceSlotsFull,
            ) && *final(self) == *old(self),
            r matches Ok(i) ==> i < MAX_BALANCES && slot_matches(
                final(self).balances@,
                i as int,
                bank_index,
            ) && (final(self).balances@ == old(self).balances@ || final(self).balances@ == old(
                self,
            ).balances@.update(i as int, fresh_balance(bank_index, now))),
            r matches Ok(i) ==> (slot_matches(old(self).balances@, i as int, bank_index)
                ==> *final(self) == *old(self)),
            r matches Ok(i) ==> (slot_matches(old(self).balances@, i as int, bank_index) || !old(
                self,
            ).balances@[i as int].active),
            r matches Ok(i) ==> (!slot_matches(old(self).balances@, i as int, bank_index)
                ==> (forall|j: int|
                0 <= j < MAX_BALANCES ==> !slot_matches(old(self).balances@, j, bank_index))),
            ((exists|i: int|
                0 <= i < MAX_BALANCES && slot_matches(old(self).balances@, i, bank_index)) || (
            exists|i: int| 0 <= i < MAX_BALANCES && !(#[trigger] old(self).balances@[i].active)))
                ==> (r is Ok),
    {
        match self.find_balance(bank_index) {
            Some(i) => Ok(i),
            None => {
                let mut k: usize = 0;
                while k < MAX_BALANCES
                    invariant
                        *self == *old(self),
                        self.wf(),
                        k <= MAX_BALANCES,
                        forall|i: int| 0 <= i < k ==> self.balances@[i].active,
                        forall|i: int|
                            0 <= i < MAX_BALANCES ==> !slot_matches(
                                self.balances@,
                                i,
                                bank_index,
                            ),
                    decreases MAX_BALANCES - k,
                {
                    if !self.balances[k].active {
                        self.balances[k] = Balance::fresh(bank_index, now);
                        proof {
                            assert forall|i: int, j: int|
                                0 <= i < MAX_BALANCES && 0 <= j < MAX_BALANCES && i != j
                                    && self.balances@[i].active
                                    && self.balances@[j].active implies self.balances@[i].bank_index
                                != self.balances@[j].bank_index by {
                                if i == k {
                                    assert(!slot_matches(old(self).balances@, j, bank_index));
                                } else if j == k {
                                    assert(!slot_matches(old(self).balances@, i, bank_index));
                                }
                            }
                        }
                        return Ok(k);
                    }
                    k = k + 1;
                }
                Err(MarginfiError::LendingAccountBalanceSlotsFull)
            },
        }
    }

    /// Overwrites one slot.
    pub fn set_balance(&mut self, i: usize, b: Balance)
        requires
            i < old(self).balances@.len(),
        ensures
            final(self).balances@ == old(self).balances@.update(i as int, b),
    {
        self.balances[i] = b;
    }

    /// Whether any active slot other than `except` carries a non-dust
    /// liability; `except` equal to `MAX_BALANCES` exempts no slot.
    pub fn has_other_liability(&self, except: usize) -> (r: bool)
        requires
            self.wf(),
        ensures
            r == exists|i: int|
                0 <= i < MAX_BALANCES && i != except && #[trigger] self.balances@[i].active
                    && self.balances@[i].liability_shares.bits >= EMPTY_BALANCE_THRESHOLD_BITS,
    {
        let mut k: usize = 0;
        while k < MAX_BALANCES
            invariant
                self.wf(),
                k <= MAX_BALANCES,
                forall|i: int|
                    0 <= i < k && i != except ==> !(#[trigger] self.balances@[i].active
                        && self.balances@[i].liability_shares.bits
                        >= EMPTY_BALANCE_THRESHOLD_BITS),
            decreases MAX_BALANCES - k,
        {
            let b = &self.balances[k];
            if k != except && b.active && b.liability_shares.bits >= EMPTY_BALANCE_THRESHOLD_BITS {
                return true;
            }
            k = k + 1;
        }
        false
    }
}

/// Whether some balance of the sequence, judged against the given banks,
/// carries a non-dust liability in an isolated-tier bank.
pub open spec fn has_isolated_liability_seq(balances: Seq<Balance>, banks: Seq<Bank>) -> bool {
    exists|i: int|
        0 <= i < balances.len() && #[trigger] balances[i].active
            && balances[i].liability_shares.bits >= EMPTY_BALANCE_THRESHOLD_BITS
            && balances[i].bank_index < banks.len() && banks[balances[i].bank_index as int].config.risk_tier
            == RiskTier::Isolated
}

/// Whether the account, judged against the given banks, carries a non-dust
/// liability in an isolated-tier bank.
pub open spec fn has_isolated_liability_spec(la: LendingAccount, banks: Seq<Bank>) -> bool {
    has_isolated_liability_seq(la.balances@, banks)
}

impl LendingAccount {
    /// Whether the account carries a non-dust liability in an isolated-tier
    /// bank.
    pub fn has_isolated_liability(&self, banks: &Vec<Bank>) -> (r: bool)
        requires
            self.wf(),
            forall|i: int|
                0 <= i < MAX_BALANCES && #[trigger] self.balances@[i].active
                    ==> self.balances@[i].bank_index < banks@.len(),
        ensures
            r == has_isolated_liability_spec(*self, banks@),
    {
        let mut k: usize = 0;
        while k < MAX_BALANCES
            invariant
                self.wf(),
                k <= MAX_BALANCES,
                forall|i: int|
                    0 <= i < MAX_BALANCES && #[trigger] self.balances@[i].active
                        ==> self.balances@[i].bank_index < banks@.len(),
                forall|i: int|
                    0 <= i < k ==> !(#[trigger] self.balances@[i].active
                        && self.balances@[i].liability_shares.bits >= EMPTY_BALANCE_THRESHOLD_BITS
                        && self.balances@[i].bank_index < banks@.len()
                        && banks@[self.balances@[i].bank_index as int].config.risk_tier
                        == RiskTier::Isolated),
            decreases MAX_BALANCES - k,
        {
            let b = &self.balances[k];
            if b.active && b.liability_shares.bits >= EMPTY_BALANCE_THRESHOLD_BITS {
                let bank = &banks[b.bank_index];
                if bank.config.risk_tier == RiskTier::Isolated {
                    return true;
                }
            }
            k = k + 1;
        }
        false
    }
}

/// Bank indexes of the active balances among the first `n` slots, in slot
/// order.
pub open spec fn active_bank_indexes_spec(balances: Seq<Balance>, n: int) -> Seq<usize>
    decreases n,
{
    if n <= 0 {
        Seq::empty()
    } else {
        active_bank_indexes_spec(balances, n - 1) + if balances[n - 1].active {
            seq![balances[n - 1].bank_index]
        } else {
            Seq::empty()
        }
    }
}

/// The base sequence with the first `n` extras appended, skipping ones
/// already present.
pub open spec fn with_missing_appended(base: Seq<usize>, extras: Seq<usize>, n: int) -> Seq<usize>
    decreases n,
{
    if n <= 0 {
        base
    } else {
        let prev = with_missing_appended(base, extras, n - 1);
        if prev.contains(extras[n - 1]) {
            prev
        } else {
            prev.push(extras[n - 1])
        }
    }
}

/// The first `n` entries of the base sequence, keeping only those not in
/// the excluded set.
pub open spec fn with_excluded_removed(base: Seq<usize>, excluded: Seq<usize>, n: int) -> Seq<
    usize,
>
    decreases n,
{
    if n <= 0 {
        Seq::empty()
    } else {
        with_excluded_removed(base, excluded, n - 1) + if excluded.contains(base[n - 1]) {
            Seq::empty()
        } else {
            seq![base[n - 1]]
        }
    }
}

/// Whether a vector holds the given value.
fn vec_contains(v: &Vec<usize>, x: usize) -> (r: bool)
    ensures
        r == v@.contains(x),
{
    let mut k: usize = 0;
    while k < v.len()
        invariant
            k <= v@.len(),
            forall|j: int| 0 <= j < k ==> v@[j] != x,
        decreases v@.len() - k,
    {
        if v[k] == x {
            return true;
        }
        k = k + 1;
    }
    false
}

impl LendingAccount {
    /// The banks an action must be handed observation data for: every bank
    /// with an active balance, in slot order, then the requested extras not
    /// already present, with the excluded banks dropped.
    pub fn observation_bank_indexes(&self, extras: &Vec<usize>, excluded: &Vec<usize>) -> (r: Vec<
        usize,
    >)
        requires
            self.wf(),
        ensures
            r@ == with_excluded_removed(
                with_missing_appended(
                    active_bank_indexes_spec(self.balances@, MAX_BALANCES as int),
                    extras@,
                    extras@.len() as int,
                ),
                excluded@,
                with_missing_appended(
                    active_bank_indexes_spec(self.balances@, MAX_BALANCES as int),
                    extras@,
                    extras@.len() as int,
                ).len() as int,
            ),
    {
        let mut ids: Vec<usize> = Vec::new();
        let mut k: usize = 0;
        while k < MAX_BALANCES
            invariant
                self.wf(),
                k <= MAX_BALANCES,
                ids@ == active_bank_indexes_spec(self.balances@, k as int),
            decreases MAX_BALANCES - k,
        {
            let b = &self.balances[k];
            if b.active {
                ids.push(b.bank_index);
            }
            proof {
                assert(ids@ =~= active_bank_indexes_spec(self.balances@, k as int + 1));
            }
            k = k + 1;
        }
        let mut k: usize = 0;
        while k < extras.len()
            invariant
                k <= extras@.len(),
                ids@ == with_missing_appended(
                    active_bank_indexes_spec(self.balances@, MAX_BALANCES as int),
                    extras@,
                    k as int,
                ),
            decreases extras@.len() - k,
        {
            if !vec_contains(&ids, extras[k]) {
                ids.push(extras[k]);
            }
            k = k + 1;
        }
        let mut out: Vec<usize> = Vec::new();
        let mut k: usize = 0;
        while k < ids.len()
            invariant
                k <= ids@.len(),
                out@ == with_excluded_removed(ids@, excluded@, k as int),
            decreases ids@.len() - k,
        {
            if !vec_contains(excluded, ids[k]) {
                out.push(ids[k]);
            }
            proof {
                assert(out@ =~= with_excluded_removed(ids@, excluded@, k as int + 1));
            }
            k = k + 1;
        }
        out
    }
}

/// One participant's account.
#[derive(Clone, PartialEq, Eq, Debug)]
pub struct MarginfiAccount {
    /// Who may act on the account.
    pub authority: u64,
    /// Flag word; see the flag constants.
    pub account_flags: u64,
    pub lending_account: LendingAccount,
}

/// Whether a flag word carries the given flag.
pub open spec fn has_flag_spec(flags: u64, flag: u64) -> bool {
    flags & flag == flag
}

impl MarginfiAccount {
    /// Structural soundness of the whole account.
    pub open spec fn wf(self) -> bool {
        self.lending_account.wf()
    }

    /// A fresh account with no flags and no balances.
    pub fn new(authority: u64) -> (r: MarginfiAccount)
        ensures
            r.wf(),
            r.authority == authority,
            r.account_flags == 0,
            forall|i: int|
                0 <= i < MAX_BALANCES ==> r.lending_account.balances@[i] == inactive_balance(),
    {
        MarginfiAccount { authority, account_flags: 0, lending_account: LendingAccount::new() }
    }

    /// Whether the account carries the given flag.
    pub fn get_flag(&self, flag: u64) -> (r: bool)
        ensures
            r == has_flag_spec(self.account_flags, flag),
    {
        self.account_flags & flag == flag
    }

    /// Sets a user-settable flag; the disabled and in-flashloan flags are
    /// not for users to set.
    pub fn set_flag(&mut self, flag: u64) -> (r: Result<(), MarginfiError>)
        ensures
            (flag == FLASHLOAN_ENABLED_FLAG || flag == TRANSFER_AUTHORITY_ALLOWED_FLAG) ==> r
                == Ok::<(), MarginfiError>(()) && final(self).account_flags == (
            old(self).account_flags | flag) && final(self).authority == old(self).authority
                && final(self).lending_account == old(self).lending_account,
            !(flag == FLASHLOAN_ENABLED_FLAG || flag == TRANSFER_AUTHORITY_ALLOWED_FLAG) ==> r
                == Err::<(), MarginfiError>(MarginfiError::IllegalFlag) && *final(self) == *old(
                self,
            ),
    {
        if flag == FLASHLOAN_ENABLED_FLAG || flag == TRANSFER_AUTHORITY_ALLOWED_FLAG {
            self.account_flags = self.account_flags | flag;
            Ok(())
        } else {
            Err(MarginfiError::IllegalFlag)
        }
    }

    /// Clears a user-settable flag; others are refused as on setting.
    pub fn unset_flag(&mut self, flag: u64) -> (r: Result<(), MarginfiError>)
        ensures
            (flag == FLASHLOAN_ENABLED_FLAG || flag == TRANSFER_AUTHORITY_ALLOWED_FLAG) ==> r
                == Ok::<(), MarginfiError>(()) && final(self).account_flags == (
            old(self).account_flags & !flag) && final(self).authority == old(self).authority
                && final(self).lending_account == old(self).lending_account,
            !(flag == FLASHLOAN_ENABLED_FLAG || flag == TRANSFER_AUTHORITY_ALLOWED_FLAG) ==> r
                == Err::<(), MarginfiError>(MarginfiError::IllegalFlag) && *final(self) == *old(
                self,
            ),
    {
        if flag == FLASHLOAN_ENABLED_FLAG || flag == TRANSFER_AUTHORITY_ALLOWED_FLAG {
            self.account_flags = self.account_flags & !flag;
            Ok(())
        } else {
            Err(MarginfiError::IllegalFlag)
        }
    }

    /// Hands the account to a new authority; allowed only once the
    /// transfer-authority flag is set.
    pub fn transfer_authority(&mut self, new_authority: u64) -> (r: Result<(), MarginfiError>)
        ensures
            has_flag_spec(old(self).account_flags, TRANSFER_AUTHORITY_ALLOWED_FLAG) ==> r == Ok::<
                (),
                MarginfiError,
            >(()) && final(self).authority == new_authority && final(self).account_flags == old(
                self,
            ).account_flags && final(self).lending_account == old(self).lending_account,
            !has_flag_spec(old(self).account_flags, TRANSFER_AUTHORITY_ALLOWED_FLAG) ==> r == Err::<
                (),
                MarginfiError,
            >(MarginfiError::IllegalAccountAuthorityTransfer) && *final(self) == *old(self),
    {
        if self.account_flags & TRANSFER_AUTHORITY_ALLOWED_FLAG == TRANSFER_AUTHORITY_ALLOWED_FLAG {
            self.authority = new_authority;
            Ok(())
        } else {
            Err(MarginfiError::IllegalAccountAuthorityTransfer)
        }
    }
}

} // verus!
