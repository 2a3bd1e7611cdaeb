//! One account per client: spendable funds, funds held pending dispute
//! resolution, the set of transaction ids currently under dispute, and a
//! permanent freeze flag set by a chargeback.
use vstd::prelude::*;

use std::collections::HashSet;

use crate::events::ProcessEvent;

verus! {

broadcast use vstd::std_specs::hash::group_hash_axioms;

/// Mathematical model of an [`Account`]: the two balances, the set of
/// disputed transaction ids, and the freeze flag.
#[verifier::ext_equal]
pub struct AccountV {
    pub available: u128,
    pub held: u128,
    pub disputes: Set<u32>,
    pub frozen: bool,
}

impl AccountV {
    /// The state a freshly created account starts in.
    pub open spec fn initial() -> AccountV {
        AccountV { available: 0, held: 0, disputes: Set::empty(), frozen: false }
    }
}

pub struct Account {
    pub available: u128,
    pub held: u128,
    pub disputes: HashSet<u32>,
    pub frozen: bool,
}

impl View for Account {
    type V = AccountV;

    open spec fn view(&self) -> AccountV {
        AccountV {
            available: self.available,
            held: self.held,
            disputes: self.disputes@,
            frozen: self.frozen,
        }
    }
}

impl Account {
    /// A new account: zero balances, no disputes, not frozen.
    pub fn new() -> (r: Account)
        ensures
            r@ == AccountV::initial(),
    {
        let a = Account { available: 0, held: 0, disputes: HashSet::new(), frozen: false };
        proof {
            assert(a@ =~= AccountV::initial());
        }
        a
    }

    /// Credit the available balance, detecting overflow. On overflow the
    /// account is unchanged.
    pub fn add_available(&mut self, amount: u128) -> (r: Result<(), ProcessEvent>)
        ensures
            old(self).available + amount <= u128::MAX ==> r is Ok && final(self)@ == (AccountV {
                available: (old(self).available + amount) as u128,
                ..old(self)@
            }),
            old(self).available + amount > u128::MAX ==> r == Err::<(), _>(
                ProcessEvent::AmountOverflow,
            ) && final(self)@ == old(self)@,
    {
        if let Some(new_balance) = self.available.checked_add(amount) {
            self.available = new_balance;
            Ok(())
        } else {
            Err(ProcessEvent::AmountOverflow)
        }
    }

    /// Debit the available balance, detecting underflow. On insufficient
    /// funds the account is unchanged.
    pub fn sub_available(&mut self, amount: u128) -> (r: Result<(), ProcessEvent>)
        ensures
            amount <= old(self).available ==> r is Ok && final(self)@ == (AccountV {
                available: (old(self).available - amount) as u128,
                ..old(self)@
            }),
            amount > old(self).available ==> r == Err::<(), _>(ProcessEvent::InsufficientFunds)
                && final(self)@ == old(self)@,
    {
        if let Some(new_balance) = self.available.checked_sub(amount) {
            self.available = new_balance;
            Ok(())
        } else {
            Err(ProcessEvent::InsufficientFunds)
        }
    }

    /// Credit the held balance, detecting overflow. On overflow the account
    /// is unchanged.
    pub fn add_held(&mut self, amount: u128) -> (r: Result<(), ProcessEvent>)
        ensures
            old(self).held + amount <= u128::MAX ==> r is Ok && final(self)@ == (AccountV {
                held: (old(self).held + amount) as u128,
                ..old(self)@
            }),
            old(self).held + amount > u128::MAX ==> r == Err::<(), _>(
                ProcessEvent::AmountOverflow,
            ) && final(self)@ == old(self)@,
    {
        if let Some(new_balance) = self.held.checked_add(amount) {
            self.held = new_balance;
            Ok(())
        } else {
            Err(ProcessEvent::AmountOverflow)
        }
    }

    /// Debit the held balance, detecting underflow. On insufficient held
    /// funds the account is unchanged.
    pub fn sub_held(&mut self, amount: u128) -> (r: Result<(), ProcessEvent>)
        ensures
            amount <= old(self).held ==> r is Ok && final(self)@ == (AccountV {
                held: (old(self).held - amount) as u128,
                ..old(self)@
            }),
            amount > old(self).held ==> r == Err::<(), _>(ProcessEvent::InsufficientFunds)
                && final(self)@ == old(self)@,
    {
        if let Some(new_balance) = self.held.checked_sub(amount) {
            self.held = new_balance;
            Ok(())
        } else {
            Err(ProcessEvent::InsufficientFunds)
        }
    }

    /// Permanently freeze the account; nothing else changes.
    pub fn freeze(&mut self)
        ensures
            final(self)@ == (AccountV { frozen: true, ..old(self)@ }),
    {
        self.frozen = true;
    }

    /// The total balance: available plus held, saturating at the largest
    /// representable amount (total is a derived display value, so saturation
    /// is preferred over an error).
    pub fn total(&self) -> (r: u128)
        ensures
            self.available + self.held <= u128::MAX ==> r == self.available + self.held,
            self.available + self.held > u128::MAX ==> r == u128::MAX,
    {
        if let Some(total) = self.available.checked_add(self.held) {
            total
        } else {
            u128::MAX
        }
    }
}

} // verus!
