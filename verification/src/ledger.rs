//! The ledger state machine: accounts by client id, the append-only history
//! of deposits and withdrawals by transaction id, and the rules by which
//! each transaction mutates them.
//!
//! The spec-level transition functions (`deposit_step`, `withdraw_step`,
//! `dispute_step`, `resolve_step`, `chargeback_step`) say exactly what each
//! kind of transaction does to the ledger model; every executable method is
//! proved to implement its transition. Business-rule violations (frozen
//! account, insufficient funds, dangling or wrong-kind dispute references)
//! are suppressed inside the transitions; arithmetic failures during the
//! dispute family are escalated as errors, since the preconditions should
//! make them unreachable in a consistent run.
use vstd::prelude::*;

use std::collections::HashMap;

use crate::account::{Account, AccountV};
use crate::events::ProcessEvent;
use crate::record::Record;
use crate::transaction::Txn;

verus! {

broadcast use vstd::std_specs::hash::group_hash_axioms;

/// Mathematical model of a [`Ledger`]: accounts and transaction history as
/// maps over plain values.
#[verifier::ext_equal]
pub struct LedgerV {
    pub accounts: Map<u16, AccountV>,
    pub history: Map<u32, Txn>,
}

impl LedgerV {
    /// The empty ledger.
    pub open spec fn initial() -> LedgerV {
        LedgerV { accounts: Map::empty(), history: Map::empty() }
    }

    /// The account of `client`, created lazily with zero balances if it has
    /// never been referenced.
    pub open spec fn account_or_new(self, client: u16) -> AccountV {
        if self.accounts.contains_key(client) {
            self.accounts[client]
        } else {
            AccountV::initial()
        }
    }
}

/// Deposit: credit the available balance unless the account is frozen or
/// the credit would overflow (both suppressed, leaving the account as it
/// was); the transaction is recorded in history either way.
pub open spec fn deposit_step(m: LedgerV, txn: Txn) -> LedgerV {
    let client = txn.spec_client_id();
    let amount = txn.spec_amount();
    let a = m.account_or_new(client);
    let a2 = if a.frozen || a.available + amount > u128::MAX {
        a
    } else {
        AccountV { available: (a.available + amount) as u128, ..a }
    };
    LedgerV {
        accounts: m.accounts.insert(client, a2),
        history: m.history.insert(txn.spec_txn_id(), txn),
    }
}

/// Withdraw: debit the available balance unless the account is frozen or
/// the funds are insufficient (both suppressed); the transaction is
/// recorded in history either way.
pub open spec fn withdraw_step(m: LedgerV, txn: Txn) -> LedgerV {
    let client = txn.spec_client_id();
    let amount = txn.spec_amount();
    let a = m.account_or_new(client);
    let a2 = if a.frozen || a.available < amount {
        a
    } else {
        AccountV { available: (a.available - amount) as u128, ..a }
    };
    LedgerV {
        accounts: m.accounts.insert(client, a2),
        history: m.history.insert(txn.spec_txn_id(), txn),
    }
}

/// A dispute takes effect only when the referenced transaction exists in
/// history and is a deposit.
pub open spec fn dispute_applies(m: LedgerV, txn_id: u32) -> bool {
    m.history.contains_key(txn_id) && m.history[txn_id] is Deposit
}

/// The dispute's arithmetic is sound: the disputed amount can move from
/// available to held. When this fails the dispute is an internal error,
/// not a suppressed no-op.
pub open spec fn dispute_ok(m: LedgerV, txn_id: u32) -> bool {
    dispute_applies(m, txn_id) ==> {
        let t = m.history[txn_id];
        let a = m.account_or_new(t.spec_client_id());
        t.spec_amount() <= a.available && a.held + t.spec_amount() <= u128::MAX
    }
}

/// The error a failing dispute reports: insufficient available funds take
/// precedence over held-balance overflow.
pub open spec fn dispute_err(m: LedgerV, txn_id: u32) -> ProcessEvent {
    let t = m.history[txn_id];
    let a = m.account_or_new(t.spec_client_id());
    if a.available < t.spec_amount() {
        ProcessEvent::InsufficientFunds
    } else {
        ProcessEvent::AmountOverflow
    }
}

/// Dispute: move the referenced deposit's amount from available to held in
/// the account of the client that owns the referenced transaction, and mark
/// the id as disputed. A missing or wrong-kind reference changes nothing.
pub open spec fn dispute_step(m: LedgerV, txn_id: u32) -> LedgerV {
    if dispute_applies(m, txn_id) {
        let t = m.history[txn_id];
        let client = t.spec_client_id();
        let amount = t.spec_amount();
        let a = m.account_or_new(client);
        let a2 = AccountV {
            available: (a.available - amount) as u128,
            held: (a.held + amount) as u128,
            disputes: a.disputes.insert(txn_id),
            frozen: a.frozen,
        };
        LedgerV { accounts: m.accounts.insert(client, a2), history: m.history }
    } else {
        m
    }
}

/// A resolve or chargeback takes effect only when the referenced
/// transaction exists in history and is currently marked disputed in the
/// owning client's account.
pub open spec fn reversal_applies(m: LedgerV, txn_id: u32) -> bool {
    m.history.contains_key(txn_id) && m.account_or_new(
        m.history[txn_id].spec_client_id(),
    ).disputes.contains(txn_id)
}

/// The resolve's arithmetic is sound: the held amount can move back to
/// available.
pub open spec fn resolve_ok(m: LedgerV, txn_id: u32) -> bool {
    reversal_applies(m, txn_id) ==> {
        let t = m.history[txn_id];
        let a = m.account_or_new(t.spec_client_id());
        t.spec_amount() <= a.held && a.available + t.spec_amount() <= u128::MAX
    }
}

/// The error a failing resolve reports: insufficient held funds take
/// precedence over available-balance overflow.
pub open spec fn resolve_err(m: LedgerV, txn_id: u32) -> ProcessEvent {
    let t = m.history[txn_id];
    let a = m.account_or_new(t.spec_client_id());
    if a.held < t.spec_amount() {
        ProcessEvent::InsufficientFunds
    } else {
        ProcessEvent::AmountOverflow
    }
}

/// Resolve: move the disputed amount back from held to available and clear
/// the dispute marker. A missing reference changes nothing; a reference
/// that is not under dispute only materializes the owning account.
pub open spec fn resolve_step(m: LedgerV, txn_id: u32) -> LedgerV {
    if m.history.contains_key(txn_id) {
        let t = m.history[txn_id];
        let client = t.spec_client_id();
        let amount = t.spec_amount();
        let a = m.account_or_new(client);
        if a.disputes.contains(txn_id) {
            let a2 = AccountV {
                available: (a.available + amount) as u128,
                held: (a.held - amount) as u128,
                disputes: a.disputes.remove(txn_id),
                frozen: a.frozen,
            };
            LedgerV { accounts: m.accounts.insert(client, a2), history: m.history }
        } else {
            LedgerV { accounts: m.accounts.insert(client, a), history: m.history }
        }
    } else {
        m
    }
}

/// The chargeback's arithmetic is sound: the held balance covers the
/// charged-back amount.
pub open spec fn chargeback_ok(m: LedgerV, txn_id: u32) -> bool {
    reversal_applies(m, txn_id) ==> {
        let t = m.history[txn_id];
        let a = m.account_or_new(t.spec_client_id());
        t.spec_amount() <= a.held
    }
}

/// Chargeback: withdraw the disputed amount from held, clear the dispute
/// marker, and permanently freeze the account. A missing reference changes
/// nothing; a reference that is not under dispute only materializes the
/// owning account.
pub open spec fn chargeback_step(m: LedgerV, txn_id: u32) -> LedgerV {
    if m.history.contains_key(txn_id) {
        let t = m.history[txn_id];
        let client = t.spec_client_id();
        let amount = t.spec_amount();
        let a = m.account_or_new(client);
        if a.disputes.contains(txn_id) {
            let a2 = AccountV {
                available: a.available,
                held: (a.held - amount) as u128,
                disputes: a.disputes.remove(txn_id),
                frozen: true,
            };
            LedgerV { accounts: m.accounts.insert(client, a2), history: m.history }
        } else {
            LedgerV { accounts: m.accounts.insert(client, a), history: m.history }
        }
    } else {
        m
    }
}

pub struct Ledger {
    pub accounts: HashMap<u16, Account>,
    pub txn_history: HashMap<u32, Txn>,
}

impl View for Ledger {
    type V = LedgerV;

    open spec fn view(&self) -> LedgerV {
        LedgerV {
            accounts: Map::new(
                |c: u16| self.accounts@.contains_key(c),
                |c: u16| self.accounts@[c]@,
            ),
            history: self.txn_history@,
        }
    }
}

impl Ledger {
    /// An empty ledger: no accounts, no history.
    pub fn new() -> (r: Ledger)
        ensures
            r@ == LedgerV::initial(),
    {
        let r = Ledger { accounts: HashMap::new(), txn_history: HashMap::new() };
        proof {
            assert(r@ =~~= LedgerV::initial());
        }
        r
    }

    /// Look up the original deposit or withdrawal a dispute-family record
    /// references.
    fn txn_from_history(&self, txn_id: u32) -> (r: Option<&Txn>)
        ensures
            match r {
                Some(t) => self@.history.contains_key(txn_id) && *t == self@.history[txn_id],
                None => !self@.history.contains_key(txn_id),
            },
    {
        self.txn_history.get(&txn_id)
    }

    /// Take the client's account out of the map, creating a fresh one if
    /// the client has never been referenced.
    fn take_account(&mut self, client: u16) -> (r: Account)
        ensures
            r@ == old(self)@.account_or_new(client),
            final(self).txn_history == old(self).txn_history,
            final(self).accounts@ == old(self).accounts@.remove(client),
    {
        match self.accounts.remove(&client) {
            Some(a) => a,
            None => Account::new(),
        }
    }

    /// Deposit to the available balance; see [`deposit_step`]. Overflow and
    /// a frozen account suppress the credit, never the history entry.
    fn deposit(&mut self, txn: Txn) -> (r: Result<(), ProcessEvent>)
        requires
            txn is Deposit,
        ensures
            r is Ok,
            final(self)@ == deposit_step(old(self)@, txn),
    {
        let client = txn.client_id();
        let mut account = self.take_account(client);
        if account.frozen {
            // suppressed: a frozen account accepts no deposit
        } else if account.add_available(txn.amount()).is_err() {
            // suppressed: the credit would overflow
        }
        self.accounts.insert(client, account);
        self.txn_history.insert(txn.txn_id(), txn);
        proof {
            assert(self@.accounts =~~= deposit_step(old(self)@, txn).accounts);
            assert(self@ =~~= deposit_step(old(self)@, txn));
        }
        Ok(())
    }

    /// Withdraw from the available balance; see [`withdraw_step`].
    /// Insufficient funds and a frozen account suppress the debit, never
    /// the history entry.
    fn withdraw(&mut self, txn: Txn) -> (r: Result<(), ProcessEvent>)
        requires
            txn is Withdraw,
        ensures
            r is Ok,
            final(self)@ == withdraw_step(old(self)@, txn),
    {
        let client = txn.client_id();
        let mut account = self.take_account(client);
        if account.frozen {
            // suppressed: a frozen account accepts no withdrawal
        } else if account.sub_available(txn.amount()).is_err() {
            // suppressed: insufficient funds
        }
        self.accounts.insert(client, account);
        self.txn_history.insert(txn.txn_id(), txn);
        proof {
            assert(self@.accounts =~~= withdraw_step(old(self)@, txn).accounts);
            assert(self@ =~~= withdraw_step(old(self)@, txn));
        }
        Ok(())
    }

    /// Dispute a referenced transaction; see [`dispute_step`]. A missing or
    /// non-deposit reference is ignored; an arithmetic failure is escalated
    /// with the ledger unchanged.
    fn dispute(&mut self, txn: &Txn) -> (r: Result<(), ProcessEvent>)
        ensures
            dispute_ok(old(self)@, txn.spec_txn_id()) ==> r is Ok && final(self)@ == dispute_step(
                old(self)@,
                txn.spec_txn_id(),
            ),
            !dispute_ok(old(self)@, txn.spec_txn_id()) ==> r == Err::<(), _>(
                dispute_err(old(self)@, txn.spec_txn_id()),
            ) && final(self)@ == old(self)@,
    {
        let txn_id = txn.txn_id();
        let referenced: Txn = match self.txn_from_history(txn_id) {
            Some(t) => *t,
            None => {
                return Ok(());
            },
        };
        if let Txn::Deposit { .. } = referenced {
        } else {
            return Ok(());
        }
        let amount = referenced.amount();
        let client = referenced.client_id();
        // Decide up front whether the move is arithmetically sound, so a
        // failing dispute leaves the ledger untouched.
        let enabled = match self.accounts.get(&client) {
            Some(a) => amount <= a.available && a.held <= u128::MAX - amount,
            None => amount == 0,
        };
        if !enabled {
            let err = match self.accounts.get(&client) {
                Some(a) => if a.available < amount {
                    ProcessEvent::InsufficientFunds
                } else {
                    ProcessEvent::AmountOverflow
                },
                None => ProcessEvent::InsufficientFunds,
            };
            return Err(err);
        }
        let mut account = self.take_account(client);
        if account.sub_available(amount).is_err() {
            return Err(ProcessEvent::InsufficientFunds);
        }
        if account.add_held(amount).is_err() {
            return Err(ProcessEvent::AmountOverflow);
        }
        account.disputes.insert(txn_id);
        self.accounts.insert(client, account);
        proof {
            assert(self@.accounts =~~= dispute_step(old(self)@, txn_id).accounts);
            assert(self@ =~~= dispute_step(old(self)@, txn_id));
        }
        Ok(())
    }

    /// Resolve a disputed transaction; see [`resolve_step`]. A missing or
    /// undisputed reference is ignored; an arithmetic failure is escalated
    /// with the ledger unchanged.
    fn resolve(&mut self, txn: &Txn) -> (r: Result<(), ProcessEvent>)
        ensures
            resolve_ok(old(self)@, txn.spec_txn_id()) ==> r is Ok && final(self)@ == resolve_step(
                old(self)@,
                txn.spec_txn_id(),
            ),
            !resolve_ok(old(self)@, txn.spec_txn_id()) ==> r == Err::<(), _>(
                resolve_err(old(self)@, txn.spec_txn_id()),
            ) && final(self)@ == old(self)@,
    {
        let txn_id = txn.txn_id();
        let referenced: Txn = match self.txn_from_history(txn_id) {
            Some(t) => *t,
            None => {
                return Ok(());
            },
        };
        let amount = referenced.amount();
        let client = referenced.client_id();
        let (disputed, enabled) = match self.accounts.get(&client) {
            Some(a) => (
                a.disputes.contains(&txn_id),
                amount <= a.held && a.available <= u128::MAX - amount,
            ),
            None => (false, true),
        };
        if disputed && !enabled {
            let err = match self.accounts.get(&client) {
                Some(a) => if a.held < amount {
                    ProcessEvent::InsufficientFunds
                } else {
                    ProcessEvent::AmountOverflow
                },
                None => ProcessEvent::InsufficientFunds,
            };
            return Err(err);
        }
        let mut account = self.take_account(client);
        if account.disputes.contains(&txn_id) {
            if account.sub_held(amount).is_err() {
                return Err(ProcessEvent::InsufficientFunds);
            }
            if account.add_available(amount).is_err() {
                return Err(ProcessEvent::AmountOverflow);
            }
            account.disputes.remove(&txn_id);
        }
        self.accounts.insert(client, account);
        proof {
            assert(self@.accounts =~~= resolve_step(old(self)@, txn_id).accounts);
            assert(self@ =~~= resolve_step(old(self)@, txn_id));
        }
        Ok(())
    }

    /// Charge back a disputed transaction; see [`chargeback_step`]. A
    /// missing or undisputed reference is ignored; an arithmetic failure is
    /// escalated with the ledger unchanged.
    fn chargeback(&mut self, txn: &Txn) -> (r: Result<(), ProcessEvent>)
        ensures
            chargeback_ok(old(self)@, txn.spec_txn_id()) ==> r is Ok && final(self)@
                == chargeback_step(old(self)@, txn.spec_txn_id()),
            !chargeback_ok(old(self)@, txn.spec_txn_id()) ==> r == Err::<(), _>(
                ProcessEvent::InsufficientFunds,
            ) && final(self)@ == old(self)@,
    {
        let txn_id = txn.txn_id();
        let referenced: Txn = match self.txn_from_history(txn_id) {
            Some(t) => *t,
            None => {
                return Ok(());
            },
        };
        let amount = referenced.amount();
        let client = referenced.client_id();
        let (disputed, enabled) = match self.accounts.get(&client) {
            Some(a) => (a.disputes.contains(&txn_id), amount <= a.held),
            None => (false, true),
        };
        if disputed && !enabled {
            return Err(ProcessEvent::InsufficientFunds);
        }
        let mut account = self.take_account(client);
        if account.disputes.contains(&txn_id) {
            if account.sub_held(amount).is_err() {
                return Err(ProcessEvent::InsufficientFunds);
            }
            account.disputes.remove(&txn_id);
            account.freeze();
        }
        self.accounts.insert(client, account);
        proof {
            assert(self@.accounts =~~= chargeback_step(old(self)@, txn_id).accounts);
            assert(self@ =~~= chargeback_step(old(self)@, txn_id));
        }
        Ok(())
    }

    /// Route one typed transaction to its transition.
    fn add_tx_to_account(&mut self, txn: Txn) -> (r: Result<(), ProcessEvent>)
        ensures
            txn is Deposit ==> r is Ok && final(self)@ == deposit_step(old(self)@, txn),
            txn is Withdraw ==> r is Ok && final(self)@ == withdraw_step(old(self)@, txn),
            txn is Dispute ==> (if dispute_ok(old(self)@, txn.spec_txn_id()) {
                r is Ok && final(self)@ == dispute_step(old(self)@, txn.spec_txn_id())
            } else {
                r == Err::<(), _>(dispute_err(old(self)@, txn.spec_txn_id())) && final(self)@
                    == old(self)@
            }),
            txn is Resolve ==> (if resolve_ok(old(self)@, txn.spec_txn_id()) {
                r is Ok && final(self)@ == resolve_step(old(self)@, txn.spec_txn_id())
            } else {
                r == Err::<(), _>(resolve_err(old(self)@, txn.spec_txn_id())) && final(self)@
                    == old(self)@
            }),
            txn is ChargeBack ==> (if chargeback_ok(old(self)@, txn.spec_txn_id()) {
                r is Ok && final(self)@ == chargeback_step(old(self)@, txn.spec_txn_id())
            } else {
                r == Err::<(), _>(ProcessEvent::InsufficientFunds) && final(self)@ == old(self)@
            }),
    {
        match txn {
            Txn::Deposit { .. } => self.deposit(txn),
            Txn::Withdraw { .. } => self.withdraw(txn),
            Txn::Dispute { .. } => self.dispute(&txn),
            Txn::Resolve { .. } => self.resolve(&txn),
            Txn::ChargeBack { .. } => self.chargeback(&txn),
        }
    }

    /// Validate one raw record and apply it to the ledger.
    ///
    /// A record that fails validation, or whose dispute-family arithmetic
    /// fails, leaves the ledger unchanged and reports the error; everything
    /// else reports completion and performs the transition the record's
    /// type tag names.
    pub fn process_transaction(&mut self, record: Record) -> (r: Result<
        ProcessEvent,
        ProcessEvent,
    >)
        ensures
            record.txn_type@ == "deposit"@ ==> (match record.amount {
                Some(a) => r == Ok::<ProcessEvent, ProcessEvent>(ProcessEvent::ProcessComplete) && final(self)@ == deposit_step(
                    old(self)@,
                    Txn::Deposit { client_id: record.client, txn_id: record.tx, amount: a },
                ),
                None => r == Err::<ProcessEvent, ProcessEvent>(ProcessEvent::MissingAmount) && final(self)@
                    == old(self)@,
            }),
            record.txn_type@ == "withdrawal"@ ==> (match record.amount {
                Some(a) => r == Ok::<ProcessEvent, ProcessEvent>(ProcessEvent::ProcessComplete) && final(self)@ == withdraw_step(
                    old(self)@,
                    Txn::Withdraw { client_id: record.client, txn_id: record.tx, amount: a },
                ),
                None => r == Err::<ProcessEvent, ProcessEvent>(ProcessEvent::MissingAmount) && final(self)@
                    == old(self)@,
            }),
            record.txn_type@ == "dispute"@ ==> (if dispute_ok(old(self)@, record.tx) {
                r == Ok::<ProcessEvent, ProcessEvent>(ProcessEvent::ProcessComplete) && final(self)@
                    == dispute_step(old(self)@, record.tx)
            } else {
                r == Err::<ProcessEvent, ProcessEvent>(dispute_err(old(self)@, record.tx)) && final(self)@
                    == old(self)@
            }),
            record.txn_type@ == "resolve"@ ==> (if resolve_ok(old(self)@, record.tx) {
                r == Ok::<ProcessEvent, ProcessEvent>(ProcessEvent::ProcessComplete) && final(self)@
                    == resolve_step(old(self)@, record.tx)
            } else {
                r == Err::<ProcessEvent, ProcessEvent>(resolve_err(old(self)@, record.tx)) && final(self)@
                    == old(self)@
            }),
            record.txn_type@ == "chargeback"@ ==> (if chargeback_ok(old(self)@, record.tx) {
                r == Ok::<ProcessEvent, ProcessEvent>(ProcessEvent::ProcessComplete) && final(self)@
                    == chargeback_step(old(self)@, record.tx)
            } else {
                r == Err::<ProcessEvent, ProcessEvent>(ProcessEvent::InsufficientFunds) && final(self)@
                    == old(self)@
            }),
            record.txn_type@ != "deposit"@ && record.txn_type@ != "withdrawal"@
                && record.txn_type@ != "dispute"@ && record.txn_type@ != "resolve"@
                && record.txn_type@ != "chargeback"@ ==> (r matches Err(
                ProcessEvent::UnrecognizedTransactionType(t),
            ) && t@ == record.txn_type@ && final(self)@ == old(self)@),
    {
        let txn = match Txn::from_record(record) {
            Ok(t) => t,
            Err(e) => {
                return Err(e);
            },
        };
        match self.add_tx_to_account(txn) {
            Ok(()) => Ok(ProcessEvent::ProcessComplete),
            Err(e) => Err(e),
        }
    }
}

} // verus!
