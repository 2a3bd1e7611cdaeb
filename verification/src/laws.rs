//! Laws of the ledger: proof functions relating the transitions to one
//! another, stated over the ledger model and verified once for all inputs.
use vstd::prelude::*;

use crate::ledger::{
    chargeback_ok, chargeback_step, deposit_step, dispute_applies, dispute_ok, dispute_step,
    resolve_ok, resolve_step, reversal_applies, withdraw_step, LedgerV,
};
use crate::transaction::Txn;

verus! {

/// A withdrawal within the funds available after a deposit debits
/// `available` by exactly the withdrawn amount and leaves `held` unchanged.
pub proof fn lemma_deposit_then_withdraw(
    m: LedgerV,
    client: u16,
    t1: u32,
    a1: u128,
    t2: u32,
    a2: u128,
)
    requires
        !m.account_or_new(client).frozen,
        m.account_or_new(client).available + a1 <= u128::MAX,
        a2 <= m.account_or_new(client).available + a1,
    ensures
        ({
            let m1 = deposit_step(m, Txn::Deposit { client_id: client, txn_id: t1, amount: a1 });
            let m2 = withdraw_step(
                m1,
                Txn::Withdraw { client_id: client, txn_id: t2, amount: a2 },
            );
            &&& m2.account_or_new(client).available == m1.account_or_new(client).available - a2
            &&& m2.account_or_new(client).held == m1.account_or_new(client).held
            &&& m2.account_or_new(client).held == m.account_or_new(client).held
        }),
{
}

/// A withdrawal exceeding the available balance leaves every account
/// exactly as it was (only the history records the attempt).
pub proof fn lemma_withdraw_insufficient(m: LedgerV, txn: Txn)
    requires
        txn is Withdraw,
        txn.spec_amount() > m.account_or_new(txn.spec_client_id()).available,
    ensures
        forall|c: u16| withdraw_step(m, txn).account_or_new(c) == m.account_or_new(c),
{
}

/// A dispute of a recorded deposit moves the deposited amount from
/// `available` to `held`, conserving their sum, and marks the id disputed.
pub proof fn lemma_dispute_effect(m: LedgerV, txn_id: u32)
    requires
        dispute_applies(m, txn_id),
        dispute_ok(m, txn_id),
    ensures
        ({
            let t = m.history[txn_id];
            let a = m.account_or_new(t.spec_client_id());
            let a2 = dispute_step(m, txn_id).account_or_new(t.spec_client_id());
            &&& a2.available == a.available - t.spec_amount()
            &&& a2.held == a.held + t.spec_amount()
            &&& a2.available + a2.held == a.available + a.held
            &&& a2.disputes.contains(txn_id)
            &&& a2.frozen == a.frozen
        }),
{
}

/// A dispute referencing a transaction that is not a recorded deposit — a
/// withdrawal, or an id with no history entry — changes nothing.
pub proof fn lemma_dispute_non_deposit(m: LedgerV, txn_id: u32)
    requires
        m.history.contains_key(txn_id) ==> !(m.history[txn_id] is Deposit),
    ensures
        dispute_step(m, txn_id) == m,
{
}

/// Resolving a dispute exactly reverses its balance effect and clears the
/// dispute marker.
pub proof fn lemma_resolve_after_dispute(m: LedgerV, txn_id: u32)
    requires
        dispute_applies(m, txn_id),
        dispute_ok(m, txn_id),
    ensures
        ({
            let c = m.history[txn_id].spec_client_id();
            let m1 = dispute_step(m, txn_id);
            let m2 = resolve_step(m1, txn_id);
            &&& resolve_ok(m1, txn_id)
            &&& m2.account_or_new(c).available == m.account_or_new(c).available
            &&& m2.account_or_new(c).held == m.account_or_new(c).held
            &&& m2.account_or_new(c).frozen == m.account_or_new(c).frozen
            &&& !m2.account_or_new(c).disputes.contains(txn_id)
        }),
{
}

/// Charging back a dispute takes the disputed amount out of `held` and
/// freezes the account, clearing the dispute marker.
pub proof fn lemma_chargeback_after_dispute(m: LedgerV, txn_id: u32)
    requires
        dispute_applies(m, txn_id),
        dispute_ok(m, txn_id),
    ensures
        ({
            let t = m.history[txn_id];
            let c = t.spec_client_id();
            let m1 = dispute_step(m, txn_id);
            let m2 = chargeback_step(m1, txn_id);
            &&& chargeback_ok(m1, txn_id)
            &&& m2.account_or_new(c).held == m1.account_or_new(c).held - t.spec_amount()
            &&& m2.account_or_new(c).available == m1.account_or_new(c).available
            &&& m2.account_or_new(c).frozen
            &&& !m2.account_or_new(c).disputes.contains(txn_id)
        }),
{
}

/// A frozen account's balances survive any later deposit or withdrawal
/// unchanged, and it stays frozen: the freeze is permanent.
pub proof fn lemma_frozen_account_keeps_balances(m: LedgerV, txn: Txn)
    requires
        txn is Deposit || txn is Withdraw,
        m.account_or_new(txn.spec_client_id()).frozen,
    ensures
        ({
            let m2 = if txn is Deposit {
                deposit_step(m, txn)
            } else {
                withdraw_step(m, txn)
            };
            m2.account_or_new(txn.spec_client_id()) == m.account_or_new(txn.spec_client_id())
        }),
{
}

/// A resolve or chargeback referencing a transaction that is not currently
/// under dispute changes nothing (provided the owning client's account
/// exists whenever the reference does, which every run of the state machine
/// maintains).
pub proof fn lemma_reversal_undisputed(m: LedgerV, txn_id: u32)
    requires
        !reversal_applies(m, txn_id),
        m.history.contains_key(txn_id) ==> m.accounts.contains_key(
            m.history[txn_id].spec_client_id(),
        ),
    ensures
        resolve_step(m, txn_id) == m,
        chargeback_step(m, txn_id) == m,
{
    if m.history.contains_key(txn_id) {
        let c = m.history[txn_id].spec_client_id();
        assert(m.accounts.insert(c, m.account_or_new(c)) =~= m.accounts);
        assert(resolve_step(m, txn_id) =~~= m);
        assert(chargeback_step(m, txn_id) =~~= m);
    }
}

} // verus!
