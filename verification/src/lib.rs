//! A small payments ledger: clients deposit and withdraw funds, and prior
//! deposits can be disputed, resolved, or charged back. Amounts are exact
//! fixed-point integers (scaled by 10,000); every state transition of the
//! ledger is specified and verified.
mod account;
pub mod decimal;
mod events;
mod laws;
mod ledger;
mod record;
mod transaction;

pub use account::Account;
pub use account::AccountV;
pub use events::ProcessEvent;
pub use laws::lemma_chargeback_after_dispute;
pub use laws::lemma_deposit_then_withdraw;
pub use laws::lemma_dispute_effect;
pub use laws::lemma_dispute_non_deposit;
pub use laws::lemma_frozen_account_keeps_balances;
pub use laws::lemma_resolve_after_dispute;
pub use laws::lemma_reversal_undisputed;
pub use laws::lemma_withdraw_insufficient;
pub use ledger::Ledger;
pub use ledger::LedgerV;
pub use ledger::chargeback_ok;
pub use ledger::chargeback_step;
pub use ledger::deposit_step;
pub use ledger::dispute_applies;
pub use ledger::dispute_err;
pub use ledger::dispute_ok;
pub use ledger::dispute_step;
pub use ledger::resolve_err;
pub use ledger::resolve_ok;
pub use ledger::resolve_step;
pub use ledger::reversal_applies;
pub use ledger::withdraw_step;
pub use record::Record;
pub use record::amount_from_string;
pub use transaction::Txn;
