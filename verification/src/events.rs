//! Outcomes of processing a record. `ProcessComplete` reports success; the
//! remaining variants classify the ways a record or an arithmetic step can
//! fail.
use vstd::prelude::*;

verus! {

/// The result of processing one record, or the reason it failed.
///
/// `MalformedAmount` and `AmountOverflow` come from the amount codec;
/// `InsufficientFunds` and `AmountOverflow` also report arithmetic failures
/// inside the ledger; `MissingAmount` and `UnrecognizedTransactionType` come
/// from record validation.
#[derive(Debug, PartialEq, Eq)]
pub enum ProcessEvent {
    ProcessComplete,
    MalformedAmount,
    AmountOverflow,
    InsufficientFunds,
    MissingAmount,
    UnrecognizedTransactionType(String),
}

impl ProcessEvent {
    /// A short human-readable description, for reporting at the program's
    /// edge.
    pub fn describe(&self) -> (r: &'static str)
        ensures
            self is ProcessComplete ==> r@ == ""@,
    {
        match self {
            ProcessEvent::ProcessComplete => "",
            ProcessEvent::MalformedAmount => "failed to parse decimal",
            ProcessEvent::AmountOverflow => "limit exceeded",
            ProcessEvent::InsufficientFunds => "insufficient funds",
            ProcessEvent::MissingAmount => "transaction needs an amount",
            ProcessEvent::UnrecognizedTransactionType(_) => "unrecognised txn",
        }
    }
}

} // verus!
