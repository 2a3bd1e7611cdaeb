//! The typed transaction: a validated record. Deposits and withdrawals
//! carry an amount; the dispute family (dispute, resolve, chargeback)
//! references a prior transaction by id instead.
use vstd::prelude::*;

use crate::decimal;
use crate::events::ProcessEvent;
use crate::record::Record;

verus! {

#[derive(Clone, Copy, PartialEq, Eq, Structural)]
pub enum Txn {
    Deposit { client_id: u16, txn_id: u32, amount: u128 },
    Withdraw { client_id: u16, txn_id: u32, amount: u128 },
    Dispute { client_id: u16, txn_id: u32 },
    Resolve { client_id: u16, txn_id: u32 },
    ChargeBack { client_id: u16, txn_id: u32 },
}

impl Txn {
    /// The client named in the transaction.
    pub open spec fn spec_client_id(self) -> u16 {
        match self {
            Txn::Deposit { client_id, .. } => client_id,
            Txn::Withdraw { client_id, .. } => client_id,
            Txn::Dispute { client_id, .. } => client_id,
            Txn::Resolve { client_id, .. } => client_id,
            Txn::ChargeBack { client_id, .. } => client_id,
        }
    }

    /// The transaction id: its own for a deposit or withdrawal, the
    /// referenced one for the dispute family.
    pub open spec fn spec_txn_id(self) -> u32 {
        match self {
            Txn::Deposit { txn_id, .. } => txn_id,
            Txn::Withdraw { txn_id, .. } => txn_id,
            Txn::Dispute { txn_id, .. } => txn_id,
            Txn::Resolve { txn_id, .. } => txn_id,
            Txn::ChargeBack { txn_id, .. } => txn_id,
        }
    }

    /// The amount moved: zero for the dispute family, which carries none.
    pub open spec fn spec_amount(self) -> u128 {
        match self {
            Txn::Deposit { amount, .. } => amount,
            Txn::Withdraw { amount, .. } => amount,
            _ => 0u128,
        }
    }

    /// Render a fixed-point amount as a decimal string with exactly four
    /// fractional digits, per [`decimal::format_amount`].
    pub fn u128_to_decimal_str(input: u128) -> (r: Result<String, ProcessEvent>)
        ensures
            r matches Ok(s) && s@ == decimal::format_amount(input),
    {
        let units = input / 10000;
        let frac = input % 10000;
        let mut out = dec_digits_str(units);
        out.append(".");
        proof {
            reveal_strlit(".");
            assert(out@ =~= decimal::dec_digits(units as nat).push('.'));
        }
        push_digit(&mut out, frac / 1000);
        push_digit(&mut out, (frac / 100) % 10);
        push_digit(&mut out, (frac / 10) % 10);
        push_digit(&mut out, frac % 10);
        proof {
            assert(out@ =~= decimal::format_amount(input));
        }
        Ok(out)
    }

    pub fn client_id(&self) -> (r: u16)
        ensures
            r == self.spec_client_id(),
    {
        match self {
            Self::Deposit { client_id, .. } => *client_id,
            Self::Withdraw { client_id, .. } => *client_id,
            Self::Dispute { client_id, .. } => *client_id,
            Self::Resolve { client_id, .. } => *client_id,
            Self::ChargeBack { client_id, .. } => *client_id,
        }
    }

    pub fn txn_id(&self) -> (r: u32)
        ensures
            r == self.spec_txn_id(),
    {
        match self {
            Self::Deposit { txn_id, .. } => *txn_id,
            Self::Withdraw { txn_id, .. } => *txn_id,
            Self::Dispute { txn_id, .. } => *txn_id,
            Self::Resolve { txn_id, .. } => *txn_id,
            Self::ChargeBack { txn_id, .. } => *txn_id,
        }
    }

    pub fn amount(&self) -> (r: u128)
        ensures
            r == self.spec_amount(),
    {
        match self {
            Self::Deposit { amount, .. } => *amount,
            Self::Withdraw { amount, .. } => *amount,
            _ => 0u128,
        }
    }

    /// Validate a raw record into a typed transaction.
    ///
    /// An unknown type tag is rejected with the tag for diagnostics; a
    /// deposit or withdrawal without an amount is rejected; the dispute
    /// family ignores any amount present.
    pub fn from_record(input: Record) -> (r: Result<Self, ProcessEvent>)
        ensures
            input.txn_type@ == "deposit"@ ==> r == (match input.amount {
                Some(a) => Ok::<Txn, ProcessEvent>(
                    Txn::Deposit { client_id: input.client, txn_id: input.tx, amount: a },
                ),
                None => Err::<Txn, ProcessEvent>(ProcessEvent::MissingAmount),
            }),
            input.txn_type@ == "withdrawal"@ ==> r == (match input.amount {
                Some(a) => Ok::<Txn, ProcessEvent>(
                    Txn::Withdraw { client_id: input.client, txn_id: input.tx, amount: a },
                ),
                None => Err::<Txn, ProcessEvent>(ProcessEvent::MissingAmount),
            }),
            input.txn_type@ == "dispute"@ ==> r == Ok::<Txn, ProcessEvent>(
                Txn::Dispute { client_id: input.client, txn_id: input.tx },
            ),
            input.txn_type@ == "resolve"@ ==> r == Ok::<Txn, ProcessEvent>(
                Txn::Resolve { client_id: input.client, txn_id: input.tx },
            ),
            input.txn_type@ == "chargeback"@ ==> r == Ok::<Txn, ProcessEvent>(
                Txn::ChargeBack { client_id: input.client, txn_id: input.tx },
            ),
            input.txn_type@ != "deposit"@ && input.txn_type@ != "withdrawal"@
                && input.txn_type@ != "dispute"@ && input.txn_type@ != "resolve"@
                && input.txn_type@ != "chargeback"@ ==> (r matches Err(
                ProcessEvent::UnrecognizedTransactionType(t),
            ) && t@ == input.txn_type@),
    {
        proof {
            reveal_strlit("deposit");
            reveal_strlit("withdrawal");
            reveal_strlit("dispute");
            reveal_strlit("resolve");
            reveal_strlit("chargeback");
            // The five tags are pairwise distinct: all lengths differ except
            // for the pairs distinguished by a character below.
            assert("deposit"@.len() == 7);
            assert("withdrawal"@.len() == 10);
            assert("dispute"@.len() == 7);
            assert("resolve"@.len() == 7);
            assert("chargeback"@.len() == 10);
            assert("deposit"@[1] != "dispute"@[1]);
            assert("deposit"@[0] != "resolve"@[0]);
            assert("dispute"@[0] != "resolve"@[0]);
            assert("withdrawal"@[0] != "chargeback"@[0]);
        }
        let client_id = input.client;
        let txn_id = input.tx;

        if input.txn_type.eq(&"deposit".to_owned()) {
            if let Some(amount) = input.amount {
                Ok(Self::Deposit { client_id, txn_id, amount })
            } else {
                Err(ProcessEvent::MissingAmount)
            }
        } else if input.txn_type.eq(&"withdrawal".to_owned()) {
            if let Some(amount) = input.amount {
                Ok(Self::Withdraw { client_id, txn_id, amount })
            } else {
                Err(ProcessEvent::MissingAmount)
            }
        } else if input.txn_type.eq(&"dispute".to_owned()) {
            Ok(Self::Dispute { client_id, txn_id })
        } else if input.txn_type.eq(&"resolve".to_owned()) {
            Ok(Self::Resolve { client_id, txn_id })
        } else if input.txn_type.eq(&"chargeback".to_owned()) {
            Ok(Self::ChargeBack { client_id, txn_id })
        } else {
            Err(ProcessEvent::UnrecognizedTransactionType(input.txn_type))
        }
    }
}

/// Append the character for one digit value.
fn push_digit(out: &mut String, d: u128)
    requires
        d < 10,
    ensures
        final(out)@ == old(out)@.push(decimal::digit_char(d as nat)),
{
    if d == 0 {
        let ghost pre = out@;
        out.append("0");
        proof {
            reveal_strlit("0");
            assert(out@ =~= pre.push('0'));
        }
    } else if d == 1 {
        let ghost pre = out@;
        out.append("1");
        proof {
            reveal_strlit("1");
            assert(out@ =~= pre.push('1'));
        }
    } else if d == 2 {
        let ghost pre = out@;
        out.append("2");
        proof {
            reveal_strlit("2");
            assert(out@ =~= pre.push('2'));
        }
    } else if d == 3 {
        let ghost pre = out@;
        out.append("3");
        proof {
            reveal_strlit("3");
            assert(out@ =~= pre.push('3'));
        }
    } else if d == 4 {
        let ghost pre = out@;
        out.append("4");
        proof {
            reveal_strlit("4");
            assert(out@ =~= pre.push('4'));
        }
    } else if d == 5 {
        let ghost pre = out@;
        out.append("5");
        proof {
            reveal_strlit("5");
            assert(out@ =~= pre.push('5'));
        }
    } else if d == 6 {
        let ghost pre = out@;
        out.append("6");
        proof {
            reveal_strlit("6");
            assert(out@ =~= pre.push('6'));
        }
    } else if d == 7 {
        let ghost pre = out@;
        out.append("7");
        proof {
            reveal_strlit("7");
            assert(out@ =~= pre.push('7'));
        }
    } else if d == 8 {
        let ghost pre = out@;
        out.append("8");
        proof {
            reveal_strlit("8");
            assert(out@ =~= pre.push('8'));
        }
    } else {
        let ghost pre = out@;
        out.append("9");
        proof {
            reveal_strlit("9");
            assert(out@ =~= pre.push('9'));
        }
    }
}

/// The shortest decimal numeral for `n`, per [`decimal::dec_digits`].
fn dec_digits_str(n: u128) -> (r: String)
    ensures
        r@ == decimal::dec_digits(n as nat),
    decreases n,
{
    if n < 10 {
        let mut out = String::new();
        push_digit(&mut out, n);
        proof {
            assert(out@ =~= decimal::dec_digits(n as nat));
        }
        out
    } else {
        let mut out = dec_digits_str(n / 10);
        push_digit(&mut out, n % 10);
        out
    }
}

} // verus!
