//! Type representation of a transaction.

use crate::four_decimals::FourDecimals;
use vstd::prelude::*;

verus! {

/// Type representation of a transaction type.
#[derive(Debug, Clone, Copy, PartialEq, Eq, Structural)]
pub enum TransactionType {
    /// Deposit.
    Deposit,
    /// Withdrawal.
    Withdrawal,
    /// Dispute.
    Dispute,
    /// Resolve.
    Resolve,
    /// Chargeback.
    Chargeback,
}

/// Type representation of a transaction.
#[derive(Debug, PartialEq, Eq)]
pub struct Transaction {
    /// [TransactionType].
    pub kind: TransactionType,
    /// Client id.
    pub client: u16,
    /// Transaction number.
    pub tx: u32,
    /// Amount or None.
    pub amount: Option<FourDecimals>,
}

impl Transaction {
    /// The amount, where there is one, is a valid amount.
    pub open spec fn wf(self) -> bool {
        self.amount is Some ==> self.amount->0.wf()
    }

    /// The amount in ten-thousandths; zero where the transaction has none.
    pub open spec fn amount_value(self) -> nat {
        match self.amount {
            Some(a) => a.value(),
            None => 0,
        }
    }
}

} // verus!
