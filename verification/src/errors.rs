//! Errors that the ledger engine signals.

use vstd::prelude::*;

verus! {

/// Errors.
#[derive(Debug, Clone, Copy, PartialEq, Eq, Structural)]
pub enum MyError {
    /// A withdrawal asked for more than the account has available; holds
    /// the client id and the transaction id.
    InsufficientFunds(u16, u32),
    /// A text that is not an amount with at most four decimal digits.
    MalformedAmount,
}

} // verus!
