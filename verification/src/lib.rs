//! Account ledger engine: exact four-decimal amounts, per-client accounts
//! with a dispute lifecycle, and a ledger that routes transactions to them.

pub mod four_decimals;
pub use four_decimals::FourDecimals;

pub mod amount_text;

pub mod transaction;
pub use transaction::{Transaction, TransactionType};

pub mod errors;
pub use errors::MyError;

pub mod client;
pub use client::{AccountState, Client, ClientRaw};

pub mod clients;
pub use clients::Clients;
