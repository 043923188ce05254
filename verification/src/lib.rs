//! A payments ledger: it replays an ordered log of deposits, withdrawals,
//! disputes, resolves and chargebacks and reports every client's balances.
//!
//! Money is fixed-point (see [`amount`]). The records of the log are in
//! [`transaction`] and the account state machine in [`client`]. [`ledger`]
//! says what a whole log amounts to, and [`utils`] holds the engine that
//! computes it and writes the report. Logs and reports are comma-separated
//! text, which [`codec`] leaves to the `csv` crate.

pub mod amount;
pub mod client;
pub mod codec;
pub mod ledger;
pub mod transaction;
pub mod utils;
