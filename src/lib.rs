//! A pooled lending ledger. Lenders deposit into a shared pool; borrowers draw loans
//! against it within their limits; each loan records every funding lender's stake and
//! accrues a daily fee; repayments go back to those lenders by their stakes, less a cut
//! for the vault.
//!
//! The ledger decides and records. Moving tokens, authenticating callers, drawing
//! loan ids and reading the clock belong to the host, which hands the ledger the time
//! and the id and performs the transfers that each operation returns.

pub mod clear;
pub mod errors;
pub mod laws;
pub mod operations;
pub mod percentage;
pub mod pool;
pub mod state;
pub mod types;
