//! A recurring disbursement ledger: an organization pre-funds a treasury,
//! registers beneficiaries weighted by named multipliers, and beneficiaries
//! periodically claim a share of a fixed base payment for every elapsed
//! payment period.
//!
//! The host environment (block height, caller identity, treasury balance and
//! the transfer primitive) is out of scope: every operation takes the host
//! values it needs as plain parameters and reports the transfer it expects
//! the host to perform.

pub mod errors;
pub mod period;
pub mod types;
pub mod payroll;
