//! A small credit-decisioning library: it parses tabular client-revenue
//! data, aggregates it per client, computes a churn-adjusted risk score,
//! and classifies each client; it also evaluates loan applications and
//! loan-status lookups against in-memory registries.
//!
//! Monetary amounts are held as fixed-point integers in ten-thousandths
//! of a currency unit, so every computation in the scoring pipeline is
//! exact.

pub mod aggregate;
pub mod errors;
pub mod loan;
pub mod portfolio;
pub mod score;
pub mod sheet;
pub mod status;
pub mod text;
pub mod workbook;
