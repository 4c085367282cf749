//! Turning Splitwise expenses into YNAB transactions.

pub mod decimal;
pub mod models;
pub mod usecases;
pub mod ports;
pub mod adapters;
