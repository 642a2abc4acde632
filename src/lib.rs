//! Order placement against a shared book inventory: request validation,
//! frozen-price totals, an in-memory inventory and order ledger, and the
//! decisions that the HTTP handlers make around them.

pub mod ids;
pub mod order;
pub mod store;
pub mod laws;
pub mod error;
pub mod dtos;
pub mod passwords;
pub mod access;
