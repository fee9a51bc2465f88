//! A verified model of a two-party asset-exchange escrow.
//!
//! A maker deposits an amount of asset A into a custody vault controlled
//! only by the escrow logic and records the price it wants in asset B; any
//! taker may atomically pay asset B to the maker and receive the custodied
//! asset A. Offer records live at program-derived addresses, so every
//! operation re-verifies that the accounts it is handed are genuine.

pub mod addr;
pub mod errors;
pub mod state;
pub mod pda;
pub mod model;
pub mod ledger;
pub mod laws;
