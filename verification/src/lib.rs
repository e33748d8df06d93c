//! An on-chain price oracle layer: ABI-encoded price feed updates are decoded,
//! validated against per-feed rules and kept with a short history, from which
//! fresh prices, time-weighted averages and normalized prices are served.

pub mod abi;
pub mod arith;
pub mod bridge;
pub mod calls;
pub mod error;
pub mod history;
pub mod laws;
pub mod rules;
pub mod storage;
pub mod table;
