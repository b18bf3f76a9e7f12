//! Spread arbitrage between two venues quoting the same asset.
//!
//! Prices are fixed-point integers (`PRICE_SCALE` units per currency unit) and
//! spreads are fixed-point percentages (`SPREAD_SCALE` units per percent), so
//! every decision of the engine is exact integer arithmetic.

pub mod spread;
pub mod ledger;
pub mod engine;
pub mod laws;
pub mod price;
