//! Pricing and decision core of a cross-pool arbitrage strategy for
//! fixed-maturity "future-yield" (FY) pools.
//!
//! All amounts are integers in on-chain smallest units; prices and
//! curve quantities are fixed-point numbers at a `10^18` scale.

pub mod arith;
pub mod pricing;
pub mod sizer;
pub mod sofr;
pub mod strategy;
pub mod types;
