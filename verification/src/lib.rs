//! Liquidity-weighted token pricing over decentralized-exchange pools.
//!
//! The library normalizes the raw on-chain state of each supported pool
//! family (constant-product reserves, concentrated-liquidity square-root
//! price) into an exact rational `(price, value)` pair and combines the
//! pairs of all pools of one token into a single liquidity-weighted price.
//! All arithmetic is exact: quantities are rationals over `u128`
//! components, checked at every step, so no precision is lost where the
//! components fit and every overflow is reported instead of silently
//! rounding.

pub mod rational;

pub mod address;

pub mod dex;

pub mod sushiswap;

pub mod uniswap_v3;

pub mod aggregator;

pub mod config;

