//! Route discovery and swap simulation for concentrated-liquidity pools
//! whose prices are kept as Q64.64 fixed-point square roots.
//!
//! - [`u256`]: the 256-bit integers that full-precision products need.
//! - [`tick_math`]: ticks and their square-root prices, both ways.
//! - [`swap_math`]: amounts between prices, and one step of a swap.
//! - [`trade`]: a pool, the swap that walks across its ticks, and trades along
//!   a route of pools.
//! - [`routes`]: every path of distinct pools from one token to another.
//! - [`upsert`]: merging pools into a list by id.
//! - [`registry`]: the registry of pools and the operations on it.
//! - [`ingest`]: descriptions of pools read from JSON values.
//! - [`decimal`]: integers in decimal notation.
//! - [`arith`], [`shift_lemmas`], [`swap_lemmas`], [`tick_lemmas`]: the
//!   arithmetic that the proofs of the others rest on.

pub mod arith;
pub mod decimal;
pub mod ingest;
pub mod registry;
pub mod routes;
pub mod shift_lemmas;
pub mod swap_lemmas;
pub mod swap_math;
pub mod tick_lemmas;
pub mod tick_math;
pub mod trade;
pub mod u256;
pub mod upsert;
