//! Dynamic-pricing engine for a game economy.
//!
//! The library prices buy and sell trades of catalog items with a
//! continuous exponential-decay demand model, modulated by a calendar-
//! and noise-driven environment index, and maintains the in-memory state
//! the surrounding service needs: the market catalog, per-player sales
//! histories, the bounded transaction ring, and the decisions of the
//! batched persistence pipeline.
//!
//! All monetary and index quantities are carried as signed 64-bit counts
//! of micro-units (millionths of a unit), so every formula here is exact
//! integer arithmetic with stated rounding. Exponential decay factors
//! enter as samples in `[0, SCALE]` supplied by the caller — the service
//! computes them with ordinary floating point at the points the engine
//! names — and every contract states the result as an exact function of
//! those samples.

mod clock;
pub mod environment;
pub mod fixed;
pub mod market;
pub mod models;
pub mod persist;
pub mod pricing;
pub mod store;
pub mod trade;
