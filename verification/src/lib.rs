//! Ranking core for speedcubing competition results: a typed result value
//! with a total order, per-competitor best-result profiles, a tie-aware
//! ranking engine, and a sum-of-ranks aggregator.

pub mod aggregate;
pub mod event;
pub mod profile;
pub mod ranking;
pub mod result_value;
pub mod text;
