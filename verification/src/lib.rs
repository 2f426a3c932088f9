//! Trace-driven evaluation of branch-prediction algorithms.
//!
//! The crate decodes a recorded stream of branch events, replays it in
//! lockstep against a family of predictors (a none-taken baseline, a local
//! two-level table, gshare, bimodal, and four YAGS tagged-override variants),
//! and accumulates per-predictor miss statistics.

pub mod decoder;
pub mod driver;
pub mod predictor;
pub mod weighted_bool;
pub mod yags;
