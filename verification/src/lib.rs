//! Dynamic-programming sweeps for a rectangular grid-world Markov decision
//! process with deterministic wall-bounce transitions.
//!
//! The library computes value functions and greedy policies by classical
//! sweeps: policy evaluation (synchronous two-buffer or in-place) and value
//! iteration, with an optional greedy policy-improvement pass. All numeric
//! state is held in binary fixed point (signed 64-bit counts of `1/SCALE`),
//! so every update is exact, reproducible, and provable; a renderer may
//! divide by `SCALE` for display.

pub mod config;
pub mod engine;
pub mod laws;
pub mod num;
pub mod table;
