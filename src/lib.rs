//! A discrete-time block-diagram simulator.
//!
//! Signals are fixed-point numbers (see [`fixed`]); blocks ([`block`]) are
//! wired into a directed signal graph, ordered within a step by
//! [`schedule`], and advanced step by step by a [`sim::Simulator`].
//! [`laws`] proves properties of blocks and diagrams over the model.
pub mod fixed;
pub mod block;
pub mod schedule;
pub mod sim;
pub mod laws;
