//! A discrete-time multi-agent simulation engine.
//!
//! A population of leaky-integrate-and-fire agents ("neurons") advances
//! through synchronized ticks under a `Director`; fired events are routed
//! along a weighted directed graph, and observed signal values can be
//! recorded to an ordered trace-event log for an external waveform sink.

use vstd::prelude::*;

pub mod director;
pub mod error;
pub mod event_schedule_entry;
pub mod laws;
pub mod level;
pub mod linking;
pub mod neuron;
pub mod registry;
pub mod simulation;
pub mod synapse;
pub mod trace;

pub use crate::director::Director;
pub use crate::error::Error;
pub use crate::event_schedule_entry::{Callable, EventEntry};
pub use crate::linking::{BatchLinkingRule, VecOrValueLevel};
pub use crate::simulation::Simulation;

verus! {

/// Identifier a `Director`'s registry assigns to each registered agent,
/// starting at 0 and never reused.
pub type NeuronUniqueId = u32;

} // verus!
