//! Error kinds surfaced by the simulation engine.

use vstd::prelude::*;

verus! {

/// Everything that can go wrong while building or running a simulation.
///
/// `Io` stands for a failure of the external trace sink, `Poison` for a lock
/// left poisoned by a panicking holder, `LinkCreate` for a routing-registry
/// invariant violation, `JoinHandle` for a worker that terminated abnormally,
/// and `FromInt` for an index or size conversion that overflowed.
#[derive(Clone, Copy, Debug, PartialEq, Eq)]
pub enum Error {
    Io,
    Poison,
    LinkCreate(&'static str),
    JoinHandle,
    FromInt,
}

} // verus!
