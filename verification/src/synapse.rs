//! Weighted directed edges between agents.

use vstd::prelude::*;

use crate::level::Level;
use crate::NeuronUniqueId;

verus! {

/// An immutable weighted directed edge toward one receiving agent.
#[derive(Clone, Copy, Debug, PartialEq, Eq)]
pub struct Connection {
    pub recepient: NeuronUniqueId,
    pub weight: Level,
}

/// An ordered group of outgoing connections.
#[derive(Clone, Debug)]
pub struct SynapseGroup {
    pub connections: Vec<Connection>,
}

impl SynapseGroup {
    /// A fresh group with no connections.
    pub fn new() -> (r: Option<SynapseGroup>)
        ensures
            r matches Some(g) && g.connections@ =~= Seq::<Connection>::empty(),
    {
        Some(SynapseGroup { connections: Vec::new() })
    }
}

} // verus!
