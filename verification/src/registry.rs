//! Routing registry: agent-id allocation, the adjacency structure, and
//! fan-out delivery when an agent fires.
//!
//! Agent ids are issued densely starting at 0 and never reused, so the
//! adjacency structure is an arena indexed by id; an id with no outgoing
//! edges simply owns an empty row.

use vstd::prelude::*;

use crate::error::Error;
use crate::level::Level;
use crate::neuron::lif_neuron::{agent_received, agent_wf, AgentView, LifNeuron};
use crate::neuron::SignalReceiver;
use crate::NeuronUniqueId;

verus! {

/// One outgoing edge: the receiving agent and the synapse weight.
#[derive(Clone, Copy, Debug, PartialEq, Eq)]
pub struct NeuronIdWeightPair {
    pub id: NeuronUniqueId,
    pub weight: Level,
}

/// The ordered outgoing edges of one agent.
pub type ForwardOneToManyConnection = Vec<NeuronIdWeightPair>;

/// Abstract adjacency: for every issued id, its ordered outgoing edges.
pub type AdjacencyView = Seq<Seq<NeuronIdWeightPair>>;

/// The abstract states of a group of agents, in arena order.
pub open spec fn agents_view(agents: Seq<LifNeuron>) -> Seq<AgentView> {
    agents.map_values(|n: LifNeuron| n@)
}

/// The outgoing edges of `id`; an id outside the adjacency has none.
pub open spec fn conns_of(adj: AdjacencyView, id: NeuronUniqueId) -> Seq<NeuronIdWeightPair> {
    if (id as int) < adj.len() {
        adj[id as int]
    } else {
        Seq::empty()
    }
}

/// Delivery of one fired signal along one edge: the destination receives the
/// edge's weight; an unresolvable destination is skipped, not an error.
pub open spec fn deliver_one(agents: Seq<AgentView>, c: NeuronIdWeightPair, t: u32) -> Seq<
    AgentView,
> {
    if (c.id as int) < agents.len() {
        agents.update(c.id as int, agent_received(agents[c.id as int], t, c.weight))
    } else {
        agents
    }
}

/// Delivery along a whole edge list, in list order.
pub open spec fn deliver_conns(
    agents: Seq<AgentView>,
    conns: Seq<NeuronIdWeightPair>,
    t: u32,
) -> Seq<AgentView>
    decreases conns.len(),
{
    if conns.len() == 0 {
        agents
    } else {
        deliver_one(deliver_conns(agents, conns.drop_last(), t), conns.last(), t)
    }
}

/// Receiving a signal keeps an agent well formed.
pub proof fn lemma_agent_received_wf(a: AgentView, t: u32, w: Level)
    requires
        agent_wf(a),
    ensures
        agent_wf(agent_received(a, t, w)),
        agent_received(a, t, w).beta == a.beta,
        agent_received(a, t, w).id == a.id,
{
    crate::neuron::lif_neuron::lemma_insert_sorted(a.queue, t);
}

/// Delivery preserves the number of agents, their ids and well-formedness.
pub proof fn lemma_deliver_conns_wf(
    agents: Seq<AgentView>,
    conns: Seq<NeuronIdWeightPair>,
    t: u32,
)
    requires
        forall|i: int| 0 <= i < agents.len() ==> agent_wf(#[trigger] agents[i]),
    ensures
        deliver_conns(agents, conns, t).len() == agents.len(),
        forall|i: int|
            0 <= i < agents.len() ==> agent_wf(#[trigger] deliver_conns(agents, conns, t)[i]),
        forall|i: int|
            0 <= i < agents.len() ==> (#[trigger] deliver_conns(agents, conns, t)[i]).id
                == agents[i].id,
    decreases conns.len(),
{
    if conns.len() > 0 {
        lemma_deliver_conns_wf(agents, conns.drop_last(), t);
        let mid = deliver_conns(agents, conns.drop_last(), t);
        let c = conns.last();
        if (c.id as int) < mid.len() {
            lemma_agent_received_wf(mid[c.id as int], t, c.weight);
        }
    }
}

/// Owns agent-id allocation and the adjacency structure.
pub struct NeuronRegistrator {
    pub next_available_id: NeuronUniqueId,
    pub assigned_id_vec: Vec<NeuronUniqueId>,
    pub connection_map: Vec<ForwardOneToManyConnection>,
}

impl View for NeuronRegistrator {
    type V = AdjacencyView;

    open spec fn view(&self) -> AdjacencyView {
        self.connection_map@.map_values(|row: ForwardOneToManyConnection| row@)
    }
}

impl NeuronRegistrator {
    /// Registry invariant: one adjacency row per issued id, ids issued
    /// densely from 0, and every edge destination already issued.
    pub open spec fn wf(&self) -> bool {
        &&& self.connection_map@.len() == self.next_available_id as int
        &&& self.assigned_id_vec@.len() == self.next_available_id as int
        &&& forall|i: int|
            0 <= i < self.assigned_id_vec@.len() ==> self.assigned_id_vec@[i] == i
        &&& forall|s: int, k: int|
            0 <= s < self@.len() && 0 <= k < self@[s].len() ==> (#[trigger] self@[s][k]).id
                < self.next_available_id
    }

    /// An empty registry: no ids issued, no edges.
    pub fn new() -> (r: NeuronRegistrator)
        ensures
            r.wf(),
            r.next_available_id == 0,
            r@ =~= Seq::<Seq<NeuronIdWeightPair>>::empty(),
    {
        let r = NeuronRegistrator {
            next_available_id: 0,
            assigned_id_vec: Vec::new(),
            connection_map: Vec::new(),
        };
        proof {
            assert(r@ =~= Seq::<Seq<NeuronIdWeightPair>>::empty());
        }
        r
    }

    /// Issues the next unused id and advances the counter; ids are never
    /// reclaimed.
    pub fn book_id(&mut self) -> (r: NeuronUniqueId)
        requires
            old(self).wf(),
            old(self).next_available_id < NeuronUniqueId::MAX,
        ensures
            final(self).wf(),
            r == old(self).next_available_id,
            final(self).next_available_id == old(self).next_available_id + 1,
            final(self)@ == old(self)@.push(Seq::<NeuronIdWeightPair>::empty()),
    {
        let ret = self.next_available_id;
        self.assigned_id_vec.push(self.next_available_id);
        self.connection_map.push(Vec::new());
        self.next_available_id += 1;
        proof {
            assert(final(self)@ =~= old(self)@.push(Seq::<NeuronIdWeightPair>::empty()));
        }
        ret
    }

    /// Appends an edge to `source_id`'s adjacency row. Succeeds exactly when
    /// both endpoints have been issued; otherwise the registry invariant
    /// would break and `LinkCreate` is returned with nothing changed.
    pub fn link(&mut self, source_id: NeuronUniqueId, dest_id: NeuronUniqueId, weight: Level) -> (r:
        Result<(), Error>)
        requires
            old(self).wf(),
        ensures
            final(self).wf(),
            final(self).next_available_id == old(self).next_available_id,
            source_id < old(self).next_available_id && dest_id < old(self).next_available_id ==> {
                &&& r is Ok
                &&& final(self)@ == old(self)@.update(
                    source_id as int,
                    old(self)@[source_id as int].push(
                        NeuronIdWeightPair { id: dest_id, weight },
                    ),
                )
            },
            !(source_id < old(self).next_available_id && dest_id < old(self).next_available_id)
                ==> {
                &&& r matches Err(Error::LinkCreate(_))
                &&& final(self)@ == old(self)@
            },
    {
        if source_id < self.next_available_id && dest_id < self.next_available_id {
            let added_pair = NeuronIdWeightPair { id: dest_id, weight };
            let row = &mut self.connection_map[source_id as usize];
            row.push(added_pair);
            proof {
                assert(final(self)@ =~= old(self)@.update(
                    source_id as int,
                    old(self)@[source_id as int].push(added_pair),
                ));
            }
            Ok(())
        } else {
            Err(Error::LinkCreate("agent id was never issued by this registry"))
        }
    }

    /// Delivers a fired agent's signal along every one of its outgoing
    /// edges, in row order; destinations run their receive transition at
    /// `time_step` with the edge's weight.
    pub fn fire_from_id(
        &self,
        caller_id: NeuronUniqueId,
        agents: &mut Vec<LifNeuron>,
        time_step: u32,
    ) -> (r: Result<(), Error>)
        requires
            forall|i: int|
                0 <= i < old(agents)@.len() ==> (#[trigger] old(agents)@[i]).wf(),
        ensures
            r is Ok,
            agents_view(final(agents)@) == deliver_conns(
                agents_view(old(agents)@),
                conns_of(self@, caller_id),
                time_step,
            ),
            final(agents)@.len() == old(agents)@.len(),
            forall|i: int| 0 <= i < final(agents)@.len() ==> (#[trigger] final(agents)@[i]).wf(),
    {
        let ghost gstart = agents_view(agents@);
        let ghost conns = conns_of(self@, caller_id);
        if (caller_id as usize) >= self.connection_map.len() {
            proof {
                assert(conns =~= Seq::<NeuronIdWeightPair>::empty());
                assert(agents_view(final(agents)@) == deliver_conns(gstart, conns, time_step));
            }
            return Ok(());
        }
        let row_len = self.connection_map[caller_id as usize].len();
        let mut k: usize = 0;
        while k < row_len
            invariant
                0 <= k <= row_len,
                (caller_id as int) < self@.len(),
                row_len == conns.len(),
                conns == conns_of(self@, caller_id),
                conns == self@[caller_id as int],
                self.connection_map@[caller_id as int]@ == conns,
                agents@.len() == old(agents)@.len(),
                forall|i: int| 0 <= i < agents@.len() ==> (#[trigger] agents@[i]).wf(),
                agents_view(agents@) == deliver_conns(gstart, conns.take(k as int), time_step),
                gstart == agents_view(old(agents)@),
            decreases row_len - k,
        {
            let pair = self.connection_map[caller_id as usize][k];
            let ghost before = agents_view(agents@);
            if (pair.id as usize) < agents.len() {
                let dest = pair.id as usize;
                let n = &mut agents[dest];
                n.recieve_signal(time_step, pair.weight);
                proof {
                    lemma_agent_received_wf(before[dest as int], time_step, pair.weight);
                    assert(agents_view(agents@) =~= deliver_one(before, pair, time_step));
                }
            } else {
                proof {
                    assert(agents_view(agents@) =~= deliver_one(before, pair, time_step));
                }
            }
            proof {
                assert(conns.take(k + 1).drop_last() =~= conns.take(k as int));
                assert(conns.take(k + 1).last() == conns[k as int]);
            }
            k += 1;
        }
        proof {
            assert(conns.take(conns.len() as int) =~= conns);
        }
        Ok(())
    }
}

} // verus!
