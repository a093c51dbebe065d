//! The synchronized tick scheduler.
//!
//! A `Director` owns one cohort of agents plus the routing registry and
//! drives the tick loop. Every round has a compute phase — each agent, in
//! arena order, leaks up to the current tick, reports its observed level,
//! and drains its queued fire events equal to the tick — followed by a
//! delivery phase routing every reported fire along the registry's edges.
//! If at least one agent fired, the tick does not advance, so a firing
//! cascade settles across further rounds at the same logical tick; when no
//! agent fired, the clock moves by exactly one. `round` is the functional
//! specification of one such round and every run is, by contract, an
//! iterate of it.

use vstd::prelude::*;

use crate::error::Error;
use crate::level::Level;
use crate::neuron::lif_neuron::{
    agent_computed, agent_inited, agent_leaked, agent_wf, agent_with_id, lead_run, AgentView,
    LifNeuron,
};
use crate::neuron::{HasId, Init, SignalReceiver, TimeDependent};
use crate::registry::{
    agents_view, conns_of, deliver_conns, lemma_deliver_conns_wf, AdjacencyView,
    NeuronIdWeightPair, NeuronRegistrator,
};
use crate::trace::{log_extended, TraceEvent, TraceLog};
use crate::NeuronUniqueId;

verus! {

/// How many consecutive rounds a firing cascade may hold the clock at one
/// tick before the run is given up. A cyclic topology whose weights keep
/// re-crossing thresholds would otherwise spin its workers forever; such a
/// configuration is a caller-level error, and a run that hits this cap
/// aborts with `Error::JoinHandle` — its workers would never come home.
pub const MAX_CASCADE_ROUNDS: u32 = 10000;

/// Abstract state of a director: its agents in arena order, the adjacency
/// of its registry, the clock, and its name.
pub struct DirectorView {
    pub agents: Seq<AgentView>,
    pub adjacency: AdjacencyView,
    pub sim_time: u32,
    pub cur_time: u32,
    pub name: NeuronUniqueId,
}

/// Well-formedness of a director's abstract state: one adjacency row per
/// agent, agents well formed and standing at the arena slot of their own
/// id, and every edge destination resolvable.
pub open spec fn dir_view_wf(d: DirectorView) -> bool {
    &&& d.adjacency.len() == d.agents.len()
    &&& forall|i: int|
        0 <= i < d.agents.len() ==> agent_wf(#[trigger] d.agents[i]) && d.agents[i].id == i
    &&& forall|s: int, k: int|
        0 <= s < d.adjacency.len() && 0 <= k < d.adjacency[s].len() ==> (
        #[trigger] d.adjacency[s][k]).id < d.agents.len()
}

/// All agents after the compute phase of a round at tick `t`.
pub open spec fn compute_all(agents: Seq<AgentView>, t: u32) -> Seq<AgentView> {
    agents.map_values(|a: AgentView| agent_computed(a, t))
}

/// The fire reports of the first `i` agents, in arena order: each agent
/// reports its own id once per leading queue entry equal to `t`.
pub open spec fn fired_upto(agents: Seq<AgentView>, t: u32, i: int) -> Seq<NeuronUniqueId>
    decreases i,
{
    if i <= 0 {
        Seq::empty()
    } else {
        fired_upto(agents, t, i - 1) + Seq::new(
            lead_run(agents[i - 1].queue, t),
            |j: int| agents[i - 1].id,
        )
    }
}

/// All fire reports of one round at tick `t`, in arena order.
pub open spec fn fired_of(agents: Seq<AgentView>, t: u32) -> Seq<NeuronUniqueId> {
    fired_upto(agents, t, agents.len() as int)
}

/// Delivery of every reported fire, in report order, along the reporter's
/// outgoing edges.
pub open spec fn deliver_all(
    agents: Seq<AgentView>,
    adj: AdjacencyView,
    fired: Seq<NeuronUniqueId>,
    t: u32,
) -> Seq<AgentView>
    decreases fired.len(),
{
    if fired.len() == 0 {
        agents
    } else {
        deliver_conns(
            deliver_all(agents, adj, fired.drop_last(), t),
            conns_of(adj, fired.last()),
            t,
        )
    }
}

/// One full round of the tick loop: compute phase, delivery phase, then the
/// clock — which advances by exactly one if no agent fired and stands still
/// otherwise.
pub open spec fn round(d: DirectorView) -> DirectorView {
    let fired = fired_of(d.agents, d.cur_time);
    DirectorView {
        agents: deliver_all(compute_all(d.agents, d.cur_time), d.adjacency, fired, d.cur_time),
        cur_time: if fired.len() == 0 {
            (d.cur_time + 1) as u32
        } else {
            d.cur_time
        },
        ..d
    }
}

/// `n` successive rounds.
pub open spec fn iter_round(d: DirectorView, n: nat) -> DirectorView
    decreases n,
{
    if n == 0 {
        d
    } else {
        round(iter_round(d, (n - 1) as nat))
    }
}

/// The director after start-up: every agent has folded its planned
/// impulses into its event queue.
pub open spec fn dir_inited(d: DirectorView) -> DirectorView {
    DirectorView { agents: d.agents.map_values(|a: AgentView| agent_inited(a)), ..d }
}

/// The declaration events a director contributes to the trace: its scope,
/// one variable per agent in arena order, then the scope's end.
pub open spec fn decl_trace(d: DirectorView) -> Seq<TraceEvent> {
    seq![TraceEvent::OpenScope(d.name)] + Seq::new(
        d.agents.len(),
        |i: int| TraceEvent::DeclareVar { director: d.name, agent: d.agents[i].id },
    ) + seq![TraceEvent::CloseScope]
}

/// The value events of one round: every agent's post-leak level in arena
/// order, then a time advance exactly when no agent fired.
pub open spec fn round_trace(d: DirectorView) -> Seq<TraceEvent> {
    Seq::new(
        d.agents.len(),
        |i: int| TraceEvent::WriteValue {
            director: d.name,
            agent: d.agents[i].id,
            level: agent_leaked(d.agents[i], d.cur_time).potential as Level,
        },
    ) + if fired_of(d.agents, d.cur_time).len() == 0 {
        seq![TraceEvent::AdvanceTime((d.cur_time + 1) as u32)]
    } else {
        Seq::<TraceEvent>::empty()
    }
}

/// The cascade counter after `n` rounds of a run from `d`: how many
/// consecutive rounds, counting backwards from round `n`, reported at
/// least one fire (and so held the clock still).
pub open spec fn cascade_after(d: DirectorView, n: nat) -> nat
    decreases n,
{
    if n == 0 {
        0
    } else {
        let prev = iter_round(d, (n - 1) as nat);
        if fired_of(prev.agents, prev.cur_time).len() == 0 {
            0
        } else {
            cascade_after(d, (n - 1) as nat) + 1
        }
    }
}

/// A run from state `d` settles: some iterate reaches the tick budget
/// without any earlier iterate having held a firing cascade for
/// `MAX_CASCADE_ROUNDS` consecutive rounds. This is exactly the condition
/// under which `start_planned` succeeds.
pub open spec fn run_settles(d: DirectorView) -> bool {
    exists|n: nat|
        (#[trigger] iter_round(d, n)).cur_time == d.sim_time && (forall|m: nat|
            m < n ==> #[trigger] cascade_after(d, m) < MAX_CASCADE_ROUNDS)
}

/// The initial value dump of a director's run: its begin marker, every
/// agent's starting level in arena order, then its end marker.
pub open spec fn initial_dump_trace(d: DirectorView) -> Seq<TraceEvent> {
    seq![TraceEvent::BeginValues(d.name)] + Seq::new(
        d.agents.len(),
        |i: int| TraceEvent::WriteValue {
            director: d.name,
            agent: d.agents[i].id,
            level: d.agents[i].potential as Level,
        },
    ) + seq![TraceEvent::EndValues(d.name)]
}

/// The value events of the first `n` rounds of a run from `d`, in order.
pub open spec fn rounds_trace(d: DirectorView, n: nat) -> Seq<TraceEvent>
    decreases n,
{
    if n == 0 {
        Seq::empty()
    } else {
        rounds_trace(d, (n - 1) as nat) + round_trace(iter_round(d, (n - 1) as nat))
    }
}

/// Delivery of a fire list preserves agent count, ids and well-formedness.
pub proof fn lemma_deliver_all_wf(
    agents: Seq<AgentView>,
    adj: AdjacencyView,
    fired: Seq<NeuronUniqueId>,
    t: u32,
)
    requires
        forall|i: int| 0 <= i < agents.len() ==> agent_wf(#[trigger] agents[i]),
    ensures
        deliver_all(agents, adj, fired, t).len() == agents.len(),
        forall|i: int|
            0 <= i < agents.len() ==> agent_wf(#[trigger] deliver_all(agents, adj, fired, t)[i]),
        forall|i: int|
            0 <= i < agents.len() ==> (#[trigger] deliver_all(agents, adj, fired, t)[i]).id
                == agents[i].id,
    decreases fired.len(),
{
    if fired.len() > 0 {
        lemma_deliver_all_wf(agents, adj, fired.drop_last(), t);
        lemma_deliver_conns_wf(
            deliver_all(agents, adj, fired.drop_last(), t),
            conns_of(adj, fired.last()),
            t,
        );
    }
}

/// A round preserves the director's well-formedness, its shape, and never
/// moves the clock by more than one.
pub proof fn lemma_round_wf(d: DirectorView)
    requires
        dir_view_wf(d),
    ensures
        dir_view_wf(round(d)),
        round(d).agents.len() == d.agents.len(),
        round(d).sim_time == d.sim_time,
        round(d).adjacency == d.adjacency,
        round(d).name == d.name,
        d.cur_time < u32::MAX ==> d.cur_time <= round(d).cur_time <= d.cur_time + 1,
{
    let t = d.cur_time;
    let computed = compute_all(d.agents, t);
    assert forall|i: int| 0 <= i < computed.len() implies agent_wf(#[trigger] computed[i])
        && computed[i].id == d.agents[i].id by {
        let m = agent_leaked(d.agents[i], t);
        let r = lead_run(m.queue, t) as int;
        crate::neuron::lif_neuron::lemma_lead_run_le(m.queue, t);
        assert(computed[i] == agent_computed(d.agents[i], t));
        assert forall|a: int, b: int|
            0 <= a < b < m.queue.skip(r).len() implies m.queue.skip(r)[a] <= m.queue.skip(
            r,
        )[b] by {
            assert(m.queue.skip(r)[a] == m.queue[a + r]);
            assert(m.queue.skip(r)[b] == m.queue[b + r]);
        }
    }
    lemma_deliver_all_wf(computed, d.adjacency, fired_of(d.agents, t), t);
}

/// `n` rounds preserve the director's well-formedness and shape.
pub proof fn lemma_iter_round_wf(d: DirectorView, n: nat)
    requires
        dir_view_wf(d),
    ensures
        dir_view_wf(iter_round(d, n)),
        iter_round(d, n).agents.len() == d.agents.len(),
        iter_round(d, n).sim_time == d.sim_time,
        iter_round(d, n).adjacency == d.adjacency,
        iter_round(d, n).name == d.name,
    decreases n,
{
    if n > 0 {
        lemma_iter_round_wf(d, (n - 1) as nat);
        lemma_round_wf(iter_round(d, (n - 1) as nat));
    }
}

/// Owns one cohort of agents plus the routing registry and drives the
/// synchronized tick loop across them.
pub struct Director {
    pub subordinates: Vec<LifNeuron>,
    pub sim_time: u32,
    pub cur_time: u32,
    pub planner: NeuronRegistrator,
    pub name: NeuronUniqueId,
}

impl View for Director {
    type V = DirectorView;

    open spec fn view(&self) -> DirectorView {
        DirectorView {
            agents: agents_view(self.subordinates@),
            adjacency: self.planner@,
            sim_time: self.sim_time,
            cur_time: self.cur_time,
            name: self.name,
        }
    }
}

impl Director {
    /// Director invariant: a well-formed registry issuing exactly one id
    /// per agent, a well-formed abstract state, and a clock inside the
    /// budget.
    pub open spec fn wf(&self) -> bool {
        &&& self.planner.wf()
        &&& self.subordinates@.len() == self.planner.next_available_id as int
        &&& dir_view_wf(self@)
        &&& self.cur_time <= self.sim_time
    }

    /// A fresh director with tick budget `sim_time`, named `id`, with no
    /// agents and no edges.
    pub fn new(sim_time: u32, id: u32) -> (r: Option<Director>)
        ensures
            r matches Some(d) && d.wf() && d@ == (DirectorView {
                agents: Seq::empty(),
                adjacency: Seq::empty(),
                sim_time,
                cur_time: 0,
                name: id,
            }),
    {
        let d = Director {
            subordinates: Vec::new(),
            sim_time,
            cur_time: 0,
            planner: NeuronRegistrator::new(),
            name: id,
        };
        proof {
            assert(agents_view(d.subordinates@) =~= Seq::<AgentView>::empty());
            assert(d@ =~= (DirectorView {
                agents: Seq::empty(),
                adjacency: Seq::empty(),
                sim_time,
                cur_time: 0,
                name: id,
            }));
        }
        Some(d)
    }

    /// Advances the clock by exactly one tick.
    pub fn increment_time(&mut self)
        requires
            old(self).cur_time < u32::MAX,
        ensures
            final(self).cur_time == old(self).cur_time + 1,
            final(self).subordinates == old(self).subordinates,
            final(self).planner == old(self).planner,
            final(self).sim_time == old(self).sim_time,
            final(self).name == old(self).name,
    {
        self.cur_time += 1;
    }

    /// Registers an agent: books the next id, brands the agent with it and
    /// takes ownership. Never fails while ids remain.
    pub fn add_to_registry(&mut self, added_subordinate: LifNeuron) -> (r: Result<
        NeuronUniqueId,
        Error,
    >)
        requires
            old(self).wf(),
            added_subordinate.wf(),
            old(self).planner.next_available_id < NeuronUniqueId::MAX,
        ensures
            final(self).wf(),
            r == Ok::<NeuronUniqueId, Error>(old(self).planner.next_available_id),
            final(self)@ == (DirectorView {
                agents: old(self)@.agents.push(
                    agent_with_id(added_subordinate@, old(self).planner.next_available_id),
                ),
                adjacency: old(self)@.adjacency.push(Seq::empty()),
                ..old(self)@
            }),
            final(self).planner.next_available_id == old(self).planner.next_available_id + 1,
    {
        let id = self.planner.book_id();
        let mut neuron = added_subordinate;
        neuron.set_id(id);
        self.subordinates.push(neuron);
        proof {
            assert(agents_view(self.subordinates@) =~= agents_view(old(self).subordinates@).push(
                agent_with_id(added_subordinate@, id),
            ));
            assert(final(self)@ =~= (DirectorView {
                agents: old(self)@.agents.push(agent_with_id(added_subordinate@, id)),
                adjacency: old(self)@.adjacency.push(Seq::empty()),
                ..old(self)@
            }));
        }
        Ok(id)
    }

    /// Appends one weighted edge to the registry. Succeeds exactly when
    /// both endpoints were issued by this director.
    pub fn create_link(
        &mut self,
        source: NeuronUniqueId,
        destination: NeuronUniqueId,
        weight: Level,
    ) -> (r: Result<(), Error>)
        requires
            old(self).wf(),
        ensures
            final(self).wf(),
            source < old(self)@.agents.len() && destination < old(self)@.agents.len() ==> {
                &&& r is Ok
                &&& final(self)@ == (DirectorView {
                    adjacency: old(self)@.adjacency.update(
                        source as int,
                        old(self)@.adjacency[source as int].push(
                            NeuronIdWeightPair { id: destination, weight },
                        ),
                    ),
                    ..old(self)@
                })
            },
            !(source < old(self)@.agents.len() && destination < old(self)@.agents.len()) ==> {
                &&& r matches Err(Error::LinkCreate(_))
                &&& final(self)@ == old(self)@
            },
    {
        let r = self.planner.link(source, destination, weight);
        proof {
            if source < old(self)@.agents.len() && destination < old(self)@.agents.len() {
                assert(final(self)@ =~= (DirectorView {
                    adjacency: old(self)@.adjacency.update(
                        source as int,
                        old(self)@.adjacency[source as int].push(
                            NeuronIdWeightPair { id: destination, weight },
                        ),
                    ),
                    ..old(self)@
                }));
            } else {
                assert(final(self)@ =~= old(self)@);
            }
        }
        r
    }

    /// One full round of the tick loop: the compute phase over every agent
    /// in arena order, delivery of every reported fire in report order, and
    /// the clock update. Returns the ids reported this round.
    pub fn run_round(&mut self, log: &mut TraceLog) -> (fired: Vec<NeuronUniqueId>)
        requires
            old(self).wf(),
            old(self).cur_time < old(self).sim_time,
        ensures
            final(self).wf(),
            final(self)@ == round(old(self)@),
            fired@ == fired_of(old(self)@.agents, old(self)@.cur_time),
            log_extended(*old(log), *final(log), round_trace(old(self)@)),
    {
        let t = self.cur_time;
        let ghost d0 = self@;
        let ghost ga = d0.agents;
        let ghost log0 = *log;
        let ghost values = Seq::new(
            ga.len(),
            |i: int| TraceEvent::WriteValue {
                director: d0.name,
                agent: ga[i].id,
                level: agent_leaked(ga[i], t).potential as Level,
            },
        );
        let mut fired: Vec<NeuronUniqueId> = Vec::new();
        let n = self.subordinates.len();
        let mut i: usize = 0;
        proof {
            assert(values.take(0) =~= Seq::<TraceEvent>::empty());
            assert(log_extended(log0, *log, values.take(0)));
            assert forall|j: int| 0 <= j < n implies (#[trigger] self.subordinates@[j]).wf()
                && self.subordinates@[j]@ == ga[j] by {
                assert(agents_view(self.subordinates@)[j] == self.subordinates@[j]@);
                assert(agent_wf(d0.agents[j]));
            }
        }
        while i < n
            invariant
                0 <= i <= n,
                n == self.subordinates@.len(),
                n == ga.len(),
                d0 == old(self)@,
                ga == d0.agents,
                t == d0.cur_time,
                self.cur_time == d0.cur_time,
                self.sim_time == d0.sim_time,
                self.name == d0.name,
                self.planner == old(self).planner,
                forall|j: int|
                    0 <= j < i ==> (#[trigger] self.subordinates@[j])@ == agent_computed(
                        ga[j],
                        t,
                    ),
                forall|j: int| i <= j < n ==> (#[trigger] self.subordinates@[j])@ == ga[j],
                forall|j: int| 0 <= j < n ==> (#[trigger] self.subordinates@[j]).wf(),
                fired@ == fired_upto(ga, t, i as int),
                log_extended(log0, *log, values.take(i as int)),
                values == Seq::new(
                    ga.len(),
                    |j: int| TraceEvent::WriteValue {
                        director: d0.name,
                        agent: ga[j].id,
                        level: agent_leaked(ga[j], t).potential as Level,
                    },
                ),
            decreases n - i,
        {
            let ghost log_pre = *log;
            let nr = &mut self.subordinates[i];
            let aid = match nr.get_id() {
                Some(v) => v,
                None => 0,
            };
            let lvl = nr.compute_round(t, &mut fired);
            log.push(TraceEvent::WriteValue { director: self.name, agent: aid, level: lvl });
            proof {
                assert(values.take(i + 1) =~= values.take(i as int).push(values[i as int]));
                assert(values.take(i as int) + seq![values[i as int]] =~= values.take(i + 1));
                crate::trace::lemma_log_extended_trans(
                    log0,
                    log_pre,
                    *log,
                    values.take(i as int),
                    seq![values[i as int]],
                );
                assert(fired@ =~= fired_upto(ga, t, i + 1));
            }
            i += 1;
        }
        let ghost computed = compute_all(ga, t);
        proof {
            assert forall|j: int|
                0 <= j < n implies agents_view(self.subordinates@)[j] == computed[j] by {
                assert(agents_view(self.subordinates@)[j] == self.subordinates@[j]@);
                assert(computed[j] == agent_computed(ga[j], t));
            }
            assert(agents_view(self.subordinates@) =~= computed);
            assert(values.take(n as int) =~= values);
            assert(fired@ == fired_of(ga, t));
        }
        let fired_count = fired.len();
        let mut k: usize = 0;
        proof {
            assert(fired@.take(0) =~= Seq::<NeuronUniqueId>::empty());
        }
        while k < fired_count
            invariant
                0 <= k <= fired_count,
                fired_count == fired@.len(),
                fired@ == fired_of(ga, t),
                d0 == old(self)@,
                ga == d0.agents,
                t == d0.cur_time,
                self.cur_time == d0.cur_time,
                self.sim_time == d0.sim_time,
                self.name == d0.name,
                self.planner == old(self).planner,
                self.subordinates@.len() == ga.len(),
                forall|j: int| 0 <= j < ga.len() ==> (#[trigger] self.subordinates@[j]).wf(),
                agents_view(self.subordinates@) == deliver_all(
                    computed,
                    d0.adjacency,
                    fired@.take(k as int),
                    t,
                ),
                computed == compute_all(ga, t),
            decreases fired_count - k,
        {
            let id = fired[k];
            let _ = self.planner.fire_from_id(id, &mut self.subordinates, t);
            proof {
                assert(fired@.take(k + 1).drop_last() =~= fired@.take(k as int));
                assert(fired@.take(k + 1).last() == fired@[k as int]);
            }
            k += 1;
        }
        proof {
            assert(fired@.take(fired_count as int) =~= fired@);
        }
        let ghost log_mid = *log;
        if fired_count == 0 {
            self.increment_time();
            log.push(TraceEvent::AdvanceTime(self.cur_time));
        }
        proof {
            lemma_round_wf(d0);
            assert(self@ =~= round(d0));
            if fired_count == 0 {
                crate::trace::lemma_log_extended_trans(
                    log0,
                    log_mid,
                    *log,
                    values,
                    seq![TraceEvent::AdvanceTime((d0.cur_time + 1) as u32)],
                );
                assert(values + seq![TraceEvent::AdvanceTime((d0.cur_time + 1) as u32)]
                    =~= round_trace(d0));
            } else {
                assert(values + Seq::<TraceEvent>::empty() =~= round_trace(d0));
                assert(log_extended(log0, *log, round_trace(d0)));
            }
        }
        fired
    }

    /// Start-up of a run: every agent folds its planned impulses into its
    /// event queue, and the trace gains this director's declaration scope —
    /// one variable per agent — before any value is written. Never fails.
    pub fn init_planned(&mut self, log: &mut TraceLog) -> (r: Result<(), Error>)
        requires
            old(self).wf(),
        ensures
            r is Ok,
            final(self).wf(),
            final(self)@ == dir_inited(old(self)@),
            log_extended(*old(log), *final(log), decl_trace(old(self)@)),
    {
        let ghost d0 = self@;
        let ghost ga = d0.agents;
        let ghost log0 = *log;
        let ghost decls = Seq::new(
            ga.len(),
            |j: int| TraceEvent::DeclareVar { director: d0.name, agent: ga[j].id },
        );
        log.push(TraceEvent::OpenScope(self.name));
        let n = self.subordinates.len();
        proof {
            assert(decls.take(0) =~= Seq::<TraceEvent>::empty());
            assert(seq![TraceEvent::OpenScope(d0.name)] + decls.take(0) =~= seq![
                TraceEvent::OpenScope(d0.name),
            ]);
            assert forall|j: int| 0 <= j < n implies (#[trigger] self.subordinates@[j]).wf()
                && self.subordinates@[j]@ == ga[j] by {
                assert(agents_view(self.subordinates@)[j] == self.subordinates@[j]@);
                assert(agent_wf(d0.agents[j]));
            }
        }
        let mut i: usize = 0;
        while i < n
            invariant
                0 <= i <= n,
                n == self.subordinates@.len(),
                n == ga.len(),
                d0 == old(self)@,
                ga == d0.agents,
                self.cur_time == d0.cur_time,
                self.sim_time == d0.sim_time,
                self.name == d0.name,
                self.planner == old(self).planner,
                forall|j: int|
                    0 <= j < i ==> (#[trigger] self.subordinates@[j])@ == agent_inited(ga[j]),
                forall|j: int| i <= j < n ==> (#[trigger] self.subordinates@[j])@ == ga[j],
                forall|j: int| 0 <= j < n ==> (#[trigger] self.subordinates@[j]).wf(),
                log_extended(log0, *log, seq![TraceEvent::OpenScope(d0.name)] + decls.take(i as int)),
                decls == Seq::new(
                    ga.len(),
                    |j: int| TraceEvent::DeclareVar { director: d0.name, agent: ga[j].id },
                ),
            decreases n - i,
        {
            let ghost log_pre = *log;
            let nr = &mut self.subordinates[i];
            let aid = match nr.get_id() {
                Some(v) => v,
                None => 0,
            };
            nr.init();
            log.push(TraceEvent::DeclareVar { director: self.name, agent: aid });
            proof {
                crate::trace::lemma_log_extended_trans(
                    log0,
                    log_pre,
                    *log,
                    seq![TraceEvent::OpenScope(d0.name)] + decls.take(i as int),
                    seq![decls[i as int]],
                );
                assert((seq![TraceEvent::OpenScope(d0.name)] + decls.take(i as int)) + seq![
                    decls[i as int],
                ] =~= seq![TraceEvent::OpenScope(d0.name)] + decls.take(i + 1));
            }
            i += 1;
        }
        let ghost log_pre2 = *log;
        log.push(TraceEvent::CloseScope);
        proof {
            assert(decls.take(n as int) =~= decls);
            crate::trace::lemma_log_extended_trans(
                log0,
                log_pre2,
                *log,
                seq![TraceEvent::OpenScope(d0.name)] + decls,
                seq![TraceEvent::CloseScope],
            );
            assert((seq![TraceEvent::OpenScope(d0.name)] + decls) + seq![TraceEvent::CloseScope]
                =~= decl_trace(d0));
            assert forall|j: int|
                0 <= j < n implies agents_view(self.subordinates@)[j] == agent_inited(
                ga[j],
            ) by {
                assert(agents_view(self.subordinates@)[j] == self.subordinates@[j]@);
            }
            assert(agents_view(self.subordinates@) =~= ga.map_values(
                |a: AgentView| agent_inited(a),
            ));
            assert(self@ =~= dir_inited(d0));
        }
        Ok(())
    }

    /// The whole run: an initial value dump for this director, then rounds
    /// until the clock reaches the tick budget. The final state is always
    /// an iterate of `round` and the trace gains exactly the dump plus the
    /// value events of every round run. The run succeeds — ending exactly
    /// at the budget — if and only if it settles (`run_settles`); it is
    /// given up, with the final iterate's last `MAX_CASCADE_ROUNDS` rounds
    /// all firing, exactly when some tick's cascade never lets the clock
    /// advance.
    pub fn start_planned(&mut self, log: &mut TraceLog) -> (r: Result<(), Error>)
        requires
            old(self).wf(),
        ensures
            final(self).wf(),
            r is Ok <==> final(self).cur_time == final(self).sim_time,
            r is Ok <==> run_settles(old(self)@),
            r is Err ==> r == Err::<(), Error>(Error::JoinHandle) && exists|n: nat|
                final(self)@ == iter_round(old(self)@, n) && #[trigger] cascade_after(
                    old(self)@,
                    n,
                ) >= MAX_CASCADE_ROUNDS,
            exists|n: nat|
                final(self)@ == #[trigger] iter_round(old(self)@, n) && log_extended(
                    *old(log),
                    *final(log),
                    initial_dump_trace(old(self)@) + rounds_trace(old(self)@, n),
                ),
            exists|s: Seq<TraceEvent>|
                log_extended(*old(log), *final(log), s) && (forall|i: int|
                    0 <= i < s.len() ==> crate::trace::is_value_event(#[trigger] s[i])),
    {
        let ghost d0 = self@;
        let ghost ga = d0.agents;
        let ghost log0 = *log;
        let ghost mut body: Seq<TraceEvent> = Seq::empty();
        let ghost dump_values = Seq::new(
            ga.len(),
            |k: int| TraceEvent::WriteValue {
                director: d0.name,
                agent: ga[k].id,
                level: ga[k].potential as Level,
            },
        );
        let ghost log_pre = *log;
        log.push(TraceEvent::BeginValues(self.name));
        proof {
            body = seq![TraceEvent::BeginValues(d0.name)];
            assert(Seq::<TraceEvent>::empty() + body =~= body);
            assert(dump_values.take(0) =~= Seq::<TraceEvent>::empty());
            assert(body + dump_values.take(0) =~= body);
        }
        let n = self.subordinates.len();
        let mut i: usize = 0;
        while i < n
            invariant
                0 <= i <= n,
                n == self.subordinates@.len(),
                n == ga.len(),
                d0 == old(self)@,
                ga == d0.agents,
                *self == *old(self),
                dump_values == Seq::new(
                    ga.len(),
                    |k: int| TraceEvent::WriteValue {
                        director: d0.name,
                        agent: ga[k].id,
                        level: ga[k].potential as Level,
                    },
                ),
                body == seq![TraceEvent::BeginValues(d0.name)] + dump_values.take(i as int),
                log_extended(log0, *log, body),
                forall|j: int| 0 <= j < body.len() ==> crate::trace::is_value_event(#[trigger] body[j]),
            decreases n - i,
        {
            let ghost log_pre3 = *log;
            let nr = &self.subordinates[i];
            let aid = match nr.get_id() {
                Some(v) => v,
                None => 0,
            };
            let lvl = match nr.get_signal() {
                Some(v) => v,
                None => 0,
            };
            let e = TraceEvent::WriteValue { director: self.name, agent: aid, level: lvl };
            log.push(e);
            proof {
                assert(agents_view(self.subordinates@)[i as int] == self.subordinates@[i as int]@);
                assert(e == dump_values[i as int]);
                crate::trace::lemma_log_extended_trans(log0, log_pre3, *log, body, seq![e]);
                assert(dump_values.take(i + 1) =~= dump_values.take(i as int).push(
                    dump_values[i as int],
                ));
                assert(body + seq![e] =~= seq![TraceEvent::BeginValues(d0.name)]
                    + dump_values.take(i + 1));
                body = body + seq![e];
            }
            i += 1;
        }
        let ghost log_pre4 = *log;
        log.push(TraceEvent::EndValues(self.name));
        proof {
            crate::trace::lemma_log_extended_trans(
                log0,
                log_pre4,
                *log,
                body,
                seq![TraceEvent::EndValues(d0.name)],
            );
            assert(dump_values.take(n as int) =~= dump_values);
            body = body + seq![TraceEvent::EndValues(d0.name)];
            assert(body =~= initial_dump_trace(d0));
            assert(rounds_trace(d0, 0) =~= Seq::<TraceEvent>::empty());
            assert(body =~= initial_dump_trace(d0) + rounds_trace(d0, 0));
        }
        let ghost mut rounds: nat = 0;
        let mut cascade_rounds: u32 = 0;
        while self.cur_time != self.sim_time && cascade_rounds < MAX_CASCADE_ROUNDS
            invariant
                self.wf(),
                d0 == old(self)@,
                dir_view_wf(d0),
                self@ == iter_round(d0, rounds),
                cascade_rounds <= MAX_CASCADE_ROUNDS,
                cascade_rounds == cascade_after(d0, rounds),
                forall|m: nat|
                    m < rounds ==> #[trigger] cascade_after(d0, m) < MAX_CASCADE_ROUNDS
                        && iter_round(d0, m).cur_time != d0.sim_time,
                body == initial_dump_trace(d0) + rounds_trace(d0, rounds),
                log_extended(log0, *log, body),
                forall|j: int| 0 <= j < body.len() ==> crate::trace::is_value_event(#[trigger] body[j]),
            decreases self.sim_time - self.cur_time, MAX_CASCADE_ROUNDS - cascade_rounds,
        {
            let ghost log_pre5 = *log;
            let ghost dcur = self@;
            let ghost rounds0 = rounds;
            let ghost casc0 = cascade_rounds;
            let fired = self.run_round(log);
            if fired.len() == 0 {
                cascade_rounds = 0;
            } else {
                cascade_rounds += 1;
            }
            proof {
                assert(dcur == iter_round(d0, rounds0));
                assert(iter_round(d0, rounds0).sim_time == d0.sim_time) by {
                    lemma_iter_round_wf(d0, rounds0);
                }
                assert forall|m: nat|
                    m < rounds0 + 1 implies #[trigger] cascade_after(d0, m)
                    < MAX_CASCADE_ROUNDS && iter_round(d0, m).cur_time != d0.sim_time by {
                    if m == rounds0 {
                        assert(cascade_after(d0, rounds0) == casc0);
                        assert(iter_round(d0, rounds0).cur_time != d0.sim_time);
                    }
                }
                crate::trace::lemma_log_extended_trans(
                    log0,
                    log_pre5,
                    *log,
                    body,
                    round_trace(dcur),
                );
                assert forall|j: int|
                    0 <= j < round_trace(dcur).len() implies crate::trace::is_value_event(
                    #[trigger] round_trace(dcur)[j],
                ) by {
                    let vals = Seq::new(
                        dcur.agents.len(),
                        |m: int| TraceEvent::WriteValue {
                            director: dcur.name,
                            agent: dcur.agents[m].id,
                            level: agent_leaked(dcur.agents[m], dcur.cur_time).potential as Level,
                        },
                    );
                    if j < vals.len() {
                        assert(round_trace(dcur)[j] == vals[j]);
                    }
                }
                assert(rounds_trace(d0, rounds + 1) == rounds_trace(d0, rounds) + round_trace(
                    dcur,
                ));
                assert((initial_dump_trace(d0) + rounds_trace(d0, rounds)) + round_trace(dcur)
                    =~= initial_dump_trace(d0) + rounds_trace(d0, rounds + 1));
                body = body + round_trace(dcur);
                rounds = rounds + 1;
            }
        }
        proof {
            lemma_iter_round_wf(d0, rounds);
        }
        if self.cur_time != self.sim_time {
            proof {
                assert(iter_round(d0, rounds).cur_time != d0.sim_time);
                assert(cascade_after(d0, rounds) >= MAX_CASCADE_ROUNDS);
                if run_settles(d0) {
                    let nw = choose|nw: nat|
                        (#[trigger] iter_round(d0, nw)).cur_time == d0.sim_time && (forall|
                            m: nat,
                        |
                            m < nw ==> #[trigger] cascade_after(d0, m) < MAX_CASCADE_ROUNDS);
                    if nw < rounds {
                        assert(cascade_after(d0, nw) < MAX_CASCADE_ROUNDS
                            && iter_round(d0, nw).cur_time != d0.sim_time);
                    } else if nw == rounds {
                        assert(iter_round(d0, rounds).cur_time != d0.sim_time);
                    } else {
                        assert(cascade_after(d0, rounds) < MAX_CASCADE_ROUNDS);
                    }
                    assert(false);
                }
            }
            Err(Error::JoinHandle)
        } else {
            proof {
                assert(iter_round(d0, rounds).cur_time == d0.sim_time);
                assert(run_settles(d0));
            }
            Ok(())
        }
    }
}

impl TimeDependent for LifNeuron {
    /// Registration is permitted while the director is well formed, the
    /// agent is well formed, and ids remain.
    open spec fn register_req(self, director: Director) -> bool {
        &&& director.wf()
        &&& self.wf()
        &&& director.planner.next_available_id < NeuronUniqueId::MAX
    }

    /// One registration books the next id, brands the agent with it and
    /// appends it to the arena with an empty adjacency row.
    open spec fn registered(
        self,
        pre: Director,
        post: Director,
        r: Option<NeuronUniqueId>,
    ) -> bool {
        &&& post.wf()
        &&& r == Some(pre.planner.next_available_id)
        &&& post@ == (DirectorView {
            agents: pre@.agents.push(agent_with_id(self@, pre.planner.next_available_id)),
            adjacency: pre@.adjacency.push(Seq::empty()),
            ..pre@
        })
        &&& post.planner.next_available_id == pre.planner.next_available_id + 1
    }

    /// A batch registration is permitted under the same conditions, with
    /// enough ids left for the whole batch.
    open spec fn batch_register_req(batch: Seq<LifNeuron>, director: Director) -> bool {
        &&& director.wf()
        &&& forall|i: int| 0 <= i < batch.len() ==> (#[trigger] batch[i]).wf()
        &&& director.planner.next_available_id + batch.len() <= NeuronUniqueId::MAX
    }

    /// Registering a batch appends every agent in order under consecutive
    /// ids and returns those ids.
    open spec fn batch_registered(
        batch: Seq<LifNeuron>,
        pre: Director,
        post: Director,
        r: Seq<NeuronUniqueId>,
    ) -> bool {
        &&& post.wf()
        &&& r.len() == batch.len()
        &&& forall|i: int|
            0 <= i < r.len() ==> (#[trigger] r[i]) == pre.planner.next_available_id + i
        &&& post@.agents == pre@.agents + Seq::new(
            batch.len(),
            |i: int|
                agent_with_id(
                    batch[i]@,
                    (pre.planner.next_available_id + i) as NeuronUniqueId,
                ),
        )
        &&& post@.adjacency == pre@.adjacency + Seq::new(
            batch.len(),
            |i: int| Seq::<NeuronIdWeightPair>::empty(),
        )
        &&& post@.cur_time == pre@.cur_time
        &&& post@.sim_time == pre@.sim_time
        &&& post@.name == pre@.name
        &&& post.planner.next_available_id == pre.planner.next_available_id + batch.len()
    }

    fn register(self, director: &mut Director) -> (r: Option<NeuronUniqueId>) {
        match director.add_to_registry(self) {
            Ok(id) => Some(id),
            Err(_) => None,
        }
    }

    fn register_batch(neurons_batch: Vec<LifNeuron>, director: &mut Director) -> (r: Vec<
        NeuronUniqueId,
    >) {
        let ghost gb = neurons_batch@;
        let ghost base = old(director).planner.next_available_id;
        let mut batch = neurons_batch;
        let mut ids: Vec<NeuronUniqueId> = Vec::new();
        proof {
            assert(old(director)@.agents + Seq::new(0, |i: int| agent_with_id(gb[i]@, base))
                =~= old(director)@.agents);
            assert(old(director)@.adjacency + Seq::new(
                0,
                |i: int| Seq::<NeuronIdWeightPair>::empty(),
            ) =~= old(director)@.adjacency);
        }
        while batch.len() > 0
            invariant
                gb == neurons_batch@,
                base == old(director).planner.next_available_id,
                ids@.len() + batch@.len() == gb.len(),
                batch@ == gb.skip(ids@.len() as int),
                forall|i: int| 0 <= i < gb.len() ==> (#[trigger] gb[i]).wf(),
                base + gb.len() <= NeuronUniqueId::MAX,
                director.wf(),
                director.planner.next_available_id == base + ids@.len(),
                forall|i: int| 0 <= i < ids@.len() ==> (#[trigger] ids@[i]) == base + i,
                director@.agents == old(director)@.agents + Seq::new(
                    ids@.len() as nat,
                    |i: int| agent_with_id(gb[i]@, (base + i) as NeuronUniqueId),
                ),
                director@.adjacency == old(director)@.adjacency + Seq::new(
                    ids@.len() as nat,
                    |i: int| Seq::<NeuronIdWeightPair>::empty(),
                ),
                director@.cur_time == old(director)@.cur_time,
                director@.sim_time == old(director)@.sim_time,
                director@.name == old(director)@.name,
            decreases batch@.len(),
        {
            let ghost k = ids@.len() as int;
            let n = batch.remove(0);
            proof {
                assert(n == gb[k]);
                assert(gb.skip(k).drop_first() =~= gb.skip(k + 1));
            }
            let id = match director.add_to_registry(n) {
                Ok(v) => v,
                Err(_) => 0,
            };
            ids.push(id);
            proof {
                assert(Seq::new(
                    (k + 1) as nat,
                    |i: int| agent_with_id(gb[i]@, (base + i) as NeuronUniqueId),
                ) =~= Seq::new(
                    k as nat,
                    |i: int| agent_with_id(gb[i]@, (base + i) as NeuronUniqueId),
                ).push(agent_with_id(gb[k]@, (base + k) as NeuronUniqueId)));
                assert(director@.agents =~= old(director)@.agents + Seq::new(
                    (k + 1) as nat,
                    |i: int| agent_with_id(gb[i]@, (base + i) as NeuronUniqueId),
                ));
                assert(Seq::new((k + 1) as nat, |i: int| Seq::<NeuronIdWeightPair>::empty())
                    =~= Seq::new(k as nat, |i: int| Seq::<NeuronIdWeightPair>::empty()).push(
                    Seq::<NeuronIdWeightPair>::empty(),
                ));
                assert(director@.adjacency =~= old(director)@.adjacency + Seq::new(
                    (k + 1) as nat,
                    |i: int| Seq::<NeuronIdWeightPair>::empty(),
                ));
            }
        }
        proof {
            assert(gb.skip(gb.len() as int).len() == 0);
        }
        ids
    }
}

} // verus!

