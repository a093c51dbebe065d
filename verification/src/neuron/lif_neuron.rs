//! The leaky-integrate-and-fire reference agent.
//!
//! An agent accumulates weighted signals into `current_potential`, decays it
//! by `beta` for every elapsed tick, and, whenever the accumulated level
//! reaches `threshold`, queues a fire event for the current tick and resets
//! the potential to zero. The queue of pending fire-event ticks is kept
//! sorted ascending; duplicates are legal and stand for several wake-ups at
//! the same tick.

use vstd::prelude::*;

use crate::level::{leak_n, sat_add, leak_once_level, sat_add_level, Level, LEVEL_SCALE};
use crate::neuron::{
    CommonlyCreateable, Fire, HasId, Init, Leaky, Neuron, PlansEvents, SignalReceiver,
};
use crate::NeuronUniqueId;

verus! {

/// Abstract state of a leaky-integrate-and-fire agent.
pub struct AgentView {
    pub threshold: int,
    pub potential: int,
    pub beta: int,
    pub last_leak_time: u32,
    pub queue: Seq<u32>,
    pub id: NeuronUniqueId,
    pub planned: Seq<u32>,
}

/// A queue of ticks is sorted ascending.
pub open spec fn sorted_ticks(s: Seq<u32>) -> bool {
    forall|i: int, j: int| 0 <= i < j < s.len() ==> s[i] <= s[j]
}

/// `v` inserted into the sorted queue `s`, after any equal entries.
pub open spec fn insert_sorted(s: Seq<u32>, v: u32) -> Seq<u32>
    decreases s.len(),
{
    if s.len() == 0 {
        seq![v]
    } else if s[0] <= v {
        seq![s[0]] + insert_sorted(s.drop_first(), v)
    } else {
        seq![v] + s
    }
}

/// Every tick of `xs`, in order, inserted into the sorted queue `q`.
pub open spec fn insert_all(q: Seq<u32>, xs: Seq<u32>) -> Seq<u32>
    decreases xs.len(),
{
    if xs.len() == 0 {
        q
    } else {
        insert_sorted(insert_all(q, xs.drop_last()), xs.last())
    }
}

/// Well-formedness of an agent: decay factor in `(0, 1]` and a sorted queue.
pub open spec fn agent_wf(a: AgentView) -> bool {
    &&& 0 < a.beta <= LEVEL_SCALE
    &&& sorted_ticks(a.queue)
}

/// Ticks elapsed between an agent's last update and `t`.
pub open spec fn elapsed_ticks(last: u32, t: u32) -> nat {
    if t >= last {
        (t - last) as nat
    } else {
        (last - t) as nat
    }
}

/// The agent after leaking up to tick `t`.
pub open spec fn agent_leaked(a: AgentView, t: u32) -> AgentView {
    AgentView {
        potential: leak_n(a.potential, a.beta, elapsed_ticks(a.last_leak_time, t)),
        last_leak_time: t,
        ..a
    }
}

/// The agent after queueing a fire event at tick `t`.
pub open spec fn agent_emitted(a: AgentView, t: u32) -> AgentView {
    AgentView { queue: insert_sorted(a.queue, t), ..a }
}

/// The agent after its threshold check at tick `t` has resolved: at or above
/// threshold it queues a fire event and resets its potential to exactly zero.
pub open spec fn agent_fire_checked(a: AgentView, t: u32) -> AgentView {
    if a.potential >= a.threshold {
        AgentView { potential: 0, queue: insert_sorted(a.queue, t), ..a }
    } else {
        a
    }
}

/// The agent after a signal of strength `w` arrives at tick `t`: leak up to
/// `t`, add `w` (saturating), then run the threshold check.
pub open spec fn agent_received(a: AgentView, t: u32, w: Level) -> AgentView {
    let m = agent_leaked(a, t);
    agent_fire_checked(AgentView { potential: sat_add(m.potential, w as int), ..m }, t)
}

/// The agent after start-up planning: every pre-planned impulse tick is
/// queued as a fire event, in planning order.
pub open spec fn agent_inited(a: AgentView) -> AgentView {
    AgentView { queue: insert_all(a.queue, a.planned), ..a }
}

/// The agent with its identifier replaced.
pub open spec fn agent_with_id(a: AgentView, id: NeuronUniqueId) -> AgentView {
    AgentView { id: id, ..a }
}

/// The agent with the earliest queued event removed.
pub open spec fn agent_popped(a: AgentView) -> AgentView {
    AgentView { queue: a.queue.drop_first(), ..a }
}

/// How many leading entries of the queue equal the tick `t`: the fire
/// events an agent processes during a compute phase at `t`. The scan stops
/// at the first entry different from `t`, so this is a prefix count.
pub open spec fn lead_run(q: Seq<u32>, t: u32) -> nat
    decreases q.len(),
{
    if q.len() > 0 && q[0] == t {
        (lead_run(q.drop_first(), t) + 1) as nat
    } else {
        0
    }
}

/// The agent after one compute phase at tick `t`: leaked up to `t`, with
/// every leading queue entry equal to `t` drained.
pub open spec fn agent_computed(a: AgentView, t: u32) -> AgentView {
    let m = agent_leaked(a, t);
    AgentView { queue: m.queue.skip(lead_run(m.queue, t) as int), ..m }
}

/// The state a freshly constructed agent starts in.
pub open spec fn agent_fresh(beta: Level) -> AgentView {
    AgentView {
        threshold: LEVEL_SCALE as int,
        potential: 0,
        beta: beta as int,
        last_leak_time: 0,
        queue: Seq::empty(),
        id: 0,
        planned: Seq::empty(),
    }
}

/// Inserting into a sorted queue keeps it sorted, grows it by one, and adds
/// exactly the inserted tick.
pub proof fn lemma_insert_sorted(s: Seq<u32>, v: u32)
    requires
        sorted_ticks(s),
    ensures
        sorted_ticks(insert_sorted(s, v)),
        insert_sorted(s, v).len() == s.len() + 1,
        insert_sorted(s, v).to_multiset() == s.to_multiset().insert(v),
    decreases s.len(),
{
    broadcast use vstd::seq_lib::group_to_multiset_ensures;

    if s.len() == 0 {
        assert(seq![v].drop_first() =~= Seq::<u32>::empty());
        assert(seq![v].to_multiset() == Seq::<u32>::empty().to_multiset().insert(v));
    } else if s[0] <= v {
        lemma_insert_sorted(s.drop_first(), v);
        let r = seq![s[0]] + insert_sorted(s.drop_first(), v);
        assert forall|i: int, j: int| 0 <= i < j < r.len() implies r[i] <= r[j] by {
            let inner = insert_sorted(s.drop_first(), v);
            if i == 0 && j >= 1 {
                lemma_insert_sorted_lower_bound(s.drop_first(), v, s[0]);
                assert(r[j] == inner[j - 1]);
            } else {
                assert(r[i] == inner[i - 1] && r[j] == inner[j - 1]);
            }
        }
        assert(r =~= insert_sorted(s, v));
        assert(s =~= seq![s[0]] + s.drop_first());
        vstd::seq_lib::lemma_multiset_commutative(seq![s[0]], s.drop_first());
        vstd::seq_lib::lemma_multiset_commutative(seq![s[0]], insert_sorted(s.drop_first(), v));
        assert(insert_sorted(s, v).to_multiset() =~= s.to_multiset().insert(v));
    } else {
        let r = seq![v] + s;
        assert forall|i: int, j: int| 0 <= i < j < r.len() implies r[i] <= r[j] by {
            if i == 0 {
                if j == 1 {
                    assert(r[j] == s[0]);
                } else {
                    assert(r[j] == s[j - 1]);
                    assert(s[0] <= s[j - 1]);
                }
            } else {
                assert(r[i] == s[i - 1] && r[j] == s[j - 1]);
            }
        }
        vstd::seq_lib::lemma_multiset_commutative(seq![v], s);
        assert(insert_sorted(s, v).to_multiset() =~= s.to_multiset().insert(v));
    }
}

/// Every entry of a sorted queue bounded below stays bounded below after an
/// insertion of a tick that also respects the bound.
proof fn lemma_insert_sorted_lower_bound(s: Seq<u32>, v: u32, b: u32)
    requires
        b <= v,
        forall|i: int| 0 <= i < s.len() ==> b <= s[i],
    ensures
        forall|i: int| 0 <= i < insert_sorted(s, v).len() ==> b <= insert_sorted(s, v)[i],
    decreases s.len(),
{
    if s.len() == 0 {
    } else if s[0] <= v {
        lemma_insert_sorted_lower_bound(s.drop_first(), v, b);
        let r = seq![s[0]] + insert_sorted(s.drop_first(), v);
        assert forall|i: int| 0 <= i < r.len() implies b <= r[i] by {
            if i >= 1 {
                assert(r[i] == insert_sorted(s.drop_first(), v)[i - 1]);
            }
        }
    }
}

/// Positional form of `insert_sorted`: inserting at the first index whose
/// entry is strictly greater than `v` is the same queue.
proof fn lemma_insert_sorted_at(s: Seq<u32>, v: u32, i: int)
    requires
        sorted_ticks(s),
        0 <= i <= s.len(),
        forall|j: int| 0 <= j < i ==> s[j] <= v,
        i < s.len() ==> s[i] > v,
    ensures
        insert_sorted(s, v) =~= s.insert(i, v),
    decreases s.len(),
{
    if s.len() == 0 {
        assert(insert_sorted(s, v) =~= s.insert(0, v));
    } else if s[0] <= v {
        assert(i >= 1);
        assert(sorted_ticks(s.drop_first()));
        lemma_insert_sorted_at(s.drop_first(), v, i - 1);
        assert(insert_sorted(s, v) =~= seq![s[0]] + s.drop_first().insert(i - 1, v));
        assert(seq![s[0]] + s.drop_first().insert(i - 1, v) =~= s.insert(i, v));
    } else {
        assert(i == 0);
        assert(insert_sorted(s, v) =~= s.insert(0, v));
    }
}

/// The lead run is never longer than the queue itself.
pub proof fn lemma_lead_run_le(q: Seq<u32>, t: u32)
    ensures
        lead_run(q, t) <= q.len(),
    decreases q.len(),
{
    if q.len() > 0 && q[0] == t {
        lemma_lead_run_le(q.drop_first(), t);
    }
}

/// A prefix of entries equal to `t`, ended by the queue's end or by a
/// different entry, is exactly the lead run.
proof fn lemma_lead_run_at(q: Seq<u32>, t: u32, j: int)
    requires
        0 <= j <= q.len(),
        forall|i: int| 0 <= i < j ==> q[i] == t,
        j == q.len() || q[j] != t,
    ensures
        lead_run(q, t) == j,
    decreases j,
{
    if j == 0 {
    } else {
        assert(q[0] == t);
        assert(forall|i: int| 0 <= i < j - 1 ==> q.drop_first()[i] == t);
        assert(j - 1 == q.drop_first().len() || q.drop_first()[j - 1] != t);
        lemma_lead_run_at(q.drop_first(), t, j - 1);
    }
}

/// The reference leaky-integrate-and-fire agent.
#[derive(Clone, Debug)]
pub struct LifNeuron {
    pub threshold: Level,
    pub current_potential: Level,
    pub beta: Level,
    pub last_leak_time: u32,
    pub spikes_queue: Vec<u32>,
    pub id: NeuronUniqueId,
    pub planned_time_steps: Vec<u32>,
}

impl View for LifNeuron {
    type V = AgentView;

    open spec fn view(&self) -> AgentView {
        AgentView {
            threshold: self.threshold as int,
            potential: self.current_potential as int,
            beta: self.beta as int,
            last_leak_time: self.last_leak_time,
            queue: self.spikes_queue@,
            id: self.id,
            planned: self.planned_time_steps@,
        }
    }
}

impl LifNeuron {
    /// Well-formedness: decay factor in `(0, 1]` and a sorted event queue.
    pub open spec fn wf(&self) -> bool {
        agent_wf(self@)
    }

    /// A fresh agent with decay factor `beta`, threshold 1.0, no accumulated
    /// potential and no pending or planned events.
    pub fn new(beta: Level) -> (r: LifNeuron)
        requires
            0 < beta <= LEVEL_SCALE,
        ensures
            r@ == agent_fresh(beta),
            r.wf(),
    {
        let r = LifNeuron {
            beta,
            spikes_queue: Vec::new(),
            id: 0,
            planned_time_steps: Vec::new(),
            current_potential: 0,
            last_leak_time: 0,
            threshold: LEVEL_SCALE,
        };
        proof {
            assert(r@ =~= agent_fresh(beta));
        }
        r
    }

    /// Queues a fire event for tick `step`, keeping the queue sorted.
    pub fn add_events_entry(&mut self, step: u32)
        requires
            old(self).wf(),
        ensures
            final(self)@ == agent_emitted(old(self)@, step),
            final(self).wf(),
    {
        let ghost q0 = self.spikes_queue@;
        let mut i: usize = 0;
        while i < self.spikes_queue.len() && self.spikes_queue[i] <= step
            invariant
                0 <= i <= self.spikes_queue.len(),
                forall|j: int| 0 <= j < i ==> self.spikes_queue@[j] <= step,
                self.spikes_queue@ == q0,
            decreases self.spikes_queue.len() - i,
        {
            i += 1;
        }
        self.spikes_queue.insert(i, step);
        proof {
            lemma_insert_sorted_at(q0, step, i as int);
            lemma_insert_sorted(q0, step);
            assert(final(self)@ =~= agent_emitted(old(self)@, step));
        }
    }

    /// The earliest queued fire-event tick, if any.
    pub fn get_earliest_event_int(&self) -> (r: Option<&u32>)
        ensures
            r is None <==> self.spikes_queue@.len() == 0,
            r matches Some(v) ==> self.spikes_queue@.len() > 0 && *v == self.spikes_queue@[0],
    {
        if self.spikes_queue.len() == 0 {
            None
        } else {
            Some(&self.spikes_queue[0])
        }
    }

    /// Removes the earliest queued fire-event tick.
    pub fn pop_earliest_event_int(&mut self)
        requires
            old(self).spikes_queue@.len() > 0,
        ensures
            final(self)@ == agent_popped(old(self)@),
    {
        self.spikes_queue.remove(0);
        proof {
            assert(final(self).spikes_queue@ =~= old(self).spikes_queue@.drop_first());
            assert(final(self)@ =~= agent_popped(old(self)@));
        }
    }

    /// Replaces the list of pre-planned impulse ticks.
    pub fn plan_init_impulses(&mut self, time_steps: Vec<u32>)
        ensures
            final(self)@ == (AgentView { planned: time_steps@, ..old(self)@ }),
    {
        self.planned_time_steps = time_steps;
        proof {
            assert(final(self)@ =~= (AgentView { planned: time_steps@, ..old(self)@ }));
        }
    }

    /// One compute phase for this agent at tick `t`: leak for the elapsed
    /// ticks, then drain the queued fire events — for every leading queue
    /// entry equal to `t`, report the agent's own id on `fired` and remove
    /// the entry, stopping at the first entry different from `t`. Returns
    /// the observed signal level after the leak.
    pub fn compute_round(&mut self, t: u32, fired: &mut Vec<u32>) -> (lvl: Level)
        requires
            old(self).wf(),
        ensures
            final(self)@ == agent_computed(old(self)@, t),
            final(self).wf(),
            lvl as int == agent_leaked(old(self)@, t).potential,
            final(fired)@ == old(fired)@ + Seq::new(
                lead_run(old(self)@.queue, t),
                |i: int| old(self)@.id,
            ),
    {
        self.perform_leak(t);
        let lvl = match self.get_signal() {
            Some(v) => v,
            None => 0,
        };
        let ghost q0 = self.spikes_queue@;
        let ghost fired0 = fired@;
        let ghost myid = self@.id;
        let total: usize = self.spikes_queue.len();
        let mut j_count: usize = 0;
        proof {
            assert(q0.skip(0) =~= q0);
            assert(fired@ =~= fired0 + Seq::new(0, |i: int| myid));
            assert(self@ =~= (AgentView { queue: q0.skip(0), ..agent_leaked(old(self)@, t) }));
        }
        while self.spikes_queue.len() > 0 && self.spikes_queue[0] == t
            invariant
                j_count <= total,
                total == q0.len(),
                forall|i: int| 0 <= i < j_count ==> q0[i] == t,
                self.spikes_queue@ == q0.skip(j_count as int),
                self.wf(),
                self@ == (AgentView { queue: q0.skip(j_count as int), ..agent_leaked(old(self)@, t) }),
                fired@ == fired0 + Seq::new(j_count as nat, |i: int| myid),
                myid == old(self)@.id,
            decreases self.spikes_queue.len(),
        {
            proof {
                assert(j_count < q0.len());
            }
            let fid = match self.fire() {
                Some(v) => v,
                None => 0,
            };
            self.pop_earliest_event_int();
            fired.push(fid);
            proof {
                assert(q0.skip(j_count as int).drop_first() =~= q0.skip(j_count + 1));
                assert(Seq::new((j_count + 1) as nat, |i: int| myid) =~= Seq::new(
                    j_count as nat,
                    |i: int| myid,
                ).push(myid));
                assert(self@ =~= (AgentView {
                    queue: q0.skip(j_count + 1),
                    ..agent_leaked(old(self)@, t)
                }));
            }
            j_count += 1;
        }
        proof {
            lemma_lead_run_at(q0, t, j_count as int);
            assert(final(self)@ =~= agent_computed(old(self)@, t));
        }
        lvl
    }
}

impl Init for LifNeuron {
    open spec fn inited_view(&self) -> AgentView {
        agent_inited(self@)
    }

    open spec fn init_inv(&self) -> bool {
        self.wf()
    }

    fn init(&mut self) {
        let ghost q0 = self.spikes_queue@;
        let ghost planned = self.planned_time_steps@;
        let mut k: usize = 0;
        while k < self.planned_time_steps.len()
            invariant
                0 <= k <= self.planned_time_steps.len(),
                self.planned_time_steps@ == planned,
                self.spikes_queue@ == insert_all(q0, planned.take(k as int)),
                sorted_ticks(self.spikes_queue@),
                self.threshold == old(self).threshold,
                self.current_potential == old(self).current_potential,
                self.beta == old(self).beta,
                self.last_leak_time == old(self).last_leak_time,
                self.id == old(self).id,
                old(self).wf(),
            decreases self.planned_time_steps.len() - k,
        {
            let step = self.planned_time_steps[k];
            self.emmit_signal(step);
            proof {
                assert(planned.take(k + 1).drop_last() =~= planned.take(k as int));
                assert(planned.take(k + 1).last() == planned[k as int]);
            }
            k += 1;
        }
        proof {
            assert(planned.take(planned.len() as int) =~= planned);
            assert(final(self)@ =~= agent_inited(old(self)@));
        }
    }
}

impl HasId for LifNeuron {
    open spec fn id_view(&self) -> NeuronUniqueId {
        self@.id
    }

    open spec fn with_id_view(&self, id: NeuronUniqueId) -> AgentView {
        agent_with_id(self@, id)
    }

    fn set_id(&mut self, id: NeuronUniqueId) {
        self.id = id;
        proof {
            assert(final(self)@ =~= agent_with_id(old(self)@, id));
        }
    }

    fn get_id(&self) -> (r: Option<NeuronUniqueId>) {
        Some(self.id)
    }
}

impl Fire for LifNeuron {
    open spec fn emitted_view(&self, time_step: u32) -> AgentView {
        agent_emitted(self@, time_step)
    }

    open spec fn fire_checked_view(&self, time_step: u32) -> AgentView {
        agent_fire_checked(self@, time_step)
    }

    open spec fn fire_inv(&self) -> bool {
        self.wf()
    }

    fn emmit_signal(&mut self, time_step: u32) {
        self.add_events_entry(time_step);
    }

    fn fire(&self) -> (r: Option<NeuronUniqueId>) {
        Some(self.id)
    }

    fn check_if_should_fire(&mut self, time_step: u32) {
        if self.current_potential >= self.threshold {
            self.emmit_signal(time_step);
            self.current_potential = 0;
        }
        proof {
            assert(final(self)@ =~= agent_fire_checked(old(self)@, time_step));
        }
    }
}

impl Leaky for LifNeuron {
    open spec fn leaked_view(&self, time_step: u32) -> AgentView {
        agent_leaked(self@, time_step)
    }

    open spec fn leak_inv(&self) -> bool {
        self.wf()
    }

    fn perform_leak(&mut self, time_step: u32) {
        let elapsed: u32 = if time_step >= self.last_leak_time {
            time_step - self.last_leak_time
        } else {
            self.last_leak_time - time_step
        };
        let ghost p0 = self.current_potential as int;
        let mut k: u32 = 0;
        while k < elapsed
            invariant
                0 <= k <= elapsed,
                0 < self.beta <= LEVEL_SCALE,
                self.current_potential as int == leak_n(p0, self.beta as int, k as nat),
                self.beta == old(self).beta,
                self.threshold == old(self).threshold,
                self.last_leak_time == old(self).last_leak_time,
                self.spikes_queue@ == old(self).spikes_queue@,
                self.id == old(self).id,
                self.planned_time_steps@ == old(self).planned_time_steps@,
            decreases elapsed - k,
        {
            self.current_potential = leak_once_level(self.current_potential, self.beta);
            k += 1;
        }
        self.last_leak_time = time_step;
        proof {
            assert(final(self)@ =~= agent_leaked(old(self)@, time_step));
        }
    }
}

impl PlansEvents for LifNeuron {
    open spec fn events_view(&self) -> Seq<u32> {
        self@.queue
    }

    open spec fn popped_view(&self) -> AgentView {
        agent_popped(self@)
    }

    fn get_earliest_event(&self) -> (r: Option<&u32>) {
        self.get_earliest_event_int()
    }

    fn get_earliest_event_available(&self) -> (r: Option<bool>) {
        match self.get_earliest_event_int() {
            Some(_) => Some(true),
            None => Some(false),
        }
    }

    fn pop_earliest_event(&mut self) {
        self.pop_earliest_event_int();
    }
}

impl SignalReceiver for LifNeuron {
    open spec fn signal_view(&self) -> Level {
        self.current_potential
    }

    open spec fn received_view(&self, time_step: u32, signal: Level) -> AgentView {
        agent_received(self@, time_step, signal)
    }

    open spec fn recv_inv(&self) -> bool {
        self.wf()
    }

    fn recieve_signal(&mut self, time_step: u32, signal: Level) {
        self.perform_leak(time_step);
        self.current_potential = sat_add_level(self.current_potential, signal);
        self.check_if_should_fire(time_step);
        proof {
            assert(final(self)@ =~= agent_received(old(self)@, time_step, signal));
        }
    }

    fn get_signal(&self) -> (r: Option<Level>) {
        Some(self.current_potential)
    }
}

impl Neuron for LifNeuron {

}

impl CommonlyCreateable for LifNeuron {
    open spec fn fresh_view(beta: Level) -> AgentView {
        agent_fresh(beta)
    }

    open spec fn fresh_req(beta: Level) -> bool {
        0 < beta <= LEVEL_SCALE
    }

    fn create_new(beta: Level) -> (r: LifNeuron) {
        Self::new(beta)
    }

    fn batch_create_new(batch_size: usize, beta: Level) -> (r: Vec<LifNeuron>) {
        let mut r: Vec<LifNeuron> = Vec::new();
        let mut k: usize = 0;
        while k < batch_size
            invariant
                0 <= k <= batch_size,
                r@.len() == k,
                0 < beta <= LEVEL_SCALE,
                forall|i: int| 0 <= i < r@.len() ==> (#[trigger] r@[i])@ == agent_fresh(beta),
            decreases batch_size - k,
        {
            r.push(Self::new(beta));
            k += 1;
        }
        r
    }
}

} // verus!
