//! Engine-wide laws, stated and proved over the abstract model.
//!
//! Each proof function here is a theorem about the spec functions that the
//! engine's contracts are written in: firing resets, tick advancement,
//! isolation of unconnected agents, chain delivery ordering, and the exact
//! shape of batch linking.

use vstd::prelude::*;

use crate::director::{
    compute_all, dir_view_wf, fired_of, fired_upto, iter_round, lemma_iter_round_wf, round,
    DirectorView,
};
use crate::level::{leak_n, leak_once, sat_add, Level};
use crate::linking::{all_links, full_decisions, row_links, PlannedLink};
use crate::neuron::lif_neuron::{
    agent_computed, agent_fire_checked, agent_leaked, agent_received, lead_run, AgentView,
};
use crate::registry::{conns_of, deliver_conns, deliver_one, NeuronIdWeightPair};
use crate::NeuronUniqueId;

verus! {

/// Firing always resets the potential to exactly zero, however far above
/// threshold it stood.
pub proof fn lemma_fire_resets_potential(a: AgentView, t: u32)
    requires
        a.potential >= a.threshold,
    ensures
        agent_fire_checked(a, t).potential == 0,
{
}

/// The same, seen through signal reception: whenever an incoming signal
/// lifts the leaked potential to the threshold or beyond, the potential
/// after the transition is exactly zero.
pub proof fn lemma_receive_fire_resets(a: AgentView, t: u32, w: Level)
    requires
        sat_add(agent_leaked(a, t).potential, w as int) >= a.threshold,
    ensures
        agent_received(a, t, w).potential == 0,
{
}

/// Tick advancement: a round in which no agent reports a fire advances the
/// clock by exactly one; a round with at least one report leaves it
/// unchanged.
pub proof fn lemma_tick_advancement(d: DirectorView)
    requires
        d.cur_time < u32::MAX,
    ensures
        fired_of(d.agents, d.cur_time).len() == 0 ==> round(d).cur_time == d.cur_time + 1,
        fired_of(d.agents, d.cur_time).len() > 0 ==> round(d).cur_time == d.cur_time,
{
}

/// Zero never leaks into anything else.
pub proof fn lemma_leak_n_zero(beta: int, k: nat)
    ensures
        leak_n(0, beta, k) == 0,
    decreases k,
{
    if k > 0 {
        lemma_leak_n_zero(beta, (k - 1) as nat);
        assert(leak_once(0, beta) == 0);
    }
}

/// An id reported in a compute phase belongs to an agent whose queue had a
/// due entry.
proof fn lemma_fired_membership(agents: Seq<AgentView>, t: u32, m: int, x: NeuronUniqueId)
    requires
        0 <= m <= agents.len(),
        fired_upto(agents, t, m).contains(x),
    ensures
        exists|j: int|
            0 <= j < m && (#[trigger] agents[j]).id == x && lead_run(agents[j].queue, t) > 0,
    decreases m,
{
    if m > 0 {
        let pre = fired_upto(agents, t, m - 1);
        let own = Seq::new(lead_run(agents[m - 1].queue, t), |j: int| agents[m - 1].id);
        let idx = choose|idx: int| 0 <= idx < (pre + own).len() && (pre + own)[idx] == x;
        if idx < pre.len() {
            assert(pre[idx] == x);
            assert(pre.contains(x));
            lemma_fired_membership(agents, t, m - 1, x);
        } else {
            assert(own[idx - pre.len()] == x);
            assert(agents[m - 1].id == x && lead_run(agents[m - 1].queue, t) > 0);
        }
    }
}

/// Delivery along an edge list that never targets slot `i` leaves the
/// agent at slot `i` untouched.
proof fn lemma_deliver_conns_skips(
    agents: Seq<AgentView>,
    conns: Seq<NeuronIdWeightPair>,
    t: u32,
    i: int,
)
    requires
        0 <= i < agents.len(),
        forall|k: int| 0 <= k < conns.len() ==> (#[trigger] conns[k]).id != i,
    ensures
        deliver_conns(agents, conns, t).len() == agents.len(),
        deliver_conns(agents, conns, t)[i] == agents[i],
    decreases conns.len(),
{
    if conns.len() > 0 {
        lemma_deliver_conns_skips(agents, conns.drop_last(), t, i);
        assert(conns.drop_last().len() < conns.len());
        assert(forall|k: int|
            0 <= k < conns.drop_last().len() ==> (#[trigger] conns.drop_last()[k]).id != i);
    }
}

/// Delivery of a whole fire list whose adjacency never targets slot `i`
/// leaves the agent at slot `i` untouched.
proof fn lemma_deliver_all_skips(
    agents: Seq<AgentView>,
    adj: Seq<Seq<NeuronIdWeightPair>>,
    fired: Seq<NeuronUniqueId>,
    t: u32,
    i: int,
)
    requires
        0 <= i < agents.len(),
        forall|s: int, k: int|
            0 <= s < adj.len() && 0 <= k < adj[s].len() ==> (#[trigger] adj[s][k]).id != i,
    ensures
        crate::director::deliver_all(agents, adj, fired, t).len() == agents.len(),
        crate::director::deliver_all(agents, adj, fired, t)[i] == agents[i],
    decreases fired.len(),
{
    if fired.len() > 0 {
        lemma_deliver_all_skips(agents, adj, fired.drop_last(), t, i);
        let mid = crate::director::deliver_all(agents, adj, fired.drop_last(), t);
        let conns = conns_of(adj, fired.last());
        assert(forall|k: int| 0 <= k < conns.len() ==> (#[trigger] conns[k]).id != i);
        lemma_deliver_conns_skips(mid, conns, t, i);
    }
}

/// Isolation: an agent with no accumulated charge, no queued fire events
/// and no incoming edges never fires and its potential stays exactly at
/// zero across any number of rounds, for every decay factor in `(0, 1]`.
pub proof fn lemma_isolated_agent(d: DirectorView, i: int, n: nat)
    requires
        dir_view_wf(d),
        0 <= i < d.agents.len(),
        d.agents[i].potential == 0,
        d.agents[i].queue.len() == 0,
        forall|s: int, k: int|
            0 <= s < d.adjacency.len() && 0 <= k < d.adjacency[s].len() ==> (
            #[trigger] d.adjacency[s][k]).id != i,
    ensures
        iter_round(d, n).agents[i].potential == 0,
        iter_round(d, n).agents[i].queue.len() == 0,
        !fired_of(iter_round(d, n).agents, iter_round(d, n).cur_time).contains(d.agents[i].id),
    decreases n,
{
    lemma_iter_round_wf(d, n);
    if n == 0 {
        if fired_of(d.agents, d.cur_time).contains(d.agents[i].id) {
            lemma_fired_membership(d.agents, d.cur_time, d.agents.len() as int, d.agents[i].id);
            let j = choose|j: int|
                0 <= j < d.agents.len() && (#[trigger] d.agents[j]).id == d.agents[i].id
                    && lead_run(d.agents[j].queue, d.cur_time) > 0;
            assert(d.agents[j].id == j && d.agents[i].id == i);
            assert(false);
        }
    } else {
        let s = iter_round(d, (n - 1) as nat);
        lemma_isolated_agent(d, i, (n - 1) as nat);
        lemma_iter_round_wf(d, (n - 1) as nat);
        let t = s.cur_time;
        let computed = compute_all(s.agents, t);
        lemma_leak_n_zero(s.agents[i].beta, crate::neuron::lif_neuron::elapsed_ticks(
            s.agents[i].last_leak_time,
            t,
        ));
        assert(agent_leaked(s.agents[i], t).potential == 0);
        assert(agent_leaked(s.agents[i], t).queue.len() == 0);
        assert(lead_run(agent_leaked(s.agents[i], t).queue, t) == 0);
        assert(computed[i] == agent_computed(s.agents[i], t));
        assert(computed[i].potential == 0 && computed[i].queue.len() == 0);
        lemma_deliver_all_skips(computed, s.adjacency, fired_of(s.agents, t), t, i);
        assert(iter_round(d, n) == round(s));
        assert(round(s).agents[i].potential == 0 && round(s).agents[i].queue.len() == 0);
        let s2 = iter_round(d, n);
        if fired_of(s2.agents, s2.cur_time).contains(d.agents[i].id) {
            lemma_fired_membership(s2.agents, s2.cur_time, s2.agents.len() as int, d.agents[i].id);
            let j = choose|j: int|
                0 <= j < s2.agents.len() && (#[trigger] s2.agents[j]).id == d.agents[i].id
                    && lead_run(s2.agents[j].queue, s2.cur_time) > 0;
            assert(s2.agents[j].id == j && d.agents[i].id == i);
            assert(s2.agents[i].queue.len() == 0);
            assert(false);
        }
    }
}

/// Chain ordering: with a two-agent chain whose first agent is scheduled
/// to fire exactly at the current tick, that round delivers `w` into the
/// second agent's potential in the same round, before the second agent's
/// threshold check for this tick resolves — the second agent's state after
/// the round is its computed state with the weighted signal received, and
/// the clock stands still for the cascade to settle.
pub proof fn lemma_chain_delivery(d: DirectorView, w: Level)
    requires
        dir_view_wf(d),
        d.agents.len() == 2,
        d.adjacency[0] == seq![NeuronIdWeightPair { id: 1, weight: w }],
        d.agents[0].queue == seq![d.cur_time],
        d.agents[1].queue.len() == 0,
    ensures
        round(d).agents[1] == agent_received(agent_computed(d.agents[1], d.cur_time), d.cur_time, w),
        round(d).agents[0] == agent_computed(d.agents[0], d.cur_time),
        round(d).cur_time == d.cur_time,
{
    let t = d.cur_time;
    let computed = compute_all(d.agents, t);
    assert(lead_run(d.agents[1].queue, t) == 0);
    assert(d.agents[0].queue.drop_first() =~= Seq::<u32>::empty());
    assert(lead_run(d.agents[0].queue.drop_first(), t) == 0);
    assert(lead_run(d.agents[0].queue, t) == 1);
    let f0 = fired_upto(d.agents, t, 0);
    let f1 = fired_upto(d.agents, t, 1);
    let f2 = fired_upto(d.agents, t, 2);
    assert(f0 =~= Seq::<NeuronUniqueId>::empty());
    assert(d.agents[0].id == 0 && d.agents[1].id == 1);
    assert(f1 =~= f0 + Seq::new(1, |j: int| d.agents[0].id));
    assert(f2 =~= f1 + Seq::new(0, |j: int| d.agents[1].id));
    assert(f2 =~= seq![0u32]);
    assert(fired_of(d.agents, t) == f2);
    let delivered = crate::director::deliver_all(computed, d.adjacency, f2, t);
    assert(f2.drop_last() =~= Seq::<NeuronUniqueId>::empty());
    assert(crate::director::deliver_all(computed, d.adjacency, f2.drop_last(), t) == computed);
    assert(conns_of(d.adjacency, 0) == d.adjacency[0]);
    let conns = d.adjacency[0];
    assert(conns.drop_last() =~= Seq::<NeuronIdWeightPair>::empty());
    assert(deliver_conns(computed, conns.drop_last(), t) == computed);
    assert(conns.last() == NeuronIdWeightPair { id: 1, weight: w });
    assert(deliver_conns(computed, conns, t) == deliver_one(
        computed,
        NeuronIdWeightPair { id: 1, weight: w },
        t,
    ));
    assert(computed.len() == 2);
    assert(delivered == computed.update(1, agent_received(computed[1], t, w)));
    assert(computed[1] == agent_computed(d.agents[1], t));
    assert(computed[0] == agent_computed(d.agents[0], t));
    assert(delivered[0] == computed[0]);
    assert(delivered[1] == agent_received(agent_computed(d.agents[1], t), t, w));
    assert(f2.len() > 0);
}

/// One all-accepted row: one link per destination, in order, carrying the
/// row's weight cells.
proof fn lemma_full_row(
    src: NeuronUniqueId,
    dests: Seq<NeuronUniqueId>,
    wrow: Seq<Level>,
    dec: Seq<bool>,
)
    requires
        wrow.len() == dests.len(),
        dec.len() == dests.len(),
        forall|q: int| 0 <= q < dec.len() ==> #[trigger] dec[q],
    ensures
        row_links(src, dests, wrow, dec).len() == dests.len(),
        forall|j: int|
            0 <= j < dests.len() ==> #[trigger] row_links(src, dests, wrow, dec)[j]
                == (PlannedLink { source: src, dest: dests[j], weight: wrow[j] }),
    decreases dests.len(),
{
    if dests.len() > 0 {
        lemma_full_row(src, dests.drop_last(), wrow.drop_last(), dec.drop_last());
        assert(dec.last());
        assert(row_links(src, dests, wrow, dec) =~= row_links(
            src,
            dests.drop_last(),
            wrow.drop_last(),
            dec.drop_last(),
        ) + seq![PlannedLink { source: src, dest: dests.last(), weight: wrow.last() }]);
        assert forall|j: int| 0 <= j < dests.len() implies #[trigger] row_links(
            src,
            dests,
            wrow,
            dec,
        )[j] == (PlannedLink { source: src, dest: dests[j], weight: wrow[j] }) by {
            if j < dests.len() - 1 {
                assert(row_links(src, dests, wrow, dec)[j] == row_links(
                    src,
                    dests.drop_last(),
                    wrow.drop_last(),
                    dec.drop_last(),
                )[j]);
                assert(dests.drop_last()[j] == dests[j] && wrow.drop_last()[j] == wrow[j]);
            } else {
                assert(j == dests.len() - 1);
                assert(row_links(src, dests, wrow, dec)[j] == (PlannedLink {
                    source: src,
                    dest: dests.last(),
                    weight: wrow.last(),
                }));
            }
        }
    }
}

/// Fully-connected linking creates exactly `|sources| × |destinations|`
/// links — one per pair of the Cartesian product, in row-major order, each
/// carrying its weight cell.
pub proof fn lemma_fully_connected_count(
    sources: Seq<NeuronUniqueId>,
    dests: Seq<NeuronUniqueId>,
    w: Seq<Seq<Level>>,
)
    requires
        w.len() == sources.len(),
        forall|i: int| 0 <= i < w.len() ==> (#[trigger] w[i]).len() == dests.len(),
    ensures
        all_links(sources, dests, w, full_decisions(sources.len(), dests.len())).len()
            == sources.len() * dests.len(),
        forall|i: int, j: int|
            0 <= i < sources.len() && 0 <= j < dests.len() ==> all_links(
                sources,
                dests,
                w,
                full_decisions(sources.len(), dests.len()),
            )[i * dests.len() + j] == (PlannedLink {
                source: sources[i],
                dest: dests[j],
                weight: #[trigger] w[i][j],
            }),
    decreases sources.len(),
{
    let ns = sources.len() as int;
    let nd = dests.len() as int;
    let dec = full_decisions(sources.len(), dests.len());
    let links = all_links(sources, dests, w, dec);
    if sources.len() == 0 {
        assert(links.len() == 0);
        assert(ns * nd == 0) by (nonlinear_arith)
            requires
                ns == 0,
        ;
    } else {
        lemma_fully_connected_count(sources.drop_last(), dests, w.drop_last());
        let decp = full_decisions(sources.drop_last().len(), dests.len());
        assert(dec.drop_last() =~= decp);
        let prefix = all_links(sources.drop_last(), dests, w.drop_last(), decp);
        assert(dec.last() =~= Seq::new(dests.len(), |q: int| true));
        lemma_full_row(sources.last(), dests, w.last(), dec.last());
        let row = row_links(sources.last(), dests, w.last(), dec.last());
        assert(links =~= prefix + row);
        assert(prefix.len() == (ns - 1) * nd);
        assert((ns - 1) * nd + nd == ns * nd) by (nonlinear_arith);
        assert(links.len() == ns * nd);
        assert forall|i: int, j: int| 0 <= i < ns && 0 <= j < nd implies links[i * nd + j]
            == (PlannedLink {
            source: sources[i],
            dest: dests[j],
            weight: #[trigger] w[i][j],
        }) by {
            if i < ns - 1 {
                assert(0 <= i * nd + j < (ns - 1) * nd) by (nonlinear_arith)
                    requires
                        0 <= i < ns - 1,
                        0 <= j < nd,
                ;
                assert(links[i * nd + j] == prefix[i * nd + j]);
                assert(sources.drop_last()[i] == sources[i]);
                assert(w.drop_last()[i] == w[i]);
            } else {
                assert(i == ns - 1);
                assert(i * nd + j - prefix.len() == j) by (nonlinear_arith)
                    requires
                        prefix.len() == (ns - 1) * nd,
                        i == ns - 1,
                ;
                assert(0 <= i * nd + j < links.len()) by (nonlinear_arith)
                    requires
                        0 <= j < nd,
                        i == ns - 1,
                        0 <= i,
                        links.len() == ns * nd,
                ;
                assert(links[i * nd + j] == row[j]);
                assert(sources.last() == sources[i]);
                assert(w.last() == w[i]);
            }
        }
    }
}

/// How many cells of one decision row are accepted.
pub open spec fn count_true_row(dec: Seq<bool>) -> nat
    decreases dec.len(),
{
    if dec.len() == 0 {
        0
    } else {
        count_true_row(dec.drop_last()) + if dec.last() {
            1nat
        } else {
            0nat
        }
    }
}

/// How many cells of a decision matrix are accepted.
pub open spec fn count_true(dec: Seq<Seq<bool>>) -> nat
    decreases dec.len(),
{
    if dec.len() == 0 {
        0
    } else {
        count_true(dec.drop_last()) + count_true_row(dec.last())
    }
}

/// Link `k` of one row stems from an accepted cell of that row.
pub open spec fn row_link_accepted(
    src: NeuronUniqueId,
    dests: Seq<NeuronUniqueId>,
    wrow: Seq<Level>,
    dec: Seq<bool>,
    k: int,
) -> bool {
    exists|j: int|
        0 <= j < dests.len() && #[trigger] dec[j] && row_links(src, dests, wrow, dec)[k]
            == (PlannedLink { source: src, dest: dests[j], weight: wrow[j] })
}

/// Link `k` of a whole batch stems from an accepted cell of the matrix.
pub open spec fn batch_link_accepted(
    sources: Seq<NeuronUniqueId>,
    dests: Seq<NeuronUniqueId>,
    w: Seq<Seq<Level>>,
    dec: Seq<Seq<bool>>,
    k: int,
) -> bool {
    exists|i: int, j: int|
        0 <= i < sources.len() && 0 <= j < dests.len() && #[trigger] dec[i][j] && all_links(
            sources,
            dests,
            w,
            dec,
        )[k] == (PlannedLink { source: sources[i], dest: dests[j], weight: w[i][j] })
}

/// One row under an arbitrary decision row: one link per accepted cell and
/// nothing else.
proof fn lemma_row_decided(
    src: NeuronUniqueId,
    dests: Seq<NeuronUniqueId>,
    wrow: Seq<Level>,
    dec: Seq<bool>,
)
    requires
        wrow.len() == dests.len(),
        dec.len() == dests.len(),
    ensures
        row_links(src, dests, wrow, dec).len() == count_true_row(dec),
        forall|j: int|
            0 <= j < dests.len() && dec[j] ==> row_links(src, dests, wrow, dec).contains(
                PlannedLink { source: src, dest: #[trigger] dests[j], weight: wrow[j] },
            ),
        forall|k: int|
            0 <= k < row_links(src, dests, wrow, dec).len() ==> #[trigger] row_link_accepted(
                src,
                dests,
                wrow,
                dec,
                k,
            ),
    decreases dests.len(),
{
    if dests.len() > 0 {
        lemma_row_decided(src, dests.drop_last(), wrow.drop_last(), dec.drop_last());
        let pre = row_links(src, dests.drop_last(), wrow.drop_last(), dec.drop_last());
        let links = row_links(src, dests, wrow, dec);
        let nd = dests.len() as int;
        assert forall|j: int|
            0 <= j < nd && dec[j] implies links.contains(
            PlannedLink { source: src, dest: #[trigger] dests[j], weight: wrow[j] },
        ) by {
            let lk = PlannedLink { source: src, dest: dests[j], weight: wrow[j] };
            if j < nd - 1 {
                assert(dests.drop_last()[j] == dests[j] && wrow.drop_last()[j] == wrow[j]
                    && dec.drop_last()[j] == dec[j]);
                assert(pre.contains(lk));
                let idx = choose|idx: int| 0 <= idx < pre.len() && pre[idx] == lk;
                assert(links[idx] == lk);
            } else {
                assert(dec.last());
                assert(links[links.len() - 1] == lk);
            }
        }
        assert forall|k: int|
            0 <= k < row_links(src, dests, wrow, dec).len() implies #[trigger] row_link_accepted(
            src,
            dests,
            wrow,
            dec,
            k,
        ) by {
            if k < pre.len() {
                assert(links[k] == pre[k]);
                assert(row_link_accepted(
                    src,
                    dests.drop_last(),
                    wrow.drop_last(),
                    dec.drop_last(),
                    k,
                ));
                let j = choose|j: int|
                    0 <= j < dests.drop_last().len() && #[trigger] dec.drop_last()[j]
                        && row_links(src, dests.drop_last(), wrow.drop_last(), dec.drop_last())[k]
                        == (PlannedLink {
                        source: src,
                        dest: dests.drop_last()[j],
                        weight: wrow.drop_last()[j],
                    });
                assert(dec[j] && links[k] == (PlannedLink {
                    source: src,
                    dest: dests[j],
                    weight: wrow[j],
                }));
            } else {
                assert(dec.last());
                assert(links[k] == (PlannedLink {
                    source: src,
                    dest: dests[nd - 1],
                    weight: wrow[nd - 1],
                }));
                assert(dec[nd - 1] && links[k] == (PlannedLink {
                    source: src,
                    dest: dests[nd - 1],
                    weight: wrow[nd - 1],
                }));
            }
        }
    }
}

/// User-defined linking creates a link for pair `(i, j)` exactly when the
/// decision matrix accepted it: the total equals the count of accepted
/// pairs, every accepted pair's link is present, and every created link
/// stems from an accepted pair.
pub proof fn lemma_user_defined_links(
    sources: Seq<NeuronUniqueId>,
    dests: Seq<NeuronUniqueId>,
    w: Seq<Seq<Level>>,
    dec: Seq<Seq<bool>>,
)
    requires
        w.len() == sources.len(),
        dec.len() == sources.len(),
        forall|i: int| 0 <= i < w.len() ==> (#[trigger] w[i]).len() == dests.len(),
        forall|i: int| 0 <= i < dec.len() ==> (#[trigger] dec[i]).len() == dests.len(),
    ensures
        all_links(sources, dests, w, dec).len() == count_true(dec),
        forall|i: int, j: int|
            0 <= i < sources.len() && 0 <= j < dests.len() && #[trigger] dec[i][j] ==> all_links(
                sources,
                dests,
                w,
                dec,
            ).contains(PlannedLink { source: sources[i], dest: dests[j], weight: w[i][j] }),
        forall|k: int|
            0 <= k < all_links(sources, dests, w, dec).len() ==> #[trigger] batch_link_accepted(
                sources,
                dests,
                w,
                dec,
                k,
            ),
    decreases sources.len(),
{
    if sources.len() > 0 {
        let ns = sources.len() as int;
        let nd = dests.len() as int;
        lemma_user_defined_links(sources.drop_last(), dests, w.drop_last(), dec.drop_last());
        let prefix = all_links(sources.drop_last(), dests, w.drop_last(), dec.drop_last());
        lemma_row_decided(sources.last(), dests, w.last(), dec.last());
        let row = row_links(sources.last(), dests, w.last(), dec.last());
        let links = all_links(sources, dests, w, dec);
        assert(links =~= prefix + row);
        assert(links.len() == count_true(dec));
        assert forall|i: int, j: int|
            0 <= i < ns && 0 <= j < nd && #[trigger] dec[i][j] implies links.contains(
            PlannedLink { source: sources[i], dest: dests[j], weight: w[i][j] },
        ) by {
            let lk = PlannedLink { source: sources[i], dest: dests[j], weight: w[i][j] };
            if i < ns - 1 {
                assert(sources.drop_last()[i] == sources[i] && w.drop_last()[i] == w[i]
                    && dec.drop_last()[i] == dec[i]);
                assert(prefix.contains(lk));
                let idx = choose|idx: int| 0 <= idx < prefix.len() && prefix[idx] == lk;
                assert(links[idx] == lk);
            } else {
                assert(sources.last() == sources[i] && w.last() == w[i] && dec.last() == dec[i]);
                assert(row.contains(lk));
                let idx = choose|idx: int| 0 <= idx < row.len() && row[idx] == lk;
                assert(links[prefix.len() + idx] == lk);
            }
        }
        assert forall|k: int|
            0 <= k < all_links(sources, dests, w, dec).len() implies #[trigger] batch_link_accepted(
            sources,
            dests,
            w,
            dec,
            k,
        ) by {
            if k < prefix.len() {
                assert(links[k] == prefix[k]);
                assert(batch_link_accepted(
                    sources.drop_last(),
                    dests,
                    w.drop_last(),
                    dec.drop_last(),
                    k,
                ));
                let (i, j) = choose|i: int, j: int|
                    0 <= i < sources.drop_last().len() && 0 <= j < dests.len()
                        && #[trigger] dec.drop_last()[i][j] && all_links(
                        sources.drop_last(),
                        dests,
                        w.drop_last(),
                        dec.drop_last(),
                    )[k] == (PlannedLink {
                        source: sources.drop_last()[i],
                        dest: dests[j],
                        weight: w.drop_last()[i][j],
                    });
                assert(dec[i][j] && links[k] == (PlannedLink {
                    source: sources[i],
                    dest: dests[j],
                    weight: w[i][j],
                }));
            } else {
                assert(links[k] == row[k - prefix.len()]);
                assert(row_link_accepted(sources.last(), dests, w.last(), dec.last(), k
                    - prefix.len()));
                let j = choose|j: int|
                    0 <= j < dests.len() && #[trigger] dec.last()[j] && row_links(
                        sources.last(),
                        dests,
                        w.last(),
                        dec.last(),
                    )[k - prefix.len()] == (PlannedLink {
                        source: sources.last(),
                        dest: dests[j],
                        weight: w.last()[j],
                    });
                assert(dec[ns - 1][j] && links[k] == (PlannedLink {
                    source: sources[ns - 1],
                    dest: dests[j],
                    weight: w[ns - 1][j],
                }));
            }
        }
    }
}

} // verus!
