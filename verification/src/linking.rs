//! Batch linking over the Cartesian product of sources and destinations.
//!
//! `link_by_rule`-style construction: a rule decides for every index pair
//! `(i, j)` of the product whether a link is created, and the weight comes
//! either from one scalar broadcast to every pair or from an explicit
//! `|sources| × |destinations|` matrix. Links are created in row-major
//! order. `all_links` is the functional specification of which links a
//! decision matrix produces.

use vstd::prelude::*;

use crate::director::Director;
use crate::error::Error;
use crate::level::Level;
use crate::registry::{AdjacencyView, NeuronIdWeightPair};
use crate::NeuronUniqueId;

verus! {

/// Weights for a batch of links: one scalar broadcast to every pair, or an
/// explicit matrix with one cell per pair.
pub enum VecOrValueLevel {
    Matrix(Vec<Vec<Level>>),
    Val(Level),
}

/// Which pairs of the Cartesian product are linked: none of them, all of
/// them, or those a caller-supplied predicate accepts.
pub enum BatchLinkingRule<F> where F: Fn(usize, usize) -> bool {
    NoLinks,
    FullyConnected,
    UserDefined(F),
}

/// One link waiting to be created.
pub struct PlannedLink {
    pub source: NeuronUniqueId,
    pub dest: NeuronUniqueId,
    pub weight: Level,
}

/// The weight of every pair: the matrix itself, or the scalar broadcast.
pub open spec fn weight_mat(w: VecOrValueLevel, ns: nat, nd: nat) -> Seq<Seq<Level>> {
    match w {
        VecOrValueLevel::Matrix(m) => m.deep_view(),
        VecOrValueLevel::Val(x) => Seq::new(ns, |i: int| Seq::new(nd, |j: int| x)),
    }
}

/// The decision matrix that accepts every pair.
pub open spec fn full_decisions(ns: nat, nd: nat) -> Seq<Seq<bool>> {
    Seq::new(ns, |i: int| Seq::new(nd, |j: int| true))
}

/// The links one source row contributes, in destination order.
pub open spec fn row_links(
    src: NeuronUniqueId,
    dests: Seq<NeuronUniqueId>,
    wrow: Seq<Level>,
    dec: Seq<bool>,
) -> Seq<PlannedLink>
    decreases dests.len(),
{
    if dests.len() == 0 {
        Seq::empty()
    } else {
        row_links(src, dests.drop_last(), wrow.drop_last(), dec.drop_last()) + if dec.last() {
            seq![PlannedLink { source: src, dest: dests.last(), weight: wrow.last() }]
        } else {
            Seq::<PlannedLink>::empty()
        }
    }
}

/// Every link a decision matrix produces, in row-major order.
pub open spec fn all_links(
    sources: Seq<NeuronUniqueId>,
    dests: Seq<NeuronUniqueId>,
    w: Seq<Seq<Level>>,
    dec: Seq<Seq<bool>>,
) -> Seq<PlannedLink>
    decreases sources.len(),
{
    if sources.len() == 0 {
        Seq::empty()
    } else {
        all_links(sources.drop_last(), dests, w.drop_last(), dec.drop_last()) + row_links(
            sources.last(),
            dests,
            w.last(),
            dec.last(),
        )
    }
}

/// The adjacency after appending every planned link, in order; a link whose
/// source lies outside the adjacency changes nothing.
pub open spec fn adj_linked(adj: AdjacencyView, links: Seq<PlannedLink>) -> AdjacencyView
    decreases links.len(),
{
    if links.len() == 0 {
        adj
    } else {
        let a2 = adj_linked(adj, links.drop_last());
        let l = links.last();
        if (l.source as int) < a2.len() {
            a2.update(
                l.source as int,
                a2[l.source as int].push(NeuronIdWeightPair { id: l.dest, weight: l.weight }),
            )
        } else {
            a2
        }
    }
}

impl Director {
    /// Applies a linking rule over the Cartesian product of `sources` and
    /// `destinations`: for every pair the rule accepts, appends one edge
    /// carrying that pair's weight, in row-major order. Every id must have
    /// been issued by this director, and an explicit weight matrix must
    /// match the product's dimensions; linking then never fails.
    pub fn create_links_by_rule<F: Fn(usize, usize) -> bool>(
        &mut self,
        sources: &[NeuronUniqueId],
        destinations: &[NeuronUniqueId],
        weights: VecOrValueLevel,
        rule: BatchLinkingRule<F>,
    ) -> (r: Result<(), Error>)
        requires
            old(self).wf(),
            forall|k: int|
                0 <= k < sources@.len() ==> ((#[trigger] sources@[k]) as int) < old(
                    self,
                )@.agents.len(),
            forall|k: int|
                0 <= k < destinations@.len() ==> ((#[trigger] destinations@[k]) as int) < old(
                    self,
                )@.agents.len(),
            weights matches VecOrValueLevel::Matrix(m) ==> m@.len() == sources@.len() && forall|
                i: int,
            |
                0 <= i < m@.len() ==> (#[trigger] m@[i])@.len() == destinations@.len(),
            rule matches BatchLinkingRule::UserDefined(f) ==> forall|i: usize, j: usize|
                i < sources@.len() && j < destinations@.len() ==> call_requires(f, (i, j)),
        ensures
            final(self).wf(),
            r is Ok,
            final(self)@.agents == old(self)@.agents,
            final(self)@.cur_time == old(self)@.cur_time,
            final(self)@.sim_time == old(self)@.sim_time,
            final(self)@.name == old(self)@.name,
            rule matches BatchLinkingRule::NoLinks ==> final(self)@ == old(self)@,
            rule matches BatchLinkingRule::FullyConnected ==> final(self)@.adjacency
                == adj_linked(
                old(self)@.adjacency,
                all_links(
                    sources@,
                    destinations@,
                    weight_mat(weights, sources@.len(), destinations@.len()),
                    full_decisions(sources@.len(), destinations@.len()),
                ),
            ),
            rule matches BatchLinkingRule::UserDefined(f) ==> exists|dec: Seq<Seq<bool>>|
                {
                    &&& dec.len() == sources@.len()
                    &&& forall|i: int| 0 <= i < dec.len() ==> (#[trigger] dec[i]).len()
                        == destinations@.len()
                    &&& forall|i: int, j: int|
                        0 <= i < sources@.len() && 0 <= j < destinations@.len() ==> call_ensures(
                            f,
                            (i as usize, j as usize),
                            #[trigger] dec[i][j],
                        )
                    &&& final(self)@.adjacency == adj_linked(
                        old(self)@.adjacency,
                        all_links(
                            sources@,
                            destinations@,
                            weight_mat(weights, sources@.len(), destinations@.len()),
                            dec,
                        ),
                    )
                },
    {
        let ghost w0 = weights;
        let ns = sources.len();
        let nd = destinations.len();
        let ghost gw = weight_mat(w0, ns as nat, nd as nat);

        // Materialize the weight of every pair.
        let wm: Vec<Vec<Level>> = match weights {
            VecOrValueLevel::Matrix(m) => m,
            VecOrValueLevel::Val(x) => {
                let mut m: Vec<Vec<Level>> = Vec::new();
                let mut i: usize = 0;
                while i < ns
                    invariant
                        0 <= i <= ns,
                        m@.len() == i,
                        forall|a: int|
                            0 <= a < i ==> (#[trigger] m@[a])@ == Seq::new(
                                nd as nat,
                                |j: int| x,
                            ),
                    decreases ns - i,
                {
                    let mut row: Vec<Level> = Vec::new();
                    let mut j: usize = 0;
                    while j < nd
                        invariant
                            0 <= j <= nd,
                            row@.len() == j,
                            forall|b: int| 0 <= b < j ==> row@[b] == x,
                        decreases nd - j,
                    {
                        row.push(x);
                        j += 1;
                    }
                    proof {
                        assert(row@ =~= Seq::new(nd as nat, |j: int| x));
                    }
                    m.push(row);
                    i += 1;
                }
                m
            },
        };
        proof {
            assert(wm.deep_view() =~~= gw);
        }

        // Materialize the rule's decision for every pair.
        let dm: Vec<Vec<bool>> = match rule {
            BatchLinkingRule::NoLinks => {
                return Ok(());
            },
            BatchLinkingRule::FullyConnected => {
                let mut m: Vec<Vec<bool>> = Vec::new();
                let mut i: usize = 0;
                while i < ns
                    invariant
                        0 <= i <= ns,
                        m@.len() == i,
                        forall|a: int|
                            0 <= a < i ==> (#[trigger] m@[a])@ == Seq::new(
                                nd as nat,
                                |j: int| true,
                            ),
                    decreases ns - i,
                {
                    let mut row: Vec<bool> = Vec::new();
                    let mut j: usize = 0;
                    while j < nd
                        invariant
                            0 <= j <= nd,
                            row@.len() == j,
                            forall|b: int| 0 <= b < j ==> row@[b] == true,
                        decreases nd - j,
                    {
                        row.push(true);
                        j += 1;
                    }
                    proof {
                        assert(row@ =~= Seq::new(nd as nat, |j: int| true));
                    }
                    m.push(row);
                    i += 1;
                }
                proof {
                    assert(m.deep_view() =~~= full_decisions(ns as nat, nd as nat));
                }
                m
            },
            BatchLinkingRule::UserDefined(f) => {
                let mut m: Vec<Vec<bool>> = Vec::new();
                let mut i: usize = 0;
                while i < ns
                    invariant
                        0 <= i <= ns,
                        ns == sources@.len(),
                        nd == destinations@.len(),
                        m@.len() == i,
                        forall|a: int| 0 <= a < i ==> (#[trigger] m@[a])@.len() == nd,
                        forall|a: int, b: int|
                            0 <= a < i && 0 <= b < nd ==> call_ensures(
                                f,
                                (a as usize, b as usize),
                                #[trigger] m@[a]@[b],
                            ),
                        forall|p: usize, q: usize|
                            p < ns && q < nd ==> call_requires(f, (p, q)),
                    decreases ns - i,
                {
                    let mut row: Vec<bool> = Vec::new();
                    let mut j: usize = 0;
                    while j < nd
                        invariant
                            0 <= j <= nd,
                            i < ns,
                            ns == sources@.len(),
                            nd == destinations@.len(),
                            row@.len() == j,
                            forall|b: int|
                                0 <= b < j ==> call_ensures(
                                    f,
                                    (i, b as usize),
                                    #[trigger] row@[b],
                                ),
                            forall|p: usize, q: usize|
                                p < ns && q < nd ==> call_requires(f, (p, q)),
                        decreases nd - j,
                    {
                        let d = f(i, j);
                        row.push(d);
                        j += 1;
                    }
                    m.push(row);
                    i += 1;
                }
                m
            },
        };
        let ghost gdec = dm.deep_view();

        // Create every accepted link, in row-major order.
        let ghost adj0 = self@.adjacency;
        let ghost gsrc = sources@;
        let ghost gdst = destinations@;
        let mut i: usize = 0;
        proof {
            assert(all_links(gsrc.take(0), gdst, gw.take(0), gdec.take(0)) =~= Seq::empty());
        }
        while i < ns
            invariant
                0 <= i <= ns,
                ns == gsrc.len(),
                nd == gdst.len(),
                gsrc == sources@,
                gdst == destinations@,
                wm.deep_view() == gw,
                gw.len() == ns,
                forall|a: int| 0 <= a < ns ==> (#[trigger] gw[a]).len() == nd,
                dm.deep_view() == gdec,
                gdec.len() == ns,
                forall|a: int| 0 <= a < ns ==> (#[trigger] gdec[a]).len() == nd,
                self.wf(),
                self@.agents == old(self)@.agents,
                self@.cur_time == old(self)@.cur_time,
                self@.sim_time == old(self)@.sim_time,
                self@.name == old(self)@.name,
                adj0 == old(self)@.adjacency,
                forall|k: int|
                    0 <= k < gsrc.len() ==> ((#[trigger] gsrc[k]) as int) < self@.agents.len(),
                forall|k: int|
                    0 <= k < gdst.len() ==> ((#[trigger] gdst[k]) as int) < self@.agents.len(),
                self@.adjacency == adj_linked(
                    adj0,
                    all_links(gsrc.take(i as int), gdst, gw.take(i as int), gdec.take(i as int)),
                ),
            decreases ns - i,
        {
            let ghost links_before = all_links(
                gsrc.take(i as int),
                gdst,
                gw.take(i as int),
                gdec.take(i as int),
            );
            let mut j: usize = 0;
            proof {
                assert(row_links(gsrc[i as int], gdst.take(0), gw[i as int].take(0), gdec[i as int].take(0))
                    =~= Seq::empty());
                assert(links_before + Seq::<PlannedLink>::empty() =~= links_before);
            }
            while j < nd
                invariant
                    0 <= j <= nd,
                    i < ns,
                    ns == gsrc.len(),
                    nd == gdst.len(),
                    gsrc == sources@,
                    gdst == destinations@,
                    wm.deep_view() == gw,
                    gw.len() == ns,
                    forall|a: int| 0 <= a < ns ==> (#[trigger] gw[a]).len() == nd,
                    dm.deep_view() == gdec,
                    gdec.len() == ns,
                    forall|a: int| 0 <= a < ns ==> (#[trigger] gdec[a]).len() == nd,
                    self.wf(),
                    self@.agents == old(self)@.agents,
                    self@.cur_time == old(self)@.cur_time,
                    self@.sim_time == old(self)@.sim_time,
                    self@.name == old(self)@.name,
                    adj0 == old(self)@.adjacency,
                    forall|k: int|
                        0 <= k < gsrc.len() ==> (#[trigger] gsrc[k] as int) < self@.agents.len(),
                    forall|k: int|
                        0 <= k < gdst.len() ==> (#[trigger] gdst[k] as int) < self@.agents.len(),
                    links_before == all_links(
                        gsrc.take(i as int),
                        gdst,
                        gw.take(i as int),
                        gdec.take(i as int),
                    ),
                    self@.adjacency == adj_linked(
                        adj0,
                        links_before + row_links(
                            gsrc[i as int],
                            gdst.take(j as int),
                            gw[i as int].take(j as int),
                            gdec[i as int].take(j as int),
                        ),
                    ),
                decreases nd - j,
            {
                let ghost row_before = row_links(
                    gsrc[i as int],
                    gdst.take(j as int),
                    gw[i as int].take(j as int),
                    gdec[i as int].take(j as int),
                );
                proof {
                    assert(dm.deep_view()[i as int] == dm@[i as int]@);
                    assert(wm.deep_view()[i as int] == wm@[i as int]@);
                }
                if dm[i][j] {
                    let _ = self.create_link(sources[i], destinations[j], wm[i][j]);
                }
                proof {
                    let dl = gdst.take(j + 1);
                    let wl = gw[i as int].take(j + 1);
                    let cl = gdec[i as int].take(j + 1);
                    assert(dl.drop_last() =~= gdst.take(j as int));
                    assert(wl.drop_last() =~= gw[i as int].take(j as int));
                    assert(cl.drop_last() =~= gdec[i as int].take(j as int));
                    assert(dl.last() == gdst[j as int]);
                    assert(wl.last() == gw[i as int][j as int]);
                    assert(cl.last() == gdec[i as int][j as int]);
                    if gdec[i as int][j as int] {
                        let lk = PlannedLink {
                            source: gsrc[i as int],
                            dest: gdst[j as int],
                            weight: gw[i as int][j as int],
                        };
                        assert(row_links(gsrc[i as int], dl, wl, cl) =~= row_before + seq![lk]);
                        assert((links_before + row_before).push(lk) =~= links_before + (
                        row_before + seq![lk]));
                        assert(adj_linked(adj0, (links_before + row_before).push(lk))
                            == adj_linked(adj0, links_before + row_before).update(
                            lk.source as int,
                            adj_linked(adj0, links_before + row_before)[lk.source as int].push(
                                NeuronIdWeightPair { id: lk.dest, weight: lk.weight },
                            ),
                        )) by {
                            assert((links_before + row_before).push(lk).drop_last() =~= (
                            links_before + row_before));
                            assert(adj_linked(adj0, links_before + row_before).len()
                                == self@.agents.len());
                        }
                    } else {
                        assert(row_links(gsrc[i as int], dl, wl, cl) =~= row_before);
                    }
                }
                j += 1;
            }
            proof {
                let sl = gsrc.take(i + 1);
                let wl2 = gw.take(i + 1);
                let cl2 = gdec.take(i + 1);
                assert(sl.drop_last() =~= gsrc.take(i as int));
                assert(wl2.drop_last() =~= gw.take(i as int));
                assert(cl2.drop_last() =~= gdec.take(i as int));
                assert(sl.last() == gsrc[i as int]);
                assert(wl2.last() == gw[i as int]);
                assert(cl2.last() == gdec[i as int]);
                assert(gdst.take(nd as int) =~= gdst);
                assert(gw[i as int].take(nd as int) =~= gw[i as int]);
                assert(gdec[i as int].take(nd as int) =~= gdec[i as int]);
                assert(all_links(sl, gdst, wl2, cl2) == links_before + row_links(
                    gsrc[i as int],
                    gdst,
                    gw[i as int],
                    gdec[i as int],
                ));
            }
            i += 1;
        }
        proof {
            assert(gsrc.take(ns as int) =~= gsrc);
            assert(gw.take(ns as int) =~= gw);
            assert(gdec.take(ns as int) =~= gdec);
        }
        Ok(())
    }
}

} // verus!
