//! The lifecycle orchestrator.
//!
//! A `Simulation` owns zero or more directors and the shared trace log. Its
//! `start` sequences every director's lifecycle — start-up, then the tick
//! loop — so that all declaration scopes are closed exactly once before any
//! value is written, and finalizes the trace at the end; the recorded event
//! sequence provably obeys the sink's calling order (`trace_wf`). Directors
//! are processed in reverse registration order, and a failing director
//! aborts the remaining sequence with the first error encountered.

use vstd::prelude::*;

use crate::director::{dir_inited, iter_round, Director};
use crate::error::Error;
use crate::trace::{
    is_decl_event, is_value_event, lemma_log_extended_trans, log_extended, trace_wf, TraceEvent,
    TraceLog,
};

verus! {

/// `d` is `orig` after a completed run: started up, then some number of
/// rounds, with the clock at the tick budget.
pub open spec fn ran_director(d: Director, orig: Director) -> bool {
    &&& d.cur_time == d.sim_time
    &&& exists|n: nat| d@ == #[trigger] iter_round(dir_inited(orig@), n)
}

/// The director at processing slot `k` — directors are processed in
/// reverse registration order — has a settling run from its started state,
/// so its tick loop is owed success.
pub open spec fn processed_settles(dirs: Seq<Director>, k: int) -> bool {
    crate::director::run_settles(dir_inited(dirs[dirs.len() - 1 - k]@))
}

/// Owns the registered directors and the shared trace log.
pub struct Simulation {
    pub controlled_directors: Vec<Director>,
    pub trace: TraceLog,
}

impl Simulation {
    /// Every registered director is well formed.
    pub open spec fn wf(&self) -> bool {
        forall|k: int|
            0 <= k < self.controlled_directors@.len() ==> (
            #[trigger] self.controlled_directors@[k]).wf()
    }

    /// A fresh simulation; recording is on exactly when `trace` is set.
    /// The log itself lives in memory, so construction never fails.
    pub fn new(trace: bool) -> (r: Result<Simulation, Error>)
        ensures
            r matches Ok(s) && s.wf() && s.controlled_directors@.len() == 0 && s.trace.enabled
                == trace && s.trace.events@.len() == 0,
    {
        Ok(Simulation { controlled_directors: Vec::new(), trace: TraceLog::new(trace) })
    }

    /// Takes ownership of a fully built director; returns the slot it will
    /// occupy. Topology is built on the director before registration.
    pub fn register_director(&mut self, director: Director) -> (r: usize)
        requires
            director.wf(),
        ensures
            final(self).controlled_directors@ == old(self).controlled_directors@.push(director),
            final(self).trace == old(self).trace,
            r == old(self).controlled_directors@.len(),
            old(self).wf() ==> final(self).wf(),
    {
        let r = self.controlled_directors.len();
        self.controlled_directors.push(director);
        r
    }

    /// Runs every director: first all start-ups (declaring every trace
    /// variable), then — after the structural section is closed exactly
    /// once — every tick loop, then the final trace event. Directors run in
    /// reverse registration order and end up stored in that order. Success
    /// is owed exactly when every director's run settles; the first
    /// director, in processing order, whose cascade never settles aborts
    /// the remaining sequence and surfaces its error, and the directors —
    /// partially run or not started — are discarded, never retried.
    pub fn start(&mut self) -> (r: Result<(), Error>)
        requires
            old(self).wf(),
        ensures
            final(self).wf(),
            final(self).trace.enabled == old(self).trace.enabled,
            r is Ok <==> (forall|k: int|
                0 <= k < old(self).controlled_directors@.len() ==> #[trigger] processed_settles(
                    old(self).controlled_directors@,
                    k,
                )),
            r is Err ==> r == Err::<(), Error>(Error::JoinHandle),
            r is Err ==> final(self).controlled_directors@.len() == 0,
            r is Err ==> exists|k: int|
                {
                    &&& 0 <= k < old(self).controlled_directors@.len()
                    &&& !(#[trigger] processed_settles(old(self).controlled_directors@, k))
                    &&& forall|j: int|
                        0 <= j < k ==> processed_settles(old(self).controlled_directors@, j)
                },
            r is Ok ==> final(self).controlled_directors@.len() == old(
                self,
            ).controlled_directors@.len(),
            r is Ok ==> forall|k: int|
                0 <= k < final(self).controlled_directors@.len() ==> ran_director(
                    #[trigger] final(self).controlled_directors@[k],
                    old(self).controlled_directors@[old(self).controlled_directors@.len() - 1
                        - k],
                ),
            r is Ok && old(self).trace.enabled && old(self).trace.events@.len() == 0
                ==> trace_wf(final(self).trace.events@),
    {
        let ghost prev = old(self).controlled_directors@;
        let ghost log0 = old(self).trace;
        let mut director_refs: Vec<Director> = Vec::new();
        let ghost mut decls: Seq<TraceEvent> = Seq::empty();
        proof {
            if log0.enabled {
                assert(log0.events@ + decls =~= log0.events@);
            }
        }
        while self.controlled_directors.len() > 0
            invariant
                prev == old(self).controlled_directors@,
                log0 == old(self).trace,
                forall|k: int| 0 <= k < prev.len() ==> (#[trigger] prev[k]).wf(),
                director_refs@.len() + self.controlled_directors@.len() == prev.len(),
                self.controlled_directors@ == prev.take(
                    prev.len() - director_refs@.len() as int,
                ),
                forall|j: int|
                    0 <= j < director_refs@.len() ==> (#[trigger] director_refs@[j])@
                        == dir_inited(prev[prev.len() - 1 - j]@) && director_refs@[j].wf(),
                log_extended(log0, self.trace, decls),
                forall|j: int| 0 <= j < decls.len() ==> is_decl_event(#[trigger] decls[j]),
            decreases self.controlled_directors@.len(),
        {
            let director_opt = self.controlled_directors.pop();
            let mut director = director_opt.unwrap();
            let ghost dpre = director@;
            let ghost log_pre = self.trace;
            proof {
                let m = prev.len() - director_refs@.len() as int;
                assert(director == prev[m - 1]);
                assert(prev.take(m).drop_last() =~= prev.take(m - 1));
            }
            let _ = director.init_planned(&mut self.trace);
            director_refs.push(director);
            proof {
                lemma_log_extended_trans(
                    log0,
                    log_pre,
                    self.trace,
                    decls,
                    crate::director::decl_trace(dpre),
                );
                let dt = crate::director::decl_trace(dpre);
                assert forall|j: int| 0 <= j < dt.len() implies is_decl_event(
                    #[trigger] dt[j],
                ) by {
                    let inner = Seq::new(
                        dpre.agents.len(),
                        |i: int| TraceEvent::DeclareVar { director: dpre.name, agent: dpre.agents[i].id },
                    );
                    if 0 < j < dt.len() - 1 {
                        assert(dt[j] == inner[j - 1]);
                    }
                }
                decls = decls + dt;
            }
        }
        let ghost log_pre2 = self.trace;
        self.trace.push(TraceEvent::CloseDeclarations);
        proof {
            lemma_log_extended_trans(
                log0,
                log_pre2,
                self.trace,
                decls,
                seq![TraceEvent::CloseDeclarations],
            );
        }
        let ghost mut body: Seq<TraceEvent> = Seq::empty();
        proof {
            lemma_log_extended_trans(
                log0,
                self.trace,
                self.trace,
                decls + seq![TraceEvent::CloseDeclarations],
                Seq::empty(),
            );
            assert((decls + seq![TraceEvent::CloseDeclarations]) + Seq::<TraceEvent>::empty()
                =~= decls + seq![TraceEvent::CloseDeclarations]);
            if log0.enabled {
                assert(self.trace.events@ + Seq::<TraceEvent>::empty() =~= self.trace.events@);
            }
        }
        let n = director_refs.len();
        let mut i: usize = 0;
        while i < n
            invariant
                n == director_refs@.len(),
                n == prev.len(),
                prev == old(self).controlled_directors@,
                log0 == old(self).trace,
                self.controlled_directors@.len() == 0,
                forall|j: int|
                    0 <= j < i ==> {
                        &&& (#[trigger] director_refs@[j]).wf()
                        &&& director_refs@[j].cur_time == director_refs@[j].sim_time
                        &&& exists|m: nat|
                            director_refs@[j]@ == #[trigger] iter_round(
                                dir_inited(prev[prev.len() - 1 - j]@),
                                m,
                            )
                    },
                forall|j: int|
                    i <= j < n ==> (#[trigger] director_refs@[j])@ == dir_inited(
                        prev[prev.len() - 1 - j]@,
                    ) && director_refs@[j].wf(),
                forall|j: int| 0 <= j < i ==> #[trigger] processed_settles(prev, j),
                log_extended(log0, self.trace, (decls + seq![TraceEvent::CloseDeclarations]) + body),
                forall|j: int| 0 <= j < decls.len() ==> is_decl_event(#[trigger] decls[j]),
                forall|j: int| 0 <= j < body.len() ==> is_value_event(#[trigger] body[j]),
            decreases n - i,
        {
            let ghost log_pre4 = self.trace;
            let d = &mut director_refs[i];
            let ghost dstart = d@;
            let res = d.start_planned(&mut self.trace);
            proof {
                let s = choose|s: Seq<TraceEvent>|
                    log_extended(log_pre4, self.trace, s) && (forall|m: int|
                        0 <= m < s.len() ==> is_value_event(#[trigger] s[m]));
                lemma_log_extended_trans(
                    log0,
                    log_pre4,
                    self.trace,
                    (decls + seq![TraceEvent::CloseDeclarations]) + body,
                    s,
                );
                assert(((decls + seq![TraceEvent::CloseDeclarations]) + body) + s =~= (decls
                    + seq![TraceEvent::CloseDeclarations]) + (body + s));
                body = body + s;
            }
            match res {
                Ok(()) => {
                    proof {
                        assert(dstart == dir_inited(prev[prev.len() - 1 - i]@));
                        assert(processed_settles(prev, i as int));
                    }
                },
                Err(e) => {
                    proof {
                        assert(dstart == dir_inited(prev[prev.len() - 1 - i]@));
                        assert(!crate::director::run_settles(dstart));
                        assert(!processed_settles(prev, i as int));
                        assert(0 <= i < prev.len());
                        assert(forall|j: int|
                            0 <= j < i ==> #[trigger] processed_settles(prev, j));
                    }
                    return Err(e);
                },
            }
            i += 1;
        }
        let ghost log_pre5 = self.trace;
        self.trace.push(TraceEvent::Finalize);
        proof {
            lemma_log_extended_trans(
                log0,
                log_pre5,
                self.trace,
                (decls + seq![TraceEvent::CloseDeclarations]) + body,
                seq![TraceEvent::Finalize],
            );
        }
        let ghost refs_final = director_refs@;
        let ghost trace_done = self.trace;
        while director_refs.len() > 0
            invariant
                self.controlled_directors@ + director_refs@ == refs_final,
                refs_final.len() == prev.len(),
                log0 == old(self).trace,
                prev == old(self).controlled_directors@,
                self.trace == trace_done,
                forall|j: int|
                    0 <= j < refs_final.len() ==> {
                        &&& (#[trigger] refs_final[j]).wf()
                        &&& refs_final[j].cur_time == refs_final[j].sim_time
                        &&& exists|m: nat|
                            refs_final[j]@ == #[trigger] iter_round(
                                dir_inited(prev[prev.len() - 1 - j]@),
                                m,
                            )
                    },
                forall|j: int| 0 <= j < prev.len() ==> #[trigger] processed_settles(prev, j),
            decreases director_refs@.len(),
        {
            let d = director_refs.remove(0);
            self.controlled_directors.push(d);
            proof {
                assert(self.controlled_directors@ + director_refs@ =~= refs_final);
            }
        }
        proof {
            assert(self.controlled_directors@ + director_refs@ =~= refs_final);
            assert(self.controlled_directors@ =~= refs_final);
            assert forall|k: int| 0 <= k < self.controlled_directors@.len() implies ran_director(
                #[trigger] self.controlled_directors@[k],
                prev[prev.len() - 1 - k],
            ) by {
                assert(self.controlled_directors@[k] == refs_final[k]);
            }
            if log0.enabled && log0.events@.len() == 0 {
                let total = ((decls + seq![TraceEvent::CloseDeclarations]) + body) + seq![
                    TraceEvent::Finalize,
                ];
                assert(self.trace.events@ =~= total);
                let k = decls.len() as int;
                assert(total[k] is CloseDeclarations);
                assert(total.last() is Finalize);
                assert forall|j: int| 0 <= j < k implies is_decl_event(#[trigger] total[j]) by {
                    assert(total[j] == decls[j]);
                }
                assert forall|j: int| k < j < total.len() - 1 implies is_value_event(
                    #[trigger] total[j],
                ) by {
                    assert(total[j] == body[j - k - 1]);
                }
                assert(trace_wf(self.trace.events@));
            }
        }
        Ok(())
    }
}

} // verus!
