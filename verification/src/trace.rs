//! The ordered trace-event log.
//!
//! The engine never writes a waveform file itself: it appends abstract sink
//! calls to this log, and an external renderer replays them against a real
//! waveform writer. The library guarantees the calling order the external
//! sink demands: a structural section (scopes and variable declarations),
//! closed exactly once, then value writes and time advances, then one final
//! `Finalize` — `trace_wf` states that shape and the engine proves it.

use vstd::prelude::*;

use crate::level::Level;
use crate::NeuronUniqueId;

verus! {

/// One abstract call to the external trace sink.
#[derive(Clone, Copy, Debug, PartialEq, Eq)]
pub enum TraceEvent {
    /// Open a declaration scope for one director.
    OpenScope(NeuronUniqueId),
    /// Declare the trace variable of one agent of one director.
    DeclareVar { director: NeuronUniqueId, agent: NeuronUniqueId },
    /// Close the most recently opened declaration scope.
    CloseScope,
    /// Close the whole structural section; no declaration may follow.
    CloseDeclarations,
    /// A director starts dumping its agents' starting values.
    BeginValues(NeuronUniqueId),
    /// The observed signal level of one agent.
    WriteValue { director: NeuronUniqueId, agent: NeuronUniqueId, level: Level },
    /// A director finished dumping its starting values.
    EndValues(NeuronUniqueId),
    /// The shared clock advanced to a new tick.
    AdvanceTime(u32),
    /// The run is over; nothing may follow.
    Finalize,
}

/// Events legal inside the structural section.
pub open spec fn is_decl_event(e: TraceEvent) -> bool {
    ||| e matches TraceEvent::OpenScope(_)
    ||| e matches TraceEvent::DeclareVar { .. }
    ||| e matches TraceEvent::CloseScope
}

/// Events legal after the structural section and before `Finalize`.
pub open spec fn is_value_event(e: TraceEvent) -> bool {
    ||| e matches TraceEvent::BeginValues(_)
    ||| e matches TraceEvent::WriteValue { .. }
    ||| e matches TraceEvent::EndValues(_)
    ||| e matches TraceEvent::AdvanceTime(_)
}

/// The calling order the external sink contract demands: declarations,
/// one `CloseDeclarations`, values and time advances, one final `Finalize`.
pub open spec fn trace_wf(s: Seq<TraceEvent>) -> bool {
    exists|k: int|
        {
            &&& 0 <= k < s.len() - 1
            &&& #[trigger] s[k] is CloseDeclarations
            &&& s.last() is Finalize
            &&& forall|i: int| 0 <= i < k ==> is_decl_event(#[trigger] s[i])
            &&& forall|i: int| k < i < s.len() - 1 ==> is_value_event(#[trigger] s[i])
        }
}

/// Two successive extensions of a log append their concatenation.
pub proof fn lemma_log_extended_trans(
    a: TraceLog,
    b: TraceLog,
    c: TraceLog,
    s1: Seq<TraceEvent>,
    s2: Seq<TraceEvent>,
)
    requires
        log_extended(a, b, s1),
        log_extended(b, c, s2),
    ensures
        log_extended(a, c, s1 + s2),
{
    if a.enabled {
        assert((a.events@ + s1) + s2 =~= a.events@ + (s1 + s2));
    }
}

/// A disabled log records nothing; an enabled one records every event.
pub struct TraceLog {
    pub enabled: bool,
    pub events: Vec<TraceEvent>,
}

/// `post` is `pre` with exactly `s` appended — or untouched if recording is
/// off.
pub open spec fn log_extended(pre: TraceLog, post: TraceLog, s: Seq<TraceEvent>) -> bool {
    &&& post.enabled == pre.enabled
    &&& post.events@ == if pre.enabled {
        pre.events@ + s
    } else {
        pre.events@
    }
}

impl TraceLog {
    /// A fresh, empty log.
    pub fn new(enabled: bool) -> (r: TraceLog)
        ensures
            r.enabled == enabled,
            r.events@ =~= Seq::<TraceEvent>::empty(),
    {
        TraceLog { enabled, events: Vec::new() }
    }

    /// Records one event, if recording is on.
    pub fn push(&mut self, e: TraceEvent)
        ensures
            log_extended(*old(self), *final(self), seq![e]),
    {
        if self.enabled {
            self.events.push(e);
        }
        proof {
            if old(self).enabled {
                assert(final(self).events@ =~= old(self).events@ + seq![e]);
            }
        }
    }
}

} // verus!
