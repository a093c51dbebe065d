//! The capability set every simulated agent offers the engine.
//!
//! Each capability is a small trait whose methods are specified against the
//! implementing type's view (`Self::V`): an implementation states, through
//! the trait's spec members, exactly which abstract state its transitions
//! produce, and each method's contract then pins the transition down.

use vstd::prelude::*;

use crate::director::Director;
use crate::level::Level;
use crate::NeuronUniqueId;

pub mod lif_neuron;

pub use lif_neuron::LifNeuron;

verus! {

/// Construction of agents from a decay factor alone.
pub trait CommonlyCreateable: View + Sized {
    /// The state a freshly created agent starts in.
    spec fn fresh_view(beta: Level) -> Self::V;

    /// Which decay factors are admissible.
    spec fn fresh_req(beta: Level) -> bool;

    fn create_new(beta: Level) -> (r: Self)
        requires
            Self::fresh_req(beta),
        ensures
            r@ == Self::fresh_view(beta),
    ;

    fn batch_create_new(batch_size: usize, beta: Level) -> (r: Vec<Self>)
        requires
            Self::fresh_req(beta),
        ensures
            r@.len() == batch_size,
            forall|i: int| 0 <= i < r@.len() ==> (#[trigger] r@[i])@ == Self::fresh_view(beta),
    ;
}

/// Registration of agents with a director's registry.
pub trait TimeDependent: Sized {
    /// When handing this agent to the director is permitted.
    spec fn register_req(self, director: Director) -> bool;

    /// The complete effect of one registration.
    spec fn registered(
        self,
        pre: Director,
        post: Director,
        r: Option<NeuronUniqueId>,
    ) -> bool;

    /// When handing a whole batch to the director is permitted.
    spec fn batch_register_req(batch: Seq<Self>, director: Director) -> bool;

    /// The complete effect of registering a whole batch, in order.
    spec fn batch_registered(
        batch: Seq<Self>,
        pre: Director,
        post: Director,
        r: Seq<NeuronUniqueId>,
    ) -> bool;

    fn register(self, director: &mut Director) -> (r: Option<NeuronUniqueId>)
        requires
            self.register_req(*old(director)),
        ensures
            self.registered(*old(director), *final(director), r),
    ;

    fn register_batch(neurons_batch: Vec<Self>, director: &mut Director) -> (r: Vec<
        NeuronUniqueId,
    >)
        requires
            Self::batch_register_req(neurons_batch@, *old(director)),
        ensures
            Self::batch_registered(neurons_batch@, *old(director), *final(director), r@),
    ;
}

/// Start-up transition: folds any pre-planned impulses into the event queue.
pub trait Init: View {
    /// The state after start-up planning has been applied.
    spec fn inited_view(&self) -> Self::V;

    /// What must hold of the state for `init` to run.
    spec fn init_inv(&self) -> bool;

    fn init(&mut self)
        requires
            old(self).init_inv(),
        ensures
            final(self)@ == old(self).inited_view(),
            final(self).init_inv(),
    ;
}

/// Identity assigned by a registry.
pub trait HasId: View {
    /// The agent's current identifier.
    spec fn id_view(&self) -> NeuronUniqueId;

    /// The state after the identifier has been replaced.
    spec fn with_id_view(&self, id: NeuronUniqueId) -> Self::V;

    fn set_id(&mut self, id: NeuronUniqueId)
        ensures
            final(self)@ == old(self).with_id_view(id),
    ;

    fn get_id(&self) -> (r: Option<NeuronUniqueId>)
        ensures
            r == Some(self.id_view()),
    ;
}

/// Firing transitions: queueing a fire event and the threshold check.
pub trait Fire: HasId {
    /// The state after a fire event at `time_step` has been queued.
    spec fn emitted_view(&self, time_step: u32) -> Self::V;

    /// The state after the threshold check at `time_step` has resolved.
    spec fn fire_checked_view(&self, time_step: u32) -> Self::V;

    /// What must hold of the state for the firing transitions to run.
    spec fn fire_inv(&self) -> bool;

    fn emmit_signal(&mut self, time_step: u32)
        requires
            old(self).fire_inv(),
        ensures
            final(self)@ == old(self).emitted_view(time_step),
            final(self).fire_inv(),
    ;

    fn fire(&self) -> (r: Option<NeuronUniqueId>)
        ensures
            r == Some(self.id_view()),
    ;

    fn check_if_should_fire(&mut self, time_step: u32)
        requires
            old(self).fire_inv(),
        ensures
            final(self)@ == old(self).fire_checked_view(time_step),
            final(self).fire_inv(),
    ;
}

/// Decay of accumulated state over elapsed ticks.
pub trait Leaky: View {
    /// The state after leaking up to `time_step`.
    spec fn leaked_view(&self, time_step: u32) -> Self::V;

    /// What must hold of the state for `perform_leak` to run.
    spec fn leak_inv(&self) -> bool;

    fn perform_leak(&mut self, time_step: u32)
        requires
            old(self).leak_inv(),
        ensures
            final(self)@ == old(self).leaked_view(time_step),
            final(self).leak_inv(),
    ;
}

/// A sorted queue of pending fire-event ticks.
pub trait PlansEvents: View {
    /// The queued fire-event ticks, earliest first.
    spec fn events_view(&self) -> Seq<u32>;

    /// The state after the earliest queued event has been removed.
    spec fn popped_view(&self) -> Self::V;

    fn get_earliest_event(&self) -> (r: Option<&u32>)
        ensures
            r is None <==> self.events_view().len() == 0,
            r matches Some(v) ==> self.events_view().len() > 0 && *v == self.events_view()[0],
    ;

    fn get_earliest_event_available(&self) -> (r: Option<bool>)
        ensures
            r == Some(self.events_view().len() > 0),
    ;

    fn pop_earliest_event(&mut self)
        requires
            old(self).events_view().len() > 0,
        ensures
            final(self)@ == old(self).popped_view(),
    ;
}

/// Reception of a weighted signal from another agent.
pub trait SignalReceiver: View {
    /// The currently accumulated signal level.
    spec fn signal_view(&self) -> Level;

    /// The state after a signal of strength `signal` arrives at `time_step`.
    spec fn received_view(&self, time_step: u32, signal: Level) -> Self::V;

    /// What must hold of the state for `recieve_signal` to run.
    spec fn recv_inv(&self) -> bool;

    fn recieve_signal(&mut self, time_step: u32, signal: Level)
        requires
            old(self).recv_inv(),
        ensures
            final(self)@ == old(self).received_view(time_step, signal),
            final(self).recv_inv(),
    ;

    fn get_signal(&self) -> (r: Option<Level>)
        ensures
            r == Some(self.signal_view()),
    ;
}

/// The full capability set a `Director` drives.
pub trait Neuron: SignalReceiver + Init + HasId + Fire + Leaky + PlansEvents {

}

} // verus!
