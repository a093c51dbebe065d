//! One-shot scheduled callbacks.
//!
//! An `EventEntry` pairs a callback with the timestamp it will be handed;
//! `Callable` consumes such an entry by running it.

use vstd::prelude::*;

verus! {

/// A one-shot event: a callback and the timestamp it will be handed.
pub struct EventEntry<F> where F: FnOnce(i32) {
    pub time_stamp: i32,
    pub event: F,
}

/// Something consumed by being called: the call happens exactly once, for
/// the value is gone afterwards.
pub trait Callable: Sized {
    /// When the call is permitted.
    spec fn call_req(self) -> bool;

    /// What one call brings about.
    spec fn call_ens(self) -> bool;

    fn call(self)
        requires
            self.call_req(),
        ensures
            self.call_ens(),
    ;
}

impl<F> Callable for EventEntry<F> where F: FnOnce(i32) {
    open spec fn call_req(self) -> bool {
        call_requires(self.event, (self.time_stamp,))
    }

    /// The stored callback has run, handed exactly the stored timestamp.
    open spec fn call_ens(self) -> bool {
        call_ensures(self.event, (self.time_stamp,), ())
    }

    fn call(self) {
        (self.event)(self.time_stamp);
    }
}

impl<F> EventEntry<F> where F: FnOnce(i32) {
    /// A fresh entry carrying `event`, to be handed `time_stamp`.
    pub fn new(time_stamp: i32, event: F) -> (r: Option<EventEntry<F>>)
        ensures
            r matches Some(e) && e.time_stamp == time_stamp && e.event == event,
    {
        Some(EventEntry { time_stamp, event })
    }
}

} // verus!
