//! Events that flow through the dispatcher.
//!
//! An event carries a propagation flag: a listener may stop propagation, and
//! the dispatcher consults the flag after every listener it calls.

use vstd::prelude::*;

verus! {

/// An event whose propagation through listeners can be halted.
///
/// The two spec functions give a deterministic model of the event: what the
/// flag reads, and the exact value the event takes when it is stopped.
pub trait EventStopable: Sized {
    /// Whether propagation of this event has been stopped.
    spec fn spec_stopped(&self) -> bool;

    /// The value this event takes once `stop_propagation` is called on it.
    spec fn spec_stop(&self) -> Self;

    /// A stopped event reads as stopped.
    proof fn lemma_stop_stops(&self)
        ensures
            self.spec_stop().spec_stopped(),
    ;

    fn is_propagation_stopped(&self) -> (r: bool)
        ensures
            r == self.spec_stopped(),
    ;

    fn stop_propagation(&mut self)
        ensures
            *final(self) == old(self).spec_stop(),
    ;
}

/// The plain event: nothing but the propagation flag.
pub struct Event {
    pub propagation_stopped: bool,
}

impl Event {
    /// The value `Event::new` returns.
    pub open spec fn spec_new() -> Event {
        Event { propagation_stopped: false }
    }

    pub fn new() -> (r: Event)
        ensures
            r == Event::spec_new(),
            !r.spec_stopped(),
    {
        Event { propagation_stopped: false }
    }
}

impl EventStopable for Event {
    closed spec fn spec_stopped(&self) -> bool {
        self.propagation_stopped
    }

    closed spec fn spec_stop(&self) -> Event {
        Event { propagation_stopped: true }
    }

    proof fn lemma_stop_stops(&self) {
    }

    fn is_propagation_stopped(&self) -> (r: bool) {
        self.propagation_stopped
    }

    fn stop_propagation(&mut self) {
        self.propagation_stopped = true;
    }
}

/// An event that carries a request and, once some listener has supplied one,
/// a response.
pub struct GetResponseEvent {
    pub propagation_stopped: bool,
    pub request: String,
    pub response: Option<String>,
}

impl GetResponseEvent {
    /// The value `GetResponseEvent::new` returns for a given request.
    pub open spec fn spec_new(request: String) -> GetResponseEvent {
        GetResponseEvent { propagation_stopped: false, request, response: None }
    }

    pub fn new(request: String) -> (r: GetResponseEvent)
        ensures
            r == GetResponseEvent::spec_new(request),
            !r.spec_stopped(),
            r.request == request,
            r.response is None,
    {
        GetResponseEvent { propagation_stopped: false, request, response: None }
    }

    /// Stopping the event does not touch the request or the response.
    pub proof fn lemma_stop_preserves_payload(&self)
        ensures
            self.spec_stop().request == self.request,
            self.spec_stop().response == self.response,
    {
    }
}

impl EventStopable for GetResponseEvent {
    closed spec fn spec_stopped(&self) -> bool {
        self.propagation_stopped
    }

    closed spec fn spec_stop(&self) -> GetResponseEvent {
        GetResponseEvent {
            propagation_stopped: true,
            request: self.request,
            response: self.response,
        }
    }

    proof fn lemma_stop_stops(&self) {
    }

    fn is_propagation_stopped(&self) -> (r: bool) {
        self.propagation_stopped
    }

    fn stop_propagation(&mut self) {
        self.propagation_stopped = true;
    }
}

} // verus!
