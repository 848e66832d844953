//! The request-handling kernel: a thin façade that turns a raw request into
//! a response by dispatching kernel events and reading the response a
//! listener may have put on the event.

use vstd::prelude::*;

use crate::dispatcher::{
    dispatch_post, listeners_for, Dispatchable, EventDispatcher, ListenerCallable,
};
use crate::event::{Event, EventStopable, GetResponseEvent};

verus! {

pub const KERNEL_EVENT_REQUEST: &'static str = "kernel.request";

pub const KERNEL_EVENT_EXCEPTION: &'static str = "kernel.exception";

pub const KERNEL_EVENT_VIEW: &'static str = "kernel.view";

pub const KERNEL_EVENT_CONTROLLER: &'static str = "kernel.controller";

pub const KERNEL_EVENT_RESPONSE: &'static str = "kernel.response";

pub const KERNEL_EVENT_TERMINATE: &'static str = "kernel.terminate";

pub const KERNEL_EVENT_FINISH_REQUEST: &'static str = "kernel.finish_request";

/// Something told when a request's handling is over.
pub trait Terminable {
    fn terminate(&mut self, request: &mut String, response: &mut String);
}

/// Something that turns a raw request into a response.
pub trait Handleable {
    fn handle(&mut self, request: &String) -> String;
}

/// The kernel: hands each phase of a request's handling to the dispatcher as
/// an event, and answers with the response a listener supplied, or with the
/// error page when none did.
pub struct HttpKernel<D> where D: Dispatchable<Event> + Dispatchable<GetResponseEvent> {
    pub dispatcher: D,
}

impl<D> HttpKernel<D> where D: Dispatchable<Event> + Dispatchable<GetResponseEvent> {
    pub fn new(dispatcher: D) -> (r: HttpKernel<D>)
        ensures
            r.dispatcher == dispatcher,
    {
        HttpKernel { dispatcher }
    }

    /// The response the request-phase listeners put on their event, if any.
    pub open spec fn spec_request_response(&self, request: String) -> Option<String> {
        self.dispatcher.dispatch_spec(
            KERNEL_EVENT_REQUEST@,
            GetResponseEvent::spec_new(request),
        ).response
    }

    /// The response the controller-phase listeners put on their event, if any.
    pub open spec fn spec_controller_response(&self, request: String) -> Option<String> {
        self.dispatcher.dispatch_spec(
            KERNEL_EVENT_CONTROLLER@,
            GetResponseEvent::spec_new(request),
        ).response
    }

    /// The response the kernel owes for a request: the request phase's if it
    /// produced one, else the controller phase's, else none.
    pub open spec fn spec_response_for(&self, request: String) -> Option<String> {
        if self.spec_request_response(request) is Some {
            self.spec_request_response(request)
        } else {
            self.spec_controller_response(request)
        }
    }

    /// Dispatch the request and controller phases; the first response wins,
    /// and with no response at all the request cannot be handled.
    pub fn handle_raw(&mut self, request: &String) -> (r: Result<String, String>)
        ensures
            *final(self) == *old(self),
            match r {
                Ok(response) => old(self).spec_response_for(*request) == Some(response),
                Err(err) => {
                    &&& old(self).spec_response_for(*request) is None
                    &&& err@ == "No Controller found!"@
                },
            },
    {
        let mut request_event = GetResponseEvent::new(request.clone());
        self.dispatcher.dispatch(KERNEL_EVENT_REQUEST, &mut request_event);
        if let Some(response) = request_event.response {
            let filtered = self.filter_response(response, request);
            return Ok(filtered);
        }

        let mut controller_event = GetResponseEvent::new(request.clone());
        self.dispatcher.dispatch(KERNEL_EVENT_CONTROLLER, &mut controller_event);
        if let Some(response) = controller_event.response {
            let filtered = self.filter_response(response, request);
            return Ok(filtered);
        }

        Err(self.handle_exception_message())
    }

    /// Dispatch the exception event and answer with the error page.
    pub fn handle_exception(&mut self, err: String, request: &String) -> (r: String)
        ensures
            *final(self) == *old(self),
            r@ == "Error Request!"@,
    {
        let mut event = Event::new();
        self.dispatcher.dispatch(KERNEL_EVENT_EXCEPTION, &mut event);

        let response = error_response();
        self.filter_response(response, request)
    }

    /// Dispatch the response event; the response itself passes unchanged.
    pub fn filter_response(&mut self, response: String, request: &String) -> (r: String)
        ensures
            *final(self) == *old(self),
            r == response,
    {
        let mut response_event = Event::new();
        self.dispatcher.dispatch(KERNEL_EVENT_RESPONSE, &mut response_event);

        response
    }

    /// Dispatch the finish-request event.
    pub fn finish_request(&mut self, request: &String)
        ensures
            *final(self) == *old(self),
    {
        let mut finish_event = Event::new();
        self.dispatcher.dispatch(KERNEL_EVENT_FINISH_REQUEST, &mut finish_event);
    }

    fn handle_exception_message(&self) -> (r: String)
        ensures
            r@ == "No Controller found!"@,
    {
        "No Controller found!".to_owned()
    }
}

/// The error page the kernel answers with when no listener supplied a
/// response.
pub fn error_response() -> (r: String)
    ensures
        r@ == "Error Request!"@,
{
    "Error Request!".to_owned()
}

impl<D> Terminable for HttpKernel<D> where D: Dispatchable<Event> + Dispatchable<
    GetResponseEvent,
> {
    fn terminate(&mut self, request: &mut String, response: &mut String)
        ensures
            *final(self) == *old(self),
            *final(request) == *old(request),
            *final(response) == *old(response),
    {
        let mut event = Event::new();
        self.dispatcher.dispatch(KERNEL_EVENT_TERMINATE, &mut event);
    }
}

impl<D> Handleable for HttpKernel<D> where D: Dispatchable<Event> + Dispatchable<
    GetResponseEvent,
> {
    fn handle(&mut self, request: &String) -> (r: String)
        ensures
            *final(self) == *old(self),
            match old(self).spec_response_for(*request) {
                Some(response) => r == response,
                None => r@ == "Error Request!"@,
            },
    {
        let raw = self.handle_raw(request);
        match raw {
            Ok(response) => response,
            Err(err) => self.handle_exception(err, request),
        }
    }
}


/// Listeners only observe an event or stop its propagation: none puts a
/// response on it, so a dispatched response event keeps the request and the
/// response it started with.
pub proof fn lemma_listeners_supply_no_response<L: ListenerCallable>(
    ls: Seq<L>,
    pre: GetResponseEvent,
)
    ensures
        dispatch_post(ls, pre).request == pre.request,
        dispatch_post(ls, pre).response == pre.response,
    decreases ls.len(),
{
    if ls.len() > 0 {
        pre.lemma_stop_preserves_payload();
        let head_post = if ls[0].stops_events() {
            pre.spec_stop()
        } else {
            pre
        };
        if head_post.spec_stopped() {
            lemma_listeners_supply_no_response(ls.drop_first(), head_post);
        }
    }
}

/// A kernel whose dispatcher holds such listeners can therefore never find
/// a response on its events: it always answers the error page.
pub proof fn lemma_kernel_with_listeners_answers_error_page<L: ListenerCallable>(
    kernel: HttpKernel<EventDispatcher<L>>,
    request: String,
)
    ensures
        kernel.spec_response_for(request) is None,
{
    let fresh = GetResponseEvent::spec_new(request);
    lemma_listeners_supply_no_response(
        listeners_for(kernel.dispatcher@, KERNEL_EVENT_REQUEST@),
        fresh,
    );
    lemma_listeners_supply_no_response(
        listeners_for(kernel.dispatcher@, KERNEL_EVENT_CONTROLLER@),
        fresh,
    );
}

} // verus!
