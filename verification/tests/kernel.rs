use symphrs::dispatcher::{EventDispatcher, EventListener, ListenerAction};
use symphrs::kernel::{
    error_response, Handleable, HttpKernel, Terminable, KERNEL_EVENT_CONTROLLER,
    KERNEL_EVENT_REQUEST,
};

fn empty_kernel() -> HttpKernel<EventDispatcher<EventListener>> {
    HttpKernel::new(EventDispatcher::new())
}

#[test]
fn handle_without_listeners_answers_the_error_page() {
    let mut kernel = empty_kernel();
    let request = "GET / HTTP/1.1\r\n".to_string();
    let response = kernel.handle(&request);
    assert_eq!("Error Request!", response.as_str());
}

#[test]
fn handle_raw_without_controller_reports_it() {
    let mut kernel = empty_kernel();
    let request = "GET / HTTP/1.1\r\n".to_string();
    let raw = kernel.handle_raw(&request);
    assert_eq!(Err("No Controller found!".to_string()), raw);
}

#[test]
fn plain_listeners_supply_no_response() {
    // Event listeners only observe or stop propagation, so the kernel still
    // ends on the error page with them registered.
    let mut dispatcher: EventDispatcher<EventListener> = EventDispatcher::new();
    dispatcher.add_listener(KERNEL_EVENT_REQUEST, EventListener::new(ListenerAction::Stop));
    dispatcher.add_listener(KERNEL_EVENT_CONTROLLER, EventListener::new(ListenerAction::Observe));
    let mut kernel = HttpKernel::new(dispatcher);
    let request = "GET / HTTP/1.1\r\n".to_string();
    assert_eq!("Error Request!", kernel.handle(&request).as_str());
}

#[test]
fn filter_response_passes_the_response_through() {
    let mut kernel = empty_kernel();
    let request = "ignored".to_string();
    let filtered = kernel.filter_response("body".to_string(), &request);
    assert_eq!("body", filtered.as_str());
}

#[test]
fn handle_exception_answers_the_error_page() {
    let mut kernel = empty_kernel();
    let request = "ignored".to_string();
    let response = kernel.handle_exception("boom".to_string(), &request);
    assert_eq!("Error Request!", response.as_str());
}

#[test]
fn error_response_is_the_error_page() {
    assert_eq!("Error Request!", error_response().as_str());
}

#[test]
fn finish_and_terminate_run_without_effect_on_the_caller() {
    let mut kernel = empty_kernel();
    let request = "r".to_string();
    kernel.finish_request(&request);

    let mut req = "r".to_string();
    let mut resp = "s".to_string();
    kernel.terminate(&mut req, &mut resp);
    assert_eq!("r", req.as_str());
    assert_eq!("s", resp.as_str());
}
