use symphrs::dispatcher::{
    Dispatchable, EventDispatcher, EventListener, ListenerAction, ListenerCallable,
};
use symphrs::event::{Event, EventStopable, GetResponseEvent};

fn test_event_stopable<T: EventStopable>(event: &mut T) -> bool {
    assert_eq!(false, event.is_propagation_stopped());
    event.stop_propagation();
    assert_eq!(true, event.is_propagation_stopped());

    true
}

#[test]
fn test_event() {
    let mut base_event = Event::new();
    test_event_stopable(&mut base_event);

    let request = "ping".to_string();
    let mut get_response_event = GetResponseEvent::new(request);
    test_event_stopable(&mut get_response_event);
}

#[test]
fn test_dispatcher() {
    let mut dispatcher: EventDispatcher<EventListener> = EventDispatcher::new();
    let event_name = "test_a";
    let mut event = Event::new();
    dispatcher.dispatch(event_name, &mut event);
    assert_eq!(false, event.is_propagation_stopped());
    dispatcher.dispatch(event_name, &mut event);
    assert_eq!(false, event.is_propagation_stopped());

    let listener_one = EventListener::new(ListenerAction::Observe);
    dispatcher.add_listener(event_name, listener_one);
    dispatcher.dispatch(event_name, &mut event);
    assert_eq!(false, event.is_propagation_stopped());
}

#[test]
fn stopping_listener_stops_event() {
    let mut dispatcher: EventDispatcher<EventListener> = EventDispatcher::new();
    dispatcher.add_listener("halt", EventListener::new(ListenerAction::Stop));

    let mut event = Event::new();
    dispatcher.dispatch("halt", &mut event);
    assert_eq!(true, event.is_propagation_stopped());

    let mut other = Event::new();
    dispatcher.dispatch("other", &mut other);
    assert_eq!(false, other.is_propagation_stopped());
}

#[test]
fn observing_listener_leaves_event_alone() {
    let mut dispatcher: EventDispatcher<EventListener> = EventDispatcher::new();
    dispatcher.add_listener("look", EventListener::new(ListenerAction::Observe));

    let mut event = Event::new();
    dispatcher.dispatch("look", &mut event);
    assert_eq!(false, event.is_propagation_stopped());
}

#[test]
fn removed_listener_is_not_called() {
    let mut dispatcher: EventDispatcher<EventListener> = EventDispatcher::new();
    dispatcher.add_listener("halt", EventListener::new(ListenerAction::Stop));

    let target = EventListener::new(ListenerAction::Stop);
    dispatcher.remove_listener("halt", &target);

    let mut event = Event::new();
    dispatcher.dispatch("halt", &mut event);
    assert_eq!(false, event.is_propagation_stopped());
}

#[test]
fn remove_listener_takes_first_equal_only() {
    let mut dispatcher: EventDispatcher<EventListener> = EventDispatcher::new();
    dispatcher.add_listener("halt", EventListener::new(ListenerAction::Stop));
    dispatcher.add_listener("halt", EventListener::new(ListenerAction::Stop));

    let target = EventListener::new(ListenerAction::Stop);
    dispatcher.remove_listener("halt", &target);

    let mut event = Event::new();
    dispatcher.dispatch("halt", &mut event);
    assert_eq!(true, event.is_propagation_stopped());
}

#[test]
fn listeners_compare_by_action() {
    let a = EventListener::new(ListenerAction::Observe);
    let b = EventListener::new(ListenerAction::Observe);
    let c = EventListener::new(ListenerAction::Stop);
    assert!(a == b);
    assert!(a != c);
}

#[test]
fn listener_call_stops_or_observes() {
    let mut event = Event::new();
    EventListener::new(ListenerAction::Observe).call("any", &mut event);
    assert_eq!(false, event.is_propagation_stopped());
    EventListener::new(ListenerAction::Stop).call("any", &mut event);
    assert_eq!(true, event.is_propagation_stopped());
}

#[test]
fn get_response_event_carries_request() {
    let event = GetResponseEvent::new("payload".to_string());
    assert_eq!("payload", event.request.as_str());
    assert!(event.response.is_none());
}
