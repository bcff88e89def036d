use static_http::connection::{step, wants_close, ConnEvent, ConnState, Coordinator};
use static_http::http::parse_request;

fn after_one_response(text: &str) -> ConnState {
    let req = parse_request(text).unwrap();
    let s = step(ConnState::AwaitingRequest, ConnEvent::RequestParsed { close: wants_close(&req) });
    step(s, ConnEvent::ResponseWritten)
}

#[test]
fn connection_close_ends_after_one_response() {
    assert_eq!(after_one_response("GET / HTTP/1.1\r\nConnection: close\r\n\r\n"), ConnState::Closed);
}

#[test]
fn other_connections_take_a_second_request() {
    for text in [
        "GET / HTTP/1.1\r\n\r\n",
        "GET / HTTP/1.1\r\nConnection: keep-alive\r\n\r\n",
        "GET / HTTP/1.1\r\nConnection: Close\r\n\r\n",
        "GET / HTTP/1.1\r\nconnection: close\r\n\r\n",
    ] {
        let s = after_one_response(text);
        assert_eq!(s, ConnState::AwaitingRequest);
        let next = step(s, ConnEvent::RequestParsed { close: false });
        assert_eq!(next, ConnState::Dispatching { close: false });
    }
}

#[test]
fn failures_close_the_connection() {
    assert_eq!(step(ConnState::AwaitingRequest, ConnEvent::ParseFailed), ConnState::Closed);
    let d = ConnState::Dispatching { close: false };
    assert_eq!(step(d, ConnEvent::ResponseFailed), ConnState::Closed);
    assert_eq!(step(ConnState::Closed, ConnEvent::RequestParsed { close: false }), ConnState::Closed);
}

#[test]
fn shutdown_closes_waiting_but_not_answering_connections() {
    assert_eq!(step(ConnState::AwaitingRequest, ConnEvent::Shutdown), ConnState::Closed);
    let d = ConnState::Dispatching { close: false };
    assert_eq!(step(d, ConnEvent::Shutdown), d);
    let s = step(step(d, ConnEvent::Shutdown), ConnEvent::ResponseWritten);
    assert_eq!(step(s, ConnEvent::Shutdown), ConnState::Closed);
}

#[test]
fn shutdown_stops_accepting_and_drains() {
    let mut c = Coordinator::new();
    assert!(c.accepting());
    assert!(c.on_accepted());
    assert!(c.on_accepted());
    assert_eq!(c.in_flight(), 2);
    assert!(!c.may_exit());
    c.on_shutdown();
    assert!(!c.accepting());
    assert!(!c.on_accepted());
    assert_eq!(c.in_flight(), 2);
    c.on_finished();
    assert!(!c.may_exit());
    c.on_shutdown();
    c.on_finished();
    assert!(c.may_exit());
}

#[test]
fn no_exit_without_shutdown() {
    let c = Coordinator::new();
    assert!(!c.may_exit());
}
