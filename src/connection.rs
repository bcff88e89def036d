//! The decisions of one connection's loop and of the accept loop. The loops
//! themselves, and the reading and writing they wait on, belong to the caller.
use vstd::prelude::*;

use crate::headers::{lookup, Entries};
use crate::http::Request;

verus! {

/// Where one connection stands.
#[derive(Debug, Copy, Clone, PartialEq, Eq)]
pub enum ConnState {
    /// Waiting for the next request, or for the shutdown signal.
    AwaitingRequest,
    /// Answering a request; `close` tells whether the connection ends after it.
    Dispatching { close: bool },
    /// Done: the connection is released.
    Closed,
}

/// What happened on a connection since its last step.
#[derive(Debug, Copy, Clone, PartialEq, Eq)]
pub enum ConnEvent {
    /// A request was parsed; `close` is `wants_close` of it.
    RequestParsed { close: bool },
    /// The request head was malformed, or the peer closed the connection.
    ParseFailed,
    /// The shutdown signal was observed.
    Shutdown,
    /// The response was written in full.
    ResponseWritten,
    /// The request could not be resolved or its response not written.
    ResponseFailed,
}

/// Whether a request asks for its connection to be closed: its `Connection`
/// header is exactly `close` (case matters).
pub open spec fn close_requested(headers: Entries) -> bool {
    lookup(headers, "Connection"@) == Some("close"@)
}

pub open spec fn step_spec(state: ConnState, event: ConnEvent) -> ConnState {
    match (state, event) {
        (ConnState::AwaitingRequest, ConnEvent::RequestParsed { close }) => ConnState::Dispatching {
            close,
        },
        (ConnState::AwaitingRequest, ConnEvent::ParseFailed) => ConnState::Closed,
        (ConnState::AwaitingRequest, ConnEvent::Shutdown) => ConnState::Closed,
        (ConnState::Dispatching { close }, ConnEvent::ResponseWritten) => if close {
            ConnState::Closed
        } else {
            ConnState::AwaitingRequest
        },
        (ConnState::Dispatching { .. }, ConnEvent::ResponseFailed) => ConnState::Closed,
        _ => state,
    }
}

pub fn wants_close(request: &Request) -> (r: bool)
    ensures
        r == close_requested(request.headers@),
{
    match request.headers.get("Connection") {
        Some(v) => *v == String::from_str("close"),
        None => false,
    }
}

/// The next state of a connection. A response under way is finished even
/// after shutdown: only a connection waiting for a request observes it.
/// Events that cannot occur in a state leave it unchanged.
pub fn step(state: ConnState, event: ConnEvent) -> (r: ConnState)
    ensures
        r == step_spec(state, event),
{
    match (state, event) {
        (ConnState::AwaitingRequest, ConnEvent::RequestParsed { close }) => ConnState::Dispatching {
            close,
        },
        (ConnState::AwaitingRequest, ConnEvent::ParseFailed) => ConnState::Closed,
        (ConnState::AwaitingRequest, ConnEvent::Shutdown) => ConnState::Closed,
        (ConnState::Dispatching { close }, ConnEvent::ResponseWritten) => if close {
            ConnState::Closed
        } else {
            ConnState::AwaitingRequest
        },
        (ConnState::Dispatching { .. }, ConnEvent::ResponseFailed) => ConnState::Closed,
        _ => state,
    }
}

/// The accept loop's state: whether shutdown was signalled, and how many
/// connection workers have been started and not yet finished.
pub struct Coordinator {
    shutting_down: bool,
    in_flight: usize,
}

pub ghost struct CoordView {
    pub shutting_down: bool,
    pub in_flight: nat,
}

impl CoordView {
    /// A connection arrives: started (`true`) unless shutdown was signalled.
    pub open spec fn accept(self) -> (CoordView, bool) {
        if self.shutting_down {
            (self, false)
        } else {
            (CoordView { in_flight: self.in_flight + 1, ..self }, true)
        }
    }

    pub open spec fn finish(self) -> CoordView {
        CoordView { in_flight: (self.in_flight - 1) as nat, ..self }
    }

    pub open spec fn signal(self) -> CoordView {
        CoordView { shutting_down: true, ..self }
    }

    /// The process may return: shutdown was signalled and every worker is done.
    pub open spec fn may_exit(self) -> bool {
        self.shutting_down && self.in_flight == 0
    }
}

impl View for Coordinator {
    type V = CoordView;

    closed spec fn view(&self) -> CoordView {
        CoordView { shutting_down: self.shutting_down, in_flight: self.in_flight as nat }
    }
}

impl Coordinator {
    pub fn new() -> (r: Coordinator)
        ensures
            r@ == (CoordView { shutting_down: false, in_flight: 0 }),
    {
        Coordinator { shutting_down: false, in_flight: 0 }
    }

    pub fn in_flight(&self) -> (r: usize)
        ensures
            r == self@.in_flight,
    {
        self.in_flight
    }

    pub fn accepting(&self) -> (r: bool)
        ensures
            r == !self@.shutting_down,
    {
        !self.shutting_down
    }

    /// A connection was accepted: whether to start a worker for it.
    pub fn on_accepted(&mut self) -> (r: bool)
        requires
            old(self)@.shutting_down || old(self)@.in_flight < usize::MAX,
        ensures
            (final(self)@, r) == old(self)@.accept(),
    {
        if self.shutting_down {
            false
        } else {
            self.in_flight = self.in_flight + 1;
            true
        }
    }

    /// The shutdown signal arrived; a second one changes nothing.
    pub fn on_shutdown(&mut self)
        ensures
            final(self)@ == old(self)@.signal(),
    {
        self.shutting_down = true;
    }

    /// A worker reached `Closed`.
    pub fn on_finished(&mut self)
        requires
            old(self)@.in_flight > 0,
        ensures
            final(self)@ == old(self)@.finish(),
    {
        self.in_flight = self.in_flight - 1;
    }

    pub fn may_exit(&self) -> (r: bool)
        ensures
            r == self@.may_exit(),
    {
        self.shutting_down && self.in_flight == 0
    }
}

/// A connection whose request asks to close ends after that one response;
/// any other goes back to waiting and takes a further request.
pub proof fn lemma_close_after_response(headers: Entries)
    ensures
        ({
            let s = step_spec(
                ConnState::AwaitingRequest,
                ConnEvent::RequestParsed { close: close_requested(headers) },
            );
            &&& s == ConnState::Dispatching { close: close_requested(headers) }
            &&& close_requested(headers) ==> step_spec(s, ConnEvent::ResponseWritten)
                == ConnState::Closed
            &&& !close_requested(headers) ==> step_spec(s, ConnEvent::ResponseWritten)
                == ConnState::AwaitingRequest
        }),
        forall|c: bool|
            step_spec(ConnState::AwaitingRequest, ConnEvent::RequestParsed { close: c })
                == (ConnState::Dispatching { close: c }),
{
}

/// Once shutdown is signalled no connection is started, a response under way
/// is finished, a waiting connection closes, and the process may return
/// exactly when no worker is left.
pub proof fn lemma_shutdown_drains(v: CoordView, s: ConnState)
    requires
        v.shutting_down,
    ensures
        v.accept() == (v, false),
        v.finish().shutting_down,
        v.may_exit() <==> v.in_flight == 0,
        s is Dispatching ==> step_spec(s, ConnEvent::Shutdown) == s,
        s is Dispatching ==> step_spec(s, ConnEvent::ResponseWritten) != s,
        step_spec(ConnState::AwaitingRequest, ConnEvent::Shutdown) == ConnState::Closed,
{
}

} // verus!
