//! The transport lifecycle: the decisions of the accept loop, of each
//! connection task, and of the graceful-shutdown protocol.
//!
//! The surrounding runtime owns the sockets and the tasks; this module
//! owns every decision.  A coordinator in the `Listening` phase accepts
//! connections; when the broadcast cancellation signal is observed it
//! stops accepting and drains, and it is `Closed` only once every
//! previously accepted connection has finished — a join-on-all barrier,
//! not a timeout.  Cancellation is level-triggered: once observed it
//! stays observed, and observing it again changes nothing.

use vstd::prelude::*;

verus! {

/// What a transport failure is reported as: a socket error while
/// binding or accepting, or a failure of the serving stack itself.
#[derive(Debug, Clone, PartialEq)]
pub enum RpcError {
    NetError(String),
    AxumError(String),
}

/// How the serving stack is wired up: the route the endpoint answers
/// on, the port it binds, and the per-request timeout in seconds.
#[derive(Debug, Clone, PartialEq)]
pub struct Config {
    pub rpc_path: String,
    pub rpc_port: String,
    pub timeout: u64,
}

/// The phases of the coordinator.
#[derive(Debug, Clone, Copy, PartialEq, Eq, Structural)]
pub enum Phase {
    Listening,
    Draining,
    Closed,
}

/// The coordinator's state: its phase, how many accepted connections
/// are still running, and whether cancellation has been observed.
#[derive(Debug, Clone, Copy, PartialEq, Eq, Structural)]
pub struct TransportLifecycle {
    pub phase: Phase,
    pub active: u64,
    pub cancelled: bool,
}

/// The coordinator's invariant: the listening phase precedes the
/// signal, draining holds work, and the closed phase holds none.
pub open spec fn wf_lifecycle(s: TransportLifecycle) -> bool {
    &&& (s.phase == Phase::Listening <==> !s.cancelled)
    &&& (s.phase == Phase::Draining ==> s.active > 0)
    &&& (s.phase == Phase::Closed ==> s.active == 0)
}

/// New connections are accepted in the listening phase alone.
pub open spec fn accept_allowed(s: TransportLifecycle) -> bool {
    s.phase == Phase::Listening
}

/// What observing the cancellation signal does: nothing once it was
/// already observed; otherwise accepting stops, and the coordinator
/// drains if work is in flight or closes at once if none is.
pub open spec fn cancel_step(s: TransportLifecycle) -> TransportLifecycle {
    if s.cancelled {
        s
    } else {
        TransportLifecycle {
            phase: if s.active == 0 {
                Phase::Closed
            } else {
                Phase::Draining
            },
            active: s.active,
            cancelled: true,
        }
    }
}

/// What one connection task's exit does: the barrier count falls, and
/// when a draining coordinator loses its last task it closes.
pub open spec fn finish_step(s: TransportLifecycle) -> TransportLifecycle {
    TransportLifecycle {
        phase: if s.phase == Phase::Draining && s.active == 1 {
            Phase::Closed
        } else {
            s.phase
        },
        active: (s.active - 1) as u64,
        cancelled: s.cancelled,
    }
}

impl TransportLifecycle {
    /// A coordinator that has just bound its socket: listening, no
    /// connections yet, signal not observed.
    pub fn new() -> (r: TransportLifecycle)
        ensures
            r == (TransportLifecycle { phase: Phase::Listening, active: 0, cancelled: false }),
            wf_lifecycle(r),
    {
        TransportLifecycle { phase: Phase::Listening, active: 0, cancelled: false }
    }

    /// Whether the accept loop may take another connection.
    pub fn accept_allowed(&self) -> (r: bool)
        ensures
            r == accept_allowed(*self),
    {
        match self.phase {
            Phase::Listening => true,
            _ => false,
        }
    }

    /// Records one accepted connection.
    pub fn on_accept(&mut self)
        requires
            wf_lifecycle(*old(self)),
            accept_allowed(*old(self)),
            old(self).active < u64::MAX,
        ensures
            *final(self) == (TransportLifecycle {
                active: (old(self).active + 1) as u64,
                ..*old(self)
            }),
            wf_lifecycle(*final(self)),
    {
        self.active = self.active + 1;
    }

    /// Observes the cancellation signal.  Idempotent: a second
    /// observation leaves the state exactly as it was.
    pub fn observe_cancel(&mut self)
        requires
            wf_lifecycle(*old(self)),
        ensures
            *final(self) == cancel_step(*old(self)),
            wf_lifecycle(*final(self)),
            final(self).cancelled,
            !accept_allowed(*final(self)),
            final(self).active == old(self).active,
    {
        if !self.cancelled {
            self.cancelled = true;
            if self.active == 0 {
                self.phase = Phase::Closed;
            } else {
                self.phase = Phase::Draining;
            }
        }
    }

    /// Records the exit of one connection task.
    pub fn on_connection_finished(&mut self)
        requires
            wf_lifecycle(*old(self)),
            old(self).active > 0,
        ensures
            *final(self) == finish_step(*old(self)),
            wf_lifecycle(*final(self)),
            final(self).active == old(self).active - 1,
    {
        let was_last = self.active == 1;
        self.active = self.active - 1;
        match self.phase {
            Phase::Draining => {
                if was_last {
                    self.phase = Phase::Closed;
                }
            },
            _ => {},
        }
    }

    /// Whether the shutdown barrier has been passed.
    pub fn is_closed(&self) -> (r: bool)
        ensures
            r == (self.phase == Phase::Closed),
    {
        match self.phase {
            Phase::Closed => true,
            _ => false,
        }
    }
}

/// Once cancellation is observed, no further connection is ever
/// accepted: the signal is sticky, and no step brings the listening
/// phase back.
pub proof fn lemma_cancelled_accepts_nothing(s: TransportLifecycle)
    requires
        wf_lifecycle(s),
        s.cancelled,
    ensures
        !accept_allowed(s),
        !accept_allowed(cancel_step(s)),
        s.active > 0 ==> !accept_allowed(finish_step(s)) && finish_step(s).cancelled,
{
}

/// The shutdown barrier: the coordinator is closed only when every
/// previously accepted connection has finished.
pub proof fn lemma_closed_means_drained(s: TransportLifecycle)
    requires
        wf_lifecycle(s),
        s.phase == Phase::Closed,
    ensures
        s.active == 0,
        s.cancelled,
{
}

/// Firing cancellation a second time produces no further effect.
pub proof fn lemma_cancel_idempotent(s: TransportLifecycle)
    ensures
        cancel_step(cancel_step(s)) == cancel_step(s),
{
}

/// One connection task's state: whether an exchange is in progress,
/// whether cancellation has been observed, and whether the task has
/// finished.
#[derive(Debug, Clone, Copy, PartialEq, Eq, Structural)]
pub struct ConnState {
    pub busy: bool,
    pub cancelled: bool,
    pub done: bool,
}

/// A finished task serves nothing and holds no exchange.
pub open spec fn wf_conn(c: ConnState) -> bool {
    c.done ==> !c.busy
}

/// A connection starts a new exchange only while it is neither
/// cancelled nor finished nor already serving one.
pub open spec fn exchange_allowed(c: ConnState) -> bool {
    !c.cancelled && !c.done && !c.busy
}

/// A connection may finish gracefully only between exchanges: one in
/// progress is completed, never aborted.
pub open spec fn close_allowed(c: ConnState) -> bool {
    !c.busy && !c.done
}

impl ConnState {
    /// A freshly accepted connection.
    pub fn new() -> (r: ConnState)
        ensures
            r == (ConnState { busy: false, cancelled: false, done: false }),
            wf_conn(r),
    {
        ConnState { busy: false, cancelled: false, done: false }
    }

    /// Whether a new exchange may start.
    pub fn exchange_allowed(&self) -> (r: bool)
        ensures
            r == exchange_allowed(*self),
    {
        !self.cancelled && !self.done && !self.busy
    }

    /// Starts one exchange.
    pub fn begin_exchange(&mut self)
        requires
            wf_conn(*old(self)),
            exchange_allowed(*old(self)),
        ensures
            *final(self) == (ConnState { busy: true, ..*old(self) }),
            wf_conn(*final(self)),
    {
        self.busy = true;
    }

    /// Completes the exchange in progress.
    pub fn complete_exchange(&mut self)
        requires
            wf_conn(*old(self)),
            old(self).busy,
        ensures
            *final(self) == (ConnState { busy: false, ..*old(self) }),
            wf_conn(*final(self)),
    {
        self.busy = false;
    }

    /// Observes the cancellation signal: the connection stops starting
    /// new exchanges, but an exchange in progress is left to complete.
    pub fn observe_cancel(&mut self)
        requires
            wf_conn(*old(self)),
        ensures
            *final(self) == (ConnState { cancelled: true, ..*old(self) }),
            wf_conn(*final(self)),
            final(self).busy == old(self).busy,
            !exchange_allowed(*final(self)),
    {
        self.cancelled = true;
    }

    /// Whether the task may finish now.
    pub fn close_allowed(&self) -> (r: bool)
        ensures
            r == close_allowed(*self),
    {
        !self.busy && !self.done
    }

    /// Finishes the task, gracefully: only between exchanges.
    pub fn close(&mut self)
        requires
            wf_conn(*old(self)),
            close_allowed(*old(self)),
        ensures
            *final(self) == (ConnState { done: true, ..*old(self) }),
            wf_conn(*final(self)),
    {
        self.done = true;
    }
}

/// The status code the HTTP binding answers with: bad request for the
/// parse, invalid-request and invalid-params errors, not-found for an
/// unknown method, an internal error for everything else that failed,
/// and plain success for a response without an error.
pub open spec fn spec_http_status(error_code: Option<int>) -> u16 {
    match error_code {
        None => 200,
        Some(c) => if c == crate::errors::PARSE_ERROR_CODE as int || c
            == crate::errors::INVALID_REQUEST_CODE as int || c
            == crate::errors::INVALID_PARAMS_CODE as int {
            400
        } else if c == crate::errors::METHOD_NOT_FOUND_CODE as int {
            404
        } else {
            500
        },
    }
}

/// The status code of a response that carries the given error code.
pub fn http_status_of(error_code: Option<i64>) -> (r: u16)
    ensures
        r == spec_http_status(match error_code {
            Some(c) => Some(c as int),
            None => None,
        }),
{
    match error_code {
        None => 200,
        Some(c) => {
            if c == crate::errors::PARSE_ERROR_CODE || c == crate::errors::INVALID_REQUEST_CODE
                || c == crate::errors::INVALID_PARAMS_CODE {
                400
            } else if c == crate::errors::METHOD_NOT_FOUND_CODE {
                404
            } else {
                500
            }
        },
    }
}

} // verus!
