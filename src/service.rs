//! The lifecycle of a service's accept loop, as decisions from events.
//!
//! The loop itself (binding, accepting, spawning, waiting) runs outside the
//! library: it reports each event and performs the action it gets back.
use vstd::prelude::*;

verus! {

/// Where a service's accept loop stands.
#[derive(PartialEq, Eq, Structural, Debug, Clone, Copy)]
pub enum ServicePhase {
    /// Its listener is being bound.
    Starting,
    /// It accepts and dispatches connections.
    Accepting,
    /// Shutdown was asked for; it waits for open connections to end.
    Draining,
    /// Shut down; nothing is left open.
    Stopped,
    /// Its listener could not be bound; it never served.
    Failed,
}

/// What the accept loop reports.
#[derive(PartialEq, Eq, Structural, Debug, Clone, Copy)]
pub enum ServiceEvent {
    Bound,
    BindFailed,
    Accepted,
    AcceptFailed,
    ConnectionClosed,
    ShutdownRequested,
}

/// What the accept loop does next.
#[derive(PartialEq, Eq, Structural, Debug, Clone, Copy)]
pub enum ServiceAction {
    /// Start accepting connections.
    Listen,
    /// Hand the accepted connection to its own task.
    Dispatch,
    /// Close the accepted connection at once.
    Refuse,
    /// Log the failure and keep accepting.
    LogAndContinue,
    /// Stop accepting and wait for open connections.
    StopAccepting,
    /// The service is done.
    Finish,
    /// Log the bind failure; the service does not start.
    GiveUp,
    /// Nothing to do.
    Ignore,
}

/// A service's accept loop: its phase and how many connections it has open.
#[derive(PartialEq, Eq, Structural, Debug, Clone, Copy)]
pub struct ServiceState {
    pub phase: ServicePhase,
    pub open: u64,
}

/// The state a service's accept loop starts in.
pub open spec fn initial_state() -> ServiceState {
    ServiceState { phase: ServicePhase::Starting, open: 0 }
}

/// The next state and the action, for each state and event.
pub open spec fn step_spec(s: ServiceState, e: ServiceEvent) -> (ServiceState, ServiceAction) {
    match (s.phase, e) {
        (ServicePhase::Starting, ServiceEvent::Bound) => (
            ServiceState { phase: ServicePhase::Accepting, open: 0 },
            ServiceAction::Listen,
        ),
        (ServicePhase::Starting, ServiceEvent::BindFailed) => (
            ServiceState { phase: ServicePhase::Failed, open: 0 },
            ServiceAction::GiveUp,
        ),
        (ServicePhase::Accepting, ServiceEvent::Accepted) => if s.open < u64::MAX {
            (ServiceState { phase: ServicePhase::Accepting, open: (s.open + 1) as u64 }, ServiceAction::Dispatch)
        } else {
            (s, ServiceAction::Refuse)
        },
        (ServicePhase::Accepting, ServiceEvent::AcceptFailed) => (s, ServiceAction::LogAndContinue),
        (ServicePhase::Accepting, ServiceEvent::ShutdownRequested) => if s.open == 0 {
            (ServiceState { phase: ServicePhase::Stopped, open: 0 }, ServiceAction::Finish)
        } else {
            (ServiceState { phase: ServicePhase::Draining, open: s.open }, ServiceAction::StopAccepting)
        },
        (ServicePhase::Accepting, ServiceEvent::ConnectionClosed) => if s.open > 0 {
            (ServiceState { phase: ServicePhase::Accepting, open: (s.open - 1) as u64 }, ServiceAction::Ignore)
        } else {
            (s, ServiceAction::Ignore)
        },
        (ServicePhase::Draining, ServiceEvent::ConnectionClosed) => if s.open <= 1 {
            (ServiceState { phase: ServicePhase::Stopped, open: 0 }, ServiceAction::Finish)
        } else {
            (ServiceState { phase: ServicePhase::Draining, open: (s.open - 1) as u64 }, ServiceAction::Ignore)
        },
        (ServicePhase::Draining, ServiceEvent::Accepted) => (s, ServiceAction::Refuse),
        _ => (s, ServiceAction::Ignore),
    }
}

impl ServiceState {
    pub fn new() -> (r: ServiceState)
        ensures
            r == initial_state(),
    {
        ServiceState { phase: ServicePhase::Starting, open: 0 }
    }

    /// The next state, and what to do, after event `e`.
    pub fn step(&self, e: ServiceEvent) -> (r: (ServiceState, ServiceAction))
        ensures
            r == step_spec(*self, e),
    {
        let s = *self;
        match (s.phase, e) {
            (ServicePhase::Starting, ServiceEvent::Bound) => (
                ServiceState { phase: ServicePhase::Accepting, open: 0 },
                ServiceAction::Listen,
            ),
            (ServicePhase::Starting, ServiceEvent::BindFailed) => (
                ServiceState { phase: ServicePhase::Failed, open: 0 },
                ServiceAction::GiveUp,
            ),
            (ServicePhase::Accepting, ServiceEvent::Accepted) => if s.open < u64::MAX {
                (ServiceState { phase: ServicePhase::Accepting, open: s.open + 1 }, ServiceAction::Dispatch)
            } else {
                (s, ServiceAction::Refuse)
            },
            (ServicePhase::Accepting, ServiceEvent::AcceptFailed) => (s, ServiceAction::LogAndContinue),
            (ServicePhase::Accepting, ServiceEvent::ShutdownRequested) => if s.open == 0 {
                (ServiceState { phase: ServicePhase::Stopped, open: 0 }, ServiceAction::Finish)
            } else {
                (ServiceState { phase: ServicePhase::Draining, open: s.open }, ServiceAction::StopAccepting)
            },
            (ServicePhase::Accepting, ServiceEvent::ConnectionClosed) => if s.open > 0 {
                (ServiceState { phase: ServicePhase::Accepting, open: s.open - 1 }, ServiceAction::Ignore)
            } else {
                (s, ServiceAction::Ignore)
            },
            (ServicePhase::Draining, ServiceEvent::ConnectionClosed) => if s.open <= 1 {
                (ServiceState { phase: ServicePhase::Stopped, open: 0 }, ServiceAction::Finish)
            } else {
                (ServiceState { phase: ServicePhase::Draining, open: s.open - 1 }, ServiceAction::Ignore)
            },
            (ServicePhase::Draining, ServiceEvent::Accepted) => (s, ServiceAction::Refuse),
            _ => (s, ServiceAction::Ignore),
        }
    }
}

/// Once stopped or failed, a service stays so and does nothing.
pub proof fn lemma_final_phases_absorb(s: ServiceState, e: ServiceEvent)
    requires
        s.phase == ServicePhase::Stopped || s.phase == ServicePhase::Failed,
    ensures
        step_spec(s, e) == (s, ServiceAction::Ignore),
{
}

/// After shutdown is asked for, no new connection is dispatched.
pub proof fn lemma_no_dispatch_after_shutdown(s: ServiceState, e: ServiceEvent)
    requires
        s.phase == ServicePhase::Draining || s.phase == ServicePhase::Stopped,
    ensures
        step_spec(s, e).1 != ServiceAction::Dispatch,
        step_spec(s, e).0.phase == ServicePhase::Draining || step_spec(s, e).0.phase
            == ServicePhase::Stopped,
{
}

/// The accept loops of all configured services, one state each.
pub struct Orchestrator {
    pub services: Vec<ServiceState>,
}

/// The states after service `i` handled event `e`.
pub open spec fn apply_spec(s: Seq<ServiceState>, i: int, e: ServiceEvent) -> Seq<ServiceState> {
    s.update(i, step_spec(s[i], e).0)
}

impl Orchestrator {
    /// `n` services, all starting.
    pub fn new(n: usize) -> (r: Orchestrator)
        ensures
            r.services@.len() == n,
            forall|i: int| 0 <= i < n ==> #[trigger] r.services@[i] == initial_state(),
    {
        let mut services: Vec<ServiceState> = Vec::new();
        let mut k: usize = 0;
        while k < n
            invariant
                k <= n,
                services@.len() == k,
                forall|i: int| 0 <= i < k ==> #[trigger] services@[i] == initial_state(),
            decreases n - k,
        {
            services.push(ServiceState::new());
            k = k + 1;
        }
        Orchestrator { services }
    }

    /// Service `i` handles event `e`; the other services are left as they are.
    pub fn apply(&mut self, i: usize, e: ServiceEvent) -> (r: ServiceAction)
        requires
            i < old(self).services@.len(),
        ensures
            final(self).services@ == apply_spec(old(self).services@, i as int, e),
            r == step_spec(old(self).services@[i as int], e).1,
    {
        let (next, action) = self.services[i].step(e);
        self.services.set(i, next);
        action
    }
}

/// Service isolation: a bind failure of one service changes no other service,
/// and any other service still binds, accepts, and dispatches connections.
pub proof fn lemma_bind_failure_is_isolated(s: Seq<ServiceState>, i: int, j: int)
    requires
        0 <= i < s.len(),
        0 <= j < s.len(),
        i != j,
        s[j] == initial_state(),
    ensures
        apply_spec(s, i, ServiceEvent::BindFailed)[j] == s[j],
        ({
            let after_bind = apply_spec(apply_spec(s, i, ServiceEvent::BindFailed), j, ServiceEvent::Bound);
            &&& after_bind[j].phase == ServicePhase::Accepting
            &&& step_spec(after_bind[j], ServiceEvent::Accepted).1 == ServiceAction::Dispatch
        }),
{
}

/// Where one accepted connection stands.
#[derive(PartialEq, Eq, Structural, Debug, Clone, Copy)]
pub enum ConnectionState {
    Accepted,
    /// HTTP: the protocol of the next exchange is being settled.
    Negotiating,
    /// HTTP: a request is being served.
    Serving,
    /// Stream mode: bytes are copied both ways.
    Tunneling,
    Closed,
}

/// What happens to a connection.
#[derive(PartialEq, Eq, Structural, Debug, Clone, Copy)]
pub enum ConnectionEvent {
    /// Forwarding begins in the service's protocol.
    Start(crate::address::Protocol),
    /// The HTTP exchange is settled and a request is served.
    Negotiated,
    /// The served request is done; the connection waits for another.
    RequestDone,
    /// Either side closed, or an I/O error ended the connection.
    Ended,
}

pub open spec fn connection_step_spec(s: ConnectionState, e: ConnectionEvent) -> ConnectionState {
    match (s, e) {
        (ConnectionState::Closed, _) => ConnectionState::Closed,
        (_, ConnectionEvent::Ended) => ConnectionState::Closed,
        (ConnectionState::Accepted, ConnectionEvent::Start(crate::address::Protocol::Tcp)) => ConnectionState::Tunneling,
        (ConnectionState::Accepted, ConnectionEvent::Start(crate::address::Protocol::Http)) => ConnectionState::Negotiating,
        (ConnectionState::Negotiating, ConnectionEvent::Negotiated) => ConnectionState::Serving,
        (ConnectionState::Serving, ConnectionEvent::RequestDone) => ConnectionState::Negotiating,
        _ => s,
    }
}

impl ConnectionState {
    /// The state after event `e`.
    pub fn step(self, e: ConnectionEvent) -> (r: ConnectionState)
        ensures
            r == connection_step_spec(self, e),
    {
        match (self, e) {
            (ConnectionState::Closed, _) => ConnectionState::Closed,
            (_, ConnectionEvent::Ended) => ConnectionState::Closed,
            (ConnectionState::Accepted, ConnectionEvent::Start(crate::address::Protocol::Tcp)) => ConnectionState::Tunneling,
            (ConnectionState::Accepted, ConnectionEvent::Start(crate::address::Protocol::Http)) => ConnectionState::Negotiating,
            (ConnectionState::Negotiating, ConnectionEvent::Negotiated) => ConnectionState::Serving,
            (ConnectionState::Serving, ConnectionEvent::RequestDone) => ConnectionState::Negotiating,
            _ => self,
        }
    }
}

/// A closed connection stays closed, and a tunnel never turns into an HTTP
/// exchange nor the other way round.
pub proof fn lemma_connection_modes_are_kept(s: ConnectionState, e: ConnectionEvent)
    ensures
        s == ConnectionState::Closed ==> connection_step_spec(s, e) == ConnectionState::Closed,
        s == ConnectionState::Tunneling ==> connection_step_spec(s, e) == ConnectionState::Tunneling
            || connection_step_spec(s, e) == ConnectionState::Closed,
        (s == ConnectionState::Negotiating || s == ConnectionState::Serving) ==> (
        connection_step_spec(s, e) == ConnectionState::Negotiating || connection_step_spec(s, e)
            == ConnectionState::Serving || connection_step_spec(s, e) == ConnectionState::Closed),
{
}

} // verus!
