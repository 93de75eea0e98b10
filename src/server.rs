use vstd::prelude::*;

verus! {

/// Why the listening endpoint could not be acquired.
#[derive(Debug, PartialEq, Eq)]
pub enum BindError {
    /// A live listener already holds the address.
    AddressInUse,
    /// The address cannot be bound for another reason (permissions, an
    /// invalid path); the text describes it.
    Unusable(String),
}

/// Where the server stands in bringing up its endpoint and serving it.
#[derive(Debug, Clone, Copy, PartialEq, Eq, Structural)]
pub enum ServerPhase {
    /// Finding out whether a live listener already answers at the address.
    Probing,
    /// Removing a stale endpoint left at the address.
    Clearing,
    /// Binding the address.
    Binding,
    /// Accepting connections, for as long as the process runs.
    Listening,
    /// The endpoint could not be acquired; nothing more happens.
    Stopped,
}

/// What the caller observed after performing the server's last action.
#[derive(Debug, PartialEq, Eq)]
pub enum ServerEvent {
    /// The probe finished; `live` tells whether a listener answered.
    Probed { live: bool },
    /// The removal of a stale endpoint finished, whether or not it succeeded.
    Cleared,
    /// The address is bound.
    Bound,
    /// Binding failed; `in_use` tells whether the address was held by another listener.
    BindFailed { in_use: bool, message: String },
    /// A connection was accepted.
    Accepted,
    /// Accepting failed; the text describes the failure.
    AcceptFailed(String),
}

/// What the caller is to do next.
#[derive(Debug, PartialEq, Eq)]
pub enum ServerAction {
    /// Try to connect to the address, to learn whether a live listener holds it.
    Probe,
    /// Remove whatever stale endpoint lies at the address; a failure is ignored.
    RemoveStale,
    /// Bind the address exclusively.
    Bind,
    /// Wait for the next connection.
    Accept,
    /// Hand the accepted connection to a task of its own, then wait for the next one.
    Dispatch,
    /// Report the accept failure, then wait for the next connection.
    ReportAcceptFailure(String),
    /// Give up serving and hand this error to the starter.
    Fail(BindError),
    /// Nothing: the event does not belong to the current phase.
    Ignore,
}

/// The next phase and the action owed when `event` arrives in `phase`.
pub open spec fn transition(phase: ServerPhase, event: ServerEvent) -> (ServerPhase, ServerAction) {
    match phase {
        ServerPhase::Probing => match event {
            ServerEvent::Probed { live } => if live {
                (ServerPhase::Stopped, ServerAction::Fail(BindError::AddressInUse))
            } else {
                (ServerPhase::Clearing, ServerAction::RemoveStale)
            },
            _ => (phase, ServerAction::Ignore),
        },
        ServerPhase::Clearing => match event {
            ServerEvent::Cleared => (ServerPhase::Binding, ServerAction::Bind),
            _ => (phase, ServerAction::Ignore),
        },
        ServerPhase::Binding => match event {
            ServerEvent::Bound => (ServerPhase::Listening, ServerAction::Accept),
            ServerEvent::BindFailed { in_use, message } => (
                ServerPhase::Stopped,
                ServerAction::Fail(
                    if in_use {
                        BindError::AddressInUse
                    } else {
                        BindError::Unusable(message)
                    },
                ),
            ),
            _ => (phase, ServerAction::Ignore),
        },
        ServerPhase::Listening => match event {
            ServerEvent::Accepted => (phase, ServerAction::Dispatch),
            ServerEvent::AcceptFailed(message) => (phase, ServerAction::ReportAcceptFailure(message)),
            _ => (phase, ServerAction::Ignore),
        },
        ServerPhase::Stopped => (phase, ServerAction::Ignore),
    }
}

/// The actions answered, one per event, when `events` arrive from `phase` on.
pub open spec fn run(phase: ServerPhase, events: Seq<ServerEvent>) -> Seq<ServerAction>
    decreases events.len(),
{
    if events.len() == 0 {
        Seq::empty()
    } else {
        let (next, action) = transition(phase, events[0]);
        seq![action] + run(next, events.drop_first())
    }
}

/// The server for one listening address: it decides each step of acquiring
/// the endpoint and of the accept loop, while the caller does the socket work.
pub struct MessageIngestServer {
    address: String,
    phase: ServerPhase,
}

impl MessageIngestServer {
    pub closed spec fn spec_address(&self) -> Seq<char> {
        self.address@
    }

    pub closed spec fn spec_phase(&self) -> ServerPhase {
        self.phase
    }

    /// A server for `address`, about to start; its first action is to probe the address.
    pub fn new(address: String) -> (r: MessageIngestServer)
        ensures
            r.spec_address() == address@,
            r.spec_phase() == ServerPhase::Probing,
    {
        MessageIngestServer { address, phase: ServerPhase::Probing }
    }

    /// The action that starts the server: the first thing to do at its address.
    pub fn start(&self) -> (r: ServerAction)
        ensures
            self.spec_phase() == ServerPhase::Probing ==> r == ServerAction::Probe,
            self.spec_phase() != ServerPhase::Probing ==> r == ServerAction::Ignore,
    {
        match self.phase {
            ServerPhase::Probing => ServerAction::Probe,
            _ => ServerAction::Ignore,
        }
    }

    pub fn address(&self) -> (r: &str)
        ensures
            r@ == self.spec_address(),
    {
        self.address.as_str()
    }

    pub fn phase(&self) -> (r: ServerPhase)
        ensures
            r == self.spec_phase(),
    {
        self.phase
    }

    /// Takes in what the caller observed and answers with what it is to do next.
    pub fn on_event(&mut self, event: ServerEvent) -> (r: ServerAction)
        ensures
            (final(self).spec_phase(), r) == transition(old(self).spec_phase(), event),
            final(self).spec_address() == old(self).spec_address(),
    {
        let (next, action) = match self.phase {
            ServerPhase::Probing => match event {
                ServerEvent::Probed { live } => if live {
                    (ServerPhase::Stopped, ServerAction::Fail(BindError::AddressInUse))
                } else {
                    (ServerPhase::Clearing, ServerAction::RemoveStale)
                },
                _ => (self.phase, ServerAction::Ignore),
            },
            ServerPhase::Clearing => match event {
                ServerEvent::Cleared => (ServerPhase::Binding, ServerAction::Bind),
                _ => (self.phase, ServerAction::Ignore),
            },
            ServerPhase::Binding => match event {
                ServerEvent::Bound => (ServerPhase::Listening, ServerAction::Accept),
                ServerEvent::BindFailed { in_use, message } => {
                    let error = if in_use {
                        BindError::AddressInUse
                    } else {
                        BindError::Unusable(message)
                    };
                    (ServerPhase::Stopped, ServerAction::Fail(error))
                },
                _ => (self.phase, ServerAction::Ignore),
            },
            ServerPhase::Listening => match event {
                ServerEvent::Accepted => (self.phase, ServerAction::Dispatch),
                ServerEvent::AcceptFailed(message) => (
                    self.phase,
                    ServerAction::ReportAcceptFailure(message),
                ),
                _ => (self.phase, ServerAction::Ignore),
            },
            ServerPhase::Stopped => (self.phase, ServerAction::Ignore),
        };
        self.phase = next;
        action
    }
}

proof fn lemma_stopped_stays_idle(events: Seq<ServerEvent>)
    ensures
        run(ServerPhase::Stopped, events).len() == events.len(),
        forall|i: int|
            0 <= i < events.len() ==> #[trigger] run(ServerPhase::Stopped, events)[i] is Ignore,
    decreases events.len(),
{
    if events.len() > 0 {
        lemma_stopped_stays_idle(events.drop_first());
    }
}

/// A start that finds a live listener at its address fails with
/// `AddressInUse` and then does nothing at all: it neither removes nor binds
/// the address, so the live listener is left as it was.
pub proof fn lemma_live_listener_is_left_alone(events: Seq<ServerEvent>)
    requires
        events.len() > 0,
        events[0] == (ServerEvent::Probed { live: true }),
    ensures
        run(ServerPhase::Probing, events).len() == events.len(),
        run(ServerPhase::Probing, events)[0] == ServerAction::Fail(BindError::AddressInUse),
        forall|i: int|
            1 <= i < events.len() ==> #[trigger] run(ServerPhase::Probing, events)[i] is Ignore,
{
    let rest = events.drop_first();
    lemma_stopped_stays_idle(rest);
    assert forall|i: int| 1 <= i < events.len() implies #[trigger] run(
        ServerPhase::Probing,
        events,
    )[i] is Ignore by {
        assert(run(ServerPhase::Probing, events)[i] == run(ServerPhase::Stopped, rest)[i - 1]);
    }
}

/// From any phase, a stale endpoint is removed only in answer to a probe
/// that found no live listener at the address.
pub proof fn lemma_removal_follows_dead_probe(phase: ServerPhase, events: Seq<ServerEvent>)
    ensures
        run(phase, events).len() == events.len(),
        forall|i: int|
            0 <= i < events.len() && (#[trigger] run(phase, events)[i] is RemoveStale) ==> events[i]
                == (ServerEvent::Probed { live: false }),
    decreases events.len(),
{
    if events.len() > 0 {
        let (next, action) = transition(phase, events[0]);
        let rest = events.drop_first();
        lemma_removal_follows_dead_probe(next, rest);
        assert forall|i: int|
            0 <= i < events.len() && (#[trigger] run(phase, events)[i] is RemoveStale) implies events[i]
                == (ServerEvent::Probed { live: false }) by {
            if i > 0 {
                assert(run(phase, events)[i] == run(next, rest)[i - 1]);
                assert(rest[i - 1] == events[i]);
            }
        }
    }
}

} // verus!
