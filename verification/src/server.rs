//! The relay server's side of an agent connection, as a state machine: the caller
//! performs each action it asks for (reading and writing commands, binding ports,
//! sleeping) and reports what came of it as the next event.

use vstd::prelude::*;

use crate::cmd::{Command, CommandError, CommandView, ErrorView, error_text};
use crate::text::{host_port, host_port_text};

verus! {

/// Where an agent's session stands.
#[derive(Clone, Copy, Debug, PartialEq, Eq, Structural)]
pub enum SessionState {
    /// Waiting for the agent's next command.
    AwaitCommand,
    /// Binding the port the agent asked for.
    Binding { port: u16 },
    /// Telling the agent that its port is bound.
    Announcing { port: u16 },
    /// Recording the port as served by this agent.
    Registering { port: u16 },
    /// Waiting before the next keep-alive.
    Waiting { port: u16 },
    /// Sending a keep-alive.
    Pinging { port: u16 },
    /// Waiting for the agent to answer the keep-alive.
    AwaitingPong { port: u16 },
    /// Giving the port up.
    Releasing,
    /// Telling the agent why its request failed.
    Refusing,
    /// Leaving the agent time to read the last answer.
    Lingering,
    /// Passing a direct-connection request on to the agent that serves the port.
    Forwarding,
    /// Passing a direct-connection answer back to the peer that asked.
    Returning,
    /// The session is over.
    Ended,
}

/// What came of passing a direct-connection request on.
#[derive(Clone, Copy, Debug, PartialEq, Eq, Structural)]
pub enum Forwarding {
    /// No agent serves the port.
    NoService,
    /// The request was written to the serving agent.
    Delivered,
    /// Writing to the serving agent failed.
    Undelivered,
}

/// What the caller reports after performing an action.
pub enum SessionEvent {
    /// A command was read (or reading failed, as a `Command::Error`).
    Read(Command),
    /// The port was bound, or binding failed with this message.
    Bound(Result<(), String>),
    /// A command was written to the agent, successfully or not.
    Sent(bool),
    /// A direct-connection request was passed on.
    Forwarded(Forwarding),
    /// A direct-connection answer was returned: whether the asking peer was found.
    Returned(bool),
    /// An action without result is done.
    Done,
}

/// What the session asks the caller to do next.
pub enum SessionAction {
    /// Read a command from the agent, checking the server's password when `authenticated`.
    Read { authenticated: bool },
    /// Listen on the port for the agent.
    BindPort(u16),
    /// Write a command to the agent.
    Send(Command),
    /// Record that the agent serves the port.
    Register(u16),
    /// Sleep this many milliseconds.
    Sleep(u64),
    /// Stop listening on the port and forget that the agent serves it.
    Release(u16),
    /// Hand the waiting visitor with this session id to the agent, if it is still there;
    /// the connection then carries the visitor's traffic.
    TakeVisitor(String),
    /// Remember the agent as a peer waiting for an answer, and write `request` to the
    /// agent that serves `port`.
    ForwardP2p { port: u16, request: Command },
    /// Write `answer` to the peer that waits at address `peer`, if it still does.
    ReturnP2p { peer: String, answer: Command },
    /// Close the session.
    End,
}

/// The abstract value of a [`SessionEvent`].
pub enum EventView {
    Read(CommandView),
    BindSucceeded,
    BindFailed(Seq<char>),
    Sent(bool),
    Forwarded(Forwarding),
    Returned(bool),
    Done,
}

/// The abstract value of a [`SessionAction`].
pub enum ActionView {
    Read { authenticated: bool },
    BindPort(u16),
    Send(CommandView),
    Register(u16),
    Sleep(u64),
    Release(u16),
    TakeVisitor(Seq<char>),
    ForwardP2p { port: u16, request: CommandView },
    ReturnP2p { peer: Seq<char>, answer: CommandView },
    End,
}

impl View for SessionEvent {
    type V = EventView;

    open spec fn view(&self) -> EventView {
        match self {
            SessionEvent::Read(c) => EventView::Read(c@),
            SessionEvent::Bound(r) => match r {
                Ok(()) => EventView::BindSucceeded,
                Err(m) => EventView::BindFailed(m@),
            },
            SessionEvent::Sent(ok) => EventView::Sent(*ok),
            SessionEvent::Forwarded(f) => EventView::Forwarded(*f),
            SessionEvent::Returned(found) => EventView::Returned(*found),
            SessionEvent::Done => EventView::Done,
        }
    }
}

impl View for SessionAction {
    type V = ActionView;

    open spec fn view(&self) -> ActionView {
        match self {
            SessionAction::Read { authenticated } => ActionView::Read {
                authenticated: *authenticated,
            },
            SessionAction::BindPort(p) => ActionView::BindPort(*p),
            SessionAction::Send(c) => ActionView::Send(c@),
            SessionAction::Register(p) => ActionView::Register(*p),
            SessionAction::Sleep(ms) => ActionView::Sleep(*ms),
            SessionAction::Release(p) => ActionView::Release(*p),
            SessionAction::TakeVisitor(id) => ActionView::TakeVisitor(id@),
            SessionAction::ForwardP2p { port, request } => ActionView::ForwardP2p {
                port: *port,
                request: request@,
            },
            SessionAction::ReturnP2p { peer, answer } => ActionView::ReturnP2p {
                peer: peer@,
                answer: answer@,
            },
            SessionAction::End => ActionView::End,
        }
    }
}

/// The reason sent to an agent whose password is wrong.
pub open spec fn reason_wrong_password() -> Seq<char> {
    "密码错误"@
}

/// The reason sent to a peer that asks for a port nobody serves.
pub open spec fn reason_port_unbound() -> Seq<char> {
    "端口未绑定服务"@
}

/// The reason sent to a peer whose request could not be passed on.
pub open spec fn reason_agent_timeout() -> Seq<char> {
    "代理响应超时"@
}

/// A failure command with this reason.
pub open spec fn failure(reason: Seq<char>) -> CommandView {
    CommandView::Failure { reason }
}

/// How long the server waits between keep-alives, in milliseconds.
pub open spec fn keepalive_interval() -> u64 {
    5000
}

/// How long the server leaves an agent to read a final answer, in milliseconds.
pub open spec fn linger_time() -> u64 {
    2000
}

/// The next state and action of a session whose agent has the address `agent`.
pub open spec fn session_step(s: SessionState, agent: Seq<char>, e: EventView) -> (
    SessionState,
    ActionView,
) {
    match (s, e) {
        (SessionState::AwaitCommand, EventView::Read(c)) => match c {
            CommandView::Bind { port } => (SessionState::Binding { port }, ActionView::BindPort(port)),
            CommandView::Accept { id, .. } => (SessionState::Ended, ActionView::TakeVisitor(id)),
            CommandView::P2pRequest { port, udp_addr } => (
                SessionState::Forwarding,
                ActionView::ForwardP2p {
                    port,
                    request: CommandView::AcceptP2P { addr: agent, udp_addr },
                },
            ),
            CommandView::AcceptP2P { addr, udp_addr } => (
                SessionState::Returning,
                ActionView::ReturnP2p {
                    peer: addr,
                    answer: CommandView::AcceptP2P { addr: agent, udp_addr },
                },
            ),
            CommandView::Error(ErrorView::PermissionDenied) => (
                SessionState::Refusing,
                ActionView::Send(failure(reason_wrong_password())),
            ),
            CommandView::Error(err) => (SessionState::Refusing, ActionView::Send(failure(error_text(err)))),
            _ => (SessionState::AwaitCommand, ActionView::Read { authenticated: true }),
        },
        (SessionState::Binding { port }, EventView::BindSucceeded) => (
            SessionState::Announcing { port },
            ActionView::Send(CommandView::Success),
        ),
        (SessionState::Binding { .. }, EventView::BindFailed(msg)) => (
            SessionState::Refusing,
            ActionView::Send(failure(msg)),
        ),
        (SessionState::Announcing { port }, EventView::Sent(_)) => (
            SessionState::Registering { port },
            ActionView::Register(port),
        ),
        (SessionState::Registering { port }, EventView::Done) => (
            SessionState::Waiting { port },
            ActionView::Sleep(keepalive_interval()),
        ),
        (SessionState::Waiting { port }, EventView::Done) => (
            SessionState::Pinging { port },
            ActionView::Send(CommandView::Nothing),
        ),
        (SessionState::Pinging { port }, EventView::Sent(ok)) => if ok {
            (SessionState::AwaitingPong { port }, ActionView::Read { authenticated: false })
        } else {
            (SessionState::Releasing, ActionView::Release(port))
        },
        (SessionState::AwaitingPong { port }, EventView::Read(c)) => if c is Nothing {
            (SessionState::Waiting { port }, ActionView::Sleep(keepalive_interval()))
        } else {
            (SessionState::Releasing, ActionView::Release(port))
        },
        (SessionState::Refusing, EventView::Sent(_)) => (
            SessionState::Lingering,
            ActionView::Sleep(linger_time()),
        ),
        (SessionState::Forwarding, EventView::Forwarded(f)) => match f {
            Forwarding::NoService => (
                SessionState::Refusing,
                ActionView::Send(failure(reason_port_unbound())),
            ),
            Forwarding::Delivered => (SessionState::Ended, ActionView::End),
            Forwarding::Undelivered => (
                SessionState::Refusing,
                ActionView::Send(failure(reason_agent_timeout())),
            ),
        },
        (SessionState::Returning, EventView::Returned(found)) => if found {
            (SessionState::Lingering, ActionView::Sleep(linger_time()))
        } else {
            (SessionState::Ended, ActionView::End)
        },
        _ => (SessionState::Ended, ActionView::End),
    }
}

/// The server's side of one agent connection.
pub struct AgentSession {
    state: SessionState,
    agent: String,
}

impl AgentSession {
    pub closed spec fn state(&self) -> SessionState {
        self.state
    }

    /// The address of the agent, as the server writes it in answers.
    pub closed spec fn agent(&self) -> Seq<char> {
        self.agent@
    }

    /// A session for the agent connected from `agent`; it first reads a command,
    /// checking the password.
    pub fn start(agent: String) -> (r: (AgentSession, SessionAction))
        ensures
            r.0.state() == SessionState::AwaitCommand,
            r.0.agent() == agent@,
            r.1@ == (ActionView::Read { authenticated: true }),
    {
        (
            AgentSession { state: SessionState::AwaitCommand, agent },
            SessionAction::Read { authenticated: true },
        )
    }

    pub fn state_now(&self) -> (r: SessionState)
        ensures
            r == self.state(),
    {
        self.state
    }

    /// Takes the outcome of the last action and says what to do next.
    pub fn step(&mut self, event: SessionEvent) -> (r: SessionAction)
        ensures
            final(self).agent() == old(self).agent(),
            (final(self).state(), r@) == session_step(old(self).state(), old(self).agent(), event@),
    {
        let (next, action) = match (self.state, event) {
            (SessionState::AwaitCommand, SessionEvent::Read(c)) => match c {
                Command::Bind { port } => (SessionState::Binding { port }, SessionAction::BindPort(port)),
                Command::Accept { id, .. } => (SessionState::Ended, SessionAction::TakeVisitor(id)),
                Command::P2pRequest { port, udp_addr } => (
                    SessionState::Forwarding,
                    SessionAction::ForwardP2p {
                        port,
                        request: Command::AcceptP2P { addr: self.agent.clone(), udp_addr },
                    },
                ),
                Command::AcceptP2P { addr, udp_addr } => (
                    SessionState::Returning,
                    SessionAction::ReturnP2p {
                        peer: addr,
                        answer: Command::AcceptP2P { addr: self.agent.clone(), udp_addr },
                    },
                ),
                Command::Error(CommandError::PermissionDenied) => (
                    SessionState::Refusing,
                    SessionAction::Send(Command::failure(String::from_str("密码错误"))),
                ),
                Command::Error(err) => (
                    SessionState::Refusing,
                    SessionAction::Send(Command::failure(err.message())),
                ),
                _ => (SessionState::AwaitCommand, SessionAction::Read { authenticated: true }),
            },
            (SessionState::Binding { port }, SessionEvent::Bound(r)) => match r {
                Ok(()) => (SessionState::Announcing { port }, SessionAction::Send(Command::success())),
                Err(msg) => (SessionState::Refusing, SessionAction::Send(Command::failure(msg))),
            },
            (SessionState::Announcing { port }, SessionEvent::Sent(_)) => (
                SessionState::Registering { port },
                SessionAction::Register(port),
            ),
            (SessionState::Registering { port }, SessionEvent::Done) => (
                SessionState::Waiting { port },
                SessionAction::Sleep(5000),
            ),
            (SessionState::Waiting { port }, SessionEvent::Done) => (
                SessionState::Pinging { port },
                SessionAction::Send(Command::Nothing),
            ),
            (SessionState::Pinging { port }, SessionEvent::Sent(ok)) => if ok {
                (SessionState::AwaitingPong { port }, SessionAction::Read { authenticated: false })
            } else {
                (SessionState::Releasing, SessionAction::Release(port))
            },
            (SessionState::AwaitingPong { port }, SessionEvent::Read(c)) => match c {
                Command::Nothing => (SessionState::Waiting { port }, SessionAction::Sleep(5000)),
                _ => (SessionState::Releasing, SessionAction::Release(port)),
            },
            (SessionState::Refusing, SessionEvent::Sent(_)) => (
                SessionState::Lingering,
                SessionAction::Sleep(2000),
            ),
            (SessionState::Forwarding, SessionEvent::Forwarded(f)) => match f {
                Forwarding::NoService => (
                    SessionState::Refusing,
                    SessionAction::Send(Command::failure(String::from_str("端口未绑定服务"))),
                ),
                Forwarding::Delivered => (SessionState::Ended, SessionAction::End),
                Forwarding::Undelivered => (
                    SessionState::Refusing,
                    SessionAction::Send(Command::failure(String::from_str("代理响应超时"))),
                ),
            },
            (SessionState::Returning, SessionEvent::Returned(found)) => if found {
                (SessionState::Lingering, SessionAction::Sleep(2000))
            } else {
                (SessionState::Ended, SessionAction::End)
            },
            _ => (SessionState::Ended, SessionAction::End),
        };
        self.state = next;
        action
    }
}

/// The addresses of the server's two STUN services: `host:port` and `host:port+1`.
/// `None` when `port` is the last port, so that no port lies above it.
pub fn stun_addresses(host: &str, port: u16) -> (r: Option<(String, String)>)
    ensures
        r is None <==> port == u16::MAX,
        r matches Some(a) ==> a.0@ == host_port_text(host@, port) && a.1@ == host_port_text(
            host@,
            (port + 1) as u16,
        ),
{
    if port == u16::MAX {
        None
    } else {
        Some((host_port(host, port), host_port(host, port + 1)))
    }
}

/// A wrong password is answered with a failure that says so; the server then leaves the
/// agent time to read it and closes the session.
pub proof fn lemma_wrong_password_answer(agent: Seq<char>, sent: bool)
    ensures
        session_step(
            SessionState::AwaitCommand,
            agent,
            EventView::Read(CommandView::Error(ErrorView::PermissionDenied)),
        ) == (SessionState::Refusing, ActionView::Send(failure(reason_wrong_password()))),
        session_step(SessionState::Refusing, agent, EventView::Sent(sent)) == (
            SessionState::Lingering,
            ActionView::Sleep(linger_time()),
        ),
        session_step(SessionState::Lingering, agent, EventView::Done) == (
            SessionState::Ended,
            ActionView::End,
        ),
{
}

/// A bound port stays with its agent for as long as every keep-alive is written and
/// answered with a keep-alive; a failed write or any other answer releases the port.
pub proof fn lemma_keepalive(agent: Seq<char>, port: u16, answer: CommandView)
    ensures
        session_step(SessionState::Waiting { port }, agent, EventView::Done) == (
            SessionState::Pinging { port },
            ActionView::Send(CommandView::Nothing),
        ),
        session_step(SessionState::Pinging { port }, agent, EventView::Sent(true)) == (
            SessionState::AwaitingPong { port },
            ActionView::Read { authenticated: false },
        ),
        session_step(SessionState::Pinging { port }, agent, EventView::Sent(false)) == (
            SessionState::Releasing,
            ActionView::Release(port),
        ),
        session_step(SessionState::AwaitingPong { port }, agent, EventView::Read(answer)) == if answer is Nothing {
            (SessionState::Waiting { port }, ActionView::Sleep(keepalive_interval()))
        } else {
            (SessionState::Releasing, ActionView::Release(port))
        },
        session_step(SessionState::Releasing, agent, EventView::Done) == (
            SessionState::Ended,
            ActionView::End,
        ),
{
}

/// A port is registered as served only right after it was bound and the agent was told
/// so; and the session binds exactly the port the agent asked for.
pub proof fn lemma_register_only_after_bind(
    s: SessionState,
    agent: Seq<char>,
    e: EventView,
    port: u16,
)
    ensures
        session_step(s, agent, e).1 == ActionView::Register(port) ==> s == (
        SessionState::Announcing { port }) && e is Sent,
        session_step(s, agent, e).1 == ActionView::BindPort(port) ==> s
            == SessionState::AwaitCommand && e == EventView::Read(CommandView::Bind { port }),
        session_step(SessionState::Binding { port }, agent, EventView::BindSucceeded).0
            == (SessionState::Announcing { port }),
{
}

/// A direct-connection request is passed on to the agent that serves the port, carrying
/// the requester's address and its UDP address; the answer goes back to the peer named in
/// it, carrying the answering agent's address. A port nobody serves, or a request that
/// could not be written, is answered with a failure that says so, and the requester is
/// then given time to read it.
pub proof fn lemma_p2p_relay(
    agent: Seq<char>,
    port: u16,
    peer: Seq<char>,
    udp_addr: Seq<char>,
    sent: bool,
)
    ensures
        session_step(
            SessionState::AwaitCommand,
            agent,
            EventView::Read(CommandView::P2pRequest { port, udp_addr }),
        ) == (SessionState::Forwarding, ActionView::ForwardP2p {
            port,
            request: CommandView::AcceptP2P { addr: agent, udp_addr },
        }),
        session_step(
            SessionState::AwaitCommand,
            agent,
            EventView::Read(CommandView::AcceptP2P { addr: peer, udp_addr }),
        ) == (SessionState::Returning, ActionView::ReturnP2p {
            peer,
            answer: CommandView::AcceptP2P { addr: agent, udp_addr },
        }),
        session_step(SessionState::Forwarding, agent, EventView::Forwarded(Forwarding::NoService))
            == (SessionState::Refusing, ActionView::Send(
            CommandView::Failure { reason: "端口未绑定服务"@ },
        )),
        session_step(
            SessionState::Forwarding,
            agent,
            EventView::Forwarded(Forwarding::Undelivered),
        ) == (SessionState::Refusing, ActionView::Send(
            CommandView::Failure { reason: "代理响应超时"@ },
        )),
        session_step(SessionState::Forwarding, agent, EventView::Forwarded(Forwarding::Delivered))
            == (SessionState::Ended, ActionView::End),
        session_step(SessionState::Refusing, agent, EventView::Sent(sent)) == (
            SessionState::Lingering,
            ActionView::Sleep(2000),
        ),
{
}

/// A bound port is announced to its agent, registered, and then kept alive with a
/// keep-alive every five seconds.
pub proof fn lemma_bind_then_keepalive(agent: Seq<char>, port: u16, sent: bool)
    ensures
        session_step(
            SessionState::AwaitCommand,
            agent,
            EventView::Read(CommandView::Bind { port }),
        ) == (SessionState::Binding { port }, ActionView::BindPort(port)),
        session_step(SessionState::Binding { port }, agent, EventView::BindSucceeded) == (
            SessionState::Announcing { port },
            ActionView::Send(CommandView::Success),
        ),
        session_step(SessionState::Announcing { port }, agent, EventView::Sent(sent)) == (
            SessionState::Registering { port },
            ActionView::Register(port),
        ),
        session_step(SessionState::Registering { port }, agent, EventView::Done) == (
            SessionState::Waiting { port },
            ActionView::Sleep(5000),
        ),
        session_step(
            SessionState::AwaitingPong { port },
            agent,
            EventView::Read(CommandView::Nothing),
        ) == (SessionState::Waiting { port }, ActionView::Sleep(5000)),
{
}

/// The state a session reaches from its start through the events `events`.
pub open spec fn run(agent: Seq<char>, events: Seq<EventView>) -> SessionState
    decreases events.len(),
{
    if events.len() == 0 {
        SessionState::AwaitCommand
    } else {
        session_step(run(agent, events.drop_last()), agent, events.last()).0
    }
}

/// The port a state keeps bound for its agent, if any.
pub open spec fn held_port(s: SessionState) -> Option<u16> {
    match s {
        SessionState::Announcing { port } => Some(port),
        SessionState::Registering { port } => Some(port),
        SessionState::Waiting { port } => Some(port),
        SessionState::Pinging { port } => Some(port),
        SessionState::AwaitingPong { port } => Some(port),
        _ => None,
    }
}

/// Whether the `i`-th event reported a successful bind of `port` while the session was
/// binding it.
pub open spec fn bound_at(agent: Seq<char>, events: Seq<EventView>, i: int, port: u16) -> bool {
    &&& 0 <= i < events.len()
    &&& run(agent, events.take(i)) == (SessionState::Binding { port })
    &&& events[i] == EventView::BindSucceeded
}

proof fn lemma_step_holding(s: SessionState, agent: Seq<char>, e: EventView, port: u16)
    requires
        held_port(session_step(s, agent, e).0) == Some(port),
    ensures
        held_port(s) == Some(port) || (s == (SessionState::Binding { port }) && e == EventView::BindSucceeded),
{
    match s {
        SessionState::AwaitCommand => {
            match e {
                EventView::Read(c) => {
                    match c {
                        CommandView::Error(err) => {
                            match err {
                                ErrorView::PermissionDenied => {},
                                _ => {},
                            }
                        },
                        _ => {},
                    }
                },
                _ => {},
            }
        },
        SessionState::Binding { port: q } => {
            match e {
                EventView::BindSucceeded => {
                    assert(q == port);
                },
                _ => {},
            }
        },
        SessionState::Forwarding => {
            match e {
                EventView::Forwarded(f) => {
                    match f {
                        Forwarding::NoService => {},
                        Forwarding::Delivered => {},
                        Forwarding::Undelivered => {},
                    }
                },
                _ => {},
            }
        },
        _ => {},
    }
}

/// A session holds a port only after binding exactly that port succeeded: in every state
/// reachable from the start that keeps a port, some earlier event reported a successful
/// bind of that port.
pub proof fn lemma_port_held_only_after_bind(agent: Seq<char>, events: Seq<EventView>, port: u16)
    requires
        held_port(run(agent, events)) == Some(port),
    ensures
        exists|i: int| #[trigger] bound_at(agent, events, i, port),
    decreases events.len(),
{
    if events.len() == 0 {
        return;
    }
    let prev_events = events.drop_last();
    let prev = run(agent, prev_events);
    let e = events.last();
    assert(run(agent, events) == session_step(prev, agent, e).0);
    assert(events.take(events.len() - 1) =~= prev_events);
    if prev == (SessionState::Binding { port }) && e == EventView::BindSucceeded {
        assert(bound_at(agent, events, events.len() - 1, port));
    } else {
        lemma_step_holding(prev, agent, e, port);
        lemma_port_held_only_after_bind(agent, prev_events, port);
        let i = choose|i: int| #[trigger] bound_at(agent, prev_events, i, port);
        assert(prev_events.take(i) =~= events.take(i));
        assert(bound_at(agent, events, i, port));
    }
}

/// Once a session has ended, nothing brings it back.
pub proof fn lemma_ended_stays_ended(agent: Seq<char>, events: Seq<EventView>, more: Seq<EventView>)
    requires
        run(agent, events) == SessionState::Ended,
    ensures
        run(agent, events + more) == SessionState::Ended,
    decreases more.len(),
{
    if more.len() == 0 {
        assert(events + more =~= events);
    } else {
        let m = more.drop_last();
        lemma_ended_stays_ended(agent, events, m);
        assert((events + more).drop_last() =~= events + m);
    }
}

} // verus!
