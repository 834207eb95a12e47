//! The agent's side: binding a port on the relay server, answering what the server
//! sends, and asking for direct connections.

use vstd::prelude::*;

use crate::cmd::{Command, CommandError, CommandView};

verus! {

/// Why the server did not bind the port.
#[derive(Debug)]
pub enum BindFailure {
    /// The server refused, with this reason.
    Refused(String),
    /// Reading the server's answer failed.
    Broken(CommandError),
    /// The server answered with something else than success or failure.
    Unexpected,
}

/// What the answer to a `bind` request means.
pub fn bind_outcome(reply: Command) -> (r: Result<(), BindFailure>)
    ensures
        match r {
            Ok(()) => reply@ == CommandView::Success,
            Err(BindFailure::Refused(m)) => reply@ == (CommandView::Failure { reason: m@ }),
            Err(BindFailure::Broken(e)) => reply@ == CommandView::Error(e@),
            Err(BindFailure::Unexpected) => !(reply@ is Success) && !(reply@ is Failure) && !(
            reply@ is Error),
        },
{
    match reply {
        Command::Success => Ok(()),
        Command::Failure { reason } => Err(BindFailure::Refused(reason)),
        Command::Error(e) => Err(BindFailure::Broken(e)),
        _ => Err(BindFailure::Unexpected),
    }
}

/// What an agent does with a command from the server.
pub enum ProxyAction {
    /// A visitor arrived: open a new connection to the server, write `greeting` on it,
    /// and join it with the local service. `session` is the session id and `visitor` the
    /// visitor's address.
    OpenSession { greeting: Command, session: String, visitor: String },
    /// A peer asks for a direct connection: open a new connection to the server, learn
    /// this host's public UDP address, answer on it, and serve the peer over UDP.
    OpenP2pSession { addr: String, udp_addr: String },
    /// Write this answer to the server.
    Answer(Command),
    /// The connection failed: stop.
    Stop(CommandError),
    /// Ignore the command.
    Skip,
}

/// What an agent does with the command `cmd` that the server sent it.
pub fn proxy_action(cmd: Command) -> (r: ProxyAction)
    ensures
        match cmd@ {
            CommandView::Accept { port, id, addr } => r matches ProxyAction::OpenSession {
                greeting,
                session,
                visitor,
            } && greeting@ == (CommandView::Accept { port, id, addr: Seq::empty() }) && session@
                == id && visitor@ == addr,
            CommandView::AcceptP2P { addr, udp_addr } => r matches ProxyAction::OpenP2pSession {
                addr: a,
                udp_addr: u,
            } && a@ == addr && u@ == udp_addr,
            CommandView::Error(e) => r matches ProxyAction::Stop(x) && x@ == e,
            CommandView::Nothing => r matches ProxyAction::Answer(c) && c@ == CommandView::Nothing,
            _ => r is Skip,
        },
{
    match cmd {
        Command::Accept { port, id, addr } => ProxyAction::OpenSession {
            session: id.clone(),
            greeting: Command::Accept { port, id, addr: String::new() },
            visitor: addr,
        },
        Command::AcceptP2P { addr, udp_addr } => ProxyAction::OpenP2pSession { addr, udp_addr },
        Command::Error(e) => ProxyAction::Stop(e),
        Command::Nothing => ProxyAction::Answer(Command::Nothing),
        _ => ProxyAction::Skip,
    }
}

/// A client that offers a local listener through which connections go directly to the
/// service another agent has bound on the relay server.
#[derive(Clone, Debug)]
pub struct ClientP2P {
    server: String,
    port: u16,
    local_service: String,
}

impl ClientP2P {
    pub closed spec fn server_spec(&self) -> Seq<char> {
        self.server@
    }

    pub closed spec fn port_spec(&self) -> u16 {
        self.port
    }

    pub closed spec fn local_service_spec(&self) -> Seq<char> {
        self.local_service@
    }

    /// A client of the relay server at `server` for the service bound on `port`,
    /// listening locally on `local_service`.
    pub fn new(server: String, port: u16, local_service: String) -> (r: Self)
        ensures
            r.server_spec() == server@,
            r.port_spec() == port,
            r.local_service_spec() == local_service@,
    {
        Self { server, port, local_service }
    }

    /// The address of the relay server.
    pub fn server(&self) -> (r: &String)
        ensures
            r@ == self.server_spec(),
    {
        &self.server
    }

    /// The port the wanted service is bound on.
    pub fn port(&self) -> (r: u16)
        ensures
            r == self.port_spec(),
    {
        self.port
    }

    /// The local address to listen on.
    pub fn local_service(&self) -> (r: &String)
        ensures
            r@ == self.local_service_spec(),
    {
        &self.local_service
    }
}

/// What the server's answer to a direct-connection request means.
pub enum P2pReply {
    /// The serving agent answered: connect to it at this UDP address.
    Connect { peer_udp_addr: String },
    /// The server refused, with this reason.
    Refused(String),
    /// Anything else.
    Unexpected(Command),
}

/// Reads the server's answer to a direct-connection request.
pub fn p2p_reply(reply: Command) -> (r: P2pReply)
    ensures
        match reply@ {
            CommandView::AcceptP2P { udp_addr, .. } => r matches P2pReply::Connect {
                peer_udp_addr,
            } && peer_udp_addr@ == udp_addr,
            CommandView::Failure { reason } => r matches P2pReply::Refused(m) && m@ == reason,
            other => r matches P2pReply::Unexpected(c) && c@ == other,
        },
{
    match reply {
        Command::AcceptP2P { udp_addr, .. } => P2pReply::Connect { peer_udp_addr: udp_addr },
        Command::Failure { reason } => P2pReply::Refused(reason),
        other => P2pReply::Unexpected(other),
    }
}

} // verus!
