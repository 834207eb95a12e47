//! Verified core of a reverse tunnel and port-multiplexing toolkit: the
//! command protocol spoken between relay server and agents, NAT traversal
//! decisions, session control, and the rule engine of the port multiplexer.

pub mod text;
pub mod cmd;
pub mod p2p;
pub mod server;
pub mod client;
pub mod oneport;
pub mod launch;
