//! A Raft consensus node: the replicated log, the protocol's decisions for
//! elections and replication, election and heartbeat timers, a key-value
//! state machine and the retry policy of the transport.

pub mod types;
pub mod text;
pub mod state_machine;
pub mod log;
pub mod messages;
pub mod events;
pub mod timer;
pub mod network;
pub mod quorum;
pub mod node;
pub mod node_laws;
