//! Replicated chat log: a Raft write-ahead log, the state machine replayed
//! from it, the node's durable vote state, and the decisions of a Raft node.

pub mod entry;
pub mod client_table;
pub mod wal;
pub mod state_machine;
pub mod config;
pub mod persistent_state;
pub mod quorum;
pub mod rpc;
pub mod raft;
pub mod database;
pub mod mock_raft;
pub mod msg;
pub mod settings;
pub mod chat_message;
