//! The messages exchanged between Raft nodes and with the chat server.

use vstd::prelude::*;
use crate::entry::Entry;

verus! {

/// A leader's request to append entries (empty for a heartbeat).
#[derive(Debug)]
pub struct AppendEntriesArgs {
    pub term: u64,
    pub leader_id: String,
    pub prev_length: u64,
    pub prev_term: u64,
    pub entries: Vec<Entry>,
    pub committed_length: u64,
}

#[derive(Debug, Clone, Copy, PartialEq, Eq, Structural)]
pub struct AppendEntriesRes {
    pub term: u64,
    pub success: bool,
}

/// A candidate's request for a vote.
#[derive(Debug)]
pub struct RequestVoteArgs {
    pub candidate_id: String,
    pub prev_length: u64,
    pub prev_term: u64,
    pub term: u64,
}

#[derive(Debug, Clone, Copy, PartialEq, Eq, Structural)]
pub struct RequestVoteRes {
    pub term: u64,
    pub vote_granted: bool,
}

/// A chat message submitted by a client.
#[derive(Debug)]
pub struct UserRequestArgs {
    pub client_id: String,
    pub message_id: u64,
    pub data: Vec<u8>,
}

#[derive(Debug, Clone, Copy, PartialEq, Eq, Structural)]
pub struct UserRequestRes {
    pub success: bool,
}

} // verus!
