//! The decisions of a Raft node: what it does with each request, reply and
//! timeout. Timers, locks and the network stay with the caller, which feeds
//! events in and carries out what comes back.

use vstd::prelude::*;
use crate::entry::{Command, CommandView, Entry, EntryView, entries_view};
use crate::wal::{matching_prefix, prev_matches, log_after_append, term_at_length};
use crate::config::{RaftConfig, spec_quorum_size};
use crate::persistent_state::{PersistentState, PersistentStateView, after_update_term, after_vote, vote_granted};
use crate::state_machine::{SMWrapper, UserMessageIdMap, StateMachine, replay};
use crate::quorum::{kth_largest, is_kth_largest, kth_largest_of, count_at_least};
use crate::rpc::{AppendEntriesArgs, AppendEntriesRes, RequestVoteArgs, RequestVoteRes, UserRequestArgs};

verus! {

/// What a leader tracks of each peer (by position in the configured peers),
/// and the positions of proposed entries whose clients wait for commitment.
pub struct LeaderState {
    pub prev_length: Vec<u64>,
    pub match_length: Vec<u64>,
    pub commit_alarm: Vec<u64>,
}

pub struct FollowerState {
    pub current_leader: Option<String>,
}

pub struct CandidateState {}

pub enum Role {
    Leader(LeaderState),
    Follower(FollowerState),
    Candidate(CandidateState),
}

/// The state of a Raft node.
pub struct RaftState {
    pub persistent_state: PersistentState,
    pub sm: SMWrapper<UserMessageIdMap>,
    pub committed_length: u64,
    pub role: Role,
}

/// What becomes of a client's request.
#[derive(Debug, PartialEq, Eq)]
pub enum UserRequestDecision {
    /// Refused: out-of-order or repeated message, or no leader known.
    Rejected,
    /// Appended to the log at this position; the client waits for commitment.
    Proposed(u64),
    /// This node follows the given leader, which gets the request.
    Forward(String),
}

impl RaftState {
    /// The state invariant: the wrapped log is well formed, the snapshot is
    /// taken at the committed length, and a leader tracks every peer with
    /// lengths inside the log.
    pub open spec fn wf(&self, config: &RaftConfig) -> bool {
        &&& self.sm.wf()
        &&& self.committed_length == self.sm.snapshot_length()
        &&& match self.role {
            Role::Leader(s) => {
                &&& s.prev_length@.len() == config.peers@.len()
                &&& s.match_length@.len() == config.peers@.len()
                &&& forall|i: int| 0 <= i < s.prev_length@.len() ==> s.prev_length@[i] <= self.sm.log().len()
                &&& forall|i: int| 0 <= i < s.match_length@.len() ==> s.match_length@[i] <= self.sm.log().len()
            },
            _ => true,
        }
    }

    /// A fresh node: nothing committed, following no known leader.
    pub fn new(persistent_state: PersistentState, sm: SMWrapper<UserMessageIdMap>) -> (r: Self)
        requires
            sm.wf(),
            sm.snapshot_length() == 0,
        ensures
            r.persistent_state == persistent_state,
            r.sm == sm,
            r.committed_length == 0,
            r.role matches Role::Follower(f) && f.current_leader is None,
    {
        RaftState {
            persistent_state,
            sm,
            committed_length: 0,
            role: Role::Follower(FollowerState { current_leader: None }),
        }
    }

    /// Whether this node is the leader.
    pub fn is_leader(&self) -> (b: bool)
        ensures
            b == self.role is Leader,
    {
        match &self.role {
            Role::Leader(_) => true,
            _ => false,
        }
    }

    /// Follows `current_leader` (or no known leader).
    pub fn become_follower(&mut self, current_leader: Option<String>)
        ensures
            final(self).role == Role::Follower(FollowerState { current_leader }),
            final(self).persistent_state == old(self).persistent_state,
            final(self).sm == old(self).sm,
            final(self).committed_length == old(self).committed_length,
    {
        self.role = Role::Follower(FollowerState { current_leader });
    }

    /// Election timeout: starts an election in the next term, voting for
    /// itself, and becomes a candidate.
    pub fn on_election_timeout(&mut self, config: &RaftConfig)
        requires
            old(self).persistent_state@.current_term < u64::MAX,
        ensures
            final(self).persistent_state@ == (PersistentStateView {
                current_term: (old(self).persistent_state@.current_term + 1) as u64,
                voted_for: Some(config.self_id@),
            }),
            final(self).role is Candidate,
            final(self).sm == old(self).sm,
            final(self).committed_length == old(self).committed_length,
    {
        self.persistent_state.start_election(config.self_id.as_str());
        self.role = Role::Candidate(CandidateState {});
    }

    /// The vote request a candidate sends: its identity, the length and last
    /// term of its log, and its term.
    pub fn request_vote_args(&self, config: &RaftConfig) -> (args: RequestVoteArgs)
        ensures
            args.candidate_id@ == config.self_id@,
            args.prev_length == self.sm.log().len(),
            args.prev_term == term_at_length(self.sm.log(), self.sm.log().len() as int),
            args.term == self.persistent_state@.current_term,
    {
        RequestVoteArgs {
            candidate_id: config.self_id.clone(),
            prev_length: self.sm.wal().len(),
            prev_term: self.sm.wal().last_term(),
            term: self.persistent_state.current_term(),
        }
    }

    /// Elected: becomes leader, expecting every peer to hold the whole log
    /// and knowing none to match any of it yet.
    pub fn become_leader(&mut self, config: &RaftConfig)
        requires
            old(self).wf(config),
        ensures
            final(self).wf(config),
            final(self).persistent_state == old(self).persistent_state,
            final(self).sm == old(self).sm,
            final(self).committed_length == old(self).committed_length,
            final(self).role matches Role::Leader(s) && {
                &&& s.prev_length@ == Seq::new(config.peers@.len(), |i: int| old(self).sm.log().len() as u64)
                &&& s.match_length@ == Seq::new(config.peers@.len(), |i: int| 0u64)
                &&& s.commit_alarm@.len() == 0
            },
    {
        let len = self.sm.wal().len();
        let n = config.peers.len();
        let mut prev_length: Vec<u64> = Vec::new();
        let mut match_length: Vec<u64> = Vec::new();
        let mut i: usize = 0;
        while i < n
            invariant
                n == config.peers@.len(),
                len == self.sm.log().len(),
                i <= n,
                prev_length@ == Seq::new(i as nat, |j: int| len),
                match_length@ == Seq::new(i as nat, |j: int| 0u64),
            decreases n - i,
        {
            prev_length.push(len);
            match_length.push(0);
            i = i + 1;
            proof {
                assert(prev_length@ =~= Seq::new(i as nat, |j: int| len));
                assert(match_length@ =~= Seq::new(i as nat, |j: int| 0u64));
            }
        }
        self.role = Role::Leader(LeaderState { prev_length, match_length, commit_alarm: Vec::new() });
    }

    /// Whether a leader's append request with these arguments changes the
    /// log (the case in which the running machine is rebuilt).
    pub open spec fn append_changes_log(&self, prev_length: u64, prev_term: u64, entries: Seq<EntryView>) -> bool {
        &&& prev_matches(self.sm.log(), prev_length as int, prev_term)
        &&& matching_prefix(self.sm.log(), prev_length as int, entries) < entries.len()
    }

    /// Handles a leader's append request. An outdated term is refused.
    /// Otherwise the term is adopted, the node follows the sender, and the
    /// entries are offered to the log. When the leader's claim about the log
    /// holds (an empty heartbeat included), the request succeeds: the
    /// committed length moves to the leader's committed length, capped by
    /// the length the log now shares with the leader's and never lowered, and
    /// the snapshot moves with it. Returns the answer and whether the node
    /// now follows the sender.
    pub fn handle_append_entries(&mut self, config: &RaftConfig, args: &AppendEntriesArgs) -> (r: (AppendEntriesRes, bool))
        requires
            old(self).wf(config),
            args.term >= old(self).persistent_state@.current_term ==> {
                &&& exists|j: int| 0 <= j < config.peers@.len() && config.peers@[j]@ == args.leader_id@
                &&& !old(self).sm.append_cuts_snapshot(args.prev_length, args.prev_term, entries_view(args.entries@))
            },
        ensures
            final(self).wf(config),
            final(self).persistent_state@ == after_update_term(old(self).persistent_state@, args.term),
            final(self).committed_length >= old(self).committed_length,
            final(self).sm.log().take(old(self).committed_length as int) == old(self).sm.log().take(old(self).committed_length as int),
            r.0.term == final(self).persistent_state@.current_term,
            r.1 == (args.term >= old(self).persistent_state@.current_term),
            !r.1 ==> {
                &&& !r.0.success
                &&& final(self).sm == old(self).sm
                &&& final(self).committed_length == old(self).committed_length
                &&& final(self).role == old(self).role
            },
            r.1 ==> {
                let ev = entries_view(args.entries@);
                let matched = prev_matches(old(self).sm.log(), args.prev_length as int, args.prev_term);
                let changes = old(self).append_changes_log(args.prev_length, args.prev_term, ev);
                let new_log = if matched {
                    log_after_append(old(self).sm.log(), args.prev_length as int, ev)
                } else {
                    old(self).sm.log()
                };
                let capped = if args.committed_length < args.prev_length + ev.len() {
                    args.committed_length as int
                } else {
                    args.prev_length + ev.len()
                };
                let committed = if old(self).committed_length >= capped { old(self).committed_length as int } else { capped };
                &&& final(self).role matches Role::Follower(f) && f.current_leader matches Some(l) && l@ == args.leader_id@
                &&& final(self).sm.log() == new_log
                &&& r.0.success == matched
                &&& !matched ==> {
                    &&& final(self).committed_length == old(self).committed_length
                    &&& final(self).sm.state_model() == old(self).sm.state_model()
                    &&& final(self).sm.snapshot_model() == old(self).sm.snapshot_model()
                }
                &&& matched ==> {
                    &&& final(self).committed_length == committed
                    &&& final(self).sm.state_model() == (if changes {
                            replay::<UserMessageIdMap>(old(self).sm.snapshot_model(), new_log.skip(old(self).committed_length as int))
                        } else {
                            old(self).sm.state_model()
                        })
                    &&& final(self).sm.snapshot_model() == replay::<UserMessageIdMap>(old(self).sm.snapshot_model(), new_log.skip(committed))
                }
            },
    {
        let ghost ev = entries_view(args.entries@);
        let ghost old_log = self.sm.log();
        let (current_term, ok) = self.persistent_state.update_term(args.term);
        if !ok {
            return (AppendEntriesRes { term: current_term, success: false }, false);
        }
        let leader = match config.get_peer(args.leader_id.as_str()) {
            Some(l) => l,
            None => {
                return (AppendEntriesRes { term: current_term, success: false }, false);
            },
        };
        self.become_follower(Some(leader));
        match self.sm.append_entries(args.prev_length, args.prev_term, args.entries.as_slice()) {
            None => (AppendEntriesRes { term: current_term, success: false }, true),
            Some(compatible_length) => {
                proof {
                    crate::wal::lemma_matching_prefix_agrees(old_log, args.prev_length as int, ev);
                    self.sm.lemma_wf_bounds();
                }
                let capped = if args.committed_length < compatible_length { args.committed_length } else { compatible_length };
                let l = if self.committed_length >= capped { self.committed_length } else { capped };
                self.committed_length = l;
                self.sm.take_snapshot(l);
                (AppendEntriesRes { term: current_term, success: true }, true)
            },
        }
    }

    /// Handles a candidate's vote request. An outdated term is refused. A
    /// newer term is adopted first (clearing the vote), and the node then
    /// follows no known leader. A candidate whose log is less up to date
    /// than this node's gets no vote and leaves the vote untouched;
    /// otherwise the vote is asked, and when granted the node follows no
    /// known leader. Returns the answer and whether the node now follows.
    pub fn handle_request_vote(&mut self, config: &RaftConfig, args: &RequestVoteArgs) -> (r: (RequestVoteRes, bool))
        requires
            old(self).wf(config),
            exists|j: int| 0 <= j < config.peers@.len() && config.peers@[j]@ == args.candidate_id@,
        ensures
            final(self).wf(config),
            final(self).sm == old(self).sm,
            final(self).committed_length == old(self).committed_length,
            ({
                let s0 = old(self).persistent_state@;
                let s1 = after_update_term(s0, args.term);
                let up = candidate_up_to_date(old(self).sm.log(), args.prev_length, args.prev_term);
                if args.term < s0.current_term {
                    &&& final(self).persistent_state@ == s0
                    &&& r.0 == (RequestVoteRes { term: s0.current_term, vote_granted: false })
                    &&& !r.1
                    &&& final(self).role == old(self).role
                } else {
                    &&& final(self).persistent_state@ == (if up { after_vote(s1, args.candidate_id@) } else { s1 })
                    &&& r.0 == (RequestVoteRes { term: s1.current_term, vote_granted: up && vote_granted(s1, args.candidate_id@) })
                    &&& r.1 == (r.0.vote_granted || args.term > s0.current_term)
                    &&& r.1 ==> final(self).role == Role::Follower(FollowerState { current_leader: None })
                    &&& !r.1 ==> final(self).role == old(self).role
                }
            }),
    {
        let candidate = match config.get_peer(args.candidate_id.as_str()) {
            Some(c) => c,
            None => {
                return (RequestVoteRes { term: self.persistent_state.current_term(), vote_granted: false }, false);
            },
        };
        let current_term = self.persistent_state.current_term();
        if args.term < current_term {
            return (RequestVoteRes { term: current_term, vote_granted: false }, false);
        }
        if args.term > current_term {
            self.persistent_state.update_term(args.term);
        }
        let term = self.persistent_state.current_term();
        let last_term = self.sm.wal().last_term();
        let len = self.sm.wal().len();
        let newer = args.term > current_term;
        if !(args.prev_term > last_term || (args.prev_term == last_term && args.prev_length >= len)) {
            if newer {
                self.become_follower(None);
            }
            return (RequestVoteRes { term, vote_granted: false }, newer);
        }
        let granted = self.persistent_state.try_vote(candidate.as_str());
        if !granted {
            if newer {
                self.become_follower(None);
            }
            return (RequestVoteRes { term, vote_granted: false }, newer);
        }
        self.become_follower(None);
        (RequestVoteRes { term, vote_granted: true }, true)
    }

    /// The heartbeat a leader sends to the peer at position `peer`: an empty
    /// append request after the length it expects the peer to hold.
    pub fn heartbeat_args(&self, config: &RaftConfig, peer: usize) -> (r: Option<AppendEntriesArgs>)
        requires
            self.wf(config),
            peer < config.peers@.len(),
        ensures
            r is Some <==> self.role is Leader,
            r matches Some(a) ==> self.role matches Role::Leader(s) && {
                &&& a.term == self.persistent_state@.current_term
                &&& a.leader_id@ == config.self_id@
                &&& a.prev_length == s.prev_length@[peer as int]
                &&& a.prev_term == term_at_length(self.sm.log(), a.prev_length as int)
                &&& a.entries@.len() == 0
                &&& a.committed_length == self.committed_length
            },
    {
        match &self.role {
            Role::Leader(s) => {
                let prev_length = s.prev_length[peer];
                Some(AppendEntriesArgs {
                    term: self.persistent_state.current_term(),
                    leader_id: config.self_id.clone(),
                    prev_length,
                    prev_term: self.sm.wal().last_term_for(prev_length),
                    entries: Vec::new(),
                    committed_length: self.committed_length,
                })
            },
            _ => None,
        }
    }

    /// The request that carries the next entry to the peer at position
    /// `peer`, when this node leads and the peer is not known to hold the
    /// whole log: the one entry after the length the leader expects the peer
    /// to hold.
    pub fn replication_args(&self, config: &RaftConfig, peer: usize) -> (r: Option<AppendEntriesArgs>)
        requires
            self.wf(config),
            peer < config.peers@.len(),
            self.role matches Role::Leader(s) ==> (s.match_length@[peer as int] < self.sm.log().len()
                ==> s.prev_length@[peer as int] < self.sm.log().len()),
        ensures
            r is Some <==> (self.role matches Role::Leader(s) && s.match_length@[peer as int] < self.sm.log().len()),
            r matches Some(a) ==> self.role matches Role::Leader(s) && {
                &&& a.term == self.persistent_state@.current_term
                &&& a.leader_id@ == config.self_id@
                &&& a.prev_length == s.prev_length@[peer as int]
                &&& a.prev_term == term_at_length(self.sm.log(), a.prev_length as int)
                &&& entries_view(a.entries@) == self.sm.log().subrange(a.prev_length as int, a.prev_length + 1)
                &&& a.committed_length == self.committed_length
            },
    {
        match &self.role {
            Role::Leader(s) => {
                if s.match_length[peer] < self.sm.wal().len() {
                    let prev_length = s.prev_length[peer];
                    let entry = self.sm.wal().as_slice()[prev_length as usize].clone();
                    let mut entries: Vec<Entry> = Vec::new();
                    entries.push(entry);
                    proof {
                        assert(entries_view(entries@) =~= self.sm.log().subrange(prev_length as int, prev_length + 1));
                    }
                    Some(AppendEntriesArgs {
                        term: self.persistent_state.current_term(),
                        leader_id: config.self_id.clone(),
                        prev_length,
                        prev_term: self.sm.wal().last_term_for(prev_length),
                        entries,
                        committed_length: self.committed_length,
                    })
                } else {
                    None
                }
            },
            _ => None,
        }
    }

    /// The committed entries from position `sent` on, for delivery to the
    /// chat server. Delivered in order after the `sent` entries already out,
    /// they make up exactly the committed prefix of the log: each committed
    /// entry once, in log order, and nothing past the committed length.
    pub fn committed_entries(&self, config: &RaftConfig, sent: u64) -> (r: Vec<Entry>)
        requires
            self.wf(config),
        ensures
            sent <= self.committed_length ==> self.sm.log().take(sent as int) + entries_view(r@) == self.sm.log().take(self.committed_length as int),
            sent < self.committed_length ==> entries_view(r@) == self.sm.log().subrange(sent as int, self.committed_length as int),
            sent >= self.committed_length ==> r@.len() == 0,
    {
        proof {
            self.sm.lemma_wf_bounds();
        }
        let mut r: Vec<Entry> = Vec::new();
        if sent >= self.committed_length {
            return r;
        }
        let log = self.sm.wal().as_slice();
        let n = log.len();
        assert(log@.len() == self.sm.log().len());
        let mut i = sent;
        proof {
            assert(entries_view(r@) =~= self.sm.log().subrange(sent as int, sent as int));
        }
        while i < self.committed_length
            invariant
                self.wf(config),
                sent <= i <= self.committed_length,
                self.committed_length <= n,
                n == log@.len(),
                entries_view(log@) == self.sm.log(),
                entries_view(r@) == self.sm.log().subrange(sent as int, i as int),
            decreases self.committed_length - i,
        {
            let e = log[i as usize].clone();
            let ghost old_r = r@;
            r.push(e);
            proof {
                assert(self.sm.log()[i as int] == log@[i as int]@);
                assert(entries_view(r@) =~= entries_view(old_r).push(e@));
                assert(entries_view(r@) =~= self.sm.log().subrange(sent as int, i + 1));
            }
            i = i + 1;
        }
        proof {
            assert(self.sm.log().take(sent as int) + entries_view(r@) =~= self.sm.log().take(self.committed_length as int));
        }
        r
    }

    /// Whether a reply to an append request sent in `term` still counts:
    /// it answers in that term, and this node is still leader in it.
    pub open spec fn reply_counts(&self, term: u64, res: AppendEntriesRes) -> bool {
        &&& res.term == term
        &&& self.persistent_state@.current_term == term
        &&& self.role is Leader
    }

    /// Handles the reply of the peer at position `peer` to an append request
    /// sent in `term` after `prev_length` with `entries_len` entries. A reply
    /// that does not count changes nothing. A refusal makes the leader step
    /// the expected length of that peer back by one. A success raises the
    /// peer's matched length to cover the sent entries; the committed length
    /// then becomes the largest length that a quorum of the cluster (the
    /// leader and `quorum_size - 1` peers) holds, if that is larger, and the
    /// snapshot moves with it. Returns, for each waiting client in order,
    /// whether its entry is now committed (empty when nothing was committed);
    /// the committed ones stop waiting.
    pub fn handle_append_entries_reply(
        &mut self,
        config: &RaftConfig,
        peer: usize,
        term: u64,
        prev_length: u64,
        entries_len: u64,
        res: AppendEntriesRes,
    ) -> (fired: Vec<bool>)
        requires
            old(self).wf(config),
            peer < config.peers@.len(),
            config.peers@.len() < usize::MAX,
            old(self).reply_counts(term, res) ==> {
                &&& prev_length + entries_len <= old(self).sm.log().len()
                &&& !res.success ==> prev_length > 0
            },
        ensures
            final(self).wf(config),
            final(self).persistent_state == old(self).persistent_state,
            final(self).sm.log() == old(self).sm.log(),
            final(self).sm.state_model() == old(self).sm.state_model(),
            final(self).committed_length >= old(self).committed_length,
            final(self).sm.log().take(old(self).committed_length as int) == old(self).sm.log().take(old(self).committed_length as int),
            final(self).committed_length > old(self).committed_length ==> (final(self).role matches Role::Leader(t)
                && count_at_least(t.match_length@, final(self).committed_length) + 1 >= spec_quorum_size(config.peers@)),
            !old(self).reply_counts(term, res) ==> {
                &&& fired@.len() == 0
                &&& final(self).sm == old(self).sm
                &&& final(self).committed_length == old(self).committed_length
                &&& final(self).role == old(self).role
            },
            old(self).reply_counts(term, res) && !res.success ==> {
                &&& fired@.len() == 0
                &&& final(self).sm == old(self).sm
                &&& final(self).committed_length == old(self).committed_length
                &&& old(self).role matches Role::Leader(s) && final(self).role matches Role::Leader(t) && {
                    &&& t.prev_length@ == s.prev_length@.update(peer as int, (prev_length - 1) as u64)
                    &&& t.match_length@ == s.match_length@
                    &&& t.commit_alarm@ == s.commit_alarm@
                }
            },
            old(self).reply_counts(term, res) && res.success ==> {
                &&& old(self).role matches Role::Leader(s) && final(self).role matches Role::Leader(t) && {
                    let sent = prev_length + entries_len;
                    let matched = if s.match_length@[peer as int] >= sent { s.match_length@[peer as int] } else { sent as u64 };
                    let m = s.match_length@.update(peer as int, matched);
                    let l = kth_largest_of(m, spec_quorum_size(config.peers@) - 1);
                    &&& t.match_length@ == m
                    &&& t.prev_length@ == s.prev_length@.update(peer as int, matched)
                    &&& if old(self).committed_length < l {
                        &&& final(self).committed_length == l
                        &&& final(self).sm.snapshot_model() == replay::<UserMessageIdMap>(old(self).sm.snapshot_model(), old(self).sm.log().skip(l as int))
                        &&& t.commit_alarm@ == s.commit_alarm@.filter(|i: u64| i >= l)
                        &&& fired@ == s.commit_alarm@.map_values(|i: u64| i < l)
                    } else {
                        &&& final(self).committed_length == old(self).committed_length
                        &&& final(self).sm == old(self).sm
                        &&& t.commit_alarm@ == s.commit_alarm@
                        &&& fired@.len() == 0
                    }
                }
            },
    {
        let current_term = self.persistent_state.current_term();
        if !(res.term == term && current_term == term) {
            return Vec::new();
        }
        proof {
            self.sm.lemma_wf_bounds();
        }
        let log_len = self.sm.wal().len();
        match &mut self.role {
            Role::Leader(s) => {
                if res.success {
                    let old_l = s.match_length[peer];
                    let sent = prev_length + entries_len;
                    let new_l = if old_l >= sent { old_l } else { sent };
                    s.match_length.set(peer, new_l);
                    s.prev_length.set(peer, new_l);
                    let k = config.quorum_size() - 1;
                    let l = kth_largest(&s.match_length, k);
                    proof {
                        let i = choose|i: int| 0 <= i < s.match_length@.len() && s.match_length@[i] == l;
                        assert(s.match_length@[i] <= log_len);
                    }
                    if self.committed_length < l {
                        self.committed_length = l;
                        self.sm.take_snapshot(l);
                        let mut kept: Vec<u64> = Vec::new();
                        let mut fired: Vec<bool> = Vec::new();
                        let mut j: usize = 0;
                        let ghost alarms = s.commit_alarm@;
                        while j < s.commit_alarm.len()
                            invariant
                                alarms == s.commit_alarm@,
                                j <= alarms.len(),
                                kept@ == alarms.take(j as int).filter(|i: u64| i >= l),
                                fired@ == alarms.take(j as int).map_values(|i: u64| i < l),
                            decreases alarms.len() - j,
                        {
                            let a = s.commit_alarm[j];
                            proof {
                                assert(alarms.take(j as int + 1).drop_last() =~= alarms.take(j as int));
                                reveal_with_fuel(Seq::filter, 1);
                            }
                            fired.push(a < l);
                            if a >= l {
                                kept.push(a);
                            }
                            j = j + 1;
                            proof {
                                assert(fired@ =~= alarms.take(j as int).map_values(|i: u64| i < l));
                            }
                        }
                        proof {
                            assert(alarms.take(j as int) =~= alarms);
                        }
                        s.commit_alarm = kept;
                        fired
                    } else {
                        Vec::new()
                    }
                } else {
                    s.prev_length.set(peer, prev_length - 1);
                    Vec::new()
                }
            },
            _ => Vec::new(),
        }
    }

    /// Whether a leader accepts message `message_id` of `client_id`: it must
    /// be the next after the client's last applied message, or the first
    /// (id 1) of a client never seen.
    pub open spec fn accepts_message(&self, client_id: Seq<char>, message_id: u64) -> bool {
        accepts_next(self.sm.state_model(), client_id, message_id)
    }

    /// Handles a client's request. A leader appends an accepted message to
    /// its log in its current term and has the client wait for the entry's
    /// commitment; a follower that knows its leader forwards the request;
    /// everything else is refused.
    pub fn user_request(&mut self, config: &RaftConfig, args: UserRequestArgs) -> (r: UserRequestDecision)
        requires
            old(self).wf(config),
        ensures
            final(self).wf(config),
            final(self).persistent_state == old(self).persistent_state,
            final(self).committed_length == old(self).committed_length,
            final(self).sm.log().take(old(self).committed_length as int) == old(self).sm.log().take(old(self).committed_length as int),
            match old(self).role {
                Role::Leader(s) => if old(self).accepts_message(args.client_id@, args.message_id) {
                    let entry = EntryView {
                        term: old(self).persistent_state@.current_term,
                        command: Some(CommandView { client_id: args.client_id@, message_id: args.message_id, data: args.data@ }),
                    };
                    &&& r == UserRequestDecision::Proposed(old(self).sm.log().len() as u64)
                    &&& final(self).sm.log() == old(self).sm.log().push(entry)
                    &&& final(self).sm.state_model() == old(self).sm.state_model().insert(args.client_id@, args.message_id)
                    &&& final(self).sm.snapshot_length() == old(self).sm.snapshot_length()
                    &&& final(self).sm.snapshot_model() == old(self).sm.snapshot_model()
                    &&& final(self).role matches Role::Leader(t) && {
                        &&& t.prev_length == s.prev_length
                        &&& t.match_length == s.match_length
                        &&& t.commit_alarm@ == s.commit_alarm@.push(old(self).sm.log().len() as u64)
                    }
                } else {
                    &&& r == UserRequestDecision::Rejected
                    &&& final(self).sm == old(self).sm
                    &&& final(self).role == old(self).role
                },
                Role::Follower(f) => {
                    &&& r == match f.current_leader {
                        Some(l) => UserRequestDecision::Forward(l),
                        None => UserRequestDecision::Rejected,
                    }
                    &&& final(self).sm == old(self).sm
                    &&& final(self).role == old(self).role
                },
                Role::Candidate(_) => {
                    &&& r == UserRequestDecision::Rejected
                    &&& final(self).sm == old(self).sm
                    &&& final(self).role == old(self).role
                },
            },
    {
        let term = self.persistent_state.current_term();
        match &mut self.role {
            Role::Leader(leader_state) => {
                let last = self.sm.state().get(&args.client_id);
                match last {
                    Some(message_id) => {
                        if args.message_id == 0 || message_id != args.message_id - 1 {
                            return UserRequestDecision::Rejected;
                        }
                    },
                    None => {
                        if args.message_id != 1 {
                            return UserRequestDecision::Rejected;
                        }
                    },
                }
                let ghost old_log = self.sm.log();
                let ghost old_state = self.sm.state_model();
                proof {
                    self.sm.lemma_wf_bounds();
                }
                let entry = Entry {
                    term,
                    command: Some(Command { client_id: args.client_id, message_id: args.message_id, data: args.data }),
                };
                let proposed_idx = self.sm.propose_entry(entry);
                proof {
                    let e = self.sm.log().last();
                    assert(seq![e].drop_last() =~= Seq::<EntryView>::empty());
                    assert(replay::<UserMessageIdMap>(old_state, Seq::<EntryView>::empty()) == old_state);
                    assert(self.sm.log().take(self.committed_length as int) =~= old_log.take(self.committed_length as int));
                }
                leader_state.commit_alarm.push(proposed_idx);
                UserRequestDecision::Proposed(proposed_idx)
            },
            Role::Follower(follower_state) => {
                match &follower_state.current_leader {
                    Some(leader_id) => UserRequestDecision::Forward(leader_id.clone()),
                    None => UserRequestDecision::Rejected,
                }
            },
            Role::Candidate(_) => UserRequestDecision::Rejected,
        }
    }
}

/// Delivery across calls: the entries handed out so far are the first
/// `sent` entries of an earlier log; since then the handlers have kept the
/// first `kept` entries of the log (its committed prefix then, at least
/// `sent` long); a call of `committed_entries` on the current log, with
/// `committed` at least `sent`, hands out `more`. Then everything handed out
/// is exactly the first `committed` entries of the current log, in log
/// order, each once.
pub proof fn lemma_delivery_across_calls(
    earlier: Seq<EntryView>,
    current: Seq<EntryView>,
    sent: int,
    kept: int,
    committed: int,
    delivered: Seq<EntryView>,
    more: Seq<EntryView>,
)
    requires
        0 <= sent <= kept <= earlier.len(),
        kept <= current.len(),
        sent <= committed <= current.len(),
        delivered == earlier.take(sent),
        current.take(kept) == earlier.take(kept),
        current.take(sent) + more == current.take(committed),
    ensures
        delivered + more == current.take(committed),
{
    assert(current.take(sent) =~= current.take(kept).take(sent));
    assert(earlier.take(sent) =~= earlier.take(kept).take(sent));
}

/// Whether a candidate whose log has `prev_length` entries, the last of
/// term `prev_term`, is at least as up to date as `log`: its last term is
/// newer, or the same with a log at least as long.
pub open spec fn candidate_up_to_date(log: Seq<EntryView>, prev_length: u64, prev_term: u64) -> bool {
    let last = term_at_length(log, log.len() as int);
    prev_term > last || (prev_term == last && prev_length >= log.len())
}

/// Up-to-dateness orders candidates by last term, then by length: a
/// candidate with the same log summary as this node's is up to date; a
/// longer log with the same last term, or any log with a newer last term,
/// stays up to date; an older last term, or the same last term with a
/// shorter log, is not.
pub proof fn lemma_up_to_date_order(log: Seq<EntryView>, prev_length: u64, prev_term: u64, longer: u64, newer_term: u64)
    requires
        log.len() <= u64::MAX,
    ensures
        candidate_up_to_date(log, log.len() as u64, term_at_length(log, log.len() as int)),
        candidate_up_to_date(log, prev_length, prev_term) && longer >= prev_length
            ==> candidate_up_to_date(log, longer, prev_term),
        newer_term > term_at_length(log, log.len() as int) ==> candidate_up_to_date(log, prev_length, newer_term),
        prev_term < term_at_length(log, log.len() as int) ==> !candidate_up_to_date(log, prev_length, prev_term),
        prev_term == term_at_length(log, log.len() as int) && prev_length < log.len()
            ==> !candidate_up_to_date(log, prev_length, prev_term),
{
}

/// Whether, given each client's last message id `last`, message
/// `message_id` of `client_id` is the next one: one past the last, or 1 for
/// a client never seen.
pub open spec fn accepts_next(last: Map<Seq<char>, u64>, client_id: Seq<char>, message_id: u64) -> bool {
    if last.contains_key(client_id) {
        last[client_id] + 1 == message_id
    } else {
        message_id == 1
    }
}

/// Exactly one message id is accepted from each client: one past the
/// client's last id (when it has one that can be followed), or 1 for a
/// client never seen; any other id, a gap or an old one, is refused.
pub proof fn lemma_one_next_message(last: Map<Seq<char>, u64>, client_id: Seq<char>, a: u64, b: u64)
    ensures
        accepts_next(last, client_id, a) && accepts_next(last, client_id, b) ==> a == b,
        !last.contains_key(client_id) ==> accepts_next(last, client_id, 1),
        last.contains_key(client_id) && last[client_id] < u64::MAX
            ==> accepts_next(last, client_id, (last[client_id] + 1) as u64),
        last.contains_key(client_id) && a <= last[client_id] ==> !accepts_next(last, client_id, a),
{
}

/// A message enters the log once: after a leader accepts message
/// `message_id` of a client (recording it as the client's last), the same
/// message is refused, and the one after it is accepted.
pub proof fn lemma_message_accepted_once(last: Map<Seq<char>, u64>, client_id: Seq<char>, message_id: u64)
    requires
        accepts_next(last, client_id, message_id),
        message_id < u64::MAX,
    ensures
        !accepts_next(last.insert(client_id, message_id), client_id, message_id),
        accepts_next(last.insert(client_id, message_id), client_id, (message_id + 1) as u64),
{
}

/// Votes counted by a candidate, its own included.
pub struct VoteTally {
    pub count: usize,
}

impl VoteTally {
    /// A candidate starts with its own vote.
    pub fn new() -> (t: Self)
        ensures
            t.count == 1,
    {
        VoteTally { count: 1 }
    }

    /// Counts one answer; true once the votes reach `quorum`.
    pub fn record(&mut self, granted: bool, quorum: usize) -> (elected: bool)
        requires
            old(self).count < usize::MAX,
        ensures
            final(self).count == old(self).count + if granted { 1int } else { 0int },
            elected == (final(self).count >= quorum),
    {
        if granted {
            self.count = self.count + 1;
        }
        self.count >= quorum
    }
}

} // verus!
