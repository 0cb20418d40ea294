use raftchat::config::RaftConfig;
use raftchat::entry::{Command, Entry};
use raftchat::persistent_state::PersistentState;
use raftchat::raft::{RaftState, Role, UserRequestDecision, VoteTally};
use raftchat::rpc::{AppendEntriesArgs, AppendEntriesRes, RequestVoteArgs, RequestVoteRes, UserRequestArgs};
use raftchat::state_machine::SMWrapper;
use raftchat::wal::WAL;

fn config() -> RaftConfig {
    RaftConfig {
        serve_addr: "0.0.0.0:9001".to_string(),
        self_id: "a".to_string(),
        peers: vec!["b".to_string(), "c".to_string()],
        election_duration: (3000, 4000),
        heartbeat_duration: 250,
        persistent_state_path: "s".to_string(),
        persistent_state_backup_path: "b".to_string(),
        wal_path: "w".to_string(),
    }
}

fn entry(term: u64, client: &str, id: u64) -> Entry {
    Entry { term, command: Some(Command { client_id: client.to_string(), message_id: id, data: vec![7] }) }
}

fn node(log: Vec<Entry>) -> RaftState {
    let c = config();
    RaftState::new(PersistentState::new(&c, None), SMWrapper::new(WAL { cache: log }))
}

fn append_args(term: u64, prev_length: u64, prev_term: u64, entries: Vec<Entry>, committed: u64) -> AppendEntriesArgs {
    AppendEntriesArgs { term, leader_id: "b".to_string(), prev_length, prev_term, entries, committed_length: committed }
}

fn request(client: &str, id: u64) -> UserRequestArgs {
    UserRequestArgs { client_id: client.to_string(), message_id: id, data: vec![1, 2] }
}

#[test]
fn follower_accepts_entries_and_commits() {
    let c = config();
    let mut n = node(vec![]);
    let (res, follows) = n.handle_append_entries(&c, &append_args(1, 0, 0, vec![entry(1, "x", 1), entry(1, "x", 2)], 1));
    assert_eq!(res, AppendEntriesRes { term: 1, success: true });
    assert!(follows);
    assert_eq!(n.committed_length, 1);
    assert_eq!(n.sm.wal().len(), 2);
    match &n.role {
        Role::Follower(f) => assert_eq!(f.current_leader.as_deref(), Some("b")),
        _ => panic!("not a follower"),
    }
    assert_eq!(n.committed_entries(&c, 0), vec![entry(1, "x", 1)]);
    assert_eq!(n.committed_entries(&c, 1), vec![]);
}

#[test]
fn committed_entries_are_delivered_in_log_order() {
    let c = config();
    let mut n = node(vec![]);
    let all = vec![entry(1, "x", 1), entry(1, "y", 1), entry(1, "x", 2)];
    n.handle_append_entries(&c, &append_args(1, 0, 0, all.clone(), 1));
    let mut delivered = n.committed_entries(&c, 0);
    n.handle_append_entries(&c, &append_args(1, 3, 1, vec![], 3));
    delivered.extend(n.committed_entries(&c, delivered.len() as u64));
    assert_eq!(delivered, all);
    assert_eq!(n.committed_entries(&c, 3), vec![]);
}

#[test]
fn committed_length_capped_by_log() {
    let c = config();
    let mut n = node(vec![]);
    let (res, _) = n.handle_append_entries(&c, &append_args(1, 0, 0, vec![entry(1, "x", 1)], 9));
    assert!(res.success);
    assert_eq!(n.committed_length, 1);
}

#[test]
fn outdated_leader_is_refused() {
    let c = config();
    let mut n = node(vec![]);
    n.persistent_state.update_term(5);
    let (res, follows) = n.handle_append_entries(&c, &append_args(4, 0, 0, vec![entry(4, "x", 1)], 0));
    assert_eq!(res, AppendEntriesRes { term: 5, success: false });
    assert!(!follows);
    assert_eq!(n.sm.wal().len(), 0);
}

#[test]
fn heartbeat_is_answered_with_success() {
    let c = config();
    let mut n = node(vec![entry(1, "x", 1)]);
    let (res, follows) = n.handle_append_entries(&c, &append_args(1, 1, 1, vec![], 0));
    assert_eq!(res, AppendEntriesRes { term: 1, success: true });
    assert!(follows);
    assert_eq!(n.committed_length, 0);
    // the leader's committed length reaches the follower with a heartbeat
    let (res, _) = n.handle_append_entries(&c, &append_args(1, 1, 1, vec![], 1));
    assert!(res.success);
    assert_eq!(n.committed_length, 1);
    assert_eq!(n.sm.wal().len(), 1);
}

#[test]
fn mismatched_heartbeat_is_refused() {
    let c = config();
    let mut n = node(vec![entry(1, "x", 1)]);
    let (res, follows) = n.handle_append_entries(&c, &append_args(2, 1, 2, vec![], 1));
    assert_eq!(res, AppendEntriesRes { term: 2, success: false });
    assert!(follows);
    assert_eq!(n.committed_length, 0);
    let (res, _) = n.handle_append_entries(&c, &append_args(2, 3, 1, vec![], 1));
    assert!(!res.success);
}

#[test]
fn append_in_same_term_keeps_vote() {
    let c = config();
    let mut n = node(vec![]);
    let ask = |who: &str, term: u64| RequestVoteArgs { candidate_id: who.to_string(), prev_length: 0, prev_term: 0, term };
    assert!(n.handle_request_vote(&c, &ask("b", 1)).0.vote_granted);
    let (res, _) = n.handle_append_entries(&c, &append_args(1, 0, 0, vec![], 0));
    assert!(res.success);
    assert_eq!(n.persistent_state.voted_for().map(|s| s.as_str()), Some("b"));
    assert!(!n.handle_request_vote(&c, &ask("c", 1)).0.vote_granted);
}

#[test]
fn stale_candidate_gets_no_vote() {
    let c = config();
    let mut n = node(vec![entry(1, "x", 1), entry(2, "x", 2)]);
    let ask = |prev_length: u64, prev_term: u64, term: u64| RequestVoteArgs { candidate_id: "b".to_string(), prev_length, prev_term, term };
    // older last term
    assert_eq!(n.handle_request_vote(&c, &ask(5, 1, 3)).0, RequestVoteRes { term: 3, vote_granted: false });
    // same last term, shorter log
    assert_eq!(n.handle_request_vote(&c, &ask(1, 2, 3)).0, RequestVoteRes { term: 3, vote_granted: false });
    assert_eq!(n.persistent_state.voted_for(), None);
    // same last term, log as long
    assert_eq!(n.handle_request_vote(&c, &ask(2, 2, 3)).0, RequestVoteRes { term: 3, vote_granted: true });
    // newer last term, shorter log, from another candidate in a later term
    let newer = RequestVoteArgs { candidate_id: "c".to_string(), prev_length: 1, prev_term: 3, term: 4 };
    assert_eq!(n.handle_request_vote(&c, &newer).0, RequestVoteRes { term: 4, vote_granted: true });
}

#[test]
fn votes_once_per_term() {
    let c = config();
    let mut n = node(vec![]);
    let ask = |who: &str, term: u64| RequestVoteArgs { candidate_id: who.to_string(), prev_length: 0, prev_term: 0, term };
    assert_eq!(n.handle_request_vote(&c, &ask("b", 1)).0, RequestVoteRes { term: 1, vote_granted: true });
    assert_eq!(n.handle_request_vote(&c, &ask("c", 1)).0, RequestVoteRes { term: 1, vote_granted: false });
    assert_eq!(n.handle_request_vote(&c, &ask("c", 0)).0, RequestVoteRes { term: 1, vote_granted: false });
    assert_eq!(n.handle_request_vote(&c, &ask("c", 2)).0, RequestVoteRes { term: 2, vote_granted: true });
}

#[test]
fn election_and_leadership() {
    let c = config();
    let mut n = node(vec![entry(1, "x", 1)]);
    n.on_election_timeout(&c);
    assert_eq!(n.persistent_state.current_term(), 1);
    assert!(matches!(n.role, Role::Candidate(_)));
    let args = n.request_vote_args(&c);
    assert_eq!((args.candidate_id.as_str(), args.prev_length, args.prev_term, args.term), ("a", 1, 1, 1));
    let mut tally = VoteTally::new();
    assert!(!tally.record(false, c.quorum_size()));
    assert!(tally.record(true, c.quorum_size()));
    n.become_leader(&c);
    assert!(n.is_leader());
    match &n.role {
        Role::Leader(s) => {
            assert_eq!(s.prev_length, vec![1, 1]);
            assert_eq!(s.match_length, vec![0, 0]);
        }
        _ => panic!("not leader"),
    }
    let hb = n.heartbeat_args(&c, 0).unwrap();
    assert_eq!((hb.term, hb.prev_length, hb.prev_term, hb.entries.len(), hb.committed_length), (1, 1, 1, 0, 0));
}

#[test]
fn leader_proposes_and_commits_on_quorum() {
    let c = config();
    let mut n = node(vec![]);
    n.on_election_timeout(&c);
    n.become_leader(&c);
    assert_eq!(n.user_request(&c, request("x", 2)), UserRequestDecision::Rejected);
    assert_eq!(n.user_request(&c, request("x", 1)), UserRequestDecision::Proposed(0));
    assert_eq!(n.user_request(&c, request("x", 1)), UserRequestDecision::Rejected);
    assert_eq!(n.user_request(&c, request("x", 2)), UserRequestDecision::Proposed(1));
    // the peer is expected to hold the whole log; step it back
    let fired = n.handle_append_entries_reply(&c, 0, 1, 2, 0, AppendEntriesRes { term: 1, success: false });
    assert!(fired.is_empty());
    let fired = n.handle_append_entries_reply(&c, 0, 1, 1, 0, AppendEntriesRes { term: 1, success: false });
    assert!(fired.is_empty());
    let fired = n.handle_append_entries_reply(&c, 0, 1, 0, 1, AppendEntriesRes { term: 1, success: true });
    // a quorum of 2 (leader + 1 peer) holds length 1: entry 0 is committed
    assert_eq!(fired, vec![true, false]);
    assert_eq!(n.committed_length, 1);
    let args = n.replication_args(&c, 0).unwrap();
    assert_eq!(args.prev_length, 1);
    assert_eq!(args.entries, vec![Entry { term: 1, command: Some(Command { client_id: "x".to_string(), message_id: 2, data: vec![1, 2] }) }]);
    let fired = n.handle_append_entries_reply(&c, 0, 1, 1, 1, AppendEntriesRes { term: 1, success: true });
    assert_eq!(fired, vec![true]);
    assert_eq!(n.committed_length, 2);
    assert!(n.replication_args(&c, 0).is_none());
}

#[test]
fn stale_reply_changes_nothing() {
    let c = config();
    let mut n = node(vec![]);
    n.on_election_timeout(&c);
    n.become_leader(&c);
    n.user_request(&c, request("x", 1));
    let fired = n.handle_append_entries_reply(&c, 0, 7, 0, 1, AppendEntriesRes { term: 7, success: true });
    assert!(fired.is_empty());
    assert_eq!(n.committed_length, 0);
}

#[test]
fn follower_forwards_candidate_refuses() {
    let c = config();
    let mut n = node(vec![]);
    assert_eq!(n.user_request(&c, request("x", 1)), UserRequestDecision::Rejected);
    n.become_follower(Some("c".to_string()));
    assert_eq!(n.user_request(&c, request("x", 1)), UserRequestDecision::Forward("c".to_string()));
    n.on_election_timeout(&c);
    assert_eq!(n.user_request(&c, request("x", 1)), UserRequestDecision::Rejected);
}
