use raftchat::config::RaftConfig;
use raftchat::persistent_state::{PersistentState, PersistentStateElement};

fn create_raft_config() -> RaftConfig {
    RaftConfig {
        serve_addr: "127.0.0.1:8080".to_string(),
        self_id: "1".to_string(),
        peers: vec!["1", "2", "3", "4", "5"].into_iter().map(String::from).collect(),
        election_duration: (3000, 4000),
        heartbeat_duration: 250,
        persistent_state_path: "state.json".to_string(),
        persistent_state_backup_path: "backup_state.json".to_string(),
        wal_path: "wal".to_string(),
    }
}

#[test]
fn test_new_with_existing_file() {
    let config = create_raft_config();
    let stored = PersistentStateElement { current_term: 5, voted_for: Some("1".to_string()) };
    let state = PersistentState::new(&config, Some(stored));
    assert_eq!(state.current_term(), 5);
    assert_eq!(state.voted_for().map(|s| s.as_str()), Some("1"));
}

#[test]
fn test_new_with_missing_file() {
    let config = create_raft_config();
    let state = PersistentState::new(&config, None);
    assert_eq!(state.current_term(), 0);
    assert_eq!(state.voted_for(), None);
}

#[test]
fn stored_vote_for_unknown_node_is_dropped() {
    let config = create_raft_config();
    let stored = PersistentStateElement { current_term: 3, voted_for: Some("9".to_string()) };
    let state = PersistentState::new(&config, Some(stored));
    assert_eq!(state.current_term(), 3);
    assert_eq!(state.voted_for(), None);
}

#[test]
fn test_update_term_atomic() {
    let config = create_raft_config();
    let mut state = PersistentState::new(&config, None);
    let (new_term, ok) = state.update_term(10);
    assert!(ok);
    assert_eq!(new_term, 10);
    assert_eq!(state.current_term(), 10);
    let persisted = state.to_element();
    assert_eq!(persisted.current_term, 10);
    assert_eq!(persisted.voted_for, None);
}

#[test]
fn update_term_refuses_older_term_and_keeps_vote_in_term() {
    let config = create_raft_config();
    let mut state = PersistentState::new(&config, None);
    state.update_term(7);
    assert!(state.try_vote("3"));
    assert_eq!(state.update_term(6), (7, false));
    assert_eq!(state.voted_for().map(|s| s.as_str()), Some("3"));
    assert_eq!(state.update_term(7), (7, true));
    assert_eq!(state.voted_for().map(|s| s.as_str()), Some("3"));
    assert!(!state.try_vote("4"));
    assert_eq!(state.update_term(8), (8, true));
    assert_eq!(state.voted_for(), None);
}

#[test]
fn stored_vote_for_self_is_kept() {
    let mut config = create_raft_config();
    config.self_id = "0".to_string();
    let stored = PersistentStateElement { current_term: 4, voted_for: Some("0".to_string()) };
    let state = PersistentState::new(&config, Some(stored));
    assert_eq!(state.current_term(), 4);
    assert_eq!(state.voted_for().map(|s| s.as_str()), Some("0"));
}

#[test]
fn test_try_vote_atomic() {
    let config = create_raft_config();
    let mut state = PersistentState::new(&config, None);
    let ok = state.try_vote("2");
    assert!(ok);
    assert_eq!(state.voted_for().map(|s| s.as_str()), Some("2"));
    let persisted = state.to_element();
    assert_eq!(persisted.current_term, state.current_term());
    assert_eq!(persisted.voted_for, Some("2".to_string()));
}

#[test]
fn one_vote_per_term() {
    let config = create_raft_config();
    let mut state = PersistentState::new(&config, None);
    assert!(state.try_vote("2"));
    assert!(!state.try_vote("3"));
    assert!(state.try_vote("2"));
    assert_eq!(state.voted_for().map(|s| s.as_str()), Some("2"));
}

#[test]
fn start_election_votes_for_self() {
    let config = create_raft_config();
    let mut state = PersistentState::new(&config, None);
    state.start_election("1");
    assert_eq!(state.current_term(), 1);
    assert_eq!(state.voted_for().map(|s| s.as_str()), Some("1"));
    assert!(!state.try_vote("2"));
}
