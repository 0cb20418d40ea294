use raftchat::config::RaftConfig;

fn config(peers: &[&str]) -> RaftConfig {
    RaftConfig {
        serve_addr: "0.0.0.0:9001".to_string(),
        self_id: "a".to_string(),
        peers: peers.iter().map(|s| s.to_string()).collect(),
        election_duration: (100, 110),
        heartbeat_duration: 250,
        persistent_state_path: "s".to_string(),
        persistent_state_backup_path: "b".to_string(),
        wal_path: "w".to_string(),
    }
}

#[test]
fn quorum_of_three_and_five() {
    assert_eq!(config(&["b", "c"]).cluster_size(), 3);
    assert_eq!(config(&["b", "c"]).quorum_size(), 2);
    assert_eq!(config(&["b", "c", "d", "e"]).quorum_size(), 3);
    assert_eq!(config(&["b", "c", "d"]).quorum_size(), 3);
    assert_eq!(config(&[]).quorum_size(), 1);
}

#[test]
fn peers_are_found_by_name() {
    let c = config(&["b", "c", "b"]);
    assert_eq!(c.peer_index("c"), Some(1));
    assert_eq!(c.peer_index("b"), Some(0));
    assert_eq!(c.peer_index("z"), None);
    assert_eq!(c.get_peer("c"), Some("c".to_string()));
    assert_eq!(c.get_peer("a"), None);
}

#[test]
fn election_timeout_in_range() {
    let c = config(&["b"]);
    let mut draws = vec![];
    for _ in 0..50 {
        let t = c.election_timeout();
        assert!((100..110).contains(&t));
        draws.push(t);
    }
    // fifty draws from ten values are not all the lower bound
    assert!(draws.iter().any(|&t| t != 100));
}
