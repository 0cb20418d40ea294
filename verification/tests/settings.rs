use raftchat::settings::{chars_of, node_url, parse_bounded, parse_domains, parse_index, parse_ports, split_chars, trim_chars, Config};

#[test]
fn ports_with_defaults() {
    assert_eq!(parse_ports("3000,3001,3002", 3001), vec![3000, 3001, 3002]);
    assert_eq!(parse_ports("80,x,70000, 5,+7,", 9001), vec![80, 9001, 9001, 9001, 7, 9001]);
    assert_eq!(parse_ports("", 1), vec![1]);
}

#[test]
fn domains_are_trimmed() {
    assert_eq!(parse_domains(" a.com ,b.org,\tc "), vec!["a.com", "b.org", "c"]);
    assert_eq!(parse_domains("x"), vec!["x"]);
    assert_eq!(parse_domains("a,,b"), vec!["a", "", "b"]);
}

#[test]
fn index_parsing() {
    assert_eq!(parse_index(Some("2")), 2);
    assert_eq!(parse_index(Some("-1")), 0);
    assert_eq!(parse_index(Some("")), 0);
    assert_eq!(parse_index(None), 0);
    assert_eq!(parse_index(Some("99999999999999999999999")), 0);
}

#[test]
fn bounded_numbers() {
    let c = |s: &str| chars_of(s);
    assert_eq!(parse_bounded(&c("65535"), 65535), Some(65535));
    assert_eq!(parse_bounded(&c("65536"), 65535), None);
    assert_eq!(parse_bounded(&c("+12"), 100), Some(12));
    assert_eq!(parse_bounded(&c("+"), 100), None);
    assert_eq!(parse_bounded(&c("1 "), 100), None);
    assert_eq!(parse_bounded(&c("007"), 100), Some(7));
}

#[test]
fn splitting_and_trimming() {
    let parts = split_chars(&chars_of("a,b,,c,"), ',');
    assert_eq!(parts.len(), 5);
    assert_eq!(parts[3], vec!['c']);
    assert_eq!(trim_chars(&chars_of("\u{3000} x y \n")), vec!['x', ' ', 'y']);
    assert_eq!(trim_chars(&chars_of("   ")), Vec::<char>::new());
}

#[test]
fn node_urls() {
    assert_eq!(node_url(&"example.com".to_string(), 9001), "http://example.com:9001");
    assert_eq!(node_url(&"h".to_string(), 0), "http://h:0");
}

#[test]
fn raft_config_from_settings() {
    let config = Config {
        domains: vec!["a".to_string(), "b".to_string(), "c".to_string()],
        web_ports: vec![3000, 3001, 3002],
        socket_ports: vec![9001, 9002, 9003],
        rpc_ports: vec![5000, 5001, 5002],
        version: "1".to_string(),
        self_domain_idx: 1,
        raft_mock_flag: false,
    };
    let rc = config.raft_config("s".to_string(), "sb".to_string(), "w".to_string());
    assert_eq!(rc.serve_addr, "0.0.0.0:5001");
    assert_eq!(rc.self_id, "http://b:5001");
    assert_eq!(rc.peers, vec!["http://a:5000", "http://c:5002"]);
    assert_eq!(rc.election_duration, (1000, 1001));
    assert_eq!(rc.wal_path, "w");
}

#[test]
fn port_in_node_url_reads_back() {
    for port in [0u16, 7, 10, 9001, 65535] {
        let url = node_url(&"host".to_string(), port);
        let pieces = split_chars(&chars_of(&url), ':');
        assert_eq!(parse_bounded(pieces.last().unwrap(), 65535), Some(port as u64));
    }
}
