use raftchat::entry::{Command, Entry};
use raftchat::mock_raft::RaftNode;
use raftchat::rpc::UserRequestArgs;

fn req(client: &str, id: u64) -> UserRequestArgs {
    UserRequestArgs { client_id: client.to_string(), message_id: id, data: vec![id as u8] }
}

#[test]
fn mock_publishes_in_order_and_drops_one() {
    let mut m = RaftNode::new();
    let mut published = vec![];
    let mut noops = 0;
    for id in 1..=4 {
        let step = m.on_request(req("a", id));
        assert!(step.noop.is_none());
        if let Some(e) = step.committed {
            published.push(e);
        }
    }
    // the fourth request arrives when three were published: dropped on purpose
    assert_eq!(published.len(), 3);
    assert_eq!(m.drop, 103);
    // retried: published; then out-of-order and repeated ids are dropped
    assert!(m.on_request(req("a", 4)).committed.is_some());
    assert!(m.on_request(req("a", 9)).committed.is_none());
    assert!(m.on_request(req("a", 4)).committed.is_none());
    assert!(m.on_request(req("b", 1)).noop.is_none());
    // after five entries a no-op comes first
    let step = m.on_request(req("b", 2));
    if step.noop.is_some() {
        noops += 1;
        assert_eq!(step.noop, Some(Entry { term: 0, command: None }));
    }
    assert_eq!(noops, 1);
    assert_eq!(
        step.committed,
        Some(Entry { term: 0, command: Some(Command { client_id: "b".to_string(), message_id: 2, data: vec![2] }) })
    );
}

#[test]
fn mock_keeps_each_client_in_order() {
    let mut m = RaftNode::new();
    let mut out = vec![];
    let requests = [("a", 1), ("b", 1), ("a", 3), ("a", 2), ("b", 1), ("b", 2), ("a", 3), ("a", 2), ("b", 3), ("a", 4)];
    for (client, id) in requests {
        let step = m.on_request(req(client, id));
        out.extend(step.noop);
        out.extend(step.committed);
    }
    let ids = |client: &str| -> Vec<u64> {
        out.iter()
            .filter_map(|e| e.command.as_ref())
            .filter(|c| c.client_id == client)
            .map(|c| c.message_id)
            .collect()
    };
    let a = ids("a");
    let b = ids("b");
    assert_eq!(a, (1..=a.len() as u64).collect::<Vec<_>>());
    assert_eq!(b, (1..=b.len() as u64).collect::<Vec<_>>());
    assert_eq!(out.iter().filter(|e| e.command.is_none()).count(), 1);
}
