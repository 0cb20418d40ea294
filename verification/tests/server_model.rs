use raftchat::database::{Commit, CommitCounter, RequestLog};
use raftchat::entry::{Command, Entry};
use raftchat::msg::{ClientMsg, LogData, MessageLog, Msg, ServerMsg, UtcTime};

fn msg(id: &str, content: &str, ts: u64) -> Msg {
    Msg::new(id.to_string(), "user".to_string(), content.to_string(), UtcTime { seconds: 1728305829, nanoseconds: 0 }, ts)
}

#[test]
fn message_getters() {
    let m = msg("m1", "hello", 3);
    assert_eq!(m.get_id(), "m1");
    assert_eq!(m.get_uid(), "user");
    assert_eq!(m.get_content(), "hello");
    assert_eq!(m.get_time(), UtcTime { seconds: 1728305829, nanoseconds: 0 });
    assert_eq!(m.get_time_stamp(), 3);
    let d = LogData::new("u".to_string(), "c".to_string(), UtcTime { seconds: 5, nanoseconds: 6 });
    assert_eq!((d.get_user_id(), d.get_content(), d.get_time()), ("u".to_string(), "c".to_string(), UtcTime { seconds: 5, nanoseconds: 6 }));
    let cm = ClientMsg::new(4, vec![msg("a", "x", 1)]);
    assert_eq!(cm.get_committed_index(), 4);
    assert_eq!(cm.get_messages().len(), 1);
    let sm = ServerMsg::new(2, msg("b", "y", 2));
    assert_eq!(sm.get_committed_index(), 2);
    assert_eq!(sm.get_message().get_id(), "b");
}

#[test]
fn message_log_publishes_from_client_index() {
    let mut log = MessageLog::new(vec![]);
    assert_eq!(log.latest_index(), None);
    log.apply_commit(0, msg("a", "x", 1));
    log.apply_commit(1, msg("b", "y", 2));
    log.apply_commit(2, msg("c", "z", 3));
    assert_eq!(log.len(), 3);
    assert_eq!(log.latest_index(), Some(2));
    let out = log.server_messages(1, 2);
    assert_eq!(out.len(), 2);
    assert_eq!(out[0].get_committed_index(), 1);
    assert_eq!(out[0].get_message().get_id(), "b");
    assert_eq!(out[1].get_committed_index(), 2);
    assert_eq!(out[1].get_message().get_content(), "z");
    assert!(log.server_messages(3, 2).is_empty());
    // a client past the committed index gets nothing, however far it is
    assert!(log.server_messages(10, 7).is_empty());
    assert_eq!(log.server_messages(0, 0).len(), 1);
}

#[test]
fn commit_counter_numbers_commands_only() {
    let mut counter = CommitCounter::new();
    let cmd = |d: u8| Entry { term: 1, command: Some(Command { client_id: "c".to_string(), message_id: 1, data: vec![d] }) };
    let first = counter.on_entry(cmd(5)).unwrap();
    assert_eq!((first.get_index(), first.get_data()), (0, vec![5]));
    assert!(counter.on_entry(Entry { term: 1, command: None }).is_none());
    let second = counter.on_entry(cmd(6)).unwrap();
    assert_eq!((second.get_index(), second.get_data()), (1, vec![6]));
    assert_eq!(counter.next, 2);
}

#[test]
fn database_records() {
    let c = Commit::new(7, vec![1, 2, 3]);
    assert_eq!(c.get_index(), 7);
    assert_eq!(c.get_data(), vec![1, 2, 3]);
    let r = RequestLog::new("client".to_string(), 9, vec![4]);
    assert_eq!(r.get_id(), "client");
    assert_eq!(r.get_data(), vec![4]);
}
