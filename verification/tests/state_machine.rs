use raftchat::entry::{Command, Entry};
use raftchat::state_machine::{SMWrapper, StateMachine, UserMessageIdMap, apply_entries};
use raftchat::wal::WAL;

fn cmd(client: &str, id: u64) -> Entry {
    Entry { term: 1, command: Some(Command { client_id: client.to_string(), message_id: id, data: vec![1] }) }
}

fn noop() -> Entry {
    Entry { term: 1, command: None }
}

#[test]
fn user_message_id_map_keeps_last_id() {
    let mut m = UserMessageIdMap::new();
    apply_entries(&mut m, &[cmd("a", 1), noop(), cmd("b", 1), cmd("a", 2)]);
    assert_eq!(m.get(&"a".to_string()), Some(2));
    assert_eq!(m.get(&"b".to_string()), Some(1));
    assert_eq!(m.get(&"c".to_string()), None);
    let copy = m.duplicate();
    assert_eq!(copy.get(&"a".to_string()), Some(2));
}

#[test]
fn wrapper_replays_wal_on_start() {
    let wal = WAL { cache: vec![cmd("a", 1), cmd("a", 2)] };
    let sm: SMWrapper<UserMessageIdMap> = SMWrapper::new(wal);
    assert_eq!(sm.state().get(&"a".to_string()), Some(2));
    assert_eq!(sm.wal().len(), 2);
}

#[test]
fn wrapper_rebuilds_state_after_rewrite() {
    let wal = WAL { cache: vec![cmd("a", 1), cmd("a", 2)] };
    let mut sm: SMWrapper<UserMessageIdMap> = SMWrapper::new(wal);
    let mut rewritten = cmd("b", 5);
    rewritten.term = 2;
    assert_eq!(sm.append_entries(1, 1, &[rewritten]), Some(2));
    assert_eq!(sm.state().get(&"a".to_string()), Some(1));
    assert_eq!(sm.state().get(&"b".to_string()), Some(5));
}

#[test]
fn wrapper_answers_shared_length_when_nothing_changes() {
    let wal = WAL { cache: vec![cmd("a", 1)] };
    let mut sm: SMWrapper<UserMessageIdMap> = SMWrapper::new(wal);
    // a matching heartbeat: the whole log is shared
    assert_eq!(sm.append_entries(1, 1, &[]), Some(1));
    // an entry the log already holds (same term at that position)
    assert_eq!(sm.append_entries(0, 0, &[cmd("z", 9)]), Some(1));
    assert_eq!(sm.wal().len(), 1);
    assert_eq!(sm.state().get(&"z".to_string()), None);
    // the leader's claim does not hold: the log is too short
    assert_eq!(sm.append_entries(2, 1, &[cmd("a", 2)]), None);
    let mut other = cmd("a", 2);
    other.term = 2;
    // the leader's claim does not hold: another term at that position
    assert_eq!(sm.append_entries(1, 2, &[other]), None);
    assert_eq!(sm.state().get(&"a".to_string()), Some(1));
}

#[test]
fn snapshot_replays_from_its_length() {
    let wal = WAL { cache: vec![cmd("a", 1), cmd("b", 1), cmd("c", 1)] };
    let mut sm: SMWrapper<UserMessageIdMap> = SMWrapper::new(wal);
    sm.take_snapshot(2);
    assert!(!sm.cuts_snapshot(2, 1, &[cmd("d", 1)]));
    let mut other = cmd("d", 1);
    other.term = 3;
    assert!(sm.cuts_snapshot(1, 1, &[other]));
    assert_eq!(sm.append_entries(3, 1, &[cmd("d", 1)]), Some(4));
    // the running machine is rebuilt from the snapshot's machine and the
    // log from the snapshot's length on
    assert_eq!(sm.state().get(&"c".to_string()), Some(1));
    assert_eq!(sm.state().get(&"d".to_string()), Some(1));
}

#[test]
fn propose_applies_command() {
    let mut sm: SMWrapper<UserMessageIdMap> = SMWrapper::new(WAL::new("wal"));
    assert_eq!(sm.propose_entry(cmd("x", 1)), 0);
    assert_eq!(sm.propose_entry(noop()), 1);
    assert_eq!(sm.state().get(&"x".to_string()), Some(1));
    assert_eq!(sm.wal().len(), 2);
}
