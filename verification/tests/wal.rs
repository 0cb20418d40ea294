use raftchat::entry::{Command, Entry};
use raftchat::wal::{Action, WAL};

fn mk_entry(term: u64) -> Entry {
    Entry {
        term: term,
        command: Some(Command {
            client_id: "client1".to_string(),
            message_id: 0,
            data: vec![],
        }),
    }
}

#[test]
fn case_append() {
    let mut state = WAL {
        cache: vec![
            mk_entry(1),
            mk_entry(2),
            mk_entry(3),
        ],
    };

    assert_eq!(
        state.append_entries(
            2,
            2,
            &[
                mk_entry(3),
                mk_entry(4),
                mk_entry(5),
            ]
        ),
        Some(Action::Update(3, &[mk_entry(4), mk_entry(5)]))
    );
    assert_eq!(
        state.cache,
        vec![
            mk_entry(1),
            mk_entry(2),
            mk_entry(3),
            mk_entry(4),
            mk_entry(5),
        ]
    );
}

#[test]
fn case_rewrite() {
    let mut state = WAL {
        cache: vec![
            mk_entry(1),
            mk_entry(2),
            mk_entry(3),
        ],
    };

    assert_eq!(
        state.append_entries(
            2,
            2,
            &[
                mk_entry(4),
                mk_entry(5),
            ]
        ),
        Some(Action::Update(2, &[mk_entry(4), mk_entry(5)]))
    );
    assert_eq!(
        state.cache,
        vec![
            mk_entry(1),
            mk_entry(2),
            mk_entry(4),
            mk_entry(5),
        ]
    );
}

#[test]
fn case_subsumed() {
    let mut state = WAL {
        cache: vec![
            mk_entry(1),
            mk_entry(2),
            mk_entry(3),
        ],
    };

    assert_eq!(
        state.append_entries(
            1,
            1,
            &[
                mk_entry(2),
            ]
        ),
        Some(Action::Id)
    );
    assert_eq!(
        state.cache,
        vec![
            mk_entry(1),
            mk_entry(2),
            mk_entry(3),
        ]
    );
}

#[test]
fn append_refused_when_log_too_short() {
    let mut state = WAL { cache: vec![mk_entry(1)] };
    assert_eq!(state.append_entries(2, 1, &[mk_entry(2)]), None);
    assert_eq!(state.cache, vec![mk_entry(1)]);
}

#[test]
fn append_refused_on_term_mismatch() {
    let mut state = WAL { cache: vec![mk_entry(1), mk_entry(2)] };
    assert_eq!(state.append_entries(2, 1, &[mk_entry(3)]), None);
    assert_eq!(state.cache, vec![mk_entry(1), mk_entry(2)]);
}

#[test]
fn append_at_start_of_empty_log() {
    let mut state = WAL::new("wal");
    assert_eq!(
        state.append_entries(0, 7, &[mk_entry(1), mk_entry(1)]),
        Some(Action::Update(0, &[mk_entry(1), mk_entry(1)]))
    );
    assert_eq!(state.len(), 2);
}

#[test]
fn append_twice_is_id_the_second_time() {
    let mut state = WAL { cache: vec![mk_entry(1), mk_entry(2)] };
    let entries = [mk_entry(2), mk_entry(3), mk_entry(3)];
    assert_eq!(state.append_entries(1, 1, &entries), Some(Action::Update(2, &entries[1..])));
    let after_first = state.cache.clone();
    assert_eq!(state.append_entries(1, 1, &entries), Some(Action::Id));
    assert_eq!(state.cache, after_first);
}

#[test]
fn heartbeat_is_id() {
    let mut state = WAL { cache: vec![mk_entry(1), mk_entry(2)] };
    assert_eq!(state.append_entries(2, 2, &[]), Some(Action::Id));
}

#[test]
fn terms_and_lengths() {
    let mut state = WAL::new("wal");
    assert_eq!(state.len(), 0);
    assert_eq!(state.last_term(), 0);
    assert_eq!(state.propose_entry(mk_entry(4)), 0);
    assert_eq!(state.propose_entry(mk_entry(6)), 1);
    assert_eq!(state.len(), 2);
    assert_eq!(state.last_term(), 6);
    assert_eq!(state.last_term_for(0), 0);
    assert_eq!(state.last_term_for(1), 4);
    assert_eq!(state.last_term_for(2), 6);
    assert_eq!(state.as_slice(), &[mk_entry(4), mk_entry(6)][..]);
    assert!(state.matches_prev(1, 4));
    assert!(!state.matches_prev(1, 6));
    assert!(!state.matches_prev(3, 6));
    assert_eq!(state.agreeing_prefix(1, &[mk_entry(6), mk_entry(7)]), 1);
}
