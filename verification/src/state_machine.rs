//! The state machine replayed from the log, and the wrapper that keeps it
//! in step with the write-ahead log and a snapshot.

use vstd::prelude::*;
use crate::client_table::ClientTable;
use crate::entry::{Command, CommandView, Entry, EntryView, entries_view};
use crate::wal::{WAL, Action, matching_prefix, prev_matches, log_after_append};

verus! {

/// A deterministic state machine driven by the commands of the log.
pub trait StateMachine: Sized + View {
    /// The state of a fresh machine.
    spec fn initial() -> Self::V;

    /// The state after one command.
    spec fn step(state: Self::V, cmd: CommandView) -> Self::V;

    /// Well-formedness of the concrete representation.
    spec fn inv(&self) -> bool;

    fn new() -> (s: Self)
        ensures
            s.inv(),
            s@ == Self::initial();

    fn apply(&mut self, cmd: &Command)
        requires
            old(self).inv(),
        ensures
            final(self).inv(),
            final(self)@ == Self::step(old(self)@, cmd@);

    /// A copy of the machine in the same state.
    fn duplicate(&self) -> (r: Self)
        requires
            self.inv(),
        ensures
            r.inv(),
            r@ == self@;
}

/// Applies the command of every entry that carries one, in order.
pub fn apply_entries<S: StateMachine>(machine: &mut S, entries: &[Entry])
    requires
        old(machine).inv(),
    ensures
        final(machine).inv(),
        final(machine)@ == replay::<S>(old(machine)@, entries_view(entries@)),
{
    let ghost start = machine@;
    let ghost ev = entries_view(entries@);
    let mut i: usize = 0;
    while i < entries.len()
        invariant
            machine.inv(),
            i <= entries@.len(),
            ev == entries_view(entries@),
            machine@ == replay::<S>(start, ev.take(i as int)),
        decreases entries@.len() - i,
    {
        proof {
            assert(ev.take(i as int + 1).drop_last() =~= ev.take(i as int));
        }
        if let Some(cmd) = &entries[i].command {
            machine.apply(cmd);
        }
        i = i + 1;
    }
    proof {
        assert(ev.take(i as int) =~= ev);
    }
}

/// The state reached from `state` by applying, in order, the commands of `entries`.
pub open spec fn replay<S: StateMachine>(state: S::V, entries: Seq<EntryView>) -> S::V
    decreases entries.len(),
{
    if entries.len() == 0 {
        state
    } else {
        let before = replay::<S>(state, entries.drop_last());
        match entries.last().command {
            Some(c) => S::step(before, c),
            None => before,
        }
    }
}

/// Replaying a concatenation replays its parts one after the other.
pub proof fn lemma_replay_concat<S: StateMachine>(state: S::V, a: Seq<EntryView>, b: Seq<EntryView>)
    ensures
        replay::<S>(state, a + b) == replay::<S>(replay::<S>(state, a), b),
    decreases b.len(),
{
    if b.len() == 0 {
        assert(a + b =~= a);
    } else {
        assert((a + b).drop_last() =~= a + b.drop_last());
        lemma_replay_concat::<S>(state, a, b.drop_last());
    }
}

/// For each client, the message id of the client's last command.
pub struct UserMessageIdMap {
    table: ClientTable,
}

impl View for UserMessageIdMap {
    type V = Map<Seq<char>, u64>;

    closed spec fn view(&self) -> Map<Seq<char>, u64> {
        self.table@
    }
}

impl UserMessageIdMap {
    /// The last message id of `client_id`, if the client has sent one.
    pub fn get(&self, client_id: &String) -> (r: Option<u64>)
        requires
            self.inv(),
        ensures
            r == (if self@.contains_key(client_id@) { Some(self@[client_id@]) } else { None }),
    {
        self.table.get(client_id)
    }
}

impl StateMachine for UserMessageIdMap {
    open spec fn initial() -> Map<Seq<char>, u64> {
        Map::empty()
    }

    open spec fn step(state: Map<Seq<char>, u64>, cmd: CommandView) -> Map<Seq<char>, u64> {
        state.insert(cmd.client_id, cmd.message_id)
    }

    closed spec fn inv(&self) -> bool {
        self.table.inv()
    }

    fn new() -> (s: Self) {
        UserMessageIdMap { table: ClientTable::new() }
    }

    fn apply(&mut self, cmd: &Command) {
        self.table.insert(&cmd.client_id, cmd.message_id);
    }

    fn duplicate(&self) -> (r: Self) {
        UserMessageIdMap { table: self.table.duplicate() }
    }
}

/// The state machine `S` kept in step with a write-ahead log, together with
/// a snapshot: a length of the log and a machine state.
pub struct SMWrapper<S> {
    wal: WAL,
    state: S,
    snapshot: (u64, S),
}

impl<S: StateMachine> SMWrapper<S> {
    /// The entries of the log.
    pub closed spec fn log(&self) -> Seq<EntryView> {
        self.wal@
    }

    /// The state of the running machine.
    pub closed spec fn state_model(&self) -> S::V {
        self.state@
    }

    /// The log length that the snapshot was taken at.
    pub closed spec fn snapshot_length(&self) -> u64 {
        self.snapshot.0
    }

    /// The machine state kept in the snapshot.
    pub closed spec fn snapshot_model(&self) -> S::V {
        self.snapshot.1@
    }

    /// Both machines are well formed and the snapshot lies inside the log.
    pub closed spec fn wf(&self) -> bool {
        &&& self.state.inv()
        &&& self.snapshot.1.inv()
        &&& self.snapshot.0 <= self.wal@.len()
    }

    /// A well-formed wrapper keeps its snapshot inside the log.
    pub proof fn lemma_wf_bounds(&self)
        requires
            self.wf(),
        ensures
            self.snapshot_length() <= self.log().len(),
    {
    }

    /// Whether appending `entries` after `prev_length` would cut the log
    /// below the snapshot.
    pub open spec fn append_cuts_snapshot(&self, prev_length: u64, prev_term: u64, entries: Seq<EntryView>) -> bool {
        let k = matching_prefix(self.log(), prev_length as int, entries);
        &&& prev_matches(self.log(), prev_length as int, prev_term)
        &&& k < entries.len()
        &&& self.snapshot_length() > prev_length + k
    }

    /// An append cuts the snapshot exactly when the leader's claim holds and
    /// the append changes the log somewhere below the snapshot length; one
    /// that keeps the first `snapshot_length` entries (appending at the end
    /// of a fully snapshotted log, for instance) never cuts it.
    pub proof fn lemma_cuts_only_below_snapshot(&self, prev_length: u64, prev_term: u64, entries: Seq<EntryView>)
        requires
            self.wf(),
        ensures
            self.append_cuts_snapshot(prev_length, prev_term, entries) <==> (
                prev_matches(self.log(), prev_length as int, prev_term)
                && exists|i: int| 0 <= i < self.snapshot_length() && (
                    i >= log_after_append(self.log(), prev_length as int, entries).len()
                    || #[trigger] log_after_append(self.log(), prev_length as int, entries)[i] != self.log()[i])),
    {
        let log = self.log();
        let snap = self.snapshot_length() as int;
        if prev_matches(log, prev_length as int, prev_term) {
            crate::wal::lemma_matching_prefix_agrees(log, prev_length as int, entries);
            let k = matching_prefix(log, prev_length as int, entries) as int;
            let new_log = log_after_append(log, prev_length as int, entries);
            if k < entries.len() {
                if snap > prev_length + k {
                    assert(new_log[prev_length + k] == entries.skip(k)[0]);
                    assert(new_log[prev_length + k] != log[prev_length + k]);
                } else {
                    assert forall|i: int| 0 <= i < snap implies i < new_log.len() && #[trigger] new_log[i] == log[i] by {
                        assert(new_log[i] == log.take(prev_length + k)[i]);
                    }
                }
            }
        }
    }

    /// Wraps `wal`, replaying all of its commands into a fresh machine; the
    /// snapshot starts empty.
    pub fn new(wal: WAL) -> (r: Self)
        ensures
            r.wf(),
            r.log() == wal@,
            r.state_model() == replay::<S>(S::initial(), wal@),
            r.snapshot_length() == 0,
            r.snapshot_model() == S::initial(),
    {
        let mut state: S = S::new();
        apply_entries(&mut state, wal.as_slice());
        let snapshot_state: S = S::new();
        SMWrapper { wal, state, snapshot: (0, snapshot_state) }
    }

    /// The write-ahead log.
    pub fn wal(&self) -> (w: &WAL)
        ensures
            w@ == self.log(),
    {
        &self.wal
    }

    /// The running machine.
    pub fn state(&self) -> (s: &S)
        requires
            self.wf(),
        ensures
            s.inv(),
            s@ == self.state_model(),
    {
        &self.state
    }

    /// Moves the snapshot to log length `len`, applying to the snapshot's
    /// machine the commands of the log from position `len` to its end.
    ///
    /// These are not the commands between the old snapshot length and
    /// `len`: the snapshot's machine is therefore in general not the replay
    /// of the log up to `len`, and a running machine that `append_entries`
    /// later rebuilds from it lacks the commands before `len` and counts
    /// those after it twice.
    pub fn take_snapshot(&mut self, len: u64)
        requires
            old(self).wf(),
            old(self).snapshot_length() <= len <= old(self).log().len(),
        ensures
            final(self).wf(),
            final(self).log() == old(self).log(),
            final(self).state_model() == old(self).state_model(),
            final(self).snapshot_length() == len,
            final(self).snapshot_model() == replay::<S>(old(self).snapshot_model(), old(self).log().skip(len as int)),
    {
        let n = self.wal.cache.len();
        let mut taken: (u64, S) = (0, S::new());
        std::mem::swap(&mut self.snapshot, &mut taken);
        let (_, mut snapshot_state) = taken;
        let tail = vstd::slice::slice_subrange(self.wal.as_slice(), len as usize, n);
        proof {
            assert(entries_view(tail@) =~= self.wal@.skip(len as int));
        }
        apply_entries(&mut snapshot_state, tail);
        self.snapshot = (len, snapshot_state);
    }

    /// Accepts entries from a leader (see `WAL::append_entries`). When the
    /// leader's claim about the log holds, returns the length of the prefix
    /// that this log now shares with the leader's (`prev_length` plus the
    /// number of entries), and, when the log changed, rebuilds the running
    /// machine from the snapshot's machine and the log from the snapshot's
    /// length on; otherwise `None`.
    pub fn append_entries(&mut self, prev_length: u64, prev_term: u64, entries: &[Entry]) -> (r: Option<u64>)
        requires
            old(self).wf(),
            !old(self).append_cuts_snapshot(prev_length, prev_term, entries_view(entries@)),
        ensures
            final(self).wf(),
            final(self).snapshot_length() == old(self).snapshot_length(),
            final(self).snapshot_model() == old(self).snapshot_model(),
            r matches Some(n) ==> n == prev_length + entries@.len() && n <= final(self).log().len(),
            ({
                let ev = entries_view(entries@);
                let k = matching_prefix(old(self).log(), prev_length as int, ev);
                let changed = prev_matches(old(self).log(), prev_length as int, prev_term) && k < ev.len();
                &&& final(self).log() == (if prev_matches(old(self).log(), prev_length as int, prev_term) {
                        log_after_append(old(self).log(), prev_length as int, ev)
                    } else {
                        old(self).log()
                    })
                &&& r == (if prev_matches(old(self).log(), prev_length as int, prev_term) {
                        Some((prev_length + ev.len()) as u64)
                    } else {
                        None
                    })
                &&& final(self).state_model() == (if changed {
                        replay::<S>(old(self).snapshot_model(), final(self).log().skip(old(self).snapshot_length() as int))
                    } else {
                        old(self).state_model()
                    })
            }),
    {
        let ghost ev = entries_view(entries@);
        let ghost old_log = self.wal@;
        if self.wal.matches_prev(prev_length, prev_term) {
            proof {
                crate::wal::lemma_matching_prefix_agrees(old_log, prev_length as int, ev);
            }
        }
        let action = self.wal.append_entries(prev_length, prev_term, entries);
        match action {
            Some(Action::Update(l, rest)) => {
                let snapshot_length = self.snapshot.0;
                let mut state = self.snapshot.1.duplicate();
                let n = self.wal.cache.len();
                proof {
                    let k = matching_prefix(old_log, prev_length as int, ev);
                    assert(l == prev_length + k);
                    assert(self.wal@ == old_log.take(l as int) + ev.skip(k as int));
                    assert(self.wal@.len() == n);
                    assert(snapshot_length <= n);
                }
                let tail = vstd::slice::slice_subrange(self.wal.as_slice(), snapshot_length as usize, n);
                proof {
                    assert(entries_view(tail@) =~= self.wal@.skip(snapshot_length as int));
                }
                apply_entries(&mut state, tail);
                self.state = state;
                Some(l + rest.len() as u64)
            },
            Some(Action::Id) => {
                proof {
                    crate::wal::lemma_accepted_entries_are_held(old_log, prev_length as int, ev);
                }
                let n = self.wal.cache.len();
                assert(prev_length + entries@.len() <= n);
                Some(prev_length + entries.len() as u64)
            },
            None => None,
        }
    }

    /// Appends an entry proposed by this node as leader, applies its
    /// command to the running machine, and returns the entry's position.
    pub fn propose_entry(&mut self, entry: Entry) -> (idx: u64)
        requires
            old(self).wf(),
        ensures
            final(self).wf(),
            final(self).log() == old(self).log().push(entry@),
            final(self).state_model() == replay::<S>(old(self).state_model(), seq![entry@]),
            final(self).snapshot_length() == old(self).snapshot_length(),
            final(self).snapshot_model() == old(self).snapshot_model(),
            idx == old(self).log().len(),
    {
        proof {
            assert(seq![entry@].drop_last() =~= Seq::<EntryView>::empty());
            assert(replay::<S>(self.state@, Seq::<EntryView>::empty()) == self.state@);
        }
        if let Some(cmd) = &entry.command {
            self.state.apply(cmd);
        }
        self.wal.propose_entry(entry)
    }

    /// Whether `append_entries` with these arguments would cut the log below
    /// the snapshot (the case it does not handle).
    pub fn cuts_snapshot(&self, prev_length: u64, prev_term: u64, entries: &[Entry]) -> (b: bool)
        ensures
            b == self.append_cuts_snapshot(prev_length, prev_term, entries_view(entries@)),
    {
        if !self.wal.matches_prev(prev_length, prev_term) {
            return false;
        }
        let k = self.wal.agreeing_prefix(prev_length, entries);
        proof {
            crate::wal::lemma_matching_prefix_agrees(self.wal@, prev_length as int, entries_view(entries@));
        }
        let total = self.wal.len();
        assert(prev_length + k <= total);
        k < entries.len() as u64 && self.snapshot.0 > prev_length + k
    }
}

/// Replaying from a snapshot gives the replay of the whole log: when the
/// snapshot's state is the replay of the log up to the snapshot length, and
/// accepted entries leave that part of the log in place, the machine rebuilt
/// by `append_entries` is the replay of the whole new log.
pub proof fn lemma_rebuilt_state_replays_log<S: StateMachine>(
    log: Seq<EntryView>,
    snapshot_length: int,
    prev_length: int,
    entries: Seq<EntryView>,
)
    requires
        0 <= snapshot_length <= prev_length + matching_prefix(log, prev_length, entries),
        0 <= prev_length <= log.len(),
    ensures
        ({
            let new_log = log_after_append(log, prev_length, entries);
            replay::<S>(replay::<S>(S::initial(), log.take(snapshot_length)), new_log.skip(snapshot_length))
                == replay::<S>(S::initial(), new_log)
        }),
{
    crate::wal::lemma_matching_prefix_agrees(log, prev_length, entries);
    let new_log = log_after_append(log, prev_length, entries);
    crate::wal::lemma_accepted_entries_are_held(log, prev_length, entries);
    assert(new_log.take(snapshot_length) =~= log.take(snapshot_length));
    assert(new_log =~= new_log.take(snapshot_length) + new_log.skip(snapshot_length));
    lemma_replay_concat::<S>(S::initial(), new_log.take(snapshot_length), new_log.skip(snapshot_length));
}

} // verus!
