//! The write-ahead log of a Raft node.

use vstd::prelude::*;
use vstd::slice::slice_subrange;
use crate::entry::{Entry, EntryView, entries_view};

verus! {

/// Number of leading entries of `entries` whose terms agree with the terms
/// of `log` from position `start` on.
pub open spec fn matching_prefix(log: Seq<EntryView>, start: int, entries: Seq<EntryView>) -> nat
    decreases entries.len(),
{
    if entries.len() == 0 || start < 0 || start >= log.len() || log[start].term != entries[0].term {
        0
    } else {
        1 + matching_prefix(log, start + 1, entries.drop_first())
    }
}

/// The leader's claim about the log before its new entries holds: the log
/// has at least `prev_length` entries and the last of them has `prev_term`.
pub open spec fn prev_matches(log: Seq<EntryView>, prev_length: int, prev_term: u64) -> bool {
    &&& 0 <= prev_length <= log.len()
    &&& (prev_length == 0 || log[prev_length - 1].term == prev_term)
}

/// The log after entries sent by the leader are accepted at `prev_length`:
/// entries whose terms already agree are kept, the rest of the log from the
/// first disagreement is replaced by the remaining entries.
pub open spec fn log_after_append(log: Seq<EntryView>, prev_length: int, entries: Seq<EntryView>) -> Seq<EntryView> {
    let k = matching_prefix(log, prev_length, entries);
    if k == entries.len() {
        log
    } else {
        log.take(prev_length + k) + entries.skip(k as int)
    }
}

/// The term of the last of the first `len` entries of `log`, 0 when `len` is 0.
pub open spec fn term_at_length(log: Seq<EntryView>, len: int) -> u64 {
    if len <= 0 { 0 } else { log[len - 1].term }
}

/// The agreeing prefix counted by `matching_prefix` lies inside both
/// sequences and agrees term by term.
pub proof fn lemma_matching_prefix_agrees(log: Seq<EntryView>, start: int, entries: Seq<EntryView>)
    requires
        0 <= start <= log.len(),
    ensures
        matching_prefix(log, start, entries) <= entries.len(),
        start + matching_prefix(log, start, entries) <= log.len(),
        forall|j: int| 0 <= j < matching_prefix(log, start, entries) ==> #[trigger] log[start + j].term == entries[j].term,
        matching_prefix(log, start, entries) < entries.len() ==> (start + matching_prefix(log, start, entries) == log.len()
            || log[start + matching_prefix(log, start, entries)].term != entries[matching_prefix(log, start, entries) as int].term),
    decreases entries.len(),
{
    if !(entries.len() == 0 || start >= log.len() || log[start].term != entries[0].term) {
        lemma_matching_prefix_agrees(log, start + 1, entries.drop_first());
        let k = matching_prefix(log, start, entries);
        assert forall|j: int| 0 <= j < k implies #[trigger] log[start + j].term == entries[j].term by {
            if j > 0 {
                assert(log[(start + 1) + (j - 1)].term == entries.drop_first()[j - 1].term);
            }
        }
    }
}

/// When the log agrees term by term with all of `entries` from `start` on,
/// the whole of `entries` is counted as agreeing.
pub proof fn lemma_matching_prefix_full(log: Seq<EntryView>, start: int, entries: Seq<EntryView>)
    requires
        0 <= start,
        start + entries.len() <= log.len(),
        forall|j: int| 0 <= j < entries.len() ==> #[trigger] log[start + j].term == entries[j].term,
    ensures
        matching_prefix(log, start, entries) == entries.len(),
    decreases entries.len(),
{
    if entries.len() > 0 {
        assert(log[start + 0].term == entries[0].term);
        assert forall|j: int| 0 <= j < entries.drop_first().len() implies #[trigger] log[(start + 1) + j].term == entries.drop_first()[j].term by {
            assert(log[start + (j + 1)].term == entries[j + 1].term);
        }
        lemma_matching_prefix_full(log, start + 1, entries.drop_first());
    }
}

/// Accepted entries are held: after the log accepts `entries` at
/// `prev_length`, the entries before `prev_length` are unchanged, each
/// accepted entry's term sits at its position, and a leader that goes on
/// after the last accepted entry finds its claim about the log true.
pub proof fn lemma_accepted_entries_are_held(log: Seq<EntryView>, prev_length: int, entries: Seq<EntryView>)
    requires
        0 <= prev_length <= log.len(),
    ensures
        ({
            let new_log = log_after_append(log, prev_length, entries);
            &&& new_log.len() >= prev_length + entries.len()
            &&& new_log.take(prev_length) == log.take(prev_length)
            &&& forall|j: int| 0 <= j < entries.len() ==> #[trigger] new_log[prev_length + j].term == entries[j].term
            &&& entries.len() > 0 ==> prev_matches(new_log, prev_length + entries.len(), entries.last().term)
        }),
{
    lemma_matching_prefix_agrees(log, prev_length, entries);
    let k = matching_prefix(log, prev_length, entries) as int;
    let new_log = log_after_append(log, prev_length, entries);
    assert(new_log.take(prev_length) =~= log.take(prev_length));
    assert forall|j: int| 0 <= j < entries.len() implies #[trigger] new_log[prev_length + j].term == entries[j].term by {
        if j < k {
            assert(log[prev_length + j].term == entries[j].term);
        } else {
            assert(new_log[prev_length + j] == entries.skip(k)[j - k]);
        }
    }
    if entries.len() > 0 {
        assert(new_log[prev_length + (entries.len() - 1)].term == entries[entries.len() - 1].term);
    }
}

/// Accepting is idempotent: when the same entries arrive again at the same
/// position, all of them already agree, so the log is left as it is.
pub proof fn lemma_append_entries_idempotent(log: Seq<EntryView>, prev_length: int, entries: Seq<EntryView>)
    requires
        0 <= prev_length <= log.len(),
    ensures
        matching_prefix(log_after_append(log, prev_length, entries), prev_length, entries) == entries.len(),
        log_after_append(log_after_append(log, prev_length, entries), prev_length, entries)
            == log_after_append(log, prev_length, entries),
{
    let new_log = log_after_append(log, prev_length, entries);
    lemma_accepted_entries_are_held(log, prev_length, entries);
    lemma_matching_prefix_full(new_log, prev_length, entries);
}

/// What accepting entries does to the rest of the log: when some entry
/// disagrees with the log (its position lies past the log's end, or holds an
/// entry of another term), the log afterwards ends exactly after the leader's
/// entries, so nothing of the old log after the first conflict survives;
/// when every entry agrees, the log is left as it was.
pub proof fn lemma_conflict_cuts_the_rest(log: Seq<EntryView>, prev_length: int, entries: Seq<EntryView>)
    requires
        0 <= prev_length <= log.len(),
    ensures
        (exists|j: int| 0 <= j < entries.len() && (prev_length + j >= log.len() || #[trigger] log[prev_length + j].term != entries[j].term))
            ==> log_after_append(log, prev_length, entries).len() == prev_length + entries.len(),
        (forall|j: int| 0 <= j < entries.len() ==> prev_length + j < log.len() && #[trigger] log[prev_length + j].term == entries[j].term)
            ==> log_after_append(log, prev_length, entries) == log,
{
    lemma_matching_prefix_agrees(log, prev_length, entries);
    let k = matching_prefix(log, prev_length, entries) as int;
    if exists|j: int| 0 <= j < entries.len() && (prev_length + j >= log.len() || #[trigger] log[prev_length + j].term != entries[j].term) {
        let j = choose|j: int| 0 <= j < entries.len() && (prev_length + j >= log.len() || #[trigger] log[prev_length + j].term != entries[j].term);
        assert(k < entries.len()) by {
            if k == entries.len() {
                assert(log[prev_length + j].term == entries[j].term);
            }
        }
    }
    if forall|j: int| 0 <= j < entries.len() ==> prev_length + j < log.len() && #[trigger] log[prev_length + j].term == entries[j].term {
        if entries.len() > 0 {
            assert(prev_length + (entries.len() - 1) < log.len() && log[prev_length + (entries.len() - 1)].term == entries[entries.len() - 1].term);
        }
        lemma_matching_prefix_full(log, prev_length, entries);
    }
}

/// The write-ahead log: the node's copy of the replicated log.
pub struct WAL {
    pub cache: Vec<Entry>,
}

/// What accepting entries did to the log.
#[derive(Debug, PartialEq)]
pub enum Action<'a> {
    /// The log already held the entries; nothing changed.
    Id,
    /// The log was cut to the given length and the given entries appended.
    Update(u64, &'a [Entry]),
}

impl View for WAL {
    type V = Seq<EntryView>;

    open spec fn view(&self) -> Seq<EntryView> {
        entries_view(self.cache@)
    }
}

impl WAL {
    /// An empty log; the log is kept in memory, so `path` is not read.
    pub fn new(path: &str) -> (wal: WAL)
        ensures
            wal@ == Seq::<EntryView>::empty(),
    {
        let _ = path;
        let wal = WAL { cache: Vec::new() };
        assert(wal@ =~= Seq::<EntryView>::empty());
        wal
    }

    /// Number of entries in the log.
    pub fn len(&self) -> (n: u64)
        ensures
            n == self@.len(),
    {
        self.cache.len() as u64
    }

    /// Term of the last entry, or 0 for an empty log.
    pub fn last_term(&self) -> (t: u64)
        ensures
            t == term_at_length(self@, self@.len() as int),
    {
        let n = self.cache.len();
        if n == 0 {
            0
        } else {
            self.cache[n - 1].term
        }
    }

    /// Term of the entry at position `len - 1`, or 0 when `len` is 0.
    pub fn last_term_for(&self, len: u64) -> (t: u64)
        requires
            len <= self@.len(),
        ensures
            t == term_at_length(self@, len as int),
    {
        let n = self.cache.len();
        assert(len <= n);
        if len == 0 {
            0
        } else {
            self.cache[(len - 1) as usize].term
        }
    }

    /// The entries of the log.
    pub fn as_slice(&self) -> (s: &[Entry])
        ensures
            entries_view(s@) == self@,
    {
        self.cache.as_slice()
    }

    /// Whether the leader's claim about the log holds: the log has at least
    /// `prev_length` entries and the last of them has term `prev_term`.
    pub fn matches_prev(&self, prev_length: u64, prev_term: u64) -> (b: bool)
        ensures
            b == prev_matches(self@, prev_length as int, prev_term),
    {
        let n = self.cache.len();
        if (n as u64) < prev_length {
            return false;
        }
        let p = prev_length as usize;
        p == 0 || self.cache[p - 1].term == prev_term
    }

    /// Number of leading `entries` whose terms agree with the log from
    /// position `start` on.
    pub fn agreeing_prefix(&self, start: u64, entries: &[Entry]) -> (k: u64)
        requires
            start <= self@.len(),
        ensures
            k == matching_prefix(self@, start as int, entries_view(entries@)),
    {
        let ghost log = self@;
        let ghost ev = entries_view(entries@);
        let n = self.cache.len();
        assert(start <= n);
        let p = start as usize;
        let mut l: usize = p;
        let mut i: usize = 0;
        proof {
            assert(ev.skip(0) =~= ev);
        }
        while i < entries.len() && l < self.cache.len() && self.cache[l].term == entries[i].term
            invariant
                self@ == log,
                ev == entries_view(entries@),
                p == start,
                p <= log.len(),
                l == p + i,
                i <= entries@.len(),
                l <= log.len(),
                matching_prefix(log, p as int, ev) == i + matching_prefix(log, l as int, ev.skip(i as int)),
            decreases entries@.len() - i,
        {
            proof {
                assert(ev.skip(i as int).drop_first() =~= ev.skip(i as int + 1));
            }
            l = l + 1;
            i = i + 1;
        }
        proof {
            assert(ev.skip(i as int).len() == 0 || l >= log.len() || log[l as int].term != ev.skip(i as int)[0].term);
        }
        i as u64
    }

    /// Accepts entries sent by a leader after the first `prev_length`
    /// entries, which the leader claims end with an entry of `prev_term`.
    /// Returns `None` when that claim does not hold of this log; otherwise
    /// the log becomes `log_after_append` and the result says whether it
    /// changed and, if so, from which length on and with which entries.
    pub fn append_entries<'a>(&mut self, prev_length: u64, prev_term: u64, entries: &'a [Entry]) -> (result: Option<Action<'a>>)
        ensures
            result is Some <==> prev_matches(old(self)@, prev_length as int, prev_term),
            result is None ==> final(self)@ == old(self)@,
            result is Some ==> final(self)@ == log_after_append(old(self)@, prev_length as int, entries_view(entries@)),
            ({
                let k = matching_prefix(old(self)@, prev_length as int, entries_view(entries@));
                match result {
                    Some(Action::Id) => k == entries@.len(),
                    Some(Action::Update(l, rest)) => {
                        &&& k < entries@.len()
                        &&& l == prev_length + k
                        &&& rest@ == entries@.skip(k as int)
                        &&& final(self)@.len() == l + rest@.len()
                        &&& final(self)@.len() == prev_length + entries@.len()
                    },
                    None => true,
                }
            }),
    {
        let ghost log = self@;
        let ghost ev = entries_view(entries@);
        let n = self.cache.len();
        if (n as u64) < prev_length {
            return None;
        }
        let p = prev_length as usize;
        if !(p == 0 || self.cache[p - 1].term == prev_term) {
            return None;
        }
        let k = self.agreeing_prefix(prev_length, entries);
        proof {
            lemma_matching_prefix_agrees(log, p as int, ev);
        }
        let i = k as usize;
        let l = p + i;
        if i == entries.len() {
            Some(Action::Id)
        } else {
            let rest = slice_subrange(entries, i, entries.len());
            self.cache.truncate(l);
            self.cache.extend_from_slice(rest);
            proof {
                assert(rest@ =~= entries@.skip(i as int));
                assert(self@ =~= log.take(l as int) + ev.skip(i as int));
            }
            Some(Action::Update(l as u64, rest))
        }
    }

    /// Appends an entry proposed by this node as leader and returns its position.
    pub fn propose_entry(&mut self, entry: Entry) -> (idx: u64)
        ensures
            final(self)@ == old(self)@.push(entry@),
            idx == old(self)@.len(),
    {
        self.cache.push(entry);
        proof {
            assert(self@ =~= old(self)@.push(entry@));
        }
        self.cache.len() as u64 - 1
    }
}

} // verus!
