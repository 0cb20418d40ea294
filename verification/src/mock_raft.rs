//! A stand-in for the replicated log used to exercise the chat server: it
//! echoes requests back as committed entries, in order per client, with a
//! no-op entry once and a deliberately dropped request now and then.

use vstd::prelude::*;
use crate::client_table::ClientTable;
use crate::entry::{Command, Entry, EntryView, CommandView};
use crate::rpc::UserRequestArgs;

verus! {

/// The mock log's state: how many entries it has published, when it next
/// drops a request on purpose, and for each client the message id it
/// expects next.
pub struct RaftNode {
    pub idx: i32,
    pub drop: i32,
    pub test_flag: bool,
    pub client_timestamp_map: ClientTable,
}

/// What the mock log publishes for one request: possibly a no-op entry
/// first, then (after a pause) possibly the request's entry.
pub struct MockStep {
    pub noop: Option<Entry>,
    pub committed: Option<Entry>,
}

impl RaftNode {
    pub fn new() -> (m: Self)
        ensures
            m.idx == 0,
            m.drop == 3,
            m.test_flag,
            m.client_timestamp_map.inv(),
            m.client_timestamp_map@ == Map::<Seq<char>, u64>::empty(),
    {
        RaftNode { idx: 0, drop: 3, test_flag: true, client_timestamp_map: ClientTable::new() }
    }

    /// The message id expected next from `client`: the stored one, or 1.
    pub open spec fn expected_id(&self, client: Seq<char>) -> u64 {
        if self.client_timestamp_map@.contains_key(client) { self.client_timestamp_map@[client] } else { 1 }
    }

    /// Whether the request is published: it is not the one dropped on
    /// purpose and carries the expected message id.
    pub open spec fn publishes(&self, client: Seq<char>, message_id: u64) -> bool {
        let idx = if self.idx == 5 { 6int } else { self.idx as int };
        &&& !(self.test_flag && idx == self.drop)
        &&& self.expected_id(client) == message_id
    }

    /// Handles one request. When 5 entries have been published, a no-op
    /// entry (term 0, no command) comes first. The request at position
    /// `drop` is dropped once (and `drop` moves 100 further); a request whose
    /// message id is not the one expected from its client is dropped too.
    /// Otherwise the request is published as an entry of term 0 and the
    /// client's next expected id goes up by one.
    pub fn on_request(&mut self, data: UserRequestArgs) -> (step: MockStep)
        requires
            old(self).client_timestamp_map.inv(),
            old(self).idx < i32::MAX - 1,
            old(self).drop <= i32::MAX - 100,
            old(self).publishes(data.client_id@, data.message_id) ==> data.message_id < u64::MAX,
        ensures
            final(self).client_timestamp_map.inv(),
            final(self).test_flag == old(self).test_flag,
            mock_step(old(self).client_timestamp_map@, old(self).idx as int, final(self).client_timestamp_map@, final(self).idx as int, data, step),
            ({
                let idx1 = if old(self).idx == 5 { 6int } else { old(self).idx as int };
                let dropped_on_purpose = old(self).test_flag && idx1 == old(self).drop;
                &&& (old(self).idx == 5) == step.noop is Some
                &&& step.noop matches Some(e) ==> e@ == (EntryView { term: 0, command: None })
                &&& final(self).drop == if dropped_on_purpose { old(self).drop + 100 } else { old(self).drop as int }
                &&& if old(self).publishes(data.client_id@, data.message_id) {
                    &&& step.committed matches Some(e) && e@ == (EntryView {
                        term: 0,
                        command: Some(CommandView { client_id: data.client_id@, message_id: data.message_id, data: data.data@ }),
                    })
                    &&& final(self).idx == idx1 + 1
                    &&& final(self).client_timestamp_map@ == old(self).client_timestamp_map@.insert(data.client_id@, (data.message_id + 1) as u64)
                } else {
                    &&& step.committed is None
                    &&& final(self).idx == idx1
                    &&& final(self).client_timestamp_map@ == old(self).client_timestamp_map@
                }
            }),
    {
        let mut noop: Option<Entry> = None;
        if self.idx == 5 {
            noop = Some(Entry { term: 0, command: None });
            self.idx = self.idx + 1;
        }
        let time = match self.client_timestamp_map.get(&data.client_id) {
            Some(t) => t,
            None => 1,
        };
        if self.test_flag && self.idx == self.drop {
            self.drop = self.drop + 100;
            return MockStep { noop, committed: None };
        }
        if time != data.message_id {
            return MockStep { noop, committed: None };
        }
        self.client_timestamp_map.insert(&data.client_id, time + 1);
        let value = Entry {
            term: 0,
            command: Some(Command { client_id: data.client_id, message_id: data.message_id, data: data.data }),
        };
        self.idx = self.idx + 1;
        MockStep { noop, committed: Some(value) }
    }
}

/// The message ids of the commands of `client` in `log`, in log order.
pub open spec fn client_ids(log: Seq<EntryView>, client: Seq<char>) -> Seq<u64>
    decreases log.len(),
{
    if log.len() == 0 {
        Seq::empty()
    } else {
        let before = client_ids(log.drop_last(), client);
        match log.last().command {
            Some(c) => if c.client_id == client { before.push(c.message_id) } else { before },
            None => before,
        }
    }
}

/// The message id expected next from `client`, given the stored ids.
pub open spec fn next_id(expected: Map<Seq<char>, u64>, client: Seq<char>) -> u64 {
    if expected.contains_key(client) { expected[client] } else { 1 }
}

/// Every client's messages in `log` are numbered 1, 2, 3, ... in log order,
/// with no gap, repetition or reordering, up to just before the id expected
/// next from it.
pub open spec fn ids_consecutive(expected: Map<Seq<char>, u64>, log: Seq<EntryView>) -> bool {
    forall|c: Seq<char>| {
        &&& #[trigger] client_ids(log, c).len() + 1 == next_id(expected, c)
        &&& forall|j: int| 0 <= j < client_ids(log, c).len() ==> #[trigger] client_ids(log, c)[j] == j + 1
    }
}

/// What the mock log has published after `published` once `step` is out:
/// the no-op entry, if any, then the request's entry, if any.
pub open spec fn after_step(published: Seq<EntryView>, step: MockStep) -> Seq<EntryView> {
    let with_noop = match step.noop {
        Some(e) => published.push(e@),
        None => published,
    };
    match step.committed {
        Some(e) => with_noop.push(e@),
        None => with_noop,
    }
}

/// Before any request, no client has a published message and each is
/// expected to start at 1.
pub proof fn lemma_mock_starts_in_order()
    ensures
        ids_consecutive(Map::empty(), Seq::<EntryView>::empty()),
{
    assert forall|c: Seq<char>| client_ids(Seq::<EntryView>::empty(), c).len() == 0 by {}
}

/// One handled request as `RaftNode::on_request` states it, over the
/// client table and the number of published entries (`idx`) before and
/// after: a no-op entry comes exactly when 5 entries were published and
/// carries no command; the count never goes back; a published request
/// carries the id expected from its client, which then goes up by one; an
/// unpublished one leaves the table as it was.
pub open spec fn mock_step(
    before: Map<Seq<char>, u64>,
    idx_before: int,
    after: Map<Seq<char>, u64>,
    idx_after: int,
    data: UserRequestArgs,
    step: MockStep,
) -> bool {
    let idx1 = if idx_before == 5 { 6int } else { idx_before };
    &&& (step.noop is Some <==> idx_before == 5)
    &&& (step.noop matches Some(e) ==> e@.command is None)
    &&& idx_after >= idx1
    &&& match step.committed {
        Some(e) => {
            &&& next_id(before, data.client_id@) == data.message_id
            &&& data.message_id < u64::MAX
            &&& after == before.insert(data.client_id@, (data.message_id + 1) as u64)
            &&& e@.command == Some(CommandView { client_id: data.client_id@, message_id: data.message_id, data: data.data@ })
        },
        None => after == before,
    }
}

/// Per-client order of the mock log, one request at a time: when every
/// client's published messages so far are numbered 1, 2, ... up to the id
/// expected next, they still are after one more request is handled.
pub proof fn lemma_mock_client_order(
    before: Map<Seq<char>, u64>,
    idx_before: int,
    after: Map<Seq<char>, u64>,
    idx_after: int,
    published: Seq<EntryView>,
    data: UserRequestArgs,
    step: MockStep,
)
    requires
        ids_consecutive(before, published),
        mock_step(before, idx_before, after, idx_after, data, step),
    ensures
        ids_consecutive(after, after_step(published, step)),
{
    let with_noop = match step.noop {
        Some(e) => published.push(e@),
        None => published,
    };
    assert forall|c: Seq<char>| client_ids(with_noop, c) == client_ids(published, c) by {
        if let Some(e) = step.noop {
            assert(with_noop.drop_last() =~= published);
        }
    }
    let out = after_step(published, step);
    assert forall|c: Seq<char>| {
        &&& #[trigger] client_ids(out, c).len() + 1 == next_id(after, c)
        &&& forall|j: int| 0 <= j < client_ids(out, c).len() ==> #[trigger] client_ids(out, c)[j] == j + 1
    } by {
        assert(client_ids(with_noop, c) == client_ids(published, c));
        if let Some(e) = step.committed {
            assert(out.drop_last() =~= with_noop);
            if c == data.client_id@ {
                assert(client_ids(out, c) == client_ids(published, c).push(data.message_id));
            } else {
                assert(client_ids(out, c) == client_ids(published, c));
            }
        }
    }
}

/// Everything the mock log publishes over `steps`, in order.
pub open spec fn published_by(steps: Seq<MockStep>) -> Seq<EntryView>
    decreases steps.len(),
{
    if steps.len() == 0 {
        Seq::empty()
    } else {
        after_step(published_by(steps.drop_last()), steps.last())
    }
}

/// The number of no-op entries published over `steps`.
pub open spec fn noop_count(steps: Seq<MockStep>) -> nat
    decreases steps.len(),
{
    if steps.len() == 0 {
        0
    } else {
        noop_count(steps.drop_last()) + if steps.last().noop is Some { 1nat } else { 0nat }
    }
}

/// The mock log over a whole run: starting from an empty client table and
/// nothing published, and handling `requests` in turn as `mock_step` states
/// (`tables[i]` and `idx[i]` being the table and the count before the
/// request `i`), every client's published messages are numbered 1, 2, ...,
/// k in publication order, with no gap, repetition or reordering, and at
/// most one no-op entry is published.
pub proof fn lemma_mock_run_in_order(
    tables: Seq<Map<Seq<char>, u64>>,
    idx: Seq<int>,
    requests: Seq<UserRequestArgs>,
    steps: Seq<MockStep>,
)
    requires
        tables.len() == steps.len() + 1,
        idx.len() == steps.len() + 1,
        requests.len() == steps.len(),
        tables[0] == Map::<Seq<char>, u64>::empty(),
        idx[0] == 0,
        forall|i: int| 0 <= i < steps.len() ==> #[trigger] mock_step(tables[i], idx[i], tables[i + 1], idx[i + 1], requests[i], steps[i]),
    ensures
        ids_consecutive(tables.last(), published_by(steps)),
        noop_count(steps) <= 1,
        noop_count(steps) == 1 ==> idx.last() >= 6,
    decreases steps.len(),
{
    let n = steps.len() as int;
    if n == 0 {
        lemma_mock_starts_in_order();
    } else {
        let (t0, i0, r0, s0) = (tables.drop_last(), idx.drop_last(), requests.drop_last(), steps.drop_last());
        assert forall|i: int| 0 <= i < s0.len() implies #[trigger] mock_step(t0[i], i0[i], t0[i + 1], i0[i + 1], r0[i], s0[i]) by {
            assert(mock_step(tables[i], idx[i], tables[i + 1], idx[i + 1], requests[i], steps[i]));
        }
        lemma_mock_run_in_order(t0, i0, r0, s0);
        assert(mock_step(tables[n - 1], idx[n - 1], tables[n], idx[n], requests[n - 1], steps[n - 1]));
        lemma_mock_client_order(tables[n - 1], idx[n - 1], tables[n], idx[n], published_by(s0), requests[n - 1], steps[n - 1]);
    }
}

} // verus!
