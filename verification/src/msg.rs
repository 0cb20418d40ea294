//! The chat server's data model: messages as clients send them and as the
//! server publishes them, and the log of committed messages.

use vstd::prelude::*;

verus! {

/// A UTC instant: seconds since the Unix epoch and the nanoseconds within
/// that second.
#[derive(Debug, Clone, Copy, PartialEq, Eq, Structural)]
pub struct UtcTime {
    pub seconds: i64,
    pub nanoseconds: u32,
}

/// One chat message.
#[derive(Debug)]
pub struct Msg {
    id: String,
    user_id: String,
    content: String,
    time: UtcTime,
    time_stamp: u64,
}

/// Mathematical value of a [`Msg`].
pub struct MsgView {
    pub id: Seq<char>,
    pub user_id: Seq<char>,
    pub content: Seq<char>,
    pub time: UtcTime,
    pub time_stamp: u64,
}

impl View for Msg {
    type V = MsgView;

    closed spec fn view(&self) -> MsgView {
        MsgView { id: self.id@, user_id: self.user_id@, content: self.content@, time: self.time, time_stamp: self.time_stamp }
    }
}

impl Clone for Msg {
    fn clone(&self) -> (r: Self)
        ensures
            r@ == self@,
    {
        Msg {
            id: self.id.clone(),
            user_id: self.user_id.clone(),
            content: self.content.clone(),
            time: self.time,
            time_stamp: self.time_stamp,
        }
    }
}

impl Msg {
    pub fn new(id: String, user_id: String, content: String, time: UtcTime, time_stamp: u64) -> (m: Self)
        ensures
            m@ == (MsgView { id: id@, user_id: user_id@, content: content@, time, time_stamp }),
    {
        Msg { id, user_id, content, time, time_stamp }
    }

    pub fn get_uid(&self) -> (s: String)
        ensures
            s@ == self@.user_id,
    {
        self.user_id.clone()
    }

    pub fn get_content(&self) -> (s: String)
        ensures
            s@ == self@.content,
    {
        self.content.clone()
    }

    pub fn get_id(&self) -> (s: String)
        ensures
            s@ == self@.id,
    {
        self.id.clone()
    }

    pub fn get_time(&self) -> (t: UtcTime)
        ensures
            t == self@.time,
    {
        self.time
    }

    pub fn get_time_stamp(&self) -> (t: u64)
        ensures
            t == self@.time_stamp,
    {
        self.time_stamp
    }
}

/// What a client sends: the index up to which it has received messages,
/// and new messages.
#[derive(Debug)]
pub struct ClientMsg {
    committed_index: u64,
    messages: Vec<Msg>,
}

impl ClientMsg {
    pub fn new(committed_index: u64, messages: Vec<Msg>) -> (c: Self)
        ensures
            c.committed_index() == committed_index,
            c.messages() == messages@,
    {
        ClientMsg { committed_index, messages }
    }

    pub closed spec fn committed_index(&self) -> u64 {
        self.committed_index
    }

    pub closed spec fn messages(&self) -> Seq<Msg> {
        self.messages@
    }

    pub fn get_messages(&self) -> (m: &Vec<Msg>)
        ensures
            m@ == self.messages(),
    {
        &self.messages
    }

    pub fn get_committed_index(&self) -> (i: u64)
        ensures
            i == self.committed_index(),
    {
        self.committed_index
    }
}

/// The content of a log entry: what a user wrote, and when.
#[derive(Debug)]
pub struct LogData {
    content: String,
    time: UtcTime,
    user_id: String,
}

impl LogData {
    pub fn new(user_id: String, content: String, time: UtcTime) -> (d: Self)
        ensures
            d.content() == content@,
            d.time() == time,
            d.user_id() == user_id@,
    {
        LogData { content, time, user_id }
    }

    pub closed spec fn content(&self) -> Seq<char> {
        self.content@
    }

    pub closed spec fn time(&self) -> UtcTime {
        self.time
    }

    pub closed spec fn user_id(&self) -> Seq<char> {
        self.user_id@
    }

    pub fn get_content(&self) -> (s: String)
        ensures
            s@ == self.content(),
    {
        self.content.clone()
    }

    pub fn get_time(&self) -> (t: UtcTime)
        ensures
            t == self.time(),
    {
        self.time
    }

    pub fn get_user_id(&self) -> (s: String)
        ensures
            s@ == self.user_id(),
    {
        self.user_id.clone()
    }
}

/// What the server publishes: a committed message and its index.
#[derive(Debug)]
pub struct ServerMsg {
    committed_index: u64,
    message: Msg,
}

impl ServerMsg {
    pub fn new(committed_index: u64, msg: Msg) -> (s: Self)
        ensures
            s.committed_index() == committed_index,
            s.message() == msg@,
    {
        ServerMsg { committed_index, message: msg }
    }

    pub closed spec fn committed_index(&self) -> u64 {
        self.committed_index
    }

    pub closed spec fn message(&self) -> MsgView {
        self.message@
    }

    pub fn get_committed_index(&self) -> (i: u64)
        ensures
            i == self.committed_index(),
    {
        self.committed_index
    }

    pub fn get_message(&self) -> (m: &Msg)
        ensures
            m@ == self.message(),
    {
        &self.message
    }
}

/// A user's position in the sequence of its messages.
#[derive(Debug)]
pub struct TimeStamp {
    pub uid: String,
    pub seq: u64,
}

impl Clone for TimeStamp {
    fn clone(&self) -> (r: Self)
        ensures
            r.uid@ == self.uid@,
            r.seq == self.seq,
    {
        TimeStamp { uid: self.uid.clone(), seq: self.seq }
    }
}

/// The committed messages, in log order; a message's index is its position.
pub struct MessageLog {
    messages: Vec<Msg>,
}

impl View for MessageLog {
    type V = Seq<MsgView>;

    closed spec fn view(&self) -> Seq<MsgView> {
        self.messages@.map_values(|m: Msg| m@)
    }
}

impl MessageLog {
    /// A log holding `messages` (as recovered from the replicated log).
    pub fn new(messages: Vec<Msg>) -> (l: Self)
        ensures
            l@ == messages@.map_values(|m: Msg| m@),
    {
        MessageLog { messages }
    }

    pub fn len(&self) -> (n: u64)
        ensures
            n == self@.len(),
    {
        self.messages.len() as u64
    }

    /// Index of the newest message, if any.
    pub fn latest_index(&self) -> (i: Option<u64>)
        ensures
            i == (if self@.len() == 0 { None } else { Some((self@.len() - 1) as u64) }),
    {
        let n = self.messages.len();
        if n == 0 {
            None
        } else {
            Some(n as u64 - 1)
        }
    }

    /// Records the message committed at `index`, which must be the next one.
    pub fn apply_commit(&mut self, index: u64, msg: Msg)
        requires
            index == old(self)@.len(),
        ensures
            final(self)@ == old(self)@.push(msg@),
    {
        let ghost m = msg@;
        self.messages.push(msg);
        proof {
            assert(self@ =~= old(self)@.push(m));
        }
    }

    /// The messages a client that has received up to `client_idx` gets when
    /// the log is committed up to `commit_idx`: those at indices
    /// `client_idx..=commit_idx`, each with its index (none when the client
    /// is past `commit_idx`).
    pub fn server_messages(&self, client_idx: u64, commit_idx: u64) -> (r: Vec<ServerMsg>)
        requires
            client_idx <= commit_idx ==> commit_idx < self@.len(),
        ensures
            r@.len() == (if client_idx <= commit_idx { commit_idx - client_idx + 1 } else { 0 }),
            forall|j: int| 0 <= j < r@.len() ==> {
                &&& #[trigger] r@[j].committed_index() == client_idx + j
                &&& r@[j].message() == self@[client_idx + j]
            },
    {
        let mut r: Vec<ServerMsg> = Vec::new();
        if client_idx > commit_idx {
            return r;
        }
        let n = self.messages.len();
        let end = commit_idx + 1;
        let mut i = client_idx;
        while i < end
            invariant
                client_idx <= i <= end,
                end == commit_idx + 1,
                end <= n,
                n == self.messages@.len(),
                self@.len() == n,
                r@.len() == i - client_idx,
                forall|j: int| 0 <= j < r@.len() ==> {
                    &&& #[trigger] r@[j].committed_index() == client_idx + j
                    &&& r@[j].message() == self@[client_idx + j]
                },
            decreases end - i,
        {
            let m = self.messages[i as usize].clone();
            let ghost old_r = r@;
            r.push(ServerMsg::new(i, m));
            proof {
                assert(self@[i as int] == self.messages@[i as int]@);
                assert forall|j: int| 0 <= j < r@.len() implies {
                    &&& #[trigger] r@[j].committed_index() == client_idx + j
                    &&& r@[j].message() == self@[client_idx + j]
                } by {
                    if j < old_r.len() {
                        assert(r@[j] == old_r[j]);
                    }
                }
            }
            i = i + 1;
        }
        r
    }
}

} // verus!
