//! The records exchanged between the chat server and the replicated log.

use vstd::prelude::*;
use crate::entry::Entry;

verus! {

/// A committed log position and the data committed there.
pub struct Commit {
    index: u64,
    data: Vec<u8>,
}

impl Commit {
    pub fn new(_index: u64, _data: Vec<u8>) -> (c: Commit)
        ensures
            c.index() == _index,
            c.data() == _data@,
    {
        Commit { index: _index, data: _data }
    }

    pub closed spec fn index(&self) -> u64 {
        self.index
    }

    pub closed spec fn data(&self) -> Seq<u8> {
        self.data@
    }

    pub fn get_data(&self) -> (d: Vec<u8>)
        ensures
            d@ == self.data(),
    {
        let d = self.data.clone();
        assert(d@ =~= self.data@);
        d
    }

    pub fn get_index(&self) -> (i: u64)
        ensures
            i == self.index(),
    {
        self.index
    }
}

/// Numbers the committed log entries that carry a command, in log order
/// from 0: `next` is the index the next such entry gets.
pub struct CommitCounter {
    pub next: u64,
}

impl CommitCounter {
    /// Nothing numbered yet.
    pub fn new() -> (c: Self)
        ensures
            c.next == 0,
    {
        CommitCounter { next: 0 }
    }

    /// The commit for the next committed entry: an entry with a command
    /// gives its data under the next index; a no-op entry gives nothing and
    /// takes no index.
    pub fn on_entry(&mut self, entry: Entry) -> (r: Option<Commit>)
        requires
            entry.command is Some ==> old(self).next < u64::MAX,
        ensures
            match entry.command {
                Some(c) => {
                    &&& final(self).next == old(self).next + 1
                    &&& r matches Some(k) && k.index() == old(self).next && k.data() == c.data@
                },
                None => {
                    &&& final(self).next == old(self).next
                    &&& r is None
                },
            },
    {
        match entry.command {
            Some(command) => {
                let index = self.next;
                self.next = self.next + 1;
                Some(Commit::new(index, command.data))
            },
            None => None,
        }
    }
}

/// A client's request to append data: the client's identifier (unique per
/// client), the client's timestamp and the data.
#[derive(Debug)]
pub struct RequestLog {
    id: String,
    timestamp: u64,
    data: Vec<u8>,
}

impl RequestLog {
    pub fn new(_id: String, _timestamp: u64, _data: Vec<u8>) -> (r: RequestLog)
        ensures
            r.id() == _id@,
            r.timestamp() == _timestamp,
            r.data() == _data@,
    {
        RequestLog { id: _id, timestamp: _timestamp, data: _data }
    }

    pub closed spec fn id(&self) -> Seq<char> {
        self.id@
    }

    pub closed spec fn timestamp(&self) -> u64 {
        self.timestamp
    }

    pub closed spec fn data(&self) -> Seq<u8> {
        self.data@
    }

    pub fn get_data(&self) -> (d: Vec<u8>)
        ensures
            d@ == self.data(),
    {
        let d = self.data.clone();
        assert(d@ =~= self.data@);
        d
    }

    pub fn get_id(&self) -> (s: String)
        ensures
            s@ == self.id(),
    {
        self.id.clone()
    }
}

} // verus!
