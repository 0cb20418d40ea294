//! Log entries and the client commands that they carry.

use vstd::prelude::*;

verus! {

/// A command submitted by a chat client: the client's name, the client's
/// message sequence number and the message payload.
#[derive(Debug, PartialEq)]
pub struct Command {
    pub client_id: String,
    pub message_id: u64,
    pub data: Vec<u8>,
}

/// Mathematical value of a [`Command`].
pub struct CommandView {
    pub client_id: Seq<char>,
    pub message_id: u64,
    pub data: Seq<u8>,
}

impl View for Command {
    type V = CommandView;

    open spec fn view(&self) -> CommandView {
        CommandView { client_id: self.client_id@, message_id: self.message_id, data: self.data@ }
    }
}

impl Clone for Command {
    fn clone(&self) -> (res: Self)
        ensures
            res@ == self@,
    {
        let data = self.data.clone();
        assert(data@ =~= self.data@);
        Command { client_id: self.client_id.clone(), message_id: self.message_id, data }
    }
}

/// One slot of the replicated log: the leader term in which it was created
/// and, unless it is a no-op, the command it carries.
#[derive(Debug, PartialEq)]
pub struct Entry {
    pub term: u64,
    pub command: Option<Command>,
}

/// Mathematical value of an [`Entry`].
pub struct EntryView {
    pub term: u64,
    pub command: Option<CommandView>,
}

impl View for Entry {
    type V = EntryView;

    open spec fn view(&self) -> EntryView {
        EntryView {
            term: self.term,
            command: match self.command {
                Some(c) => Some(c@),
                None => None,
            },
        }
    }
}

impl Clone for Entry {
    fn clone(&self) -> (res: Self)
        ensures
            res@ == self@,
    {
        let command = match &self.command {
            Some(c) => Some(c.clone()),
            None => None,
        };
        Entry { term: self.term, command }
    }
}

/// The views of a sequence of entries.
pub open spec fn entries_view(s: Seq<Entry>) -> Seq<EntryView> {
    s.map_values(|e: Entry| e@)
}

} // verus!
