//! The state of a Raft node that must survive restarts: its current term
//! and whom it voted for in that term.

use vstd::prelude::*;
use crate::config::RaftConfig;

verus! {

/// What is written to stable storage.
pub struct PersistentStateElement {
    pub current_term: u64,
    pub voted_for: Option<String>,
}

/// The durable vote state of a Raft node.
pub struct PersistentState {
    current_term: u64,
    voted_for: Option<String>,
}

/// The view of an optional name.
pub open spec fn name_view(s: Option<String>) -> Option<Seq<char>> {
    match s {
        Some(x) => Some(x@),
        None => None,
    }
}

/// Mathematical value of a [`PersistentState`].
pub struct PersistentStateView {
    pub current_term: u64,
    pub voted_for: Option<Seq<char>>,
}

impl View for PersistentState {
    type V = PersistentStateView;

    closed spec fn view(&self) -> PersistentStateView {
        PersistentStateView { current_term: self.current_term, voted_for: name_view(self.voted_for) }
    }
}

/// The state after a term is announced: a newer term is adopted and
/// clears the vote (a vote belongs to its term); the current term or an
/// older one changes nothing.
pub open spec fn after_update_term(s: PersistentStateView, new_term: u64) -> PersistentStateView {
    if new_term <= s.current_term {
        s
    } else {
        PersistentStateView { current_term: new_term, voted_for: None }
    }
}

/// The state after a vote is asked for `candidate`: a node that has not
/// voted votes for it; otherwise nothing changes.
pub open spec fn after_vote(s: PersistentStateView, candidate: Seq<char>) -> PersistentStateView {
    match s.voted_for {
        None => PersistentStateView { voted_for: Some(candidate), ..s },
        Some(_) => s,
    }
}

/// Whether the vote asked for `candidate` is granted.
pub open spec fn vote_granted(s: PersistentStateView, candidate: Seq<char>) -> bool {
    match s.voted_for {
        None => true,
        Some(v) => v == candidate,
    }
}

impl PersistentState {
    /// The state loaded from storage: the stored term and, if it names this
    /// node or one of its peers, the stored vote; with nothing stored, term 0
    /// and no vote.
    pub fn new(config: &RaftConfig, stored: Option<PersistentStateElement>) -> (s: Self)
        ensures
            match stored {
                None => s@ == PersistentStateView { current_term: 0, voted_for: None },
                Some(e) => {
                    &&& s@.current_term == e.current_term
                    &&& s@.voted_for == match e.voted_for {
                        Some(v) => if v@ == config.self_id@ || exists|j: int| 0 <= j < config.peers@.len() && config.peers@[j]@ == v@ {
                            Some(v@)
                        } else {
                            None
                        },
                        None => None,
                    }
                },
            },
    {
        match stored {
            None => PersistentState { current_term: 0, voted_for: None },
            Some(element) => {
                let voted_for = match &element.voted_for {
                    Some(id) => if *id == config.self_id {
                        Some(id.clone())
                    } else {
                        config.get_peer(id.as_str())
                    },
                    None => None,
                };
                PersistentState { current_term: element.current_term, voted_for }
            },
        }
    }

    pub fn current_term(&self) -> (t: u64)
        ensures
            t == self@.current_term,
    {
        self.current_term
    }

    pub fn voted_for(&self) -> (v: Option<&String>)
        ensures
            match v {
                Some(x) => self@.voted_for == Some(x@),
                None => self@.voted_for is None,
            },
    {
        match &self.voted_for {
            Some(x) => Some(x),
            None => None,
        }
    }

    /// The record that is written to stable storage for this state.
    pub fn to_element(&self) -> (e: PersistentStateElement)
        ensures
            e.current_term == self@.current_term,
            name_view(e.voted_for) == self@.voted_for,
    {
        let voted_for = match &self.voted_for {
            Some(x) => Some(x.clone()),
            None => None,
        };
        PersistentStateElement { current_term: self.current_term, voted_for }
    }

    /// Becomes a candidate: moves to the next term and votes for itself.
    pub fn start_election(&mut self, self_id: &str)
        requires
            old(self)@.current_term < u64::MAX,
        ensures
            final(self)@ == (PersistentStateView { current_term: (old(self)@.current_term + 1) as u64, voted_for: Some(self_id@) }),
    {
        self.current_term = self.current_term + 1;
        self.voted_for = Some(self_id.to_owned());
    }

    /// Announces `new_term`. Returns the term after the update and whether
    /// `new_term` was not outdated. A newer term is adopted with no vote; in
    /// the current term the vote already cast stands.
    pub fn update_term(&mut self, new_term: u64) -> (r: (u64, bool))
        ensures
            final(self)@ == after_update_term(old(self)@, new_term),
            r == (final(self)@.current_term, new_term >= old(self)@.current_term),
    {
        if new_term < self.current_term {
            (self.current_term, false)
        } else if new_term == self.current_term {
            (self.current_term, true)
        } else {
            self.current_term = new_term;
            self.voted_for = None;
            (self.current_term, true)
        }
    }

    /// Asks this node's vote for `candidate`; true if the candidate has it.
    pub fn try_vote(&mut self, candidate: &str) -> (ok: bool)
        ensures
            final(self)@ == after_vote(old(self)@, candidate@),
            ok == vote_granted(old(self)@, candidate@),
    {
        match &self.voted_for {
            None => {
                self.voted_for = Some(candidate.to_owned());
                true
            },
            Some(recipient) => {
                let c = candidate.to_owned();
                *recipient == c
            },
        }
    }
}

/// The term never goes back: announcing a term, or voting, leaves a term
/// at least as large as before.
pub proof fn lemma_term_never_decreases(s: PersistentStateView, new_term: u64, candidate: Seq<char>)
    ensures
        after_update_term(s, new_term).current_term >= s.current_term,
        after_vote(s, candidate).current_term == s.current_term,
{
}

/// One vote per term: once a node has voted for `a`, no vote is granted to
/// another candidate `b` in the same term, whatever announcements of the
/// current or older terms come in between; only a newer term clears the vote.
pub proof fn lemma_one_vote_per_term(s: PersistentStateView, a: Seq<char>, b: Seq<char>, announced: u64)
    requires
        a != b,
    ensures
        vote_granted(s, a) ==> !vote_granted(after_vote(s, a), b),
        vote_granted(s, a) && announced <= s.current_term
            ==> !vote_granted(after_update_term(after_vote(s, a), announced), b),
        after_vote(after_vote(s, a), b).current_term == s.current_term,
        announced > s.current_term ==> after_update_term(s, announced).voted_for is None,
{
}

} // verus!
