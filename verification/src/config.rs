//! The configuration of a Raft node, as plain values.

use vstd::prelude::*;

verus! {

/// A uniformly drawn number in `lo..hi`.
///
/// Calls `rand::Rng::gen_range` on `rand::thread_rng()`; trusted to return a
/// value inside the half-open range, which its documentation promises (it
/// panics on an empty range, which `requires` leaves out). Which value comes
/// back is chance and is not stated.
#[verifier::external_body]
fn random_in_range(lo: u64, hi: u64) -> (r: u64)
    requires
        lo < hi,
    ensures
        lo <= r < hi,
{
    rand::Rng::gen_range(&mut rand::thread_rng(), lo..hi)
}

/// The configuration of a Raft node.
pub struct RaftConfig {
    /// Address the node serves its RPCs on, as `ip:port`.
    pub serve_addr: String,
    /// This node's identifier.
    pub self_id: String,
    /// Identifiers of the other nodes of the cluster.
    pub peers: Vec<String>,
    /// Lower and upper bound (ms) of the election timeout.
    pub election_duration: (u64, u64),
    /// Interval (ms) between heartbeats of a leader.
    pub heartbeat_duration: u64,
    pub persistent_state_path: String,
    pub persistent_state_backup_path: String,
    pub wal_path: String,
}

/// The cluster has the node itself and its peers.
pub open spec fn spec_cluster_size(peers: Seq<String>) -> int {
    peers.len() + 1int
}

/// A majority of the cluster.
pub open spec fn spec_quorum_size(peers: Seq<String>) -> int {
    spec_cluster_size(peers) / 2 + 1
}

impl RaftConfig {
    /// The position in `peers` of the first peer called `s`.
    pub fn peer_index(&self, s: &str) -> (r: Option<usize>)
        ensures
            match r {
                Some(i) => i < self.peers@.len() && self.peers@[i as int]@ == s@
                    && forall|j: int| 0 <= j < i ==> self.peers@[j]@ != s@,
                None => forall|j: int| 0 <= j < self.peers@.len() ==> self.peers@[j]@ != s@,
            },
    {
        let owned = s.to_owned();
        let mut i: usize = 0;
        while i < self.peers.len()
            invariant
                owned@ == s@,
                i <= self.peers@.len(),
                forall|j: int| 0 <= j < i ==> self.peers@[j]@ != s@,
            decreases self.peers@.len() - i,
        {
            if self.peers[i] == owned {
                return Some(i);
            }
            i = i + 1;
        }
        None
    }

    /// The peer called `s`, if `s` names one of the peers.
    pub fn get_peer(&self, s: &str) -> (r: Option<String>)
        ensures
            match r {
                Some(p) => p@ == s@ && exists|j: int| 0 <= j < self.peers@.len() && self.peers@[j]@ == s@,
                None => forall|j: int| 0 <= j < self.peers@.len() ==> self.peers@[j]@ != s@,
            },
    {
        match self.peer_index(s) {
            Some(i) => Some(self.peers[i].clone()),
            None => None,
        }
    }

    /// Number of nodes of the cluster: the peers and this node.
    pub fn cluster_size(&self) -> (n: usize)
        requires
            self.peers@.len() < usize::MAX,
        ensures
            n == spec_cluster_size(self.peers@),
    {
        self.peers.len() + 1
    }

    /// Number of nodes that make a majority of the cluster.
    pub fn quorum_size(&self) -> (n: usize)
        requires
            self.peers@.len() < usize::MAX,
        ensures
            n == spec_quorum_size(self.peers@),
    {
        (self.cluster_size() / 2) + 1
    }

    /// A random election timeout (ms) drawn from `election_duration`.
    pub fn election_timeout(&self) -> (ms: u64)
        requires
            self.election_duration.0 < self.election_duration.1,
        ensures
            self.election_duration.0 <= ms < self.election_duration.1,
    {
        random_in_range(self.election_duration.0, self.election_duration.1)
    }
}

/// Any two majorities of the same cluster have a node in common: the sizes
/// of two quorums add up to more than the cluster size.
pub proof fn lemma_quorums_intersect(peers: Seq<String>)
    ensures
        2 * spec_quorum_size(peers) > spec_cluster_size(peers),
        spec_quorum_size(peers) <= spec_cluster_size(peers),
{
}

/// The quorum is the smallest majority: it is more than half of the
/// cluster, and one node fewer is at most half.
pub proof fn lemma_quorum_is_smallest_majority(peers: Seq<String>)
    ensures
        2 * spec_quorum_size(peers) > spec_cluster_size(peers),
        2 * (spec_quorum_size(peers) - 1) <= spec_cluster_size(peers),
{
}

} // verus!
