//! Value types of the registry: a peer record and a per-subject vote record.
use vstd::prelude::*;
use crate::{ActorID, ChainEpoch, MultiAddr, PeerID};

verus! {

/// Mathematical content of a [`NodeInfo`].
pub struct NodeInfoView {
    pub id: Seq<char>,
    pub creator: ActorID,
    pub addresses: Seq<Seq<char>>,
}

/// A registered peer: its identity, the account that owns the record, and
/// the connection endpoints at which its liveness can be checked.
pub struct NodeInfo {
    /// PeerID of the node.
    pub id: PeerID,
    /// The account that registered the node. Only the current creator may
    /// mutate or remove the record; a successful mutation may itself hand
    /// the record to a new creator (ownership transfer).
    pub creator: ActorID,
    /// Multiaddresses exposed by the node, each naming a liveness-check
    /// endpoint.
    pub addresses: Vec<MultiAddr>,
}

impl View for NodeInfo {
    type V = NodeInfoView;

    open spec fn view(&self) -> NodeInfoView {
        NodeInfoView { id: self.id@, creator: self.creator, addresses: self.addresses.deep_view() }
    }
}

impl DeepView for NodeInfo {
    type V = NodeInfoView;

    open spec fn deep_view(&self) -> NodeInfoView {
        self.view()
    }
}

impl Clone for NodeInfo {
    fn clone(&self) -> (r: Self)
        ensures
            r@ == self@,
    {
        let r = NodeInfo {
            id: self.id.clone(),
            creator: self.creator,
            addresses: self.addresses.clone(),
        };
        proof {
            assert(r@.addresses =~= self@.addresses);
        }
        r
    }
}

impl NodeInfo {
    pub fn id(&self) -> (r: &PeerID)
        ensures
            r@ == self@.id,
    {
        &self.id
    }

    pub fn creator(&self) -> (r: &ActorID)
        ensures
            *r == self@.creator,
    {
        &self.creator
    }

    pub fn new(id: PeerID, creator: ActorID, addresses: Vec<MultiAddr>) -> (r: Self)
        ensures
            r@ == (NodeInfoView { id: id@, creator, addresses: addresses.deep_view() }),
    {
        NodeInfo { id, creator, addresses }
    }
}

/// Mathematical content of a [`Votes`] record.
pub struct VotesView {
    pub last_vote: ChainEpoch,
    pub votes: Seq<Seq<char>>,
}

/// The offline votes accumulated against one subject peer.
pub struct Votes {
    /// Epoch of the most recent offline vote admitted into the current
    /// window.
    pub last_vote: ChainEpoch,
    /// Checkers that have voted in the current window, each at most once.
    pub votes: Vec<PeerID>,
}

impl View for Votes {
    type V = VotesView;

    open spec fn view(&self) -> VotesView {
        VotesView { last_vote: self.last_vote, votes: self.votes.deep_view() }
    }
}

impl DeepView for Votes {
    type V = VotesView;

    open spec fn deep_view(&self) -> VotesView {
        self.view()
    }
}

impl Clone for Votes {
    fn clone(&self) -> (r: Self)
        ensures
            r@ == self@,
    {
        let r = Votes { last_vote: self.last_vote, votes: self.votes.clone() };
        proof {
            assert(r@.votes =~= self@.votes);
        }
        r
    }
}

impl Votes {
    pub fn new(epoch: ChainEpoch) -> (r: Self)
        ensures
            r@ == (VotesView { last_vote: epoch, votes: Seq::empty() }),
    {
        let r = Votes { last_vote: epoch, votes: Vec::new() };
        proof {
            assert(r@.votes =~= Seq::<Seq<char>>::empty());
        }
        r
    }

    /// Whether `p` already appears among the voters of this record.
    pub fn has_voted(&self, p: &PeerID) -> (r: bool)
        ensures
            r == self@.votes.contains(p@),
    {
        let n = self.votes.len();
        for i in 0..n
            invariant
                n == self.votes.len(),
                forall|j: int| 0 <= j < i ==> self@.votes[j] != p@,
        {
            if self.votes[i] == *p {
                proof {
                    assert(self@.votes[i as int] == p@);
                }
                return true;
            }
        }
        false
    }

    /// Whether the record is stale at `epoch`: its most recent vote lies
    /// further back than `threshold` epochs.
    pub fn within_threshold(&self, epoch: ChainEpoch, threshold: ChainEpoch) -> (r: bool)
        ensures
            r == (self@.last_vote + threshold < epoch),
    {
        epoch > threshold && self.last_vote < epoch - threshold
    }

    /// Appends `p` to the voters of this record.
    pub fn vote(&mut self, p: &PeerID)
        ensures
            final(self)@ == (VotesView {
                last_vote: old(self)@.last_vote,
                votes: old(self)@.votes.push(p@),
            }),
    {
        self.votes.push(p.clone());
        proof {
            assert(self@.votes =~= old(self)@.votes.push(p@));
        }
    }

    pub fn total_votes(&self) -> (r: usize)
        ensures
            r == self@.votes.len(),
    {
        self.votes.len()
    }
}

/// Constructor parameters: parallel arrays of seed checkers, zipped
/// pairwise into [`NodeInfo`] records.
pub struct InitParams {
    pub ids: Vec<String>,
    pub creators: Vec<ActorID>,
    pub addresses: Vec<Vec<String>>,
}

impl InitParams {
    /// The parallel arrays agree on one length.
    pub open spec fn lens_match(&self) -> bool {
        self.ids@.len() == self.creators@.len() && self.ids@.len() == self.addresses@.len()
    }

    /// The seed records the arrays denote, zipped pairwise.
    pub open spec fn spec_nodes(&self) -> Seq<NodeInfoView> {
        Seq::new(
            self.ids@.len(),
            |k: int| NodeInfoView {
                id: self.ids.deep_view()[k],
                creator: self.creators@[k],
                addresses: self.addresses.deep_view()[k],
            },
        )
    }
}

} // verus!
