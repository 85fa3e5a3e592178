//! The state object: ownership-gated member and checker collections, and
//! the per-subject ledger of offline votes with epoch-windowed expiry.
use vstd::prelude::*;
use crate::assoc::{
    assoc_find, assoc_map, distinct_keys, lemma_assoc_map_contains, lemma_assoc_map_index,
    lemma_assoc_map_len, lemma_assoc_map_push, lemma_assoc_map_remove, lemma_assoc_map_update,
    lemma_distinct_push, lemma_distinct_remove, lemma_distinct_update,
};
use crate::error::Error;
use crate::types::{NodeInfo, NodeInfoView, Votes, VotesView};
use crate::{ActorID, ChainEpoch, PeerID};

verus! {

/// Number of epochs during which votes against a subject stay valid and
/// cumulative. A record whose most recent vote is older than this is stale
/// and starts over on the next report.
pub const WINDOW_EPOCHS: ChainEpoch = 200;

/// Mathematical content of the whole registry-plus-ledger state.
pub struct StateView {
    pub members: Map<Seq<char>, NodeInfoView>,
    pub checkers: Map<Seq<char>, NodeInfoView>,
    pub offline_checkers: Map<Seq<char>, VotesView>,
}

/// The state object, held fully in memory between load and save.
pub struct MapState {
    /// The list of node members in the registry.
    pub(crate) members: Vec<(PeerID, NodeInfo)>,
    /// List of checkers registered in the system.
    pub(crate) checkers: Vec<(PeerID, NodeInfo)>,
    /// Per-subject accumulation of offline votes.
    pub(crate) offline_checkers: Vec<(PeerID, Votes)>,
}

impl View for MapState {
    type V = StateView;

    closed spec fn view(&self) -> StateView {
        StateView {
            members: assoc_map(self.members@),
            checkers: assoc_map(self.checkers@),
            offline_checkers: assoc_map(self.offline_checkers@),
        }
    }
}

/// Keys are pairwise distinct and each node is stored under its own id.
pub(crate) open spec fn nodes_wf(s: Seq<(String, NodeInfo)>) -> bool {
    &&& distinct_keys(s)
    &&& forall|i: int| 0 <= i < s.len() ==> s[i].0@ == s[i].1@.id
}

/// No voter appears twice in one record.
pub open spec fn no_dup(votes: Seq<Seq<char>>) -> bool {
    forall|i: int, j: int| 0 <= i < j < votes.len() ==> votes[i] != votes[j]
}

pub(crate) open spec fn ledger_wf(s: Seq<(String, Votes)>) -> bool {
    &&& distinct_keys(s)
    &&& forall|i: int| 0 <= i < s.len() ==> no_dup(s[i].1@.votes)
}

/// A vote record is stale at `epoch` when its most recent vote lies
/// further back than the window.
pub open spec fn spec_is_stale(rec: VotesView, epoch: ChainEpoch) -> bool {
    rec.last_vote + WINDOW_EPOCHS < epoch
}

/// Whether `reporter` already holds an admissible vote against `subject`
/// at `epoch`: the subject's record exists, is not stale, and lists the
/// reporter. A vote in a stale record does not count.
pub open spec fn spec_already_voted(
    ledger: Map<Seq<char>, VotesView>,
    subject: Seq<char>,
    reporter: Seq<char>,
    epoch: ChainEpoch,
) -> bool {
    &&& ledger.contains_key(subject)
    &&& !spec_is_stale(ledger[subject], epoch)
    &&& ledger[subject].votes.contains(reporter)
}

/// The record stored for `subject` after a vote by `reporter` at `epoch`
/// is admitted: appended to a live record, or the sole vote of a new
/// window when no record exists or the record went stale.
pub open spec fn spec_admit(
    ledger: Map<Seq<char>, VotesView>,
    subject: Seq<char>,
    reporter: Seq<char>,
    epoch: ChainEpoch,
) -> VotesView {
    if ledger.contains_key(subject) && !spec_is_stale(ledger[subject], epoch) {
        VotesView { last_vote: epoch, votes: ledger[subject].votes.push(reporter) }
    } else {
        VotesView { last_vote: epoch, votes: seq![reporter] }
    }
}

impl MapState {
    /// Structural invariant: consistent keys in all three collections and
    /// no voter listed twice for one subject.
    pub closed spec fn wf(&self) -> bool {
        &&& nodes_wf(self.members@)
        &&& nodes_wf(self.checkers@)
        &&& ledger_wf(self.offline_checkers@)
    }

    /// The checkers collection the state starts with: the seed nodes in
    /// order, later records replacing earlier ones of the same id.
    pub open spec fn spec_seed(nodes: Seq<NodeInfoView>) -> Map<Seq<char>, NodeInfoView>
        decreases nodes.len(),
    {
        if nodes.len() == 0 {
            Map::empty()
        } else {
            Self::spec_seed(nodes.drop_last()).insert(nodes.last().id, nodes.last())
        }
    }

    /// A fresh state: checkers seeded from `nodes`, members and the vote
    /// ledger empty.
    pub fn new(nodes: Vec<NodeInfo>) -> (r: MapState)
        ensures
            r.wf(),
            r@.members == Map::<Seq<char>, NodeInfoView>::empty(),
            r@.offline_checkers == Map::<Seq<char>, VotesView>::empty(),
            r@.checkers == Self::spec_seed(nodes.deep_view()),
    {
        let st = MapState {
            members: Vec::new(),
            checkers: Self::build_nodes(nodes),
            offline_checkers: Vec::new(),
        };
        proof {
            assert(st@.members =~= Map::<Seq<char>, NodeInfoView>::empty());
            assert(st@.offline_checkers =~= Map::<Seq<char>, VotesView>::empty());
        }
        st
    }

    /// A node collection holding the given records in order, later records
    /// replacing earlier ones of the same id.
    pub(crate) fn build_nodes(nodes: Vec<NodeInfo>) -> (r: Vec<(PeerID, NodeInfo)>)
        ensures
            nodes_wf(r@),
            assoc_map(r@) == Self::spec_seed(nodes.deep_view()),
    {
        let mut out: Vec<(PeerID, NodeInfo)> = Vec::new();
        let n = nodes.len();
        for i in 0..n
            invariant
                n == nodes@.len(),
                nodes_wf(out@),
                assoc_map(out@) == Self::spec_seed(nodes.deep_view().take(i as int)),
        {
            let node = nodes[i].clone();
            Self::upsert_unchecked(&mut out, node);
            proof {
                assert(nodes.deep_view().take(i + 1).drop_last() =~= nodes.deep_view().take(
                    i as int,
                ));
                assert(nodes.deep_view().take(i + 1).last() == nodes@[i as int]@);
            }
        }
        proof {
            assert(nodes.deep_view().take(n as int) =~= nodes.deep_view());
        }
        out
    }

    /// The mapping a ledger entry list denotes, later entries replacing
    /// earlier ones of the same subject.
    pub open spec fn spec_ledger_map(es: Seq<(Seq<char>, VotesView)>) -> Map<Seq<char>, VotesView>
        decreases es.len(),
    {
        if es.len() == 0 {
            Map::empty()
        } else {
            Self::spec_ledger_map(es.drop_last()).insert(es.last().0, es.last().1)
        }
    }

    /// A ledger collection holding the given entries in order, later
    /// entries replacing earlier ones of the same subject.
    pub(crate) fn build_ledger(entries: Vec<(PeerID, Votes)>) -> (r: Vec<(PeerID, Votes)>)
        requires
            forall|i: int| 0 <= i < entries@.len() ==> no_dup(#[trigger] entries@[i].1@.votes),
        ensures
            ledger_wf(r@),
            assoc_map(r@) == Self::spec_ledger_map(entries.deep_view()),
    {
        let mut out: Vec<(PeerID, Votes)> = Vec::new();
        let n = entries.len();
        for i in 0..n
            invariant
                n == entries@.len(),
                forall|k: int| 0 <= k < n ==> no_dup(#[trigger] entries@[k].1@.votes),
                ledger_wf(out@),
                assoc_map(out@) == Self::spec_ledger_map(entries.deep_view().take(i as int)),
        {
            let key = entries[i].0.clone();
            let rec = entries[i].1.clone();
            let ghost m0 = out@;
            match assoc_find(&out, &key) {
                Some(j) => {
                    out[j] = (key, rec);
                    proof {
                        lemma_assoc_map_update(m0, j as int, out@[j as int]);
                        lemma_distinct_update(m0, j as int, out@[j as int]);
                    }
                },
                None => {
                    out.push((key, rec));
                    proof {
                        lemma_assoc_map_contains(m0, out@.last().0@);
                        assert(out@ =~= m0.push(out@.last()));
                        lemma_assoc_map_push(m0, out@.last());
                        lemma_distinct_push(m0, out@.last());
                    }
                },
            }
            proof {
                assert(entries.deep_view().take(i + 1).drop_last() =~= entries.deep_view().take(
                    i as int,
                ));
                assert(entries.deep_view().take(i + 1).last() == entries@[i as int].deep_view());
            }
        }
        proof {
            assert(entries.deep_view().take(n as int) =~= entries.deep_view());
        }
        out
    }

    /// What the view and the invariant mean over the stored collections.
    pub(crate) proof fn lemma_view_fields(&self)
        ensures
            self@.members == assoc_map(self.members@),
            self@.checkers == assoc_map(self.checkers@),
            self@.offline_checkers == assoc_map(self.offline_checkers@),
            self.wf() <==> nodes_wf(self.members@) && nodes_wf(self.checkers@) && ledger_wf(
                self.offline_checkers@,
            ),
    {
    }

    /// A state from collections already known to be consistent.
    pub(crate) fn assemble(
        members: Vec<(PeerID, NodeInfo)>,
        checkers: Vec<(PeerID, NodeInfo)>,
        offline_checkers: Vec<(PeerID, Votes)>,
    ) -> (r: MapState)
        requires
            nodes_wf(members@),
            nodes_wf(checkers@),
            ledger_wf(offline_checkers@),
        ensures
            r.wf(),
            r@.members == assoc_map(members@),
            r@.checkers == assoc_map(checkers@),
            r@.offline_checkers == assoc_map(offline_checkers@),
    {
        MapState { members, checkers, offline_checkers }
    }

    /// Succeeds exactly when the acting caller owns the stored record.
    fn ensure_owner(b: &NodeInfo, caller: ActorID) -> (r: Result<(), Error>)
        ensures
            r == if b@.creator != caller {
                Err::<(), Error>(Error::NotOwner)
            } else {
                Ok::<(), Error>(())
            },
    {
        if caller != b.creator {
            Err(Error::NotOwner)
        } else {
            Ok(())
        }
    }

    /// Inserts or replaces without an ownership check; used only while
    /// seeding a fresh state.
    fn upsert_unchecked(map: &mut Vec<(PeerID, NodeInfo)>, node: NodeInfo)
        requires
            nodes_wf(old(map)@),
        ensures
            nodes_wf(final(map)@),
            assoc_map(final(map)@) == assoc_map(old(map)@).insert(node@.id, node@),
    {
        let ghost m0 = map@;
        let key = node.id.clone();
        match assoc_find(map, &key) {
            Some(i) => {
                map[i] = (key, node);
                proof {
                    lemma_assoc_map_update(m0, i as int, map@[i as int]);
                    lemma_distinct_update(m0, i as int, map@[i as int]);
                }
            },
            None => {
                map.push((key, node));
                proof {
                    lemma_assoc_map_contains(m0, map@.last().0@);
                    assert(map@ =~= m0.push(map@.last()));
                    lemma_assoc_map_push(m0, map@.last());
                    lemma_distinct_push(m0, map@.last());
                }
            },
        }
    }

    /// Ownership-gated insert-or-replace. A record under a fresh id may be
    /// registered by anyone; an existing record may only be replaced by
    /// its stored creator, though the replacement may name a new creator
    /// (ownership transfer).
    fn upsert(map: &mut Vec<(PeerID, NodeInfo)>, caller: ActorID, node: NodeInfo) -> (r: Result<
        (),
        Error,
    >)
        requires
            nodes_wf(old(map)@),
        ensures
            nodes_wf(final(map)@),
            (if assoc_map(old(map)@).contains_key(node@.id) && assoc_map(old(map)@)[node@.id].creator
                != caller {
                r == Err::<(), Error>(Error::NotOwner) && final(map)@ == old(map)@
            } else {
                r == Ok::<(), Error>(()) && assoc_map(final(map)@) == assoc_map(old(map)@).insert(
                    node@.id,
                    node@,
                )
            }),
    {
        let ghost m0 = map@;
        match assoc_find(map, &node.id) {
            Some(i) => {
                proof {
                    lemma_assoc_map_index(m0, i as int);
                }
                match Self::ensure_owner(&map[i].1, caller) {
                    Err(e) => Err(e),
                    Ok(()) => {
                        let key = node.id.clone();
                        map[i] = (key, node);
                        proof {
                            lemma_assoc_map_update(m0, i as int, map@[i as int]);
                            lemma_distinct_update(m0, i as int, map@[i as int]);
                        }
                        Ok(())
                    },
                }
            },
            None => {
                let key = node.id.clone();
                map.push((key, node));
                proof {
                    lemma_assoc_map_contains(m0, map@.last().0@);
                    assert(map@ =~= m0.push(map@.last()));
                    lemma_assoc_map_push(m0, map@.last());
                    lemma_distinct_push(m0, map@.last());
                }
                Ok(())
            },
        }
    }

    /// Ownership-gated removal: absent ids are refused with `NotExists`,
    /// records of another creator with `NotOwner`.
    fn remove(map: &mut Vec<(PeerID, NodeInfo)>, caller: ActorID, id: &PeerID) -> (r: Result<
        (),
        Error,
    >)
        requires
            nodes_wf(old(map)@),
        ensures
            nodes_wf(final(map)@),
            (if !assoc_map(old(map)@).contains_key(id@) {
                r == Err::<(), Error>(Error::NotExists) && final(map)@ == old(map)@
            } else if assoc_map(old(map)@)[id@].creator != caller {
                r == Err::<(), Error>(Error::NotOwner) && final(map)@ == old(map)@
            } else {
                r == Ok::<(), Error>(()) && assoc_map(final(map)@) == assoc_map(old(map)@).remove(
                    id@,
                )
            }),
    {
        let ghost m0 = map@;
        proof {
            lemma_assoc_map_contains(m0, id@);
        }
        match assoc_find(map, id) {
            None => Err(Error::NotExists),
            Some(i) => {
                proof {
                    lemma_assoc_map_index(m0, i as int);
                }
                match Self::ensure_owner(&map[i].1, caller) {
                    Err(e) => Err(e),
                    Ok(()) => {
                        map.remove(i);
                        proof {
                            lemma_assoc_map_remove(m0, i as int);
                            lemma_distinct_remove(m0, i as int);
                            assert forall|j: int| 0 <= j < map@.len() implies map@[j].0@
                                == map@[j].1@.id by {
                                if j < i {
                                    assert(map@[j] == m0[j]);
                                } else {
                                    assert(map@[j] == m0[j + 1]);
                                }
                            }
                        }
                        Ok(())
                    },
                }
            },
        }
    }

    /// Upsert into the members collection.
    pub fn upsert_node(&mut self, caller: ActorID, node: NodeInfo) -> (r: Result<(), Error>)
        requires
            old(self).wf(),
        ensures
            final(self).wf(),
            final(self)@.checkers == old(self)@.checkers,
            final(self)@.offline_checkers == old(self)@.offline_checkers,
            (if old(self)@.members.contains_key(node@.id) && old(self)@.members[node@.id].creator
                != caller {
                r == Err::<(), Error>(Error::NotOwner) && final(self)@.members == old(
                    self,
                )@.members
            } else {
                r == Ok::<(), Error>(()) && final(self)@.members == old(self)@.members.insert(
                    node@.id,
                    node@,
                )
            }),
    {
        Self::upsert(&mut self.members, caller, node)
    }

    /// Upsert into the checkers collection.
    pub fn upsert_checker(&mut self, caller: ActorID, node: NodeInfo) -> (r: Result<(), Error>)
        requires
            old(self).wf(),
        ensures
            final(self).wf(),
            final(self)@.members == old(self)@.members,
            final(self)@.offline_checkers == old(self)@.offline_checkers,
            (if old(self)@.checkers.contains_key(node@.id) && old(self)@.checkers[node@.id].creator
                != caller {
                r == Err::<(), Error>(Error::NotOwner) && final(self)@.checkers == old(
                    self,
                )@.checkers
            } else {
                r == Ok::<(), Error>(()) && final(self)@.checkers == old(self)@.checkers.insert(
                    node@.id,
                    node@,
                )
            }),
    {
        Self::upsert(&mut self.checkers, caller, node)
    }

    /// Ownership-gated removal from the members collection.
    pub fn remove_node(&mut self, caller: ActorID, id: &PeerID) -> (r: Result<(), Error>)
        requires
            old(self).wf(),
        ensures
            final(self).wf(),
            final(self)@.checkers == old(self)@.checkers,
            final(self)@.offline_checkers == old(self)@.offline_checkers,
            (if !old(self)@.members.contains_key(id@) {
                r == Err::<(), Error>(Error::NotExists) && final(self)@.members == old(
                    self,
                )@.members
            } else if old(self)@.members[id@].creator != caller {
                r == Err::<(), Error>(Error::NotOwner) && final(self)@.members == old(
                    self,
                )@.members
            } else {
                r == Ok::<(), Error>(()) && final(self)@.members == old(self)@.members.remove(id@)
            }),
    {
        Self::remove(&mut self.members, caller, id)
    }

    /// Ownership-gated removal from the checkers collection.
    pub fn remove_checker(&mut self, caller: ActorID, id: &PeerID) -> (r: Result<(), Error>)
        requires
            old(self).wf(),
        ensures
            final(self).wf(),
            final(self)@.members == old(self)@.members,
            final(self)@.offline_checkers == old(self)@.offline_checkers,
            (if !old(self)@.checkers.contains_key(id@) {
                r == Err::<(), Error>(Error::NotExists) && final(self)@.checkers == old(
                    self,
                )@.checkers
            } else if old(self)@.checkers[id@].creator != caller {
                r == Err::<(), Error>(Error::NotOwner) && final(self)@.checkers == old(
                    self,
                )@.checkers
            } else {
                r == Ok::<(), Error>(()) && final(self)@.checkers == old(self)@.checkers.remove(
                    id@,
                )
            }),
    {
        Self::remove(&mut self.checkers, caller, id)
    }

    /// Unconditional removal from the checkers collection, bypassing
    /// ownership; reserved for protocol-internal eviction.
    pub fn remove_checker_unchecked(&mut self, id: &PeerID) -> (r: Result<(), Error>)
        requires
            old(self).wf(),
        ensures
            final(self).wf(),
            r == Ok::<(), Error>(()),
            final(self)@.members == old(self)@.members,
            final(self)@.offline_checkers == old(self)@.offline_checkers,
            final(self)@.checkers == old(self)@.checkers.remove(id@),
    {
        let ghost m0 = self.checkers@;
        proof {
            lemma_assoc_map_contains(m0, id@);
        }
        match assoc_find(&self.checkers, id) {
            None => {
                proof {
                    assert(assoc_map(m0) =~= assoc_map(m0).remove(id@));
                }
            },
            Some(i) => {
                self.checkers.remove(i);
                proof {
                    lemma_assoc_map_remove(m0, i as int);
                    lemma_distinct_remove(m0, i as int);
                    assert forall|j: int| 0 <= j < self.checkers@.len() implies self.checkers@[j].0@
                        == self.checkers@[j].1@.id by {
                        if j < i {
                            assert(self.checkers@[j] == m0[j]);
                        } else {
                            assert(self.checkers@[j] == m0[j + 1]);
                        }
                    }
                }
            },
        }
        Ok(())
    }

    /// The member record stored under `id`, if one is.
    pub fn get_node(&self, id: &PeerID) -> (r: Option<&NodeInfo>)
        requires
            self.wf(),
        ensures
            match r {
                Some(n) => self@.members.contains_key(id@) && n@ == self@.members[id@],
                None => !self@.members.contains_key(id@),
            },
    {
        proof {
            lemma_assoc_map_contains(self.members@, id@);
        }
        match assoc_find(&self.members, id) {
            None => None,
            Some(i) => {
                proof {
                    lemma_assoc_map_index(self.members@, i as int);
                }
                Some(&self.members[i].1)
            },
        }
    }

    /// The checker record stored under `id`, if one is.
    pub fn get_checker(&self, id: &PeerID) -> (r: Option<&NodeInfo>)
        requires
            self.wf(),
        ensures
            match r {
                Some(n) => self@.checkers.contains_key(id@) && n@ == self@.checkers[id@],
                None => !self@.checkers.contains_key(id@),
            },
    {
        proof {
            lemma_assoc_map_contains(self.checkers@, id@);
        }
        match assoc_find(&self.checkers, id) {
            None => None,
            Some(i) => {
                proof {
                    lemma_assoc_map_index(self.checkers@, i as int);
                }
                Some(&self.checkers[i].1)
            },
        }
    }

    /// Whether `id` is currently registered as a checker.
    pub fn is_checker(&self, id: &PeerID) -> (r: bool)
        ensures
            r == self@.checkers.contains_key(id@),
    {
        proof {
            lemma_assoc_map_contains(self.checkers@, id@);
        }
        let r = assoc_find(&self.checkers, id);
        r.is_some()
    }

    /// Whether `reporter` already holds an admissible vote against
    /// `subject` at `epoch`. A vote in a stale record does not count.
    pub fn has_voted(&self, subject: &PeerID, reporter: &PeerID, epoch: ChainEpoch) -> (r: bool)
        requires
            self.wf(),
        ensures
            r == spec_already_voted(self@.offline_checkers, subject@, reporter@, epoch),
    {
        proof {
            lemma_assoc_map_contains(self.offline_checkers@, subject@);
        }
        match assoc_find(&self.offline_checkers, subject) {
            None => false,
            Some(i) => {
                proof {
                    lemma_assoc_map_index(self.offline_checkers@, i as int);
                }
                let rec = &self.offline_checkers[i].1;
                if rec.within_threshold(epoch, self.vote_threshold()) {
                    false
                } else {
                    rec.has_voted(reporter)
                }
            },
        }
    }

    /// Admits a vote by `reporter` against `subject` at `epoch` and
    /// returns the number of votes the subject's record now holds.
    pub fn record_voted(&mut self, subject: &PeerID, reporter: &PeerID, epoch: ChainEpoch) -> (votes:
        usize)
        requires
            old(self).wf(),
            !spec_already_voted(old(self)@.offline_checkers, subject@, reporter@, epoch),
        ensures
            final(self).wf(),
            final(self)@.members == old(self)@.members,
            final(self)@.checkers == old(self)@.checkers,
            final(self)@.offline_checkers == old(self)@.offline_checkers.insert(
                subject@,
                spec_admit(old(self)@.offline_checkers, subject@, reporter@, epoch),
            ),
            votes == spec_admit(old(self)@.offline_checkers, subject@, reporter@, epoch).votes.len(),
    {
        let ghost l0 = self.offline_checkers@;
        proof {
            lemma_assoc_map_contains(l0, subject@);
        }
        match assoc_find(&self.offline_checkers, subject) {
            Some(i) => {
                proof {
                    lemma_assoc_map_index(l0, i as int);
                }
                let stale = self.offline_checkers[i].1.within_threshold(
                    epoch,
                    self.vote_threshold(),
                );
                if stale {
                    let mut rec = Votes::new(epoch);
                    rec.vote(reporter);
                    let key = subject.clone();
                    self.offline_checkers[i] = (key, rec);
                    proof {
                        lemma_assoc_map_update(l0, i as int, self.offline_checkers@[i as int]);
                        lemma_distinct_update(l0, i as int, self.offline_checkers@[i as int]);
                        assert(self.offline_checkers@[i as int].1@.votes =~= seq![reporter@]);
                    }
                    1
                } else {
                    let mut rec = self.offline_checkers[i].1.clone();
                    rec.last_vote = epoch;
                    rec.vote(reporter);
                    let n = rec.total_votes();
                    let key = subject.clone();
                    self.offline_checkers[i] = (key, rec);
                    proof {
                        lemma_assoc_map_update(l0, i as int, self.offline_checkers@[i as int]);
                        lemma_distinct_update(l0, i as int, self.offline_checkers@[i as int]);
                    }
                    n
                }
            },
            None => {
                let mut rec = Votes::new(epoch);
                rec.vote(reporter);
                let key = subject.clone();
                self.offline_checkers.push((key, rec));
                proof {
                    assert(self.offline_checkers@ =~= l0.push(self.offline_checkers@.last()));
                    lemma_assoc_map_push(l0, self.offline_checkers@.last());
                    lemma_distinct_push(l0, self.offline_checkers@.last());
                    assert(self.offline_checkers@.last().1@.votes =~= seq![reporter@]);
                }
                1
            },
        }
    }

    /// Current cardinality of the checkers collection, the quorum
    /// denominator.
    pub fn total_checkers(&self) -> (r: usize)
        requires
            self.wf(),
        ensures
            r == self@.checkers.dom().len(),
    {
        proof {
            lemma_assoc_map_len(self.checkers@);
        }
        self.checkers.len()
    }

    /// The fixed vote window.
    pub fn vote_threshold(&self) -> (r: ChainEpoch)
        ensures
            r == WINDOW_EPOCHS,
    {
        WINDOW_EPOCHS
    }
}

} // verus!
