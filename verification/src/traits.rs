//! The protocol's public operations. Each operation works on an in-memory
//! state snapshot that the host loads before the call and persists after
//! it; the authenticated caller and the current epoch come in as explicit
//! arguments.
use vstd::prelude::*;
use crate::error::Error;
use crate::map_state::{spec_admit, spec_already_voted, MapState};
use crate::types::{InitParams, NodeInfo};
use crate::{ActorID, ChainEpoch, PeerID};

verus! {

pub trait UptimeCheckerActor {
    /// Initializes the state of the uptime actor from an initial list of
    /// checkers, given as parallel arrays zipped pairwise. Members and the
    /// vote ledger start empty.
    ///
    /// Allowed callers: any account.
    fn init(params: InitParams) -> (r: MapState)
        requires
            params.lens_match(),
        ensures
            r.wf(),
            r@.members == Map::<Seq<char>, crate::types::NodeInfoView>::empty(),
            r@.offline_checkers == Map::<Seq<char>, crate::types::VotesView>::empty(),
            r@.checkers == MapState::spec_seed(params.spec_nodes()),
    ;

    /// Adds a new checker under `c`'s peer id. Registering a fresh id
    /// succeeds for any caller; replacing an existing record requires the
    /// caller to be its stored creator.
    ///
    /// Allowed callers: any account (fresh id), the record's owner
    /// otherwise.
    fn new_checker(s: &mut MapState, caller: ActorID, c: NodeInfo) -> (r: Result<(), Error>)
        requires
            old(s).wf(),
        ensures
            final(s).wf(),
            final(s)@.members == old(s)@.members,
            final(s)@.offline_checkers == old(s)@.offline_checkers,
            (if old(s)@.checkers.contains_key(c@.id) && old(s)@.checkers[c@.id].creator != caller {
                r == Err::<(), Error>(Error::NotOwner) && final(s)@.checkers == old(s)@.checkers
            } else {
                r == Ok::<(), Error>(()) && final(s)@.checkers == old(s)@.checkers.insert(
                    c@.id,
                    c@,
                )
            }),
    ;

    /// Adds a new member under `m`'s peer id, with the same ownership rule
    /// as `new_checker`.
    fn new_member(s: &mut MapState, caller: ActorID, m: NodeInfo) -> (r: Result<(), Error>)
        requires
            old(s).wf(),
        ensures
            final(s).wf(),
            final(s)@.checkers == old(s)@.checkers,
            final(s)@.offline_checkers == old(s)@.offline_checkers,
            (if old(s)@.members.contains_key(m@.id) && old(s)@.members[m@.id].creator != caller {
                r == Err::<(), Error>(Error::NotOwner) && final(s)@.members == old(s)@.members
            } else {
                r == Ok::<(), Error>(()) && final(s)@.members == old(s)@.members.insert(m@.id, m@)
            }),
    ;

    /// Edits the record of a checker. Only the stored creator may edit,
    /// and the replacement may change any field, the creator included
    /// (ownership transfer).
    fn edit_checker(s: &mut MapState, caller: ActorID, c: NodeInfo) -> (r: Result<(), Error>)
        requires
            old(s).wf(),
        ensures
            final(s).wf(),
            final(s)@.members == old(s)@.members,
            final(s)@.offline_checkers == old(s)@.offline_checkers,
            (if old(s)@.checkers.contains_key(c@.id) && old(s)@.checkers[c@.id].creator != caller {
                r == Err::<(), Error>(Error::NotOwner) && final(s)@.checkers == old(s)@.checkers
            } else {
                r == Ok::<(), Error>(()) && final(s)@.checkers == old(s)@.checkers.insert(
                    c@.id,
                    c@,
                )
            }),
    ;

    /// Edits the record of a member, with the same ownership rule as
    /// `edit_checker`.
    fn edit_member(s: &mut MapState, caller: ActorID, m: NodeInfo) -> (r: Result<(), Error>)
        requires
            old(s).wf(),
        ensures
            final(s).wf(),
            final(s)@.checkers == old(s)@.checkers,
            final(s)@.offline_checkers == old(s)@.offline_checkers,
            (if old(s)@.members.contains_key(m@.id) && old(s)@.members[m@.id].creator != caller {
                r == Err::<(), Error>(Error::NotOwner) && final(s)@.members == old(s)@.members
            } else {
                r == Ok::<(), Error>(()) && final(s)@.members == old(s)@.members.insert(m@.id, m@)
            }),
    ;

    /// Removes the checker registered under `id`. Fails with `NotExists`
    /// on an absent id and with `NotOwner` when the caller is not the
    /// stored creator.
    fn rm_checker(s: &mut MapState, caller: ActorID, id: &PeerID) -> (r: Result<(), Error>)
        requires
            old(s).wf(),
        ensures
            final(s).wf(),
            final(s)@.members == old(s)@.members,
            final(s)@.offline_checkers == old(s)@.offline_checkers,
            (if !old(s)@.checkers.contains_key(id@) {
                r == Err::<(), Error>(Error::NotExists) && final(s)@.checkers == old(s)@.checkers
            } else if old(s)@.checkers[id@].creator != caller {
                r == Err::<(), Error>(Error::NotOwner) && final(s)@.checkers == old(s)@.checkers
            } else {
                r == Ok::<(), Error>(()) && final(s)@.checkers == old(s)@.checkers.remove(id@)
            }),
    ;

    /// Removes the member registered under `id`, with the same rules as
    /// `rm_checker`.
    fn rm_member(s: &mut MapState, caller: ActorID, id: &PeerID) -> (r: Result<(), Error>)
        requires
            old(s).wf(),
        ensures
            final(s).wf(),
            final(s)@.checkers == old(s)@.checkers,
            final(s)@.offline_checkers == old(s)@.offline_checkers,
            (if !old(s)@.members.contains_key(id@) {
                r == Err::<(), Error>(Error::NotExists) && final(s)@.members == old(s)@.members
            } else if old(s)@.members[id@].creator != caller {
                r == Err::<(), Error>(Error::NotOwner) && final(s)@.members == old(s)@.members
            } else {
                r == Ok::<(), Error>(()) && final(s)@.members == old(s)@.members.remove(id@)
            }),
    ;

    /// Reports the checker `subject` as offline, on behalf of the checker
    /// `caller`. Fails with `NotCaller` when the caller is not itself a
    /// registered checker, and with `AlreadyVoted` when it already holds
    /// an admissible vote against the subject; either failure leaves the
    /// state unchanged. Otherwise the vote is admitted (appended within a
    /// live window, or opening a fresh window when no record exists or the
    /// record went stale), and the subject is evicted from the checkers
    /// collection exactly when the admitted votes strictly exceed two
    /// thirds of the current checker population.
    fn report_checker(s: &mut MapState, caller: &PeerID, subject: &PeerID, epoch: ChainEpoch) -> (r:
        Result<(), Error>)
        requires
            old(s).wf(),
        ensures
            final(s).wf(),
            final(s)@.members == old(s)@.members,
            (if !old(s)@.checkers.contains_key(caller@) {
                &&& r == Err::<(), Error>(Error::NotCaller)
                &&& final(s)@.checkers == old(s)@.checkers
                &&& final(s)@.offline_checkers == old(s)@.offline_checkers
            } else if spec_already_voted(old(s)@.offline_checkers, subject@, caller@, epoch) {
                &&& r == Err::<(), Error>(Error::AlreadyVoted)
                &&& final(s)@.checkers == old(s)@.checkers
                &&& final(s)@.offline_checkers == old(s)@.offline_checkers
            } else {
                &&& r == Ok::<(), Error>(())
                &&& final(s)@.offline_checkers == old(s)@.offline_checkers.insert(
                    subject@,
                    spec_admit(old(s)@.offline_checkers, subject@, caller@, epoch),
                )
                &&& (if old(s)@.checkers.dom().len() * 20000 / 30000 < spec_admit(
                    old(s)@.offline_checkers,
                    subject@,
                    caller@,
                    epoch,
                ).votes.len() {
                    final(s)@.checkers == old(s)@.checkers.remove(subject@)
                } else {
                    final(s)@.checkers == old(s)@.checkers
                })
            }),
    ;
}

} // verus!
