//! The actor: the protocol façade implementing the public operations.
use vstd::prelude::*;
use crate::error::Error;
use crate::map_state::MapState;
use crate::traits::UptimeCheckerActor;
use crate::types::{InitParams, NodeInfo};
use crate::{ActorID, ChainEpoch, PeerID};

verus! {

/// Numerator of the quorum ratio: votes must strictly exceed
/// `THRESHOLD_NUM / THRESHOLD_DUM` of the current checker population.
pub const THRESHOLD_NUM: u64 = 20000;

/// Denominator of the quorum ratio.
pub const THRESHOLD_DUM: u64 = 30000;

pub struct Actor;

impl UptimeCheckerActor for Actor {
    fn init(params: InitParams) -> (r: MapState) {
        let len = params.ids.len();
        let mut nodes: Vec<NodeInfo> = Vec::new();
        for i in 0..len
            invariant
                len == params.ids@.len(),
                params.lens_match(),
                nodes@.len() == i,
                forall|k: int| 0 <= k < i ==> nodes.deep_view()[k] == params.spec_nodes()[k],
        {
            let id = params.ids[i].clone();
            let creator = params.creators[i];
            let addrs = params.addresses[i].clone();
            nodes.push(NodeInfo::new(id, creator, addrs));
        }
        proof {
            assert(nodes.deep_view() =~= params.spec_nodes());
        }
        MapState::new(nodes)
    }

    fn new_checker(s: &mut MapState, caller: ActorID, c: NodeInfo) -> (r: Result<(), Error>) {
        s.upsert_checker(caller, c)
    }

    fn new_member(s: &mut MapState, caller: ActorID, m: NodeInfo) -> (r: Result<(), Error>) {
        s.upsert_node(caller, m)
    }

    fn edit_checker(s: &mut MapState, caller: ActorID, c: NodeInfo) -> (r: Result<(), Error>) {
        s.upsert_checker(caller, c)
    }

    fn edit_member(s: &mut MapState, caller: ActorID, m: NodeInfo) -> (r: Result<(), Error>) {
        s.upsert_node(caller, m)
    }

    fn rm_checker(s: &mut MapState, caller: ActorID, id: &PeerID) -> (r: Result<(), Error>) {
        s.remove_checker(caller, id)
    }

    fn rm_member(s: &mut MapState, caller: ActorID, id: &PeerID) -> (r: Result<(), Error>) {
        s.remove_node(caller, id)
    }

    fn report_checker(s: &mut MapState, caller: &PeerID, subject: &PeerID, epoch: ChainEpoch) -> (r:
        Result<(), Error>) {
        if !s.is_checker(caller) {
            return Err(Error::NotCaller);
        }
        if s.has_voted(subject, caller, epoch) {
            return Err(Error::AlreadyVoted);
        }
        let votes = s.record_voted(subject, caller, epoch);
        let total_checkers = s.total_checkers();
        if (total_checkers as u128) * (THRESHOLD_NUM as u128) / (THRESHOLD_DUM as u128) < (
        votes as u128) {
            match s.remove_checker_unchecked(subject) {
                Ok(()) => {},
                Err(_) => {},
            }
        }
        Ok(())
    }
}

} // verus!
