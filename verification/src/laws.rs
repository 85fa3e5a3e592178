//! Laws of the vote ledger that span more than one operation: idempotence
//! of a vote within one window, and the discarding of stale voter sets
//! when a window resets.
use vstd::prelude::*;
use crate::map_state::{spec_admit, spec_already_voted, spec_is_stale, WINDOW_EPOCHS};
use crate::types::VotesView;
use crate::ChainEpoch;

verus! {

/// Idempotence within one window: once a vote by `reporter` against
/// `subject` is admitted at epoch `e1`, the ledger refuses a second vote
/// by the same reporter at any epoch `e2` that still lies within the
/// window of `e1`. A report whose vote would be refused fails with
/// `AlreadyVoted` and mutates nothing.
pub proof fn lemma_vote_idempotent(
    ledger: Map<Seq<char>, VotesView>,
    subject: Seq<char>,
    reporter: Seq<char>,
    e1: ChainEpoch,
    e2: ChainEpoch,
)
    requires
        e2 <= e1 + WINDOW_EPOCHS,
    ensures
        spec_already_voted(
            ledger.insert(subject, spec_admit(ledger, subject, reporter, e1)),
            subject,
            reporter,
            e2,
        ),
{
    let rec = spec_admit(ledger, subject, reporter, e1);
    assert(rec.votes.last() == reporter);
    assert(rec.votes.contains(reporter));
}

/// Window reset: when the record held for `subject` went stale (epoch `e2`
/// lies beyond the window of its most recent vote), a voter listed in it
/// is no longer refused; a new vote at `e2` is admitted as the sole vote
/// of a fresh window; and a voter of the discarded record, if distinct
/// from the new voter, may still vote after the reset.
pub proof fn lemma_window_reset(
    ledger: Map<Seq<char>, VotesView>,
    subject: Seq<char>,
    old_voter: Seq<char>,
    new_voter: Seq<char>,
    e2: ChainEpoch,
)
    requires
        ledger.contains_key(subject),
        spec_is_stale(ledger[subject], e2),
        old_voter != new_voter,
    ensures
        !spec_already_voted(ledger, subject, old_voter, e2),
        spec_admit(ledger, subject, new_voter, e2) == (VotesView {
            last_vote: e2,
            votes: seq![new_voter],
        }),
        !spec_already_voted(
            ledger.insert(subject, spec_admit(ledger, subject, new_voter, e2)),
            subject,
            old_voter,
            e2,
        ),
{
    let fresh = seq![new_voter];
    if fresh.contains(old_voter) {
        let i = choose|i: int| 0 <= i < fresh.len() && fresh[i] == old_voter;
        assert(fresh[i] == new_voter);
    }
}

} // verus!
