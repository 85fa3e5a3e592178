use uptime_checker::actor::Actor;
use uptime_checker::error::Error;
use uptime_checker::map_state::MapState;
use uptime_checker::traits::UptimeCheckerActor;
use uptime_checker::types::NodeInfo;

fn checker(id: &str, creator: u64) -> NodeInfo {
    NodeInfo::new(id.to_string(), creator, vec![format!("/ip4/10.1.1.1/quic/8080/p2p/{id}/ping")])
}

/// Three checkers a, b, c owned by accounts 1, 2, 3.
fn three_checkers() -> MapState {
    MapState::new(vec![checker("a", 1), checker("b", 2), checker("c", 3)])
}

fn four_checkers() -> MapState {
    MapState::new(vec![checker("a", 1), checker("b", 2), checker("c", 3), checker("d", 4)])
}

fn s(x: &str) -> String {
    x.to_string()
}

#[test]
fn non_checker_report_fails_not_caller_without_mutation() {
    let mut st = three_checkers();
    let before = st.to_bytes();
    assert_eq!(Actor::report_checker(&mut st, &s("x"), &s("a"), 10), Err(Error::NotCaller));
    assert_eq!(st.to_bytes(), before);
}

#[test]
fn second_report_within_window_fails_already_voted() {
    let mut st = three_checkers();
    assert_eq!(Actor::report_checker(&mut st, &s("b"), &s("a"), 10), Ok(()));
    let before = st.to_bytes();
    assert_eq!(Actor::report_checker(&mut st, &s("b"), &s("a"), 15), Err(Error::AlreadyVoted));
    assert_eq!(st.to_bytes(), before);
    // At the very edge of the window the vote still counts as held:
    // 10 + 200 < 210 is false.
    assert_eq!(Actor::report_checker(&mut st, &s("b"), &s("a"), 210), Err(Error::AlreadyVoted));
}

#[test]
fn window_reset_discards_prior_voters() {
    let mut st = three_checkers();
    assert_eq!(Actor::report_checker(&mut st, &s("b"), &s("a"), 10), Ok(()));
    // Epoch 211 lies beyond the window of epoch 10 (10 + 200 < 211): the
    // record is stale and starts over with c as the sole voter.
    assert_eq!(Actor::report_checker(&mut st, &s("c"), &s("a"), 211), Ok(()));
    // The discarded voter b may vote again in the fresh window.
    assert_eq!(Actor::report_checker(&mut st, &s("b"), &s("a"), 211), Ok(()));
    // Two votes of three checkers do not reach quorum: a stays.
    assert!(st.is_checker(&s("a")));
    // But c voted in the fresh window already.
    assert_eq!(Actor::report_checker(&mut st, &s("c"), &s("a"), 212), Err(Error::AlreadyVoted));
}

#[test]
fn stale_report_by_earlier_voter_starts_fresh_window() {
    let mut st = three_checkers();
    assert_eq!(Actor::report_checker(&mut st, &s("b"), &s("a"), 10), Ok(()));
    // The same reporter, after the window lapsed, is admitted again
    // rather than refused.
    assert_eq!(Actor::report_checker(&mut st, &s("b"), &s("a"), 300), Ok(()));
    assert!(st.is_checker(&s("a")));
}

#[test]
fn quorum_with_three_checkers_needs_three_votes() {
    let mut st = three_checkers();
    // 3 * 20000 / 30000 = 2, so eviction needs strictly more than 2 votes.
    assert_eq!(Actor::report_checker(&mut st, &s("b"), &s("a"), 10), Ok(()));
    assert!(st.is_checker(&s("a")));
    assert_eq!(Actor::report_checker(&mut st, &s("c"), &s("a"), 15), Ok(()));
    assert!(st.is_checker(&s("a")));
    assert_eq!(Actor::report_checker(&mut st, &s("a"), &s("a"), 20), Ok(()));
    assert!(!st.is_checker(&s("a")));
    assert_eq!(st.total_checkers(), 2);
}

#[test]
fn quorum_with_four_checkers_needs_three_votes() {
    let mut st = four_checkers();
    // 4 * 20000 / 30000 = 2, so the third vote evicts.
    assert_eq!(Actor::report_checker(&mut st, &s("b"), &s("a"), 10), Ok(()));
    assert_eq!(Actor::report_checker(&mut st, &s("c"), &s("a"), 11), Ok(()));
    assert!(st.is_checker(&s("a")));
    assert_eq!(Actor::report_checker(&mut st, &s("d"), &s("a"), 12), Ok(()));
    assert!(!st.is_checker(&s("a")));
    assert_eq!(st.total_checkers(), 3);
}

#[test]
fn evicted_checker_can_no_longer_report() {
    let mut st = four_checkers();
    assert_eq!(Actor::report_checker(&mut st, &s("b"), &s("a"), 10), Ok(()));
    assert_eq!(Actor::report_checker(&mut st, &s("c"), &s("a"), 11), Ok(()));
    assert_eq!(Actor::report_checker(&mut st, &s("d"), &s("a"), 12), Ok(()));
    assert!(!st.is_checker(&s("a")));
    assert_eq!(Actor::report_checker(&mut st, &s("a"), &s("b"), 13), Err(Error::NotCaller));
}

#[test]
fn end_to_end_boundary_at_two_thirds() {
    // Initialize with three checkers; two distinct reports within one
    // window reach exactly the 2/3 floor and must NOT evict.
    let mut st = three_checkers();
    assert_eq!(Actor::report_checker(&mut st, &s("b"), &s("a"), 10), Ok(()));
    assert_eq!(Actor::report_checker(&mut st, &s("c"), &s("a"), 15), Ok(()));
    assert!(st.is_checker(&s("a")));
    assert_eq!(st.total_checkers(), 3);
}

#[test]
fn report_on_fresh_subject_starts_a_record() {
    let mut st = three_checkers();
    // The subject need not be a checker for votes to accumulate; only the
    // reporter is gated.
    assert_eq!(Actor::report_checker(&mut st, &s("b"), &s("ghost"), 10), Ok(()));
    assert_eq!(Actor::report_checker(&mut st, &s("b"), &s("ghost"), 11), Err(Error::AlreadyVoted));
}

#[test]
fn quorum_denominator_is_read_live() {
    // With four checkers, two votes do not evict; after one checker
    // removes itself the population is three, yet eviction still needs
    // more than 3 * 2/3 = 2 votes held by current rules, so a third
    // distinct vote evicts.
    let mut st = four_checkers();
    assert_eq!(Actor::report_checker(&mut st, &s("b"), &s("a"), 10), Ok(()));
    assert_eq!(Actor::report_checker(&mut st, &s("c"), &s("a"), 11), Ok(()));
    assert!(st.is_checker(&s("a")));
    assert_eq!(Actor::rm_checker(&mut st, 4, &s("d")), Ok(()));
    assert_eq!(st.total_checkers(), 3);
    assert_eq!(Actor::report_checker(&mut st, &s("a"), &s("a"), 12), Ok(()));
    assert!(!st.is_checker(&s("a")));
}
