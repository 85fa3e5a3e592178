use uptime_checker::actor::Actor;
use uptime_checker::error::Error;
use uptime_checker::map_state::MapState;
use uptime_checker::traits::UptimeCheckerActor;
use uptime_checker::types::{InitParams, NodeInfo, Votes};

fn node(id: &str, creator: u64) -> NodeInfo {
    NodeInfo::new(
        id.to_string(),
        creator,
        vec![format!("/ip4/10.1.1.1/tcp/8081/http/get/healthcheck/{id}")],
    )
}

#[test]
fn upsert_fresh_id_succeeds_for_any_caller() {
    let mut s = MapState::new(vec![]);
    assert_eq!(s.upsert_node(1, node("m1", 7)), Ok(()));
    assert_eq!(s.upsert_checker(99, node("c1", 2)), Ok(()));
    assert!(s.is_checker(&"c1".to_string()));
    assert!(!s.is_checker(&"m1".to_string()));
    assert_eq!(s.total_checkers(), 1);
}

#[test]
fn upsert_existing_by_non_owner_fails_not_owner() {
    let mut s = MapState::new(vec![]);
    assert_eq!(s.upsert_node(1, node("m1", 1)), Ok(()));
    assert_eq!(s.upsert_node(2, node("m1", 2)), Err(Error::NotOwner));
    // The stored record is unchanged: its creator is still account 1.
    assert_eq!(s.remove_node(2, &"m1".to_string()), Err(Error::NotOwner));
    assert_eq!(s.remove_node(1, &"m1".to_string()), Ok(()));
}

#[test]
fn upsert_by_owner_may_transfer_ownership() {
    let mut s = MapState::new(vec![]);
    assert_eq!(s.upsert_checker(1, node("c1", 1)), Ok(()));
    // The current owner hands the record to account 5.
    assert_eq!(s.upsert_checker(1, node("c1", 5)), Ok(()));
    // The old owner no longer may touch it; the new one may.
    assert_eq!(s.upsert_checker(1, node("c1", 1)), Err(Error::NotOwner));
    assert_eq!(s.upsert_checker(5, node("c1", 5)), Ok(()));
}

#[test]
fn remove_absent_fails_not_exists() {
    let mut s = MapState::new(vec![]);
    assert_eq!(s.remove_node(1, &"nope".to_string()), Err(Error::NotExists));
    assert_eq!(s.remove_checker(1, &"nope".to_string()), Err(Error::NotExists));
}

#[test]
fn remove_by_non_owner_fails_and_keeps_record() {
    let mut s = MapState::new(vec![]);
    assert_eq!(s.upsert_checker(3, node("c1", 3)), Ok(()));
    assert_eq!(s.remove_checker(4, &"c1".to_string()), Err(Error::NotOwner));
    assert!(s.is_checker(&"c1".to_string()));
    assert_eq!(s.remove_checker(3, &"c1".to_string()), Ok(()));
    assert!(!s.is_checker(&"c1".to_string()));
}

#[test]
fn remove_checker_unchecked_bypasses_ownership() {
    let mut s = MapState::new(vec![node("c1", 3)]);
    assert_eq!(s.remove_checker_unchecked(&"c1".to_string()), Ok(()));
    assert!(!s.is_checker(&"c1".to_string()));
    // Removing an absent id is still not an error on this path.
    assert_eq!(s.remove_checker_unchecked(&"c1".to_string()), Ok(()));
}

#[test]
fn members_and_checkers_are_independent_namespaces() {
    let mut s = MapState::new(vec![]);
    assert_eq!(s.upsert_node(1, node("p", 1)), Ok(()));
    assert_eq!(s.upsert_checker(2, node("p", 2)), Ok(()));
    assert_eq!(s.remove_node(1, &"p".to_string()), Ok(()));
    assert!(s.is_checker(&"p".to_string()));
}

#[test]
fn init_zips_parallel_arrays_into_checkers() {
    let params = InitParams {
        ids: vec!["a".to_string(), "b".to_string(), "c".to_string()],
        creators: vec![1, 2, 3],
        addresses: vec![
            vec!["/ip4/10.0.0.1/tcp/1".to_string()],
            vec![],
            vec!["/ip4/10.0.0.3/tcp/3".to_string(), "/ip4/10.0.0.3/tcp/4".to_string()],
        ],
    };
    let s = Actor::init(params);
    assert_eq!(s.total_checkers(), 3);
    assert!(s.is_checker(&"a".to_string()));
    assert!(s.is_checker(&"b".to_string()));
    assert!(s.is_checker(&"c".to_string()));
    assert!(!s.is_checker(&"d".to_string()));
}

#[test]
fn init_later_duplicate_id_replaces_earlier() {
    let params = InitParams {
        ids: vec!["a".to_string(), "a".to_string()],
        creators: vec![1, 2],
        addresses: vec![vec![], vec![]],
    };
    let mut s = Actor::init(params);
    assert_eq!(s.total_checkers(), 1);
    // The stored record is the later one, owned by account 2.
    assert_eq!(s.remove_checker(1, &"a".to_string()), Err(Error::NotOwner));
    assert_eq!(s.remove_checker(2, &"a".to_string()), Ok(()));
}

#[test]
fn actor_edit_and_rm_delegate_to_the_store() {
    let mut s = Actor::init(InitParams { ids: vec![], creators: vec![], addresses: vec![] });
    assert_eq!(Actor::new_member(&mut s, 1, node("m", 1)), Ok(()));
    assert_eq!(Actor::edit_member(&mut s, 2, node("m", 2)), Err(Error::NotOwner));
    assert_eq!(Actor::edit_member(&mut s, 1, node("m", 1)), Ok(()));
    assert_eq!(Actor::new_checker(&mut s, 1, node("c", 1)), Ok(()));
    assert_eq!(Actor::edit_checker(&mut s, 1, node("c", 1)), Ok(()));
    assert_eq!(Actor::rm_checker(&mut s, 2, &"c".to_string()), Err(Error::NotOwner));
    assert_eq!(Actor::rm_checker(&mut s, 1, &"c".to_string()), Ok(()));
    assert_eq!(Actor::rm_member(&mut s, 1, &"m".to_string()), Ok(()));
    assert_eq!(Actor::rm_member(&mut s, 1, &"m".to_string()), Err(Error::NotExists));
}

#[test]
fn get_returns_the_stored_record() {
    let mut s = MapState::new(vec![node("c1", 3)]);
    assert_eq!(s.upsert_node(1, node("m1", 1)), Ok(()));
    let m = s.get_node(&"m1".to_string()).expect("stored member");
    assert_eq!(m.id(), "m1");
    assert_eq!(*m.creator(), 1);
    assert!(s.get_node(&"c1".to_string()).is_none());
    let c = s.get_checker(&"c1".to_string()).expect("stored checker");
    assert_eq!(*c.creator(), 3);
    assert!(s.get_checker(&"m1".to_string()).is_none());
}

#[test]
fn node_info_accessors() {
    let n = node("peer-1", 42);
    assert_eq!(n.id(), "peer-1");
    assert_eq!(*n.creator(), 42);
}

#[test]
fn votes_record_behaviour() {
    let mut v = Votes::new(10);
    assert_eq!(v.total_votes(), 0);
    assert!(!v.has_voted(&"a".to_string()));
    v.vote(&"a".to_string());
    assert_eq!(v.total_votes(), 1);
    assert!(v.has_voted(&"a".to_string()));
    assert!(!v.has_voted(&"b".to_string()));
    // Stale exactly when the last vote is older than the whole window:
    // 10 + 200 < epoch.
    assert!(!v.within_threshold(210, 200));
    assert!(v.within_threshold(211, 200));
}

#[test]
fn error_codes_are_stable() {
    assert_eq!(Error::AlreadyVoted.code(), 10002);
    assert_eq!(Error::CannotDeserialize.code(), 10003);
    assert_eq!(Error::NotOwner.code(), 10009);
    assert_eq!(Error::NotExists.code(), 10010);
    assert_eq!(Error::NotCaller.code(), 10011);
    assert_eq!(Error::Storage(17).code(), 17);
    assert_eq!(Error::NotOwner.msg(), "");
}
