use uptime_checker::actor::Actor;
use uptime_checker::map_state::MapState;
use uptime_checker::traits::UptimeCheckerActor;
use uptime_checker::types::NodeInfo;

fn node(id: &str, creator: u64, addrs: &[&str]) -> NodeInfo {
    NodeInfo::new(id.to_string(), creator, addrs.iter().map(|a| a.to_string()).collect())
}

fn s(x: &str) -> String {
    x.to_string()
}

/// A state with members, checkers and accumulated votes.
fn populated() -> MapState {
    let mut st = MapState::new(vec![
        node("a", 1, &["/ip4/10.0.0.1/tcp/1"]),
        node("b", 2, &[]),
        node("c", 3, &["/ip4/10.0.0.3/tcp/3", "/ip4/10.0.0.3/tcp/4"]),
    ]);
    st.upsert_node(9, node("m1", 9, &["/ip4/10.9.9.9/tcp/9"])).unwrap();
    st.upsert_node(8, node("m2", 8, &[])).unwrap();
    Actor::report_checker(&mut st, &s("b"), &s("a"), 10).unwrap();
    Actor::report_checker(&mut st, &s("c"), &s("a"), 15).unwrap();
    st
}

#[test]
fn round_trip_restores_identical_logical_state() {
    let st = populated();
    let bytes = st.to_bytes();
    let mut st2 = MapState::from_bytes(&bytes).expect("the snapshot must parse");
    // Same checkers.
    assert_eq!(st2.total_checkers(), 3);
    assert!(st2.is_checker(&s("a")));
    assert!(st2.is_checker(&s("b")));
    assert!(st2.is_checker(&s("c")));
    // Same vote records: b and c still hold votes against a within the
    // window, so both are refused and a third vote evicts.
    assert_eq!(
        Actor::report_checker(&mut st2, &s("b"), &s("a"), 20),
        Err(uptime_checker::error::Error::AlreadyVoted)
    );
    assert_eq!(Actor::report_checker(&mut st2, &s("a"), &s("a"), 20), Ok(()));
    assert!(!st2.is_checker(&s("a")));
    // Same members: their owners still gate removal.
    assert_eq!(
        st2.remove_node(1, &s("m1")),
        Err(uptime_checker::error::Error::NotOwner)
    );
    assert_eq!(st2.remove_node(9, &s("m1")), Ok(()));
    assert_eq!(st2.remove_node(8, &s("m2")), Ok(()));
}

#[test]
fn serialization_is_deterministic() {
    let st = populated();
    assert_eq!(st.to_bytes(), st.to_bytes());
    let st2 = MapState::from_bytes(&st.to_bytes()).unwrap();
    // The reloaded state serializes to the very same bytes.
    assert_eq!(st2.to_bytes(), st.to_bytes());
}

#[test]
fn empty_state_round_trips() {
    let st = MapState::new(vec![]);
    let st2 = MapState::from_bytes(&st.to_bytes()).unwrap();
    assert_eq!(st2.total_checkers(), 0);
    assert_eq!(st2.to_bytes(), st.to_bytes());
}

#[test]
fn non_ascii_ids_round_trip() {
    let st = MapState::new(vec![node("pëer-ø-🌐", 7, &["/dns4/höst/tcp/443"])]);
    let st2 = MapState::from_bytes(&st.to_bytes()).unwrap();
    assert!(st2.is_checker(&s("pëer-ø-🌐")));
    assert!(!st2.is_checker(&s("peer-o-?")));
    assert_eq!(st2.to_bytes(), st.to_bytes());
}

#[test]
fn exact_bytes_of_small_snapshots() {
    // An empty state is three zero counts of eight big-endian bytes each.
    assert_eq!(MapState::new(vec![]).to_bytes(), vec![0u8; 24]);
    // One checker "a" owned by account 5 with no addresses.
    let st = MapState::new(vec![node("a", 5, &[])]);
    let mut expect = vec![0u8; 7];
    expect.push(0); // no members
    expect.extend_from_slice(&[0, 0, 0, 0, 0, 0, 0, 1]); // one checker
    expect.extend_from_slice(&[0, 0, 0, 0, 0, 0, 0, 1]); // id byte length
    expect.push(b'a');
    expect.extend_from_slice(&[0, 0, 0, 0, 0, 0, 0, 5]); // creator
    expect.extend_from_slice(&[0, 0, 0, 0, 0, 0, 0, 0]); // no addresses
    expect.extend_from_slice(&[0, 0, 0, 0, 0, 0, 0, 0]); // empty ledger
    assert_eq!(st.to_bytes(), expect);
}

#[test]
fn from_bytes_rejects_malformed_input() {
    assert!(MapState::from_bytes(&vec![]).is_none());
    assert!(MapState::from_bytes(&vec![1, 2, 3]).is_none());
    // A huge claimed count with no entries behind it.
    assert!(MapState::from_bytes(&vec![0xff; 8]).is_none());
    // A valid snapshot with trailing bytes is refused as a whole.
    let mut bytes = populated().to_bytes();
    bytes.push(0);
    assert!(MapState::from_bytes(&bytes).is_none());
    // A truncated snapshot is refused.
    let bytes = populated().to_bytes();
    let cut = bytes[..bytes.len() - 1].to_vec();
    assert!(MapState::from_bytes(&cut).is_none());
    // Invalid UTF-8 where a string is announced: one string of length 1
    // holding byte 0xff.
    let mut b = vec![0u8; 7];
    b.push(1); // members count = 1
    b.extend_from_slice(&[0, 0, 0, 0, 0, 0, 0, 1]); // id byte length = 1
    b.push(0xff); // not valid UTF-8
    assert!(MapState::from_bytes(&b).is_none());
}
