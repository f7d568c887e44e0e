use p2p_signal::store::{CandidateStore, StoreError};

const U1: &str = "67e55044-10b1-426f-9247-bb680e5fe0c8";
const U2: &str = "a1a2a3a4-b1b2-c1c2-d1d2-d3d4d5d6d7d8";
const U3: &str = "936da01f-9abd-4d9d-80c7-02af85c822a8";

fn s(x: &str) -> String {
    x.to_string()
}

fn strings(xs: &[&str]) -> Vec<String> {
    xs.iter().map(|x| x.to_string()).collect()
}

#[test]
fn announce_then_get_candidates() {
    let mut store = CandidateStore::new();
    assert_eq!(store.announce(&s("c"), &s("r"), U1, strings(&["x", "y"]), None, 100), Ok(()));
    assert_eq!(store.get_candidates(&s("c"), &s("r"), U1), Ok(strings(&["x", "y"])));
    assert_eq!(store.get_candidates(&s("c"), &s("r"), U2), Err(StoreError::NotFound));
}

#[test]
fn absent_channel_or_room_is_not_found() {
    let mut store = CandidateStore::new();
    store.announce(&s("c"), &s("r"), U1, strings(&["x"]), None, 100).unwrap();
    assert_eq!(store.get_candidates(&s("other"), &s("r"), U1), Err(StoreError::NotFound));
    assert_eq!(store.get_candidates(&s("c"), &s("other"), U1), Err(StoreError::NotFound));
    assert_eq!(store.get_candidates(&s("c"), &s("r"), "not-a-uuid"), Err(StoreError::NotFound));
    assert_eq!(store.list_peer_ids(&s("c"), &s("other")), Err(StoreError::NotFound));
    assert_eq!(store.list_rooms(&s("other")), Err(StoreError::NotFound));
}

#[test]
fn announces_append_without_loss() {
    let mut store = CandidateStore::new();
    store.announce(&s("c"), &s("r"), U1, strings(&["a", "b"]), None, 1).unwrap();
    store.announce(&s("c"), &s("r"), U1, Vec::new(), Some(s("offer")), 2).unwrap();
    store.announce(&s("c"), &s("r"), U1, strings(&["a", "d", "e"]), None, 3).unwrap();
    let held = store.get_candidates(&s("c"), &s("r"), U1).unwrap();
    assert_eq!(held.len(), 5);
    assert_eq!(held, strings(&["a", "b", "a", "d", "e"]));
}

#[test]
fn invalid_peer_id_is_refused() {
    let mut store = CandidateStore::new();
    assert_eq!(
        store.announce(&s("c"), &s("r"), "peer-one", strings(&["x"]), None, 1),
        Err(StoreError::InvalidPeerId)
    );
    assert_eq!(store.list_rooms(&s("c")), Err(StoreError::NotFound));
    assert_eq!(StoreError::InvalidPeerId.status_code(), 400);
    assert_eq!(StoreError::NotFound.status_code(), 404);
}

#[test]
fn peer_ids_and_rooms_are_listed_once() {
    let mut store = CandidateStore::new();
    store.announce(&s("c"), &s("r"), U1, strings(&["x"]), None, 1).unwrap();
    store.announce(&s("c"), &s("r"), U2, strings(&["y"]), None, 1).unwrap();
    store.announce(&s("c"), &s("r"), U1, strings(&["z"]), None, 2).unwrap();
    store.announce(&s("c"), &s("q"), U3, strings(&["w"]), None, 2).unwrap();
    store.announce(&s("d"), &s("r"), U3, strings(&["v"]), None, 2).unwrap();
    let mut ids = store.list_peer_ids(&s("c"), &s("r")).unwrap();
    ids.sort();
    let mut expected = vec![
        uuid::Uuid::parse_str(U1).unwrap().as_u128(),
        uuid::Uuid::parse_str(U2).unwrap().as_u128(),
    ];
    expected.sort();
    assert_eq!(ids, expected);
    let mut rooms = store.list_rooms(&s("c")).unwrap();
    rooms.sort();
    assert_eq!(rooms, strings(&["q", "r"]));
    assert_eq!(store.list_rooms(&s("d")).unwrap(), strings(&["r"]));
}

#[test]
fn uppercase_and_simple_uuid_forms_name_the_same_peer() {
    let mut store = CandidateStore::new();
    store.announce(&s("c"), &s("r"), U1, strings(&["x"]), None, 1).unwrap();
    store
        .announce(&s("c"), &s("r"), "67E5504410B1426F9247BB680E5FE0C8", strings(&["y"]), None, 2)
        .unwrap();
    assert_eq!(store.get_candidates(&s("c"), &s("r"), U1), Ok(strings(&["x", "y"])));
    assert_eq!(store.list_peer_ids(&s("c"), &s("r")).unwrap().len(), 1);
}

#[test]
fn sweep_removes_exactly_the_expired() {
    let mut store = CandidateStore::new();
    store.announce(&s("c"), &s("r"), U1, strings(&["x"]), None, 100).unwrap();
    store.announce(&s("c"), &s("r"), U2, strings(&["y"]), None, 141).unwrap();
    // U1 is 60 old: expired; U2 is 19 old: kept.
    store.sweep(160, 60);
    assert_eq!(store.get_candidates(&s("c"), &s("r"), U1), Err(StoreError::NotFound));
    assert_eq!(store.get_candidates(&s("c"), &s("r"), U2), Ok(strings(&["y"])));
    // 59 old is kept.
    store.sweep(200, 60);
    assert_eq!(store.get_candidates(&s("c"), &s("r"), U2), Ok(strings(&["y"])));
}

#[test]
fn reannounce_resets_the_timer() {
    let mut store = CandidateStore::new();
    store.announce(&s("c"), &s("r"), U1, strings(&["x"]), None, 0).unwrap();
    store.announce(&s("c"), &s("r"), U1, strings(&["y"]), None, 60).unwrap();
    store.sweep(60, 60);
    assert_eq!(store.get_candidates(&s("c"), &s("r"), U1), Ok(strings(&["x", "y"])));
}

#[test]
fn entry_from_the_future_is_kept() {
    let mut store = CandidateStore::new();
    store.announce(&s("c"), &s("r"), U1, strings(&["x"]), None, 500).unwrap();
    store.sweep(10, 60);
    assert_eq!(store.get_candidates(&s("c"), &s("r"), U1), Ok(strings(&["x"])));
}

#[test]
fn zero_ttl_expires_everything() {
    let mut store = CandidateStore::new();
    store.announce(&s("c"), &s("r"), U1, strings(&["x"]), None, 10).unwrap();
    store.sweep(10, 0);
    assert_eq!(store.list_rooms(&s("c")), Err(StoreError::NotFound));
}

#[test]
fn emptied_room_leaves_the_room_list() {
    let mut store = CandidateStore::new();
    store.announce(&s("c"), &s("old"), U1, strings(&["x"]), None, 0).unwrap();
    store.announce(&s("c"), &s("old"), U2, strings(&["y"]), None, 5).unwrap();
    store.announce(&s("c"), &s("new"), U3, strings(&["z"]), None, 50).unwrap();
    store.sweep(70, 60);
    assert_eq!(store.list_rooms(&s("c")).unwrap(), strings(&["new"]));
    assert_eq!(store.list_peer_ids(&s("c"), &s("old")), Err(StoreError::NotFound));
    store.sweep(200, 60);
    assert_eq!(store.list_rooms(&s("c")), Err(StoreError::NotFound));
}
