use p2p_signal::client::P2PClient;
use uuid::Uuid;
use p2p_signal::relay::{relay_status, RelayError, RoomConfig};

const DEFAULT_SERVER: &str = "stun:stun.l.google.com:19302";

#[test]
fn test_new_connections() {
    let server = "stun:stun.l.google.com:19302";
    let client = P2PClient::new(vec![server.to_string()], Uuid::new_v4().as_u128());

    assert_eq!(client.ice_servers()[0], server);
}

#[test]
fn test_default() {
    let client = P2PClient::with_default_server(Uuid::new_v4().as_u128());

    assert_eq!(client.ice_servers()[0], DEFAULT_SERVER);
}

#[test]
fn client_keeps_its_id() {
    let id = Uuid::parse_str("67e55044-10b1-426f-9247-bb680e5fe0c8").unwrap().as_u128();
    let client = P2PClient::new(vec!["stun:a".to_string(), "turn:b".to_string()], id);
    assert_eq!(client.id(), id);
    assert_eq!(client.ice_servers(), &vec!["stun:a".to_string(), "turn:b".to_string()]);
}

fn pairs(q: &[(String, String)]) -> Vec<(&str, &str)> {
    q.iter().map(|(k, v)| (k.as_str(), v.as_str())).collect()
}

#[test]
fn relay_requests() {
    let config = RoomConfig::new("r".to_string(), "c".to_string());
    let id = "67e55044-10b1-426f-9247-bb680e5fe0c8".to_string();
    let a = config.announce_request(&id);
    assert_eq!(a.path, "/announce");
    assert_eq!(pairs(&a.query), vec![("channel", "c"), ("room", "r"), ("peer_id", id.as_str())]);
    let g = config.candidates_request(&id);
    assert_eq!(g.path, "/candidate");
    assert_eq!(pairs(&g.query), vec![("channel", "c"), ("room", "r"), ("candidate_id", id.as_str())]);
    let p = config.peer_ids_request();
    assert_eq!(p.path, "/all_candidates");
    assert_eq!(pairs(&p.query), vec![("channel", "c"), ("room", "r")]);
    let rooms = config.rooms_request();
    assert_eq!(rooms.path, "/rooms");
    assert_eq!(pairs(&rooms.query), vec![("channel", "c")]);
}

#[test]
fn relay_statuses() {
    assert_eq!(relay_status(200), Ok(()));
    assert_eq!(relay_status(204), Ok(()));
    assert_eq!(relay_status(404), Err(RelayError::NotFound));
    assert_eq!(relay_status(400), Err(RelayError::InvalidPeerId));
    assert_eq!(relay_status(500), Err(RelayError::Transport(500)));
}
