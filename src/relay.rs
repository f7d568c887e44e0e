//! The relay's wire contract as seen by a peer: which request each operation makes
//! under a room identity, and what a response status means.
use vstd::prelude::*;

verus! {

/// The (channel, room) pair that two peers agree on out of band.
#[derive(Debug, Clone)]
pub struct RoomConfig {
    pub room: String,
    pub channel: String,
}

/// A request to the relay: the path below its base address and the query pairs.
#[derive(Debug, Clone)]
pub struct RelayRequest {
    pub path: String,
    pub query: Vec<(String, String)>,
}

/// Why a relay request did not succeed.
#[derive(Debug, Clone, Copy, PartialEq, Eq, Structural)]
pub enum RelayError {
    /// The channel, the room or the peer is unknown to the relay.
    NotFound,
    /// The relay refused the peer id.
    InvalidPeerId,
    /// Any other status; the status.
    Transport(u16),
}

/// The character sequences of query pairs.
pub open spec fn pair_texts(q: Seq<(String, String)>) -> Seq<(Seq<char>, Seq<char>)> {
    q.map_values(|p: (String, String)| (p.0@, p.1@))
}

/// The meaning of a response status.
pub open spec fn status_meaning(status: u16) -> Result<(), RelayError> {
    if 200 <= status < 300 {
        Ok(())
    } else if status == 404 {
        Err(RelayError::NotFound)
    } else if status == 400 {
        Err(RelayError::InvalidPeerId)
    } else {
        Err(RelayError::Transport(status))
    }
}

/// What a response status means: success for 2xx, `NotFound` for 404, `InvalidPeerId`
/// for 400, `Transport` for any other.
pub fn relay_status(status: u16) -> (r: Result<(), RelayError>)
    ensures
        r == status_meaning(status),
{
    if 200 <= status && status < 300 {
        Ok(())
    } else if status == 404 {
        Err(RelayError::NotFound)
    } else if status == 400 {
        Err(RelayError::InvalidPeerId)
    } else {
        Err(RelayError::Transport(status))
    }
}

fn pair(key: &str, value: &String) -> (r: (String, String))
    ensures
        r.0@ == key@,
        r.1@ == value@,
{
    (key.to_owned(), value.clone())
}

impl RoomConfig {
    pub fn new(room: String, channel: String) -> (r: RoomConfig)
        ensures
            r.room == room,
            r.channel == channel,
    {
        RoomConfig { room, channel }
    }

    /// The announce request for `peer_id`: `/announce` with the channel, the room and
    /// the peer id. Its body carries the candidates and the description.
    pub fn announce_request(&self, peer_id: &String) -> (r: RelayRequest)
        ensures
            r.path@ == "/announce"@,
            pair_texts(r.query@) == seq![
                ("channel"@, self.channel@),
                ("room"@, self.room@),
                ("peer_id"@, peer_id@),
            ],
    {
        let query = vec![pair("channel", &self.channel), pair("room", &self.room), pair("peer_id", peer_id)];
        assert(pair_texts(query@) =~= seq![
            ("channel"@, self.channel@),
            ("room"@, self.room@),
            ("peer_id"@, peer_id@),
        ]);
        RelayRequest { path: "/announce".to_owned(), query }
    }

    /// The request for the candidates of `peer_id`: `/candidate` with the channel, the
    /// room and the peer id as `candidate_id`.
    pub fn candidates_request(&self, peer_id: &String) -> (r: RelayRequest)
        ensures
            r.path@ == "/candidate"@,
            pair_texts(r.query@) == seq![
                ("channel"@, self.channel@),
                ("room"@, self.room@),
                ("candidate_id"@, peer_id@),
            ],
    {
        let query = vec![pair("channel", &self.channel), pair("room", &self.room), pair("candidate_id", peer_id)];
        assert(pair_texts(query@) =~= seq![
            ("channel"@, self.channel@),
            ("room"@, self.room@),
            ("candidate_id"@, peer_id@),
        ]);
        RelayRequest { path: "/candidate".to_owned(), query }
    }

    /// The request for the peer ids in the room: `/all_candidates` with the channel and
    /// the room.
    pub fn peer_ids_request(&self) -> (r: RelayRequest)
        ensures
            r.path@ == "/all_candidates"@,
            pair_texts(r.query@) == seq![("channel"@, self.channel@), ("room"@, self.room@)],
    {
        let query = vec![pair("channel", &self.channel), pair("room", &self.room)];
        assert(pair_texts(query@) =~= seq![("channel"@, self.channel@), ("room"@, self.room@)]);
        RelayRequest { path: "/all_candidates".to_owned(), query }
    }

    /// The request for the rooms of the channel: `/rooms` with the channel.
    pub fn rooms_request(&self) -> (r: RelayRequest)
        ensures
            r.path@ == "/rooms"@,
            pair_texts(r.query@) == seq![("channel"@, self.channel@)],
    {
        let query = vec![pair("channel", &self.channel)];
        assert(pair_texts(query@) =~= seq![("channel"@, self.channel@)]);
        RelayRequest { path: "/rooms".to_owned(), query }
    }
}

} // verus!
