//! The relay's candidate store: channel → room → peer id → pending candidates,
//! an optional session description and the time of the last announce.
//!
//! The store is one table of peer records keyed by (channel, room, peer id). A room
//! exists while a record names it, and a channel while one of its rooms does, so
//! empty rooms and channels never linger.
use vstd::prelude::*;

use crate::peer_id::{parse_uuid, uuid_value};
use crate::text::{contains_text, copy_texts, opt_text, texts};

verus! {

/// How long an entry lives without a new announce, in seconds.
pub const ENTRY_TTL: u64 = 60;

/// How often the relay sweeps expired entries, in seconds.
pub const SWEEP_INTERVAL: u64 = 10;

/// Why a store operation did not succeed.
#[derive(Debug, Clone, Copy, PartialEq, Eq, Structural)]
pub enum StoreError {
    /// The channel, the room or the peer is absent (or was never announced).
    NotFound,
    /// The peer id is not a UUID.
    InvalidPeerId,
}

impl StoreError {
    /// The HTTP status that the relay answers with for this error.
    pub fn status_code(&self) -> (r: u16)
        ensures
            r == (match self {
                StoreError::NotFound => 404u16,
                StoreError::InvalidPeerId => 400u16,
            }),
    {
        match self {
            StoreError::NotFound => 404,
            StoreError::InvalidPeerId => 400,
        }
    }
}

/// (channel, room, peer id).
pub type PeerKey = (Seq<char>, Seq<char>, u128);

/// What the store holds for one peer.
pub struct EntryView {
    pub candidates: Seq<Seq<char>>,
    pub description: Option<Seq<char>>,
    pub last_update: u64,
}

/// The entry of `key` after an announce at time `now`: the candidates are appended to
/// those already held, a given description replaces the held one, and the time is `now`.
pub open spec fn announced(
    m: Map<PeerKey, EntryView>,
    key: PeerKey,
    candidates: Seq<Seq<char>>,
    description: Option<Seq<char>>,
    now: u64,
) -> EntryView {
    let held = if m.contains_key(key) { m[key].candidates } else { Seq::empty() };
    let kept = if m.contains_key(key) { m[key].description } else { None };
    EntryView {
        candidates: held + candidates,
        description: match description {
            Some(d) => Some(d),
            None => kept,
        },
        last_update: now,
    }
}

/// The store after an announce for `key`.
pub open spec fn announce_step(
    m: Map<PeerKey, EntryView>,
    key: PeerKey,
    candidates: Seq<Seq<char>>,
    description: Option<Seq<char>>,
    now: u64,
) -> Map<PeerKey, EntryView> {
    m.insert(key, announced(m, key, candidates, description, now))
}

/// An entry is expired at `now` when at least `ttl` has passed since its last update.
pub open spec fn expired(e: EntryView, now: u64, ttl: u64) -> bool {
    now as int - e.last_update as int >= ttl as int
}

/// The store after a sweep: exactly the entries that are not expired remain, unchanged.
pub open spec fn swept(m: Map<PeerKey, EntryView>, now: u64, ttl: u64) -> Map<PeerKey, EntryView> {
    Map::new(|k: PeerKey| m.contains_key(k) && !expired(m[k], now, ttl), |k: PeerKey| m[k])
}

/// The peers present in a room.
pub open spec fn peers_in(m: Map<PeerKey, EntryView>, channel: Seq<char>, room: Seq<char>) -> Set<u128> {
    Set::new(|p: u128| m.contains_key((channel, room, p)))
}

/// The rooms present in a channel.
pub open spec fn rooms_in(m: Map<PeerKey, EntryView>, channel: Seq<char>) -> Set<Seq<char>> {
    Set::new(|r: Seq<char>| exists|p: u128| m.contains_key((channel, r, p)))
}

/// One peer's record.
struct PeerRecord {
    channel: String,
    room: String,
    peer: u128,
    candidates: Vec<String>,
    description: Option<String>,
    last_update: u64,
}

spec fn key_of(r: PeerRecord) -> PeerKey {
    (r.channel@, r.room@, r.peer)
}

spec fn entry_of(r: PeerRecord) -> EntryView {
    EntryView {
        candidates: texts(r.candidates@),
        description: opt_text(r.description),
        last_update: r.last_update,
    }
}

spec fn keys_unique(s: Seq<PeerRecord>) -> bool {
    forall|i: int, j: int|
        0 <= i < s.len() && 0 <= j < s.len() && i != j ==> key_of(#[trigger] s[i]) != key_of(
            #[trigger] s[j],
        )
}

spec fn has_key_at(s: Seq<PeerRecord>, k: PeerKey, i: int) -> bool {
    0 <= i < s.len() && key_of(s[i]) == k
}

spec fn in_room(s: Seq<PeerRecord>, channel: Seq<char>, room: Seq<char>, j: int) -> bool {
    0 <= j < s.len() && s[j].channel@ == channel && s[j].room@ == room
}

spec fn kept_from(s: Seq<PeerRecord>, a: int, o: Seq<PeerRecord>, b: int, now: u64, ttl: u64) -> bool {
    0 <= a < s.len() && 0 <= b < o.len() && s[a] == o[b] && !expired(entry_of(o[b]), now, ttl)
}

spec fn live_from(s: Seq<PeerRecord>, a: int, o: Seq<PeerRecord>, lo: int, now: u64, ttl: u64) -> bool {
    exists|b: int| lo <= b < o.len() && #[trigger] kept_from(s, a, o, b, now, ttl)
}

/// The map that a table of records stands for.
spec fn table_view(s: Seq<PeerRecord>) -> Map<PeerKey, EntryView> {
    Map::new(
        |k: PeerKey| exists|i: int| has_key_at(s, k, i),
        |k: PeerKey| entry_of(s[choose|i: int| has_key_at(s, k, i)]),
    )
}

proof fn lemma_table_at(s: Seq<PeerRecord>, i: int)
    requires
        keys_unique(s),
        0 <= i < s.len(),
    ensures
        table_view(s).contains_key(key_of(s[i])),
        table_view(s)[key_of(s[i])] == entry_of(s[i]),
{
    let k = key_of(s[i]);
    assert(has_key_at(s, k, i));
    let j = choose|j: int| has_key_at(s, k, j);
    assert(s[j] == s[i] || i == j);
}

proof fn lemma_table_update(s: Seq<PeerRecord>, i: int, r: PeerRecord)
    requires
        keys_unique(s),
        0 <= i < s.len(),
        key_of(r) == key_of(s[i]),
    ensures
        keys_unique(s.update(i, r)),
        table_view(s.update(i, r)) == table_view(s).insert(key_of(r), entry_of(r)),
{
    let t = s.update(i, r);
    assert(keys_unique(t)) by {
        assert forall|a: int, b: int|
            0 <= a < t.len() && 0 <= b < t.len() && a != b implies key_of(#[trigger] t[a])
            != key_of(#[trigger] t[b]) by {
            assert(key_of(t[a]) == key_of(s[a]));
            assert(key_of(t[b]) == key_of(s[b]));
        }
    }
    let lhs = table_view(t);
    let rhs = table_view(s).insert(key_of(r), entry_of(r));
    assert forall|k: PeerKey| lhs.contains_key(k) == rhs.contains_key(k) by {
        if lhs.contains_key(k) {
            let a = choose|a: int| has_key_at(t, k, a);
            assert(has_key_at(s, k, a));
        }
        if table_view(s).contains_key(k) {
            let a = choose|a: int| has_key_at(s, k, a);
            assert(has_key_at(t, k, a));
        }
        if k == key_of(r) {
            assert(has_key_at(t, k, i));
        }
    }
    assert forall|k: PeerKey| #[trigger] lhs.contains_key(k) implies lhs[k] == rhs[k] by {
        let a = choose|a: int| has_key_at(t, k, a);
        lemma_table_at(t, a);
        if a != i {
            assert(has_key_at(s, k, a));
            lemma_table_at(s, a);
        }
    }
    assert(lhs =~= rhs);
}

proof fn lemma_table_push(s: Seq<PeerRecord>, r: PeerRecord)
    requires
        keys_unique(s),
        !table_view(s).contains_key(key_of(r)),
    ensures
        keys_unique(s.push(r)),
        table_view(s.push(r)) == table_view(s).insert(key_of(r), entry_of(r)),
{
    let t = s.push(r);
    assert(keys_unique(t)) by {
        assert forall|a: int, b: int|
            0 <= a < t.len() && 0 <= b < t.len() && a != b implies key_of(#[trigger] t[a])
            != key_of(#[trigger] t[b]) by {
            if a < s.len() {
                assert(has_key_at(s, key_of(s[a]), a));
            }
            if b < s.len() {
                assert(has_key_at(s, key_of(s[b]), b));
            }
        }
    }
    let lhs = table_view(t);
    let rhs = table_view(s).insert(key_of(r), entry_of(r));
    assert forall|k: PeerKey| lhs.contains_key(k) == rhs.contains_key(k) by {
        if lhs.contains_key(k) {
            let a = choose|a: int| has_key_at(t, k, a);
            if a < s.len() {
                assert(has_key_at(s, k, a));
            }
        }
        if table_view(s).contains_key(k) {
            let a = choose|a: int| has_key_at(s, k, a);
            assert(has_key_at(t, k, a));
        }
        if k == key_of(r) {
            assert(has_key_at(t, k, s.len() as int));
        }
    }
    assert forall|k: PeerKey| #[trigger] lhs.contains_key(k) implies lhs[k] == rhs[k] by {
        let a = choose|a: int| has_key_at(t, k, a);
        lemma_table_at(t, a);
        if a < s.len() {
            assert(has_key_at(s, k, a));
            lemma_table_at(s, a);
        }
    }
    assert(lhs =~= rhs);
}

/// The relay's store of announced peers.
pub struct CandidateStore {
    records: Vec<PeerRecord>,
}

impl View for CandidateStore {
    type V = Map<PeerKey, EntryView>;

    closed spec fn view(&self) -> Map<PeerKey, EntryView> {
        table_view(self.records@)
    }
}

impl CandidateStore {
    /// No two records share a key.
    pub closed spec fn wf(&self) -> bool {
        keys_unique(self.records@)
    }

    /// An empty store.
    pub fn new() -> (r: CandidateStore)
        ensures
            r.wf(),
            r@ == Map::<PeerKey, EntryView>::empty(),
    {
        let r = CandidateStore { records: Vec::new() };
        assert(r@ =~= Map::<PeerKey, EntryView>::empty());
        r
    }

    /// The index of the record of `(channel, room, peer)`, if there is one.
    fn find(&self, channel: &String, room: &String, peer: u128) -> (r: Option<usize>)
        requires
            self.wf(),
        ensures
            match r {
                Some(i) => i < self.records@.len() && key_of(self.records@[i as int]) == (
                channel@,
                room@,
                peer,
                ),
                None => !self@.contains_key((channel@, room@, peer)),
            },
    {
        let mut i: usize = 0;
        while i < self.records.len()
            invariant
                i <= self.records@.len(),
                forall|j: int| 0 <= j < i ==> key_of(#[trigger] self.records@[j]) != (
                    channel@,
                    room@,
                    peer,
                ),
            decreases self.records@.len() - i,
        {
            let rec = &self.records[i];
            if rec.peer == peer && rec.channel == *channel && rec.room == *room {
                return Some(i);
            }
            i += 1;
        }
        proof {
            let k = (channel@, room@, peer);
            if self@.contains_key(k) {
                let j = choose|j: int| has_key_at(self.records@, k, j);
                assert(key_of(self.records@[j]) != k);
            }
        }
        None
    }

    /// Appends `candidates` to the entry of `peer_id` in `room` of `channel`, creating
    /// the channel, room and entry as needed; a given `description` replaces the held
    /// one; the entry's time becomes `now`. Fails, changing nothing, when `peer_id` is
    /// not a UUID.
    pub fn announce(
        &mut self,
        channel: &String,
        room: &String,
        peer_id: &str,
        candidates: Vec<String>,
        description: Option<String>,
        now: u64,
    ) -> (r: Result<(), StoreError>)
        requires
            old(self).wf(),
        ensures
            final(self).wf(),
            match uuid_value(peer_id@) {
                None => r == Err::<(), StoreError>(StoreError::InvalidPeerId) && final(self)@ == old(
                    self,
                )@,
                Some(id) => r == Ok::<(), StoreError>(()) && final(self)@ == announce_step(
                    old(self)@,
                    (channel@, room@, id),
                    texts(candidates@),
                    opt_text(description),
                    now,
                ),
            },
    {
        let peer = match parse_uuid(peer_id) {
            Some(id) => id,
            None => return Err(StoreError::InvalidPeerId),
        };
        let mut candidates = candidates;
        let ghost added = texts(candidates@);
        let ghost key = (channel@, room@, peer);
        match self.find(channel, room, peer) {
            Some(i) => {
                let mut rec = self.records.remove(i);
                proof {
                    lemma_table_at(old(self).records@, i as int);
                }
                rec.candidates.append(&mut candidates);
                if description.is_some() {
                    rec.description = description;
                }
                rec.last_update = now;
                self.records.insert(i, rec);
                proof {
                    assert(self.records@ =~= old(self).records@.update(i as int, rec));
                    assert(texts(rec.candidates@) =~= entry_of(old(self).records@[i as int]).candidates
                        + added);
                    lemma_table_update(old(self).records@, i as int, rec);
                }
            },
            None => {
                let rec = PeerRecord {
                    channel: channel.clone(),
                    room: room.clone(),
                    peer,
                    candidates,
                    description,
                    last_update: now,
                };
                proof {
                    assert(texts(rec.candidates@) =~= Seq::<Seq<char>>::empty() + added);
                    lemma_table_push(self.records@, rec);
                }
                self.records.push(rec);
            },
        }
        Ok(())
    }

    /// The candidates held for `peer_id` in `room` of `channel`. Fails with `NotFound`
    /// when the channel, the room or the peer is absent, or `peer_id` is not a UUID.
    pub fn get_candidates(&self, channel: &String, room: &String, peer_id: &str) -> (r: Result<
        Vec<String>,
        StoreError,
    >)
        requires
            self.wf(),
        ensures
            match uuid_value(peer_id@) {
                Some(id) if self@.contains_key((channel@, room@, id)) => r is Ok && texts(
                    r->Ok_0@,
                ) == self@[(channel@, room@, id)].candidates,
                _ => r == Err::<Vec<String>, StoreError>(StoreError::NotFound),
            },
    {
        let peer = match parse_uuid(peer_id) {
            Some(id) => id,
            None => return Err(StoreError::NotFound),
        };
        match self.find(channel, room, peer) {
            Some(i) => {
                proof {
                    lemma_table_at(self.records@, i as int);
                }
                let out = copy_texts(&self.records[i].candidates);
                Ok(out)
            },
            None => Err(StoreError::NotFound),
        }
    }

    /// The peers present in `room` of `channel`, each once, in no given order. Fails
    /// with `NotFound` when the room holds no peer (it is then absent).
    pub fn list_peer_ids(&self, channel: &String, room: &String) -> (r: Result<Vec<u128>, StoreError>)
        requires
            self.wf(),
        ensures
            match r {
                Ok(v) => v@.len() > 0 && v@.no_duplicates() && forall|p: u128|
                    v@.contains(p) <==> peers_in(self@, channel@, room@).contains(p),
                Err(e) => e == StoreError::NotFound && forall|p: u128|
                    !peers_in(self@, channel@, room@).contains(p),
            },
    {
        let ghost s = self.records@;
        let mut out: Vec<u128> = Vec::new();
        let mut i: usize = 0;
        while i < self.records.len()
            invariant
                s == self.records@,
                keys_unique(s),
                i <= s.len(),
                out@.no_duplicates(),
                forall|p: u128|
                    out@.contains(p) <==> exists|j: int|
                        0 <= j < i && #[trigger] has_key_at(s, (channel@, room@, p), j),
            decreases s.len() - i,
        {
            let rec = &self.records[i];
            if rec.channel == *channel && rec.room == *room {
                let ghost before = out@;
                proof {
                    if before.contains(rec.peer) {
                        let j = choose|j: int|
                            0 <= j < i && #[trigger] has_key_at(s, (channel@, room@, rec.peer), j);
                        assert(key_of(s[j]) == key_of(s[i as int]));
                    }
                }
                out.push(rec.peer);
                proof {
                    assert forall|p: u128|
                        out@.contains(p) <==> exists|j: int|
                            0 <= j < i + 1 && #[trigger] has_key_at(s, (channel@, room@, p), j) by {
                        if out@.contains(p) && p != rec.peer {
                            assert(before.contains(p)) by {
                                let a = choose|a: int| 0 <= a < out@.len() && out@[a] == p;
                                assert(before[a] == p);
                            }
                        }
                        if p == rec.peer {
                            assert(has_key_at(s, (channel@, room@, p), i as int));
                            assert(out@[before.len() as int] == p);
                        }
                        if exists|j: int|
                            0 <= j < i + 1 && #[trigger] has_key_at(s, (channel@, room@, p), j) {
                            if p != rec.peer {
                                let j = choose|j: int|
                                    0 <= j < i + 1 && #[trigger] has_key_at(
                                        s,
                                        (channel@, room@, p),
                                        j,
                                    );
                                assert(j != i);
                                assert(before.contains(p));
                                let a = choose|a: int| 0 <= a < before.len() && before[a] == p;
                                assert(out@[a] == p);
                            }
                        }
                    }
                }
            }
            i += 1;
        }
        if out.len() == 0 {
            proof {
                assert forall|p: u128| !peers_in(self@, channel@, room@).contains(p) by {
                    if self@.contains_key((channel@, room@, p)) {
                        let j = choose|j: int| has_key_at(s, (channel@, room@, p), j);
                        assert(out@.contains(p));
                    }
                }
            }
            Err(StoreError::NotFound)
        } else {
            Ok(out)
        }
    }

    /// The rooms present in `channel`, each once, in no given order. Fails with
    /// `NotFound` when the channel holds no room (it is then absent).
    pub fn list_rooms(&self, channel: &String) -> (r: Result<Vec<String>, StoreError>)
        requires
            self.wf(),
        ensures
            match r {
                Ok(v) => v@.len() > 0 && texts(v@).no_duplicates() && forall|room: Seq<char>|
                    texts(v@).contains(room) <==> rooms_in(self@, channel@).contains(room),
                Err(e) => e == StoreError::NotFound && forall|room: Seq<char>|
                    !rooms_in(self@, channel@).contains(room),
            },
    {
        let ghost s = self.records@;
        let mut out: Vec<String> = Vec::new();
        let mut i: usize = 0;
        while i < self.records.len()
            invariant
                s == self.records@,
                i <= s.len(),
                texts(out@).no_duplicates(),
                forall|room: Seq<char>|
                    texts(out@).contains(room) <==> exists|j: int|
                        0 <= j < i && #[trigger] in_room(s, channel@, room, j),
            decreases s.len() - i,
        {
            let rec = &self.records[i];
            if rec.channel == *channel && !contains_text(&out, &rec.room) {
                let ghost before = texts(out@);
                out.push(rec.room.clone());
                proof {
                    let now_seen = texts(out@);
                    assert(now_seen =~= before.push(rec.room@));
                    assert forall|room: Seq<char>|
                        now_seen.contains(room) <==> exists|j: int|
                            0 <= j < i + 1 && #[trigger] in_room(s, channel@, room, j) by {
                        if room == rec.room@ {
                            assert(in_room(s, channel@, room, i as int));
                            assert(now_seen[before.len() as int] == room);
                        } else {
                            if now_seen.contains(room) {
                                let a = choose|a: int| 0 <= a < now_seen.len() && now_seen[a] == room;
                                assert(before[a] == room);
                                assert(before.contains(room));
                                let j = choose|j: int| 0 <= j < i && #[trigger] in_room(s, channel@, room, j);
                                assert(in_room(s, channel@, room, j));
                            }
                            if exists|j: int| 0 <= j < i + 1 && #[trigger] in_room(s, channel@, room, j) {
                                let j = choose|j: int|
                                    0 <= j < i + 1 && #[trigger] in_room(s, channel@, room, j);
                                assert(j != i);
                                assert(before.contains(room));
                                let a = choose|a: int| 0 <= a < before.len() && before[a] == room;
                                assert(now_seen[a] == room);
                            }
                        }
                    }
                }
            } else {
                proof {
                    let seen = texts(out@);
                    assert forall|room: Seq<char>|
                        seen.contains(room) <==> exists|j: int|
                            0 <= j < i + 1 && #[trigger] in_room(s, channel@, room, j) by {
                        if exists|j: int| 0 <= j < i + 1 && #[trigger] in_room(s, channel@, room, j) {
                            let j = choose|j: int|
                                0 <= j < i + 1 && #[trigger] in_room(s, channel@, room, j);
                            if j == i {
                                assert(seen.contains(room));
                            }
                        }
                    }
                }
            }
            i += 1;
        }
        proof {
            assert forall|room: Seq<char>|
                texts(out@).contains(room) <==> rooms_in(self@, channel@).contains(room) by {
                if texts(out@).contains(room) {
                    let j = choose|j: int| 0 <= j < s.len() && #[trigger] in_room(s, channel@, room, j);
                    assert(has_key_at(s, key_of(s[j]), j));
                    assert(self@.contains_key((channel@, room, s[j].peer)));
                }
                if rooms_in(self@, channel@).contains(room) {
                    let p = choose|p: u128| self@.contains_key((channel@, room, p));
                    let j = choose|j: int| has_key_at(s, (channel@, room, p), j);
                    assert(in_room(s, channel@, room, j));
                }
            }
        }
        if out.len() == 0 {
            proof {
                assert forall|room: Seq<char>| !rooms_in(self@, channel@).contains(room) by {
                    if rooms_in(self@, channel@).contains(room) {
                        assert(texts(out@).contains(room));
                    }
                }
            }
            Err(StoreError::NotFound)
        } else {
            Ok(out)
        }
    }

    /// Removes every entry that is expired at `now` (at least `ttl` since its last
    /// update); rooms and channels left without entries go with them.
    pub fn sweep(&mut self, now: u64, ttl: u64)
        requires
            old(self).wf(),
        ensures
            final(self).wf(),
            final(self)@ == swept(old(self)@, now, ttl),
    {
        let ghost o = old(self).records@;
        let mut rest: Vec<PeerRecord> = Vec::new();
        core::mem::swap(&mut self.records, &mut rest);
        while rest.len() > 0
            invariant
                keys_unique(o),
                rest@.len() <= o.len(),
                rest@ == o.subrange(0, rest@.len() as int),
                keys_unique(self.records@),
                forall|a: int|
                    0 <= a < self.records@.len() ==> #[trigger] live_from(
                        self.records@,
                        a,
                        o,
                        rest@.len() as int,
                        now,
                        ttl,
                    ),
                forall|b: int|
                    rest@.len() <= b < o.len() && !expired(entry_of(o[b]), now, ttl)
                        ==> exists|a: int| #[trigger] has_key_at(self.records@, key_of(o[b]), a),
            decreases rest@.len(),
        {
            let ghost n = rest@.len() - 1;
            let ghost before = self.records@;
            let rec = rest.pop().unwrap();
            assert(rest@ =~= o.subrange(0, n));
            assert(rec == o[n]);
            if now >= rec.last_update && now - rec.last_update >= ttl {
                assert forall|b: int|
                    rest@.len() <= b < o.len() && !expired(entry_of(o[b]), now, ttl)
                        implies exists|a: int| #[trigger] has_key_at(self.records@, key_of(o[b]), a) by {
                    assert(b != n);
                }
                assert forall|a: int| 0 <= a < self.records@.len() implies #[trigger] live_from(
                    self.records@,
                    a,
                    o,
                    n,
                    now,
                    ttl,
                ) by {
                    assert(live_from(before, a, o, n + 1, now, ttl));
                    let b = choose|b: int|
                        n < b < o.len() && #[trigger] kept_from(before, a, o, b, now, ttl);
                    assert(kept_from(self.records@, a, o, b, now, ttl));
                }
            } else {
                proof {
                    assert forall|a: int| 0 <= a < before.len() implies key_of(#[trigger] before[a])
                        != key_of(rec) by {
                        assert(live_from(before, a, o, n + 1, now, ttl));
                        let b = choose|b: int|
                            n < b < o.len() && #[trigger] kept_from(before, a, o, b, now, ttl);
                        assert(before[a] == o[b]);
                    }
                }
                self.records.push(rec);
                proof {
                    let t = self.records@;
                    assert(keys_unique(t)) by {
                        assert forall|a: int, c: int|
                            0 <= a < t.len() && 0 <= c < t.len() && a != c implies key_of(
                                #[trigger] t[a],
                            ) != key_of(#[trigger] t[c]) by {
                            if a < before.len() && c < before.len() {
                                assert(t[a] == before[a] && t[c] == before[c]);
                            } else if a < before.len() {
                                assert(t[a] == before[a]);
                            } else if c < before.len() {
                                assert(t[c] == before[c]);
                            }
                        }
                    }
                    assert forall|a: int| 0 <= a < t.len() implies #[trigger] live_from(
                        t,
                        a,
                        o,
                        n,
                        now,
                        ttl,
                    ) by {
                        if a < before.len() {
                            assert(live_from(before, a, o, n + 1, now, ttl));
                            let b = choose|b: int|
                                n < b < o.len() && #[trigger] kept_from(before, a, o, b, now, ttl);
                            assert(kept_from(t, a, o, b, now, ttl));
                        } else {
                            assert(kept_from(t, a, o, n, now, ttl));
                        }
                    }
                    assert forall|b: int|
                        n <= b < o.len() && !expired(entry_of(o[b]), now, ttl) implies exists|a: int|
                        #[trigger] has_key_at(t, key_of(o[b]), a) by {
                        if b == n {
                            assert(has_key_at(t, key_of(o[b]), before.len() as int));
                        } else {
                            let a = choose|a: int| #[trigger] has_key_at(before, key_of(o[b]), a);
                            assert(has_key_at(t, key_of(o[b]), a));
                        }
                    }
                }
            }
        }
        proof {
            let s = self.records@;
            let lhs = table_view(s);
            let rhs = swept(table_view(o), now, ttl);
            assert forall|k: PeerKey| lhs.contains_key(k) == rhs.contains_key(k) by {
                if lhs.contains_key(k) {
                    let a = choose|a: int| has_key_at(s, k, a);
                    assert(live_from(s, a, o, 0, now, ttl));
                    let b = choose|b: int| 0 <= b < o.len() && #[trigger] kept_from(s, a, o, b, now, ttl);
                    lemma_table_at(o, b);
                }
                if table_view(o).contains_key(k) {
                    let b = choose|b: int| has_key_at(o, k, b);
                    lemma_table_at(o, b);
                }
            }
            assert forall|k: PeerKey| #[trigger] lhs.contains_key(k) implies lhs[k] == rhs[k] by {
                let a = choose|a: int| has_key_at(s, k, a);
                assert(live_from(s, a, o, 0, now, ttl));
                let b = choose|b: int| 0 <= b < o.len() && #[trigger] kept_from(s, a, o, b, now, ttl);
                lemma_table_at(o, b);
                lemma_table_at(s, a);
            }
            assert(lhs =~= rhs);
        }
    }
}

/// One announce call: the candidates, the description and the time it carries.
pub struct AnnounceCall {
    pub candidates: Seq<Seq<char>>,
    pub description: Option<Seq<char>>,
    pub now: u64,
}

/// The store after the announce calls `calls`, in order, for `key`: each step is the
/// `announce_step` that a successful `CandidateStore::announce` ensures.
pub open spec fn announce_all(m: Map<PeerKey, EntryView>, key: PeerKey, calls: Seq<AnnounceCall>) -> Map<
    PeerKey,
    EntryView,
>
    decreases calls.len(),
{
    if calls.len() == 0 {
        m
    } else {
        let c = calls.last();
        announce_step(announce_all(m, key, calls.drop_last()), key, c.candidates, c.description, c.now)
    }
}

/// The candidates of all the calls, in order.
pub open spec fn all_candidates(calls: Seq<AnnounceCall>) -> Seq<Seq<char>>
    decreases calls.len(),
{
    if calls.len() == 0 {
        Seq::empty()
    } else {
        all_candidates(calls.drop_last()) + calls.last().candidates
    }
}

/// The sum of the sizes of the calls' candidate batches.
pub open spec fn batch_total(calls: Seq<AnnounceCall>) -> int
    decreases calls.len(),
{
    if calls.len() == 0 {
        0
    } else {
        batch_total(calls.drop_last()) + calls.last().candidates.len()
    }
}

/// The candidates held for `key`, none when it is absent.
pub open spec fn held(m: Map<PeerKey, EntryView>, key: PeerKey) -> Seq<Seq<char>> {
    if m.contains_key(key) {
        m[key].candidates
    } else {
        Seq::empty()
    }
}

/// Announces only append: after a run of announce calls for one peer, it holds what it
/// held before followed by every candidate of every call, in call order, so that the
/// number of candidates grows by the sum of the batch sizes.
pub proof fn law_announces_accumulate(m: Map<PeerKey, EntryView>, key: PeerKey, calls: Seq<AnnounceCall>)
    ensures
        held(announce_all(m, key, calls), key) == held(m, key) + all_candidates(calls),
        held(announce_all(m, key, calls), key).len() == held(m, key).len() + batch_total(calls),
    decreases calls.len(),
{
    if calls.len() == 0 {
        assert(held(m, key) + all_candidates(calls) =~= held(m, key));
    } else {
        law_announces_accumulate(m, key, calls.drop_last());
        let before = announce_all(m, key, calls.drop_last());
        assert(held(announce_all(m, key, calls), key) == held(before, key) + calls.last().candidates);
        assert(held(m, key) + all_candidates(calls) =~= held(m, key) + all_candidates(calls.drop_last())
            + calls.last().candidates);
    }
}

/// A peer that announces at `now` survives a sweep at the same `now` with a positive ttl.
pub proof fn law_reannounce_survives(
    m: Map<PeerKey, EntryView>,
    key: PeerKey,
    candidates: Seq<Seq<char>>,
    description: Option<Seq<char>>,
    now: u64,
    ttl: u64,
)
    requires
        ttl > 0,
    ensures
        swept(announce_step(m, key, candidates, description, now), now, ttl).contains_key(key),
        swept(announce_step(m, key, candidates, description, now), now, ttl)[key].last_update == now,
{
}

/// A sweep that removes every peer of a room removes the room from its channel's rooms.
pub proof fn law_emptied_room_is_gone(
    m: Map<PeerKey, EntryView>,
    channel: Seq<char>,
    room: Seq<char>,
    now: u64,
    ttl: u64,
)
    requires
        forall|p: u128| #[trigger]
            m.contains_key((channel, room, p)) ==> expired(m[(channel, room, p)], now, ttl),
    ensures
        !rooms_in(swept(m, now, ttl), channel).contains(room),
        forall|p: u128| !peers_in(swept(m, now, ttl), channel, room).contains(p),
{
    let after = swept(m, now, ttl);
    if rooms_in(after, channel).contains(room) {
        let p = choose|p: u128| after.contains_key((channel, room, p));
        assert(m.contains_key((channel, room, p)));
    }
}

} // verus!
