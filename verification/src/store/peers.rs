//! The peers that are kept.
use vstd::prelude::*;

use crate::codec::{fresh_uuid, write_uuid};
use crate::error::{AppError, Trouble};
use crate::mock::MockTransport;
use crate::protocol::{copy_opt, opt, JobKind, ModelDescriptor};
use crate::store::tables::{
    chosen, distinct, keep_only, kept, lemma_kept_all, lemma_kept_distinct, lemma_kept_members,
    lemma_push_distinct, lemma_same_keys_distinct, list_rows, listed, place_of, plain, Turn,
};
use crate::store::{
    full, peer_endpoints, peer_ids, Db, Peer, MOCK_ENDPOINT, MOCK_PEER_ID, MOST_ROWS,
    SOURCE_DISCOVERED, SOURCE_MANUAL,
};
use crate::text::{concat, first_chars, same, take_chars, texts};

verus! {

broadcast use vstd::string::group_string_axioms;

/// It has this id.
pub open spec fn with_id(id: Seq<char>) -> spec_fn(Peer) -> bool {
    |p: Peer| p.id@ == id
}

/// It is at this endpoint.
pub open spec fn at_endpoint(endpoint: Seq<char>) -> spec_fn(Peer) -> bool {
    |p: Peer| p.endpoint@ == endpoint
}

/// It does not run inside this process.
pub open spec fn not_mock() -> spec_fn(Peer) -> bool {
    |p: Peer| p.endpoint@ != MOCK_ENDPOINT@
}

/// The one that runs inside this process first, then by when they were added.
pub open spec fn peer_turn() -> spec_fn(Peer) -> Turn {
    |p: Peer|
        (
            if p.endpoint@ == MOCK_ENDPOINT@ {
                0i128
            } else {
                1i128
            },
            p.added_at as i128,
        )
}

/// Found on the network, not online, and not seen since long enough.
pub open spec fn is_dead(p: Peer, silent_for: u64, now: i64) -> bool {
    &&& p.source@ == SOURCE_DISCOVERED@
    &&& !p.online()
    &&& p.last_seen matches Some(t) ==> t < now - silent_for
}

pub open spec fn alive(silent_for: u64, now: i64) -> spec_fn(Peer) -> bool {
    |p: Peer| !is_dead(p, silent_for, now)
}

/// Not the one that is to go; the one that runs inside this process stays.
pub open spec fn not_removed(id: Seq<char>) -> spec_fn(Peer) -> bool {
    |p: Peer| p.id@ != id || p.endpoint@ == MOCK_ENDPOINT@
}

pub open spec fn knows_id(peers: Seq<Peer>, id: Seq<char>) -> bool {
    exists|i: int| 0 <= i < peers.len() && (#[trigger] peers[i]).id@ == id
}

pub open spec fn knows_endpoint(peers: Seq<Peer>, endpoint: Seq<char>) -> bool {
    exists|i: int| 0 <= i < peers.len() && (#[trigger] peers[i]).endpoint@ == endpoint
}

/// A peer nothing is known of yet.
pub open spec fn is_new_peer(
    p: Peer,
    id: Seq<char>,
    label: Seq<char>,
    endpoint: Seq<char>,
    public_key: Option<Seq<char>>,
    source: Seq<char>,
    now: i64,
) -> bool {
    &&& p.id@ == id && p.label@ == label && p.endpoint@ == endpoint
    &&& opt(p.public_key) == public_key
    &&& p.source@ == source && p.added_at == now
    &&& p.status@ == "unknown"@
    &&& p.country is None && p.payout is None && p.peer_id is None
    &&& p.latency_ms is None && p.last_seen is None && p.last_error is None
    &&& p.caps@.len() == 0 && p.models@.len() == 0 && p.max_concurrent == 1
}

/// Why a peer is not added under a fresh id: the endpoint is listed, the id
/// that was drawn is taken, or the table is full.
pub open spec fn no_room_for(peers: Seq<Peer>, endpoint: Seq<char>, e: Trouble) -> bool {
    ||| knows_endpoint(peers, endpoint) && e == Trouble::Db(
        "UNIQUE constraint failed: peers.endpoint"@,
    )
    ||| peers.len() > 0 && e == Trouble::Db("UNIQUE constraint failed: peers.id"@)
    ||| peers.len() == MOST_ROWS && e == Trouble::Db("database or disk is full"@)
}

/// The peers after one was given another label.
pub open spec fn is_relabelled(
    was: Seq<Peer>,
    is: Seq<Peer>,
    id: Seq<char>,
    label: Seq<char>,
) -> bool {
    &&& is.len() == was.len()
    &&& forall|i: int|
        0 <= i < is.len() ==> {
            let (a, b) = (was[i], #[trigger] is[i]);
            if a.id@ == id {
                b == (Peer { label: b.label, ..a }) && b.label@ == first_chars(label, 40)
            } else {
                a == b
            }
        }
}

/// What the worker inside this process offers.
pub open spec fn offers_mock(p: Peer) -> bool {
    &&& p.label@ == "mock worker (local)"@
    &&& p.status@ == "online"@
    &&& texts(p.caps@) == seq!["llm"@, "image"@, "video"@]
    &&& p.models@.len() == 3
    &&& p.models@[0].id@ == "mock-llm-v0"@ && p.models@[0].kind == JobKind::Llm
        && p.models@[0].listed() == 2_000
    &&& p.models@[1].id@ == "mock-diffusion-v0"@ && p.models@[1].kind == JobKind::Image
        && p.models@[1].listed() == 2
    &&& p.models@[2].id@ == "mock-video-v0"@ && p.models@[2].kind == JobKind::Video
        && p.models@[2].unpriced()
}

/// The worker inside this process is listed: added, or brought up to date
/// where it was.
pub open spec fn mock_listed(was: Seq<Peer>, is: Seq<Peer>, now: i64) -> bool {
    if knows_id(was, MOCK_PEER_ID@) {
        &&& is.len() == was.len()
        &&& forall|i: int|
            0 <= i < is.len() ==> {
                let (a, b) = (was[i], #[trigger] is[i]);
                if a.id@ == MOCK_PEER_ID@ {
                    offers_mock(b) && b == (Peer {
                        label: b.label,
                        status: b.status,
                        caps: b.caps,
                        models: b.models,
                        ..a
                    })
                } else {
                    a == b
                }
            }
    } else {
        let p = is.last();
        &&& is == was.push(p)
        &&& offers_mock(p)
        &&& p.id@ == MOCK_PEER_ID@ && p.endpoint@ == MOCK_ENDPOINT@
        &&& opt(p.peer_id) == Some(MOCK_PEER_ID@)
        &&& p.source@ == SOURCE_MANUAL@
        &&& p.max_concurrent == 2 && p.added_at == now
        &&& p.public_key is None && p.country is None && p.payout is None
        &&& p.latency_ms is None && p.last_seen is None && p.last_error is None
    }
}

pub(crate) fn taken(what: &str) -> (r: AppError)
    ensures
        r@ == Trouble::Db("UNIQUE constraint failed: "@ + what@),
{
    AppError::Db(concat("UNIQUE constraint failed: ", what))
}

impl Db {
    // ----------------------------------------------------------------- reading

    /// The peers, the one that runs inside this process first, the others by
    /// when they were added.
    pub fn list_peers(&self) -> (r: Vec<&Peer>)
        ensures
            listed(self.peers@, peer_turn(), plain(r@)),
    {
        let all = chosen(&self.peers, |p: &Peer| -> (b: bool) ensures b { true }, Ghost(
            |p: Peer| true,
        ));
        proof {
            lemma_kept_all(self.peers@, |p: Peer| true);
        }
        let r = list_rows(
            &all,
            |p: &Peer| -> (t: Turn)
                ensures
                    t == peer_turn()(*p)
                {
                    if p.is_mock() {
                        (0, p.added_at as i128)
                    } else {
                        (1, p.added_at as i128)
                    }
                },
            all.len(),
            Ghost(peer_turn()),
        );
        proof {
            let full = choose|f: Seq<Peer>| #[trigger]
                listed(self.peers@, peer_turn(), f) && plain(r@) == (if all@.len() < f.len() {
                    f.take(all@.len() as int)
                } else {
                    f
                });
            assert(plain(all@).len() == all@.len());
            assert(full.len() == self.peers@.len());
        }
        r
    }

    pub fn get_peer(&self, id: &str) -> (r: Option<&Peer>)
        ensures
            match r {
                Some(p) => self.peers@.contains(*p) && p.id@ == id@,
                None => !knows_id(self.peers@, id@),
            },
    {
        let at: usize = self.place_by_id(id);
        if at < self.peers.len() {
            Some(&self.peers[at])
        } else {
            None
        }
    }

    pub fn peer_by_endpoint(&self, endpoint: &str) -> (r: Option<&Peer>)
        ensures
            match r {
                Some(p) => self.peers@.contains(*p) && p.endpoint@ == endpoint@,
                None => !knows_endpoint(self.peers@, endpoint@),
            },
    {
        let at: usize = self.place_by_endpoint(endpoint);
        if at < self.peers.len() {
            Some(&self.peers[at])
        } else {
            None
        }
    }

    fn place_by_id(&self, id: &str) -> (r: usize)
        ensures
            r <= self.peers@.len(),
            r < self.peers@.len() ==> self.peers@[r as int].id@ == id@,
            r < self.peers@.len() <==> knows_id(self.peers@, id@),
    {
        let r: usize = place_of(
            &self.peers,
            |p: &Peer| -> (b: bool)
                ensures
                    b == with_id(id@)(*p)
                { same(p.id.as_str(), id) },
            Ghost(with_id(id@)),
        );
        if r < self.peers.len() {
            assert(with_id(id@)(self.peers@[r as int]));
        } else {
            assert forall|i: int| 0 <= i < self.peers@.len() implies (#[trigger] self.peers@[i]).id@
                != id@ by {
                assert(!with_id(id@)(self.peers@[i]));
            }
        }
        r
    }

    fn place_by_endpoint(&self, endpoint: &str) -> (r: usize)
        ensures
            r <= self.peers@.len(),
            r < self.peers@.len() ==> self.peers@[r as int].endpoint@ == endpoint@,
            r < self.peers@.len() <==> knows_endpoint(self.peers@, endpoint@),
    {
        let r: usize = place_of(
            &self.peers,
            |p: &Peer| -> (b: bool)
                ensures
                    b == at_endpoint(endpoint@)(*p)
                { same(p.endpoint.as_str(), endpoint) },
            Ghost(at_endpoint(endpoint@)),
        );
        if r < self.peers.len() {
            assert(at_endpoint(endpoint@)(self.peers@[r as int]));
        } else {
            assert forall|i: int| 0 <= i < self.peers@.len() implies (
            #[trigger] self.peers@[i]).endpoint@ != endpoint@ by {
                assert(!at_endpoint(endpoint@)(self.peers@[i]));
            }
        }
        r
    }

    // ---------------------------------------------------------------- changing

    /// Lists the worker that runs inside this process, or brings its entry up
    /// to date.
    pub fn enable_mock_peer(&mut self, now: i64) -> (r: Result<(), AppError>)
        requires
            old(self).wf(),
        ensures
            final(self).wf(),
            *final(self) == (Db { peers: final(self).peers, ..*old(self) }),
            match r {
                Ok(_) => mock_listed(old(self).peers@, final(self).peers@, now),
                Err(e) => {
                    &&& !knows_id(old(self).peers@, MOCK_PEER_ID@)
                    &&& *final(self) == *old(self)
                    &&& if knows_endpoint(old(self).peers@, MOCK_ENDPOINT@) {
                        e@ == Trouble::Db("UNIQUE constraint failed: peers.endpoint"@)
                    } else {
                        old(self).peers@.len() == MOST_ROWS && e@ == Trouble::Db(
                            "database or disk is full"@,
                        )
                    }
                },
            },
    {
        let ghost was = self.peers@;
        let says = MockTransport::announce();
        let at: usize = self.place_by_id(MOCK_PEER_ID);
        if at < self.peers.len() {
            assert forall|i: int| 0 <= i < was.len() && i != at implies (#[trigger] was[i]).id@
                != MOCK_PEER_ID@ by {
                if i < at {
                    assert(peer_ids()(was[i]) != peer_ids()(was[at as int]));
                } else {
                    assert(peer_ids()(was[at as int]) != peer_ids()(was[i]));
                }
            }
            let row = &mut self.peers[at];
            row.label = "mock worker (local)".to_string();
            row.status = "online".to_string();
            row.caps = says.caps;
            row.models = says.models;
            proof {
                lemma_same_keys_distinct(was, self.peers@, peer_ids());
                lemma_same_keys_distinct(was, self.peers@, peer_endpoints());
            }
            return Ok(());
        }
        if self.place_by_endpoint(MOCK_ENDPOINT) < self.peers.len() {
            proof {
                lemma_unique_text();
            }
            return Err(taken("peers.endpoint"));
        }
        if self.peers.len() >= MOST_ROWS as usize {
            return Err(full());
        }
        let p = Peer {
            id: MOCK_PEER_ID.to_string(),
            label: "mock worker (local)".to_string(),
            country: None,
            payout: None,
            endpoint: MOCK_ENDPOINT.to_string(),
            public_key: None,
            peer_id: Some(MOCK_PEER_ID.to_string()),
            status: "online".to_string(),
            latency_ms: None,
            caps: says.caps,
            models: says.models,
            max_concurrent: 2,
            last_seen: None,
            last_error: None,
            source: SOURCE_MANUAL.to_string(),
            added_at: now,
        };
        proof {
            lemma_push_distinct(was, p, peer_ids());
            lemma_push_distinct(was, p, peer_endpoints());
        }
        self.peers.push(p);
        Ok(())
    }

    /// Takes the worker that runs inside this process off the list.
    pub fn remove_mock_peer(&mut self)
        requires
            old(self).wf(),
        ensures
            final(self).wf(),
            *final(self) == (Db { peers: final(self).peers, ..*old(self) }),
            final(self).peers@ == kept(old(self).peers@, not_mock()),
    {
        let ghost was = self.peers@;
        keep_only(
            &mut self.peers,
            |p: &Peer| -> (b: bool)
                ensures
                    b == not_mock()(*p)
                { !p.is_mock() },
            Ghost(not_mock()),
        );
        proof {
            lemma_peers_kept(was, not_mock());
        }
    }

    /// Forgets peers that were found on the network and stopped answering, and
    /// says how many.
    pub fn prune_dead_discovered(&mut self, silent_for: u64, now: i64) -> (r: usize)
        requires
            old(self).wf(),
        ensures
            final(self).wf(),
            *final(self) == (Db { peers: final(self).peers, ..*old(self) }),
            final(self).peers@ == kept(old(self).peers@, alive(silent_for, now)),
            r == old(self).peers@.len() - final(self).peers@.len(),
    {
        let ghost was = self.peers@;
        let before: usize = self.peers.len();
        let cutoff: i128 = now as i128 - silent_for as i128;
        keep_only(
            &mut self.peers,
            |p: &Peer| -> (b: bool)
                ensures
                    b == alive(silent_for, now)(*p)
                {
                    let silent = match p.last_seen {
                        Some(t) => (t as i128) < cutoff,
                        None => true,
                    };
                    !(p.is_discovered() && !p.is_online() && silent)
                },
            Ghost(alive(silent_for, now)),
        );
        proof {
            lemma_peers_kept(was, alive(silent_for, now));
        }
        before - self.peers.len()
    }

    /// Takes a peer off the list; the one that runs inside this process stays.
    pub fn remove_peer(&mut self, id: &str)
        requires
            old(self).wf(),
        ensures
            final(self).wf(),
            *final(self) == (Db { peers: final(self).peers, ..*old(self) }),
            final(self).peers@ == kept(old(self).peers@, not_removed(id@)),
    {
        let ghost was = self.peers@;
        keep_only(
            &mut self.peers,
            |p: &Peer| -> (b: bool)
                ensures
                    b == not_removed(id@)(*p)
                { !same(p.id.as_str(), id) || p.is_mock() },
            Ghost(not_removed(id@)),
        );
        proof {
            lemma_peers_kept(was, not_removed(id@));
        }
    }

    /// Adds a peer under an id of its own.
    pub fn insert_peer(
        &mut self,
        id: &str,
        label: &str,
        endpoint: &str,
        public_key: &Option<String>,
        source: &str,
        now: i64,
    ) -> (r: Result<(), AppError>)
        requires
            old(self).wf(),
        ensures
            final(self).wf(),
            *final(self) == (Db { peers: final(self).peers, ..*old(self) }),
            match r {
                Ok(_) => {
                    let p = final(self).peers@.last();
                    &&& !knows_endpoint(old(self).peers@, endpoint@)
                    &&& !knows_id(old(self).peers@, id@)
                    &&& final(self).peers@ == old(self).peers@.push(p)
                    &&& is_new_peer(p, id@, label@, endpoint@, opt(*public_key), source@, now)
                },
                Err(e) => {
                    &&& *final(self) == *old(self)
                    &&& if knows_id(old(self).peers@, id@) {
                        e@ == Trouble::Db("UNIQUE constraint failed: peers.id"@)
                    } else if knows_endpoint(old(self).peers@, endpoint@) {
                        e@ == Trouble::Db("UNIQUE constraint failed: peers.endpoint"@)
                    } else {
                        old(self).peers@.len() == MOST_ROWS && e@ == Trouble::Db(
                            "database or disk is full"@,
                        )
                    }
                },
            },
    {
        let ghost was = self.peers@;
        proof {
            lemma_unique_text();
        }
        if self.place_by_id(id) < self.peers.len() {
            return Err(taken("peers.id"));
        }
        if self.place_by_endpoint(endpoint) < self.peers.len() {
            return Err(taken("peers.endpoint"));
        }
        if self.peers.len() >= MOST_ROWS as usize {
            return Err(full());
        }
        let p = Peer {
            id: id.to_string(),
            label: label.to_string(),
            country: None,
            payout: None,
            endpoint: endpoint.to_string(),
            public_key: copy_opt(public_key),
            peer_id: None,
            status: "unknown".to_string(),
            latency_ms: None,
            caps: Vec::new(),
            models: Vec::new(),
            max_concurrent: 1,
            last_seen: None,
            last_error: None,
            source: source.to_string(),
            added_at: now,
        };
        proof {
            lemma_push_distinct(was, p, peer_ids());
            lemma_push_distinct(was, p, peer_endpoints());
        }
        self.peers.push(p);
        Ok(())
    }

    /// Adds a peer the user typed in, under a fresh id, and gives that id back.
    /// An endpoint is listed once.
    pub fn add_peer(
        &mut self,
        label: &str,
        endpoint: &str,
        public_key: &Option<String>,
        now: i64,
    ) -> (r: Result<String, AppError>)
        requires
            old(self).wf(),
        ensures
            final(self).wf(),
            *final(self) == (Db { peers: final(self).peers, ..*old(self) }),
            match r {
                Ok(id) => {
                    let p = final(self).peers@.last();
                    &&& !knows_endpoint(old(self).peers@, endpoint@)
                    &&& !knows_id(old(self).peers@, id@)
                    &&& final(self).peers@ == old(self).peers@.push(p)
                    &&& is_new_peer(
                        p,
                        id@,
                        label@,
                        endpoint@,
                        opt(*public_key),
                        SOURCE_MANUAL@,
                        now,
                    )
                },
                Err(e) => *final(self) == *old(self) && no_room_for(
                    old(self).peers@,
                    endpoint@,
                    e@,
                ),
            },
    {
        let id = write_uuid(fresh_uuid());
        match self.insert_peer(id.as_str(), label, endpoint, public_key, SOURCE_MANUAL, now) {
            Ok(_) => Ok(id),
            Err(e) => Err(e),
        }
    }

    /// Records a peer found on the network and gives its id back. One that is
    /// known at that endpoint stays what it is.
    pub fn upsert_discovered_peer(&mut self, label: &str, endpoint: &str, now: i64) -> (r: Result<
        String,
        AppError,
    >)
        requires
            old(self).wf(),
        ensures
            final(self).wf(),
            *final(self) == (Db { peers: final(self).peers, ..*old(self) }),
            match r {
                Ok(id) => if knows_endpoint(old(self).peers@, endpoint@) {
                    &&& *final(self) == *old(self)
                    &&& exists|p: Peer| #[trigger]
                        old(self).peers@.contains(p) && p.endpoint@ == endpoint@ && p.id@ == id@
                } else {
                    let p = final(self).peers@.last();
                    &&& !knows_id(old(self).peers@, id@)
                    &&& final(self).peers@ == old(self).peers@.push(p)
                    &&& is_new_peer(p, id@, label@, endpoint@, None, SOURCE_DISCOVERED@, now)
                },
                Err(e) => {
                    &&& !knows_endpoint(old(self).peers@, endpoint@)
                    &&& *final(self) == *old(self)
                    &&& no_room_for(old(self).peers@, endpoint@, e@)
                },
            },
    {
        let at: usize = self.place_by_endpoint(endpoint);
        if at < self.peers.len() {
            assert(self.peers@.contains(self.peers@[at as int]));
            return Ok(self.peers[at].id.clone());
        }
        let id = write_uuid(fresh_uuid());
        match self.insert_peer(id.as_str(), label, endpoint, &None, SOURCE_DISCOVERED, now) {
            Ok(_) => Ok(id),
            Err(e) => Err(e),
        }
    }

    /// Gives a peer a new label, cut to what the list can show.
    pub fn rename_peer(&mut self, id: &str, label: &str)
        requires
            old(self).wf(),
        ensures
            final(self).wf(),
            *final(self) == (Db { peers: final(self).peers, ..*old(self) }),
            is_relabelled(old(self).peers@, final(self).peers@, id@, label@),
    {
        let ghost was = self.peers@;
        let at: usize = self.place_by_id(id);
        if at < self.peers.len() {
            proof {
                lemma_only_one(was, id@, at as int);
            }
            let row = &mut self.peers[at];
            row.label = take_chars(label, 40);
            proof {
                lemma_same_keys_distinct(was, self.peers@, peer_ids());
                lemma_same_keys_distinct(was, self.peers@, peer_endpoints());
            }
        }
    }

    /// Records what asking a peer found. What it did not say this time stays
    /// as it was; only a peer that is online was seen.
    pub fn update_peer_status(
        &mut self,
        id: &str,
        status: &str,
        latency_ms: Option<u32>,
        peer_id: Option<String>,
        caps: Option<Vec<String>>,
        models: Option<Vec<ModelDescriptor>>,
        max_concurrent: Option<u32>,
        country: Option<String>,
        last_error: Option<String>,
        payout: Option<String>,
        now: i64,
    )
        requires
            old(self).wf(),
        ensures
            final(self).wf(),
            *final(self) == (Db { peers: final(self).peers, ..*old(self) }),
            final(self).peers@.len() == old(self).peers@.len(),
            forall|i: int|
                0 <= i < final(self).peers@.len() ==> {
                    let (a, b) = (old(self).peers@[i], #[trigger] final(self).peers@[i]);
                    if a.id@ == id@ {
                        &&& b.status@ == status@
                        &&& b == (Peer {
                            status: b.status,
                            latency_ms,
                            peer_id: or_else(peer_id, a.peer_id),
                            caps: or_kept(caps, a.caps),
                            models: or_kept(models, a.models),
                            max_concurrent: or_kept(max_concurrent, a.max_concurrent),
                            country: or_else(country, a.country),
                            last_error,
                            payout: or_else(payout, a.payout),
                            last_seen: if status@ == "online"@ {
                                Some(now)
                            } else {
                                a.last_seen
                            },
                            ..a
                        })
                    } else {
                        a == b
                    }
                },
    {
        let ghost was = self.peers@;
        let at: usize = self.place_by_id(id);
        if at < self.peers.len() {
            proof {
                lemma_only_one(was, id@, at as int);
            }
            let row = &mut self.peers[at];
            row.status = status.to_string();
            row.latency_ms = latency_ms;
            row.last_error = last_error;
            if peer_id.is_some() {
                row.peer_id = peer_id;
            }
            if let Some(c) = caps {
                row.caps = c;
            }
            if let Some(m) = models {
                row.models = m;
            }
            if let Some(n) = max_concurrent {
                row.max_concurrent = n;
            }
            if country.is_some() {
                row.country = country;
            }
            if payout.is_some() {
                row.payout = payout;
            }
            if same(status, "online") {
                row.last_seen = Some(now);
            }
            proof {
                lemma_same_keys_distinct(was, self.peers@, peer_ids());
                lemma_same_keys_distinct(was, self.peers@, peer_endpoints());
            }
        }
    }
}

/// What was said, or else what was known.
pub open spec fn or_else<T>(said: Option<T>, known: Option<T>) -> Option<T> {
    if said is Some {
        said
    } else {
        known
    }
}

pub open spec fn or_kept<T>(said: Option<T>, known: T) -> T {
    match said {
        Some(x) => x,
        None => known,
    }
}

proof fn lemma_unique_text()
    ensures
        "UNIQUE constraint failed: "@ + "peers.id"@ == "UNIQUE constraint failed: peers.id"@,
        "UNIQUE constraint failed: "@ + "peers.endpoint"@
            == "UNIQUE constraint failed: peers.endpoint"@,
{
    reveal_strlit("UNIQUE constraint failed: ");
    reveal_strlit("peers.id");
    reveal_strlit("peers.endpoint");
    reveal_strlit("UNIQUE constraint failed: peers.id");
    reveal_strlit("UNIQUE constraint failed: peers.endpoint");
    assert("UNIQUE constraint failed: "@ + "peers.id"@ =~= "UNIQUE constraint failed: peers.id"@);
    assert("UNIQUE constraint failed: "@ + "peers.endpoint"@
        =~= "UNIQUE constraint failed: peers.endpoint"@);
}

proof fn lemma_only_one(peers: Seq<Peer>, id: Seq<char>, at: int)
    requires
        distinct(peers, peer_ids()),
        0 <= at < peers.len(),
        peers[at].id@ == id,
    ensures
        forall|i: int| 0 <= i < peers.len() && i != at ==> (#[trigger] peers[i]).id@ != id,
{
    assert forall|i: int| 0 <= i < peers.len() && i != at implies (#[trigger] peers[i]).id@
        != id by {
        if i < at {
            assert(peer_ids()(peers[i]) != peer_ids()(peers[at]));
        } else {
            assert(peer_ids()(peers[at]) != peer_ids()(peers[i]));
        }
    }
}

proof fn lemma_peers_kept(was: Seq<Peer>, keep: spec_fn(Peer) -> bool)
    requires
        distinct(was, peer_ids()),
        distinct(was, peer_endpoints()),
    ensures
        distinct(kept(was, keep), peer_ids()),
        distinct(kept(was, keep), peer_endpoints()),
        kept(was, keep).len() <= was.len(),
{
    lemma_kept_distinct(was, keep, peer_ids());
    lemma_kept_distinct(was, keep, peer_endpoints());
    lemma_kept_members(was, keep);
}

/// A peer the user typed in is never forgotten for them, nor is one that is
/// online.
pub proof fn law_only_dead_strangers_are_forgotten(peers: Seq<Peer>, silent_for: u64, now: i64, p: Peer)
    requires
        peers.contains(p),
        p.source@ != SOURCE_DISCOVERED@ || p.online(),
    ensures
        kept(peers, alive(silent_for, now)).contains(p),
{
    lemma_kept_members(peers, alive(silent_for, now));
    assert(kept(peers, alive(silent_for, now)).contains(p) <==> (peers.contains(p) && alive(
        silent_for,
        now,
    )(p)));
}

} // verus!
