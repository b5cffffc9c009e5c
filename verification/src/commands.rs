//! What the window can ask for.
use vstd::prelude::*;

use crate::codec::{base64_encode, base64_written, parse_uuid, uuid_number, uuid_text, write_uuid};
use crate::error::{AppError, Trouble};
use crate::net::{endpoint_fault, is_key, is_peer_key, meant, normalize_endpoint};
use crate::p2p::{p2p_endpoint, P2P_SCHEME};
use crate::protocol::{opt, JobKind, PeerAnnounce};
use crate::results::ResultRecord;
use crate::store::peers::{knows_endpoint, knows_id, no_room_for, or_else};
use crate::store::{peer_ids, Db, Peer, MOCK_ENDPOINT, SOURCE_DISCOVERED};
use crate::text::{
    blank, chars_of, concat, concat3, contains, first_chars, has_text, is_blank, lemma_texts_push,
    lowercased, same, take_chars, text_of, texts, to_lowercase, trim, trimmed,
};

verus! {

broadcast use vstd::string::group_string_axioms;

/// Documents were dropped on the window.
pub const EVENT_FILES_DROPPED: &'static str = "files:dropped";

// -------------------------------------------------------------------- peers

/// A peer as the user typed it in.
#[derive(Debug, PartialEq)]
pub struct NewPeer {
    pub label: String,
    pub endpoint: String,
    pub public_key: Option<String>,
}

/// The key a user typed: lower case, and none where nothing was typed.
pub open spec fn typed_key(key: Option<Seq<char>>) -> Option<Seq<char>> {
    match key {
        Some(k) if lowercased(trimmed(k)).len() > 0 => Some(lowercased(trimmed(k))),
        _ => None,
    }
}

/// A peer to be added: at the endpoint that is meant, under its label or else
/// its endpoint, with the key that was typed. `address` is what is wrong with
/// the endpoint as a network address.
pub fn add_peer(
    label: &str,
    endpoint: &str,
    public_key: &Option<String>,
    address: &Option<String>,
) -> (r: Result<NewPeer, AppError>)
    ensures
        ({
            let key = typed_key(opt(*public_key));
            let at = meant(endpoint@);
            match r {
                Ok(p) => {
                    &&& !blank(endpoint@) && endpoint_fault(at, opt(*address)) is None
                    &&& key matches Some(k) ==> is_key(k)
                    &&& p.endpoint@ == at
                    &&& p.label@ == (if blank(label@) {
                        at
                    } else {
                        trimmed(label@)
                    })
                    &&& opt(p.public_key) == key
                },
                Err(e) => if blank(endpoint@) {
                    e@ == Trouble::Invalid("endpoint is empty"@)
                } else {
                    match endpoint_fault(at, opt(*address)) {
                        Some(why) => e@ == Trouble::Invalid(why),
                        None => {
                            &&& key matches Some(k) && !is_key(k)
                            &&& e@ == Trouble::Invalid(
                                "peer public key must be 64 hex characters (32-byte ed25519)"@,
                            )
                        },
                    }
                },
            }
        }),
{
    let at = match normalize_endpoint(endpoint, address) {
        Ok(a) => a,
        Err(e) => {
            return Err(e);
        },
    };
    let typed = trim(label);
    let label = if typed.as_str().is_empty() {
        at.clone()
    } else {
        typed
    };
    let key = match public_key {
        Some(k) => {
            let k = to_lowercase(trim(k.as_str()).as_str());
            if k.as_str().is_empty() {
                None
            } else {
                Some(k)
            }
        },
        None => None,
    };
    if let Some(k) = &key {
        if !is_peer_key(k.as_str()) {
            return Err(
                AppError::Invalid(
                    "peer public key must be 64 hex characters (32-byte ed25519)".to_string(),
                ),
            );
        }
    }
    Ok(NewPeer { label, endpoint: at, public_key: key })
}

/// The name to take over from a peer that gives one: only where the label is
/// not one the user typed.
pub fn adopted_label(peer: &Peer, announced: &Option<String>) -> (r: Option<String>)
    ensures
        opt(r) == (match opt(*announced) {
            Some(l) if !blank(l) && (peer.label@ == peer.endpoint@ || peer.source@
                == SOURCE_DISCOVERED@) => Some(trimmed(l)),
            _ => None,
        }),
{
    match announced {
        Some(l) => {
            let anonymous = same(peer.label.as_str(), peer.endpoint.as_str())
                || peer.is_discovered();
            if anonymous && !is_blank(l.as_str()) {
                Some(trim(l.as_str()))
            } else {
                None
            }
        },
        None => None,
    }
}

/// What a peer that could not be probed is marked as.
pub fn failed_status(message: &str) -> (r: &'static str)
    ensures
        r@ == (if contains(message@, "key mismatch"@) {
            "mismatch"@
        } else {
            "offline"@
        }),
{
    if has_text(message, "key mismatch") {
        "mismatch"
    } else {
        "offline"
    }
}

/// Whether an answer comes from a worker: it announced itself, and serves
/// something.
pub fn is_worker(announce: &Option<PeerAnnounce>) -> (r: bool)
    ensures
        r == (*announce matches Some(a) && a.caps@.len() > 0),
{
    match announce {
        Some(a) => a.caps.len() > 0,
        None => false,
    }
}

/// What a discovered worker is called: what it calls itself, or the two ends
/// of its key.
pub open spec fn discovered_name(announced: Option<Seq<char>>, hex: Seq<char>) -> Seq<char> {
    match announced {
        Some(l) if !blank(l) => first_chars(trimmed(l), 40),
        _ => hex.take(8) + "…"@ + hex.skip(hex.len() - 4),
    }
}

pub fn discovered_label(announced: &Option<String>, hex: &str) -> (r: String)
    requires
        hex@.len() >= 8,
    ensures
        r@ == discovered_name(opt(*announced), hex@),
{
    if let Some(l) = announced {
        if !is_blank(l.as_str()) {
            return take_chars(trim(l.as_str()).as_str(), 40);
        }
    }
    let v = chars_of(hex);
    let n: usize = v.len();
    assert(v@.subrange(0, 8) =~= v@.take(8));
    assert(v@.subrange(n - 4, n as int) =~= v@.skip(n - 4));
    concat3(text_of(&v, 0, 8).as_str(), "…", text_of(&v, n - 4, n).as_str())
}

/// What asking a peer found.
#[derive(Debug, PartialEq)]
pub struct Probe {
    pub latency_ms: u32,
    pub announce: Option<PeerAnnounce>,
}

/// The label of a peer after it was asked.
pub open spec fn label_after(p: Peer, announced: Option<Seq<char>>) -> Seq<char> {
    match announced {
        Some(l) if !blank(l) && (p.label@ == p.endpoint@ || p.source@ == SOURCE_DISCOVERED@) => {
            first_chars(trimmed(l), 40)
        },
        _ => p.label@,
    }
}

/// A peer before and after it answered.
pub open spec fn answered(a: Peer, b: Peer, probe: Probe, now: i64) -> bool {
    let said = probe.announce;
    &&& b.id == a.id && b.endpoint == a.endpoint && b.public_key == a.public_key
    &&& b.source == a.source && b.added_at == a.added_at
    &&& b.label@ == label_after(
        a,
        match said {
            Some(x) => opt(x.label),
            None => None,
        },
    )
    &&& b.status@ == "online"@ && b.latency_ms == Some(probe.latency_ms)
    &&& b.last_error is None && b.last_seen == Some(now)
    &&& match said {
        Some(x) => {
            &&& b.peer_id == Some(x.peer_id)
            &&& b.caps == x.caps && b.models == x.models && b.max_concurrent == x.max_concurrent
            &&& b.country == or_else(x.country, a.country)
            &&& b.payout == or_else(x.payout, a.payout)
        },
        None => {
            &&& b.peer_id == a.peer_id && b.caps == a.caps && b.models == a.models
            &&& b.max_concurrent == a.max_concurrent
            &&& b.country == a.country && b.payout == a.payout
        },
    }
}

/// A peer before and after it could not be asked.
pub open spec fn unanswered(a: Peer, b: Peer, message: Seq<char>) -> bool {
    &&& b == (Peer { status: b.status, latency_ms: None, last_error: b.last_error, ..a })
    &&& b.status@ == (if contains(message, "key mismatch"@) {
        "mismatch"@
    } else {
        "offline"@
    })
    &&& opt(b.last_error) == Some(message)
}

/// Writes down what asking a peer found: what it says of itself, or why it
/// could not be asked. What it did not say this time stays as it was.
pub fn record_probe(db: &mut Db, id: &str, found: Result<Probe, String>, now: i64) -> (r: Result<
    (),
    AppError,
>)
    requires
        old(db).wf(),
    ensures
        final(db).wf(),
        *final(db) == (Db { peers: final(db).peers, ..*old(db) }),
        match r {
            Ok(_) => {
                &&& knows_id(old(db).peers@, id@)
                &&& final(db).peers@.len() == old(db).peers@.len()
                &&& forall|i: int|
                    0 <= i < final(db).peers@.len() ==> {
                        let (a, b) = (old(db).peers@[i], #[trigger] final(db).peers@[i]);
                        if a.id@ == id@ {
                            match found {
                                Ok(probe) => answered(a, b, probe, now),
                                Err(message) => unanswered(a, b, message@),
                            }
                        } else {
                            a == b
                        }
                    }
            },
            Err(e) => {
                &&& !knows_id(old(db).peers@, id@)
                &&& *final(db) == *old(db)
                &&& e@ == Trouble::NotFound("peer "@ + id@)
            },
        },
{
    let ghost was = db.peers@;
    let peer = match db.get_peer(id) {
        Some(p) => p,
        None => {
            return Err(AppError::NotFound(concat("peer ", id)));
        },
    };
    let ghost at = choose|i: int| 0 <= i < was.len() && was[i] == *peer;
    assert(was[at].id@ == id@);
    let ghost row = *peer;
    proof {
        assert forall|i: int| 0 <= i < was.len() && i != at implies (#[trigger] was[i]).id@
            != id@ by {
            if i < at {
                assert(peer_ids()(was[i]) != peer_ids()(was[at]));
            } else {
                assert(peer_ids()(was[at]) != peer_ids()(was[i]));
            }
        }
    }
    match found {
        Ok(probe) => {
            let label = match &probe.announce {
                Some(a) => adopted_label(peer, &a.label),
                None => None,
            };
            if let Some(l) = label {
                db.rename_peer(id, l.as_str());
            }
            let ghost mid = db.peers@;
            assert(mid[at].label@ == label_after(
                row,
                match probe.announce {
                    Some(x) => opt(x.label),
                    None => None,
                },
            ));
            assert(mid[at] == Peer { label: mid[at].label, ..row });
            let latency: Option<u32> = Some(probe.latency_ms);
            match probe.announce {
                Some(a) => {
                    db.update_peer_status(
                        id,
                        "online",
                        latency,
                        Some(a.peer_id),
                        Some(a.caps),
                        Some(a.models),
                        Some(a.max_concurrent),
                        a.country,
                        None,
                        a.payout,
                        now,
                    );
                },
                None => {
                    db.update_peer_status(
                        id,
                        "online",
                        latency,
                        None,
                        None,
                        None,
                        None,
                        None,
                        None,
                        None,
                        now,
                    );
                },
            }
            proof {
                let is = db.peers@;
                assert(mid[at].id@ == id@);
                assert(answered(was[at], is[at], probe, now));
                assert forall|i: int| 0 <= i < is.len() && i != at implies #[trigger] is[i]
                    == was[i] by {
                    assert(mid[i] == was[i]);
                }
            }
        },
        Err(message) => {
            let status = failed_status(message.as_str());
            proof {
                reveal_strlit("online");
                reveal_strlit("offline");
                reveal_strlit("mismatch");
                assert("online"@.len() == 6 && "offline"@.len() == 7 && "mismatch"@.len() == 8);
            }
            db.update_peer_status(
                id,
                status,
                None,
                None,
                None,
                None,
                None,
                None,
                Some(message),
                None,
                now,
            );
        },
    }
    Ok(())
}

/// What is done about a key met on the network.
#[derive(Debug, PartialEq)]
pub enum Meeting {
    /// It is this client itself.
    Own,
    /// A peer that is known, to be asked again.
    Known(String),
    /// Somebody new, to be asked before it is written down.
    New,
}

/// What is done about a key met on the network.
pub fn meet(db: &Db, me: &str, hex: &str) -> (r: Meeting)
    ensures
        if hex@ == me@ {
            r is Own
        } else if knows_endpoint(db.peers@, P2P_SCHEME@ + hex@) {
            r matches Meeting::Known(id) && exists|i: int|
                0 <= i < db.peers@.len() && (#[trigger] db.peers@[i]).endpoint@ == P2P_SCHEME@
                    + hex@ && db.peers@[i].id@ == id@
        } else {
            r is New
        },
{
    if same(hex, me) {
        return Meeting::Own;
    }
    match db.peer_by_endpoint(p2p_endpoint(hex).as_str()) {
        Some(p) => {
            proof {
                let i = choose|i: int| 0 <= i < db.peers@.len() && db.peers@[i] == *p;
                assert(db.peers@[i].id@ == p.id@);
            }
            Meeting::Known(p.id.clone())
        },
        None => Meeting::New,
    }
}

/// Writes down a worker met on the network, as it announces itself, and gives
/// its id back.
pub fn record_discovered(db: &mut Db, hex: &str, announce: PeerAnnounce, now: i64) -> (r: Result<
    String,
    AppError,
>)
    requires
        old(db).wf(),
        hex@.len() >= 8,
        !knows_endpoint(old(db).peers@, P2P_SCHEME@ + hex@),
    ensures
        final(db).wf(),
        *final(db) == (Db { peers: final(db).peers, ..*old(db) }),
        match r {
            Ok(id) => {
                let p = final(db).peers@.last();
                &&& final(db).peers@ == old(db).peers@.push(p)
                &&& p.id@ == id@ && !knows_id(old(db).peers@, id@)
                &&& p.endpoint@ == P2P_SCHEME@ + hex@
                &&& p.label@ == discovered_name(opt(announce.label), hex@)
                &&& p.source@ == SOURCE_DISCOVERED@ && p.added_at == now
                &&& p.status@ == "online"@ && p.last_seen == Some(now)
                &&& p.peer_id == Some(announce.peer_id)
                &&& p.caps == announce.caps && p.models == announce.models
                &&& p.max_concurrent == announce.max_concurrent
                &&& p.country == announce.country && p.payout == announce.payout
                &&& p.public_key is None && p.latency_ms is None && p.last_error is None
            },
            Err(e) => *final(db) == *old(db) && no_room_for(
                old(db).peers@,
                P2P_SCHEME@ + hex@,
                e@,
            ),
        },
{
    let ghost was = db.peers@;
    let label = discovered_label(&announce.label, hex);
    let endpoint = p2p_endpoint(hex);
    let id = match db.upsert_discovered_peer(label.as_str(), endpoint.as_str(), now) {
        Ok(id) => id,
        Err(e) => {
            return Err(e);
        },
    };
    let ghost mid = db.peers@;
    assert(mid[was.len() as int].id@ == id@);
    db.update_peer_status(
        id.as_str(),
        "online",
        None,
        Some(announce.peer_id),
        Some(announce.caps),
        Some(announce.models),
        Some(announce.max_concurrent),
        announce.country,
        None,
        announce.payout,
        now,
    );
    proof {
        let is = db.peers@;
        assert forall|i: int| 0 <= i < was.len() implies #[trigger] is[i] == was[i] by {
            assert(mid[i] == was[i]);
            if was[i].id@ == id@ {
                assert(knows_id(was, id@));
            }
        }
        assert(is =~= was.push(is.last()));
    }
    Ok(id)
}

// --------------------------------------------------------------------- jobs

/// The job a text names.
pub fn job_id(text: &str) -> (r: Result<u128, AppError>)
    ensures
        match r {
            Ok(n) => uuid_number(text@) == Some(n),
            Err(e) => uuid_number(text@) is None && e@ == Trouble::Invalid("not a job id"@),
        },
{
    match parse_uuid(text) {
        Some(n) => Ok(n),
        None => Err(AppError::Invalid("not a job id".to_string())),
    }
}

/// How many rows are listed: as many as were asked for, a thousand at most.
pub open spec fn rows_for(asked: Option<u32>, usual: u32) -> u32 {
    let n = match asked {
        Some(n) => n,
        None => usual,
    };
    if n < 1000 {
        n
    } else {
        1000
    }
}

/// How many rows to list: the usual number unless another is asked for, and a
/// thousand at most.
pub fn limit(asked: Option<u32>, usual: u32) -> (r: u32)
    ensures
        r == rows_for(asked, usual),
{
    let n: u32 = asked.unwrap_or(usual);
    if n < 1000 {
        n
    } else {
        1000
    }
}

// ------------------------------------------------------------------ results

/// The file of a result, or why there is none to read.
pub fn result_file(job_id: u128, record: &Option<ResultRecord>) -> (r: Result<String, AppError>)
    ensures
        match *record {
            None => r matches Err(e) && e@ == Trouble::NotFound(
                "result for job "@ + uuid_text(job_id),
            ),
            Some(rec) => match opt(rec.image_path) {
                Some(p) => r matches Ok(s) && s@ == p,
                None => r matches Err(e) && e@ == Trouble::Invalid("this result is not an image"@),
            },
        },
{
    match record {
        None => Err(
            AppError::NotFound(concat("result for job ", write_uuid(job_id).as_str())),
        ),
        Some(rec) => match &rec.image_path {
            Some(p) => Ok(p.clone()),
            None => Err(AppError::Invalid("this result is not an image".to_string())),
        },
    }
}

/// How a file that could not be read is told.
pub fn unreadable(path: &str, reason: &str) -> (r: AppError)
    ensures
        r@ == Trouble::Invalid("cannot read "@ + path@ + ": "@ + reason@),
{
    let mut text = concat3("cannot read ", path, ": ");
    text.append(reason);
    AppError::Invalid(text)
}

/// The bytes of a result as base64, for starting from it.
pub fn read_result_bytes(bytes: &Vec<u8>) -> (r: String)
    ensures
        r@ == base64_written(bytes@),
{
    base64_encode(bytes.as_slice())
}

/// The type of a file, by the end of its name.
pub open spec fn shown_mime(extension: Option<Seq<char>>) -> Seq<char> {
    match extension {
        Some(e) => if e == "jpg"@ || e == "jpeg"@ {
            "image/jpeg"@
        } else if e == "webp"@ {
            "image/webp"@
        } else if e == "gif"@ {
            "image/gif"@
        } else if e == "mp4"@ {
            "video/mp4"@
        } else if e == "webm"@ {
            "video/webm"@
        } else if e == "mov"@ {
            "video/quicktime"@
        } else {
            "image/png"@
        },
        None => "image/png"@,
    }
}

fn mime_for(extension: &Option<String>) -> (r: &'static str)
    ensures
        r@ == shown_mime(opt(*extension)),
{
    match extension {
        Some(e) => {
            let e = e.as_str();
            if same(e, "jpg") || same(e, "jpeg") {
                "image/jpeg"
            } else if same(e, "webp") {
                "image/webp"
            } else if same(e, "gif") {
                "image/gif"
            } else if same(e, "mp4") {
                "video/mp4"
            } else if same(e, "webm") {
                "video/webm"
            } else if same(e, "mov") {
                "video/quicktime"
            } else {
                "image/png"
            }
        },
        None => "image/png",
    }
}

/// The bytes of a result as a URL that a page can show.
pub fn read_result_image(extension: &Option<String>, bytes: &Vec<u8>) -> (r: String)
    ensures
        r@ == "data:"@ + shown_mime(opt(*extension)) + ";base64,"@ + base64_written(bytes@),
{
    let mut url = concat3("data:", mime_for(extension), ";base64,");
    url.append(base64_encode(bytes.as_slice()).as_str());
    url
}

// ------------------------------------------------------------ conversations

/// The title and the kind of a new chat: the first thing said in it, and text
/// unless it is about pictures.
pub fn new_conversation(title: &str, kind: &str) -> (r: (String, &'static str))
    ensures
        r.0@ == (if blank(title@) {
            "New chat"@
        } else {
            first_chars(trimmed(title@), 60)
        }),
        r.1@ == (if kind@ == "image"@ {
            "image"@
        } else {
            "llm"@
        }),
{
    let t = trim(title);
    let named = if t.as_str().is_empty() {
        "New chat".to_string()
    } else {
        take_chars(t.as_str(), 60)
    };
    let kind = if same(kind, "image") {
        "image"
    } else {
        "llm"
    };
    (named, kind)
}

/// The new title of a chat; it has to have one.
pub fn rename_conversation(title: &str) -> (r: Result<String, AppError>)
    ensures
        match r {
            Ok(t) => !blank(title@) && t@ == first_chars(trimmed(title@), 60),
            Err(e) => blank(title@) && e@ == Trouble::Invalid("a chat needs a name"@),
        },
{
    let t = trim(title);
    if t.as_str().is_empty() {
        return Err(AppError::Invalid("a chat needs a name".to_string()));
    }
    Ok(take_chars(t.as_str(), 60))
}

// ------------------------------------------------------------------- status

/// Whether anything can be done right now.
#[derive(Debug, PartialEq)]
pub struct NetworkStatus {
    /// Peers online; one that does several things is one.
    pub online: u32,
    pub llm_peers: u32,
    pub image_peers: u32,
    pub video_peers: u32,
    /// The models on offer, each once.
    pub models: Vec<String>,
    pub image_models: Vec<String>,
    pub video_models: Vec<String>,
    pub searching: bool,
}

/// How many peers are online.
pub open spec fn online_count(peers: Seq<Peer>) -> nat
    decreases peers.len(),
{
    if peers.len() == 0 {
        0
    } else {
        online_count(peers.drop_last()) + if peers.last().online() {
            1nat
        } else {
            0nat
        }
    }
}

/// How many peers are online and say they can do this.
pub open spec fn capable_count(peers: Seq<Peer>, cap: Seq<char>) -> nat
    decreases peers.len(),
{
    if peers.len() == 0 {
        0
    } else {
        capable_count(peers.drop_last(), cap) + if peers.last().online() && texts(
            peers.last().caps@,
        ).contains(cap) {
            1nat
        } else {
            0nat
        }
    }
}

/// A list with one more text, where it does not hold it yet.
pub open spec fn with_once(known: Seq<Seq<char>>, x: Seq<char>) -> Seq<Seq<char>> {
    if known.contains(x) {
        known
    } else {
        known.push(x)
    }
}

/// The models of a kind among a peer's first `n`, added to those known.
pub open spec fn with_models(
    known: Seq<Seq<char>>,
    p: Peer,
    kind: JobKind,
    n: int,
) -> Seq<Seq<char>>
    decreases n,
{
    if n <= 0 {
        known
    } else {
        let before = with_models(known, p, kind, n - 1);
        if p.models@[n - 1].kind == kind {
            with_once(before, p.models@[n - 1].id@)
        } else {
            before
        }
    }
}

/// The models of a kind that online peers serve, each once, in the order they
/// are met.
pub open spec fn models_online(peers: Seq<Peer>, kind: JobKind) -> Seq<Seq<char>>
    decreases peers.len(),
{
    if peers.len() == 0 {
        seq![]
    } else {
        let before = models_online(peers.drop_last(), kind);
        let p = peers.last();
        if p.online() {
            with_models(before, p, kind, p.models@.len() as int)
        } else {
            before
        }
    }
}

fn holds(v: &Vec<String>, x: &str) -> (r: bool)
    ensures
        r == texts(v@).contains(x@),
{
    let mut i: usize = 0;
    while i < v.len()
        invariant
            i <= v@.len(),
            forall|k: int| 0 <= k < i ==> (#[trigger] v@[k])@ != x@,
        decreases v@.len() - i,
    {
        if same(v[i].as_str(), x) {
            assert(texts(v@)[i as int] == x@);
            return true;
        }
        i = i + 1;
    }
    false
}

fn models_of(peers: &Vec<Peer>, kind: JobKind) -> (r: Vec<String>)
    ensures
        texts(r@) == models_online(peers@, kind),
{
    let mut out: Vec<String> = Vec::new();
    let mut i: usize = 0;
    assert(texts(out@) =~= models_online(peers@.take(0), kind));
    while i < peers.len()
        invariant
            i <= peers@.len(),
            texts(out@) == models_online(peers@.take(i as int), kind),
        decreases peers@.len() - i,
    {
        let ghost now = peers@.take(i as int + 1);
        let ghost before = models_online(peers@.take(i as int), kind);
        assert(now.drop_last() =~= peers@.take(i as int));
        let p = &peers[i];
        assert(now.last() == *p);
        if p.is_online() {
            let mut j: usize = 0;
            while j < p.models.len()
                invariant
                    j <= p.models@.len(),
                    texts(out@) == with_models(before, *p, kind, j as int),
                decreases p.models@.len() - j,
            {
                let m = &p.models[j];
                if m.kind == kind && !holds(&out, m.id.as_str()) {
                    let id = m.id.clone();
                    proof {
                        lemma_texts_push(out@, id);
                    }
                    out.push(id);
                }
                j = j + 1;
            }
        }
        i = i + 1;
    }
    assert(peers@.take(i as int) =~= peers@);
    out
}

proof fn lemma_counts_bounded(peers: Seq<Peer>, cap: Seq<char>)
    ensures
        online_count(peers) <= peers.len(),
        capable_count(peers, cap) <= online_count(peers),
    decreases peers.len(),
{
    if peers.len() > 0 {
        lemma_counts_bounded(peers.drop_last(), cap);
    }
}

fn count_capable(peers: &Vec<Peer>, cap: &str) -> (r: u32)
    requires
        peers@.len() <= u32::MAX,
    ensures
        r == capable_count(peers@, cap@),
{
    let mut n: u32 = 0;
    let mut i: usize = 0;
    while i < peers.len()
        invariant
            i <= peers@.len() <= u32::MAX,
            n == capable_count(peers@.take(i as int), cap@),
            n <= i,
        decreases peers@.len() - i,
    {
        let ghost now = peers@.take(i as int + 1);
        assert(now.drop_last() =~= peers@.take(i as int));
        assert(now.last() == peers@[i as int]);
        if peers[i].is_online() && holds(&peers[i].caps, cap) {
            n = n + 1;
        }
        i = i + 1;
    }
    assert(peers@.take(i as int) =~= peers@);
    n
}

fn count_online(peers: &Vec<Peer>) -> (r: u32)
    requires
        peers@.len() <= u32::MAX,
    ensures
        r == online_count(peers@),
{
    let mut n: u32 = 0;
    let mut i: usize = 0;
    while i < peers.len()
        invariant
            i <= peers@.len() <= u32::MAX,
            n == online_count(peers@.take(i as int)),
            n <= i,
        decreases peers@.len() - i,
    {
        let ghost now = peers@.take(i as int + 1);
        assert(now.drop_last() =~= peers@.take(i as int));
        assert(now.last() == peers@[i as int]);
        if peers[i].is_online() {
            n = n + 1;
        }
        i = i + 1;
    }
    assert(peers@.take(i as int) =~= peers@);
    n
}

/// Whether anything can be done right now, from the peers that are known.
pub fn network_status(peers: &Vec<Peer>, searching: bool) -> (r: NetworkStatus)
    requires
        peers@.len() <= u32::MAX,
    ensures
        r.online == online_count(peers@),
        r.llm_peers == capable_count(peers@, "llm"@),
        r.image_peers == capable_count(peers@, "image"@),
        r.video_peers == capable_count(peers@, "video"@),
        texts(r.models@) == models_online(peers@, JobKind::Llm),
        texts(r.image_models@) == models_online(peers@, JobKind::Image),
        texts(r.video_models@) == models_online(peers@, JobKind::Video),
        r.searching == searching,
{
    NetworkStatus {
        online: count_online(peers),
        llm_peers: count_capable(peers, "llm"),
        image_peers: count_capable(peers, "image"),
        video_peers: count_capable(peers, "video"),
        models: models_of(peers, JobKind::Llm),
        image_models: models_of(peers, JobKind::Image),
        video_models: models_of(peers, JobKind::Video),
        searching,
    }
}

/// Adding models leaves no model in the list twice.
proof fn lemma_models_once(known: Seq<Seq<char>>, p: Peer, kind: JobKind, n: int)
    requires
        known.no_duplicates(),
    ensures
        with_models(known, p, kind, n).no_duplicates(),
    decreases n,
{
    if n > 0 {
        lemma_models_once(known, p, kind, n - 1);
    }
}

/// No model is listed twice, and no kind of work has more peers than are
/// online.
pub proof fn law_each_model_is_listed_once(peers: Seq<Peer>, kind: JobKind, cap: Seq<char>)
    ensures
        models_online(peers, kind).no_duplicates(),
        capable_count(peers, cap) <= online_count(peers) <= peers.len(),
    decreases peers.len(),
{
    lemma_counts_bounded(peers, cap);
    if peers.len() > 0 {
        law_each_model_is_listed_once(peers.drop_last(), kind, cap);
        let p = peers.last();
        lemma_models_once(
            models_online(peers.drop_last(), kind),
            p,
            kind,
            p.models@.len() as int,
        );
    }
}

/// The numbers on the first screen.
#[derive(Debug, PartialEq)]
pub struct DashboardStats {
    pub peers: u32,
    pub peers_online: u32,
    pub open_jobs: u32,
    pub results: u32,
    pub peer_id: String,
    pub protocol_version: u32,
    pub discovery: bool,
}

/// How many peers are online that do not run in this process.
pub open spec fn real_online(peers: Seq<Peer>) -> nat
    decreases peers.len(),
{
    if peers.len() == 0 {
        0
    } else {
        real_online(peers.drop_last()) + if peers.last().online() && peers.last().endpoint@
            != MOCK_ENDPOINT@ {
            1nat
        } else {
            0nat
        }
    }
}

/// The numbers on the first screen. `counts` are the peers, the open jobs and
/// the results that are kept.
pub fn dashboard_stats(
    peers: &Vec<Peer>,
    counts: (u32, u32, u32),
    peer_id: String,
    protocol_version: u32,
    discovery: bool,
) -> (r: DashboardStats)
    requires
        peers@.len() <= u32::MAX,
    ensures
        r.peers == counts.0,
        r.peers_online == real_online(peers@),
        r.open_jobs == counts.1,
        r.results == counts.2,
        r.peer_id@ == peer_id@,
        r.protocol_version == protocol_version,
        r.discovery == discovery,
{
    let mut n: u32 = 0;
    let mut i: usize = 0;
    while i < peers.len()
        invariant
            i <= peers@.len() <= u32::MAX,
            n == real_online(peers@.take(i as int)),
            n <= i,
        decreases peers@.len() - i,
    {
        let ghost now = peers@.take(i as int + 1);
        assert(now.drop_last() =~= peers@.take(i as int));
        assert(now.last() == peers@[i as int]);
        if peers[i].is_online() && !peers[i].is_mock() {
            n = n + 1;
        }
        i = i + 1;
    }
    assert(peers@.take(i as int) =~= peers@);
    DashboardStats {
        peers: counts.0,
        peers_online: n,
        open_jobs: counts.1,
        results: counts.2,
        peer_id,
        protocol_version,
        discovery,
    }
}

} // verus!
