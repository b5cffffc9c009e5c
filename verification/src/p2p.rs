//! Peers found on the network.
use vstd::prelude::*;

use crate::error::{AppError, Trouble};
use crate::net::{is_key, is_peer_key, key_allowed};
use crate::protocol::opt;
use crate::text::{
    concat, concat3, has_prefix, lemma_texts_push, same, same_ignoring_case, starts_with,
    strip_prefix, stripped, texts,
};

verus! {

broadcast use vstd::string::group_string_axioms;

/// The scheme of a peer that only the network can find.
pub const P2P_SCHEME: &'static str = "p2p://";

/// The endpoint of a peer: its key, and no host.
pub fn p2p_endpoint(hex_peer_id: &str) -> (r: String)
    ensures
        r@ == P2P_SCHEME@ + hex_peer_id@,
{
    concat(P2P_SCHEME, hex_peer_id)
}

/// The ways a peer can be named.
#[derive(Debug, PartialEq)]
pub enum PeerName {
    /// By its key.
    Key(String),
    /// By an address that ends in its id.
    Address(String),
}

/// The key in an endpoint: behind the scheme, or standing alone.
pub open spec fn key_in(endpoint: Seq<char>) -> Option<Seq<char>> {
    match stripped(endpoint, P2P_SCHEME@) {
        Some(k) => if is_key(k) {
            Some(k)
        } else {
            None
        },
        None => if is_key(endpoint) {
            Some(endpoint)
        } else {
            None
        },
    }
}

/// How an endpoint names a peer: `p2p://` and its key, the key alone, or the
/// address a worker logs.
pub fn peer_id_of_endpoint(endpoint: &str) -> (r: Result<PeerName, AppError>)
    ensures
        match r {
            Ok(PeerName::Key(k)) => key_in(endpoint@) == Some(k@),
            Ok(PeerName::Address(a)) => {
                &&& key_in(endpoint@) is None
                &&& starts_with(endpoint@, "/"@)
                &&& a@ == endpoint@
            },
            Err(e) => {
                &&& e@ == Trouble::Invalid("not a peer address: "@ + endpoint@)
                &&& key_in(endpoint@) is None
                &&& !starts_with(endpoint@, "/"@)
            },
        },
{
    proof {
        reveal_strlit("p2p://");
        reveal_strlit("/");
    }
    if let Some(hex) = strip_prefix(endpoint, P2P_SCHEME) {
        if !is_peer_key(hex.as_str()) {
            assert(endpoint@[0] == P2P_SCHEME@[0]);
            return Err(AppError::Invalid(concat("not a peer address: ", endpoint)));
        }
        return Ok(PeerName::Key(hex));
    }
    if is_peer_key(endpoint) {
        return Ok(PeerName::Key(endpoint.to_string()));
    }
    if has_prefix(endpoint, "/") {
        return Ok(PeerName::Address(endpoint.to_string()));
    }
    Err(AppError::Invalid(concat("not a peer address: ", endpoint)))
}

/// A key names the same peer with the scheme before it and without.
pub proof fn law_endpoints_round_trip(key: Seq<char>)
    requires
        is_key(key),
    ensures
        key_in(P2P_SCHEME@ + key) == Some(key),
        key_in(key) == Some(key),
{
    let e = P2P_SCHEME@ + key;
    assert(e.take(P2P_SCHEME@.len() as int) =~= P2P_SCHEME@);
    assert(e.skip(P2P_SCHEME@.len() as int) =~= key);
    reveal_strlit("p2p://");
    if stripped(key, P2P_SCHEME@) is Some {
        assert(key[0] == P2P_SCHEME@[0]);
    }
}

/// A pinned key has to be the one that was dialled and the one announced.
pub fn check_keys(pinned: &Option<String>, dialled: &Option<String>, announced: &str) -> (r: Result<
    (),
    AppError,
>)
    ensures
        ({
            let dial_ok = match opt(*dialled) {
                Some(d) => key_allowed(opt(*pinned), d),
                None => true,
            };
            match r {
                Ok(_) => dial_ok && key_allowed(opt(*pinned), announced@),
                Err(e) => {
                    &&& !dial_ok || !key_allowed(opt(*pinned), announced@)
                    &&& opt(*pinned) matches Some(p) && e@ == Trouble::Net(
                        if !dial_ok {
                            "peer key mismatch: pinned "@ + p + ", connection says "@ + opt(
                                *dialled,
                            )->0
                        } else {
                            "peer key mismatch: pinned "@ + p + ", announce says "@ + announced@
                        },
                    )
                },
            }
        }),
{
    if let Some(expected) = pinned {
        if let Some(actual) = dialled {
            if !same_ignoring_case(expected.as_str(), actual.as_str()) {
                let mut text = concat3(
                    "peer key mismatch: pinned ",
                    expected.as_str(),
                    ", connection says ",
                );
                text.append(actual.as_str());
                return Err(AppError::Net(text));
            }
        }
        if !same_ignoring_case(expected.as_str(), announced) {
            let mut text = concat3(
                "peer key mismatch: pinned ",
                expected.as_str(),
                ", announce says ",
            );
            text.append(announced);
            return Err(AppError::Net(text));
        }
    }
    Ok(())
}

/// Whether a list of ids already has one.
fn holds(v: &Vec<String>, id: &str) -> (r: bool)
    ensures
        r == texts(v@).contains(id@),
{
    let mut i: usize = 0;
    while i < v.len()
        invariant
            i <= v@.len(),
            forall|k: int| 0 <= k < i ==> (#[trigger] v@[k])@ != id@,
        decreases v@.len() - i,
    {
        if same(v[i].as_str(), id) {
            assert(texts(v@)[i as int] == id@);
            return true;
        }
        i = i + 1;
    }
    false
}

/// Ids that are not our own, in the order they came, the first time each.
pub open spec fn others_once(known: Seq<Seq<char>>, found: Seq<Seq<char>>, me: Seq<char>) -> Seq<
    Seq<char>,
>
    decreases found.len(),
{
    if found.len() == 0 {
        known
    } else {
        let before = others_once(known, found.drop_last(), me);
        if found.last() != me && !before.contains(found.last()) {
            before.push(found.last())
        } else {
            before
        }
    }
}

/// Ids that are not our own.
pub open spec fn others(found: Seq<Seq<char>>, me: Seq<char>) -> Seq<Seq<char>>
    decreases found.len(),
{
    if found.len() == 0 {
        seq![]
    } else if found.last() != me {
        others(found.drop_last(), me).push(found.last())
    } else {
        others(found.drop_last(), me)
    }
}

/// Everyone worth asking: whoever announced itself nearby, then whoever the
/// network says serves something, each once and never ourselves.
pub fn worth_asking(local: &Vec<String>, providers: &Vec<String>, me: &str) -> (r: Vec<String>)
    ensures
        texts(r@) == others_once(others(texts(local@), me@), texts(providers@), me@),
{
    let mut found: Vec<String> = Vec::new();
    let ghost near = texts(local@);
    let mut i: usize = 0;
    assert(texts(found@) =~= others(near.take(0), me@));
    while i < local.len()
        invariant
            i <= local@.len(),
            near == texts(local@),
            texts(found@) == others(near.take(i as int), me@),
        decreases local@.len() - i,
    {
        let ghost now = near.take(i as int + 1);
        assert(now.drop_last() =~= near.take(i as int));
        if !same(local[i].as_str(), me) {
            let id = local[i].clone();
            proof {
                lemma_texts_push(found@, id);
            }
            found.push(id);
        }
        i = i + 1;
    }
    assert(near.take(i as int) =~= near);
    let ghost known = others(near, me@);
    let ghost far = texts(providers@);
    let mut j: usize = 0;
    assert(texts(found@) =~= others_once(known, far.take(0), me@));
    while j < providers.len()
        invariant
            j <= providers@.len(),
            far == texts(providers@),
            texts(found@) == others_once(known, far.take(j as int), me@),
        decreases providers@.len() - j,
    {
        let ghost now = far.take(j as int + 1);
        assert(now.drop_last() =~= far.take(j as int));
        if !same(providers[j].as_str(), me) && !holds(&found, providers[j].as_str()) {
            let id = providers[j].clone();
            proof {
                lemma_texts_push(found@, id);
            }
            found.push(id);
        }
        j = j + 1;
    }
    assert(far.take(j as int) =~= far);
    found
}

} // verus!
