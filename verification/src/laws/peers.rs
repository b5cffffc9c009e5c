//! Peers: what is typed of them, what they answer, and what is shown of them
//! all.
use vstd::prelude::*;

use crate::commands::{
    answered, capable_count, discovered_name, label_after, models_online, online_count,
    real_online, typed_key, unanswered, with_models, Probe,
};
use crate::protocol::{opt, JobKind};
use crate::store::{Peer, MOCK_ENDPOINT, SOURCE_DISCOVERED};
use crate::text::{blank, contains, first_chars, lowercased, texts, trimmed};

verus! {

broadcast use vstd::string::group_string_axioms;

/// A key that is typed counts in lower case and without the space around it;
/// what holds nothing else is no key.
pub proof fn law_a_typed_key_counts(k: Seq<char>)
    ensures
        typed_key(None) is None,
        typed_key(Some(k)) matches Some(t) ==> t == lowercased(trimmed(k)) && t.len() > 0,
        lowercased(trimmed(k)).len() > 0 ==> typed_key(Some(k)) is Some,
{
}

/// A discovered worker goes by the name it gives itself, cut at 40 characters;
/// one without a name goes by the ends of its key.
pub proof fn law_a_discovered_worker_has_a_name(announced: Seq<char>, hex: Seq<char>)
    requires
        hex.len() >= 12,
    ensures
        !blank(announced) ==> discovered_name(Some(announced), hex) == first_chars(
            trimmed(announced),
            40,
        ),
        blank(announced) ==> discovered_name(Some(announced), hex) == discovered_name(None, hex),
        discovered_name(None, hex).len() == 13,
        discovered_name(None, hex).take(8) == hex.take(8),
        discovered_name(None, hex).skip(9) == hex.skip(hex.len() - 4),
{
    reveal_strlit("…");
    assert("…"@.len() == 1);
    let n = discovered_name(None, hex);
    assert(n.take(8) =~= hex.take(8));
    assert(n.skip(9) =~= hex.skip(hex.len() - 4));
}

/// A label that a user gave stays; one that stands for none, and that of a
/// discovered peer, follows what the peer calls itself.
pub proof fn law_a_given_label_stays(p: Peer, announced: Option<Seq<char>>)
    ensures
        p.label@ != p.endpoint@ && p.source@ != SOURCE_DISCOVERED@ ==> label_after(p, announced)
            == p.label@,
        announced is None ==> label_after(p, announced) == p.label@,
        announced matches Some(l) ==> blank(l) ==> label_after(p, announced) == p.label@,
        announced matches Some(l) ==> !blank(l) && (p.label@ == p.endpoint@ || p.source@
            == SOURCE_DISCOVERED@) ==> label_after(p, announced) == first_chars(trimmed(l), 40),
{
}

/// A peer that answered is online, seen now, without a fault, and known by what
/// it announced; who it is and how it came to be known stay.
pub proof fn law_a_peer_that_answered_is_online(a: Peer, b: Peer, probe: Probe, now: i64)
    requires
        answered(a, b, probe, now),
    ensures
        b.status@ == "online"@ && b.online(),
        b.last_seen == Some(now) && b.latency_ms == Some(probe.latency_ms) && b.last_error is None,
        b.id == a.id && b.endpoint == a.endpoint && b.public_key == a.public_key && b.source
            == a.source && b.added_at == a.added_at,
        probe.announce matches Some(x) ==> {
            &&& b.peer_id == Some(x.peer_id)
            &&& b.caps == x.caps && b.models == x.models && b.max_concurrent == x.max_concurrent
            &&& x.payout is Some ==> b.payout == x.payout
            &&& x.payout is None ==> b.payout == a.payout
            &&& x.country is Some ==> b.country == x.country
            &&& x.country is None ==> b.country == a.country
        },
        probe.announce is None ==> b.models == a.models && b.caps == a.caps && b.payout == a.payout
            && b.country == a.country && b.label@ == a.label@,
{
}

/// A peer that could not be asked is not online and says why; all that was
/// known of it stays known.
pub proof fn law_a_peer_that_failed_says_why(a: Peer, b: Peer, message: Seq<char>)
    requires
        unanswered(a, b, message),
    ensures
        !b.online(),
        opt(b.last_error) == Some(message) && b.latency_ms is None,
        b.status@ == "mismatch"@ <==> contains(message, "key mismatch"@),
        b.status@ == "offline"@ <==> !contains(message, "key mismatch"@),
        b.id == a.id && b.label == a.label && b.endpoint == a.endpoint && b.public_key
            == a.public_key && b.models == a.models && b.caps == a.caps && b.payout == a.payout
            && b.last_seen == a.last_seen && b.source == a.source,
{
    reveal_strlit("mismatch");
    reveal_strlit("offline");
    reveal_strlit("online");
    assert("mismatch"@.len() == 8 && "offline"@.len() == 7 && "online"@.len() == 6);
}

/// Each peer that is online adds one to those counted where it fits.
pub proof fn law_online_peers_are_counted(peers: Seq<Peer>, p: Peer, cap: Seq<char>)
    ensures
        online_count(seq![]) == 0 && capable_count(seq![], cap) == 0 && real_online(seq![]) == 0,
        p.online() ==> online_count(peers.push(p)) == online_count(peers) + 1,
        !p.online() ==> online_count(peers.push(p)) == online_count(peers) && capable_count(
            peers.push(p),
            cap,
        ) == capable_count(peers, cap) && real_online(peers.push(p)) == real_online(peers),
        p.online() && texts(p.caps@).contains(cap) ==> capable_count(peers.push(p), cap)
            == capable_count(peers, cap) + 1,
        !texts(p.caps@).contains(cap) ==> capable_count(peers.push(p), cap) == capable_count(
            peers,
            cap,
        ),
        p.online() && p.endpoint@ != MOCK_ENDPOINT@ ==> real_online(peers.push(p)) == real_online(
            peers,
        ) + 1,
        p.endpoint@ == MOCK_ENDPOINT@ ==> real_online(peers.push(p)) == real_online(peers),
        real_online(peers) <= online_count(peers) <= peers.len(),
    decreases peers.len(),
{
    assert(peers.push(p).drop_last() =~= peers);
    if peers.len() > 0 {
        law_online_peers_are_counted(peers.drop_last(), peers.last(), cap);
        assert(peers.drop_last().push(peers.last()) =~= peers);
    }
}

/// A peer that is online serves a model of this kind.
pub open spec fn served(peers: Seq<Peer>, kind: JobKind, id: Seq<char>) -> bool {
    exists|i: int, j: int| #[trigger] serves_at(peers, kind, id, i, j)
}

/// The model at one place of a peer's list, where that peer is online.
pub open spec fn serves_at(peers: Seq<Peer>, kind: JobKind, id: Seq<char>, i: int, j: int) -> bool {
    0 <= i < peers.len() && peers[i].online() && 0 <= j < peers[i].models@.len()
        && peers[i].models@[j].kind == kind && peers[i].models@[j].id@ == id
}

/// The models shown are those that somebody online serves, each once.
pub proof fn law_models_on_show_are_served(peers: Seq<Peer>, kind: JobKind)
    ensures
        forall|id: Seq<char>| #[trigger]
            models_online(peers, kind).contains(id) <==> served(peers, kind, id),
        models_online(peers, kind).no_duplicates(),
    decreases peers.len(),
{
    let all = models_online(peers, kind);
    if peers.len() > 0 {
        let front = peers.drop_last();
        let before = models_online(front, kind);
        let p = peers.last();
        let n = p.models@.len() as int;
        law_models_on_show_are_served(front, kind);
        lemma_with_models(before, p, kind, n);
        assert forall|id: Seq<char>| #[trigger] all.contains(id) <==> served(peers, kind, id) by {
            if all.contains(id) {
                if before.contains(id) {
                    assert(served(front, kind, id));
                    let (i, j) = choose|i: int, j: int| #[trigger] serves_at(front, kind, id, i, j);
                    assert(serves_at(peers, kind, id, i, j));
                } else {
                    let j = choose|j: int|
                        0 <= j < n && (#[trigger] p.models@[j]).kind == kind && p.models@[j].id@
                            == id;
                    assert(serves_at(peers, kind, id, peers.len() - 1, j));
                }
            }
            if served(peers, kind, id) {
                let (i, j) = choose|i: int, j: int| #[trigger] serves_at(peers, kind, id, i, j);
                if i < front.len() {
                    assert(serves_at(front, kind, id, i, j));
                    assert(before.contains(id));
                    if p.online() {
                        assert(with_models(before, p, kind, n).contains(id));
                    }
                } else {
                    assert(p.models@[j].id@ == id);
                    assert(with_models(before, p, kind, n).contains(id));
                }
            }
        }
    } else {
        assert forall|id: Seq<char>| #[trigger] all.contains(id) <==> served(peers, kind, id) by {
            if served(peers, kind, id) {
                let (i, j) = choose|i: int, j: int| #[trigger] serves_at(peers, kind, id, i, j);
            }
        }
    }
}

proof fn lemma_with_models(known: Seq<Seq<char>>, p: Peer, kind: JobKind, n: int)
    requires
        0 <= n <= p.models@.len(),
    ensures
        forall|id: Seq<char>| #[trigger]
            with_models(known, p, kind, n).contains(id) <==> known.contains(id) || exists|j: int|
                0 <= j < n && (#[trigger] p.models@[j]).kind == kind && p.models@[j].id@ == id,
        known.no_duplicates() ==> with_models(known, p, kind, n).no_duplicates(),
    decreases n,
{
    if n > 0 {
        lemma_with_models(known, p, kind, n - 1);
        let before = with_models(known, p, kind, n - 1);
        let x = p.models@[n - 1].id@;
        let all = with_models(known, p, kind, n);
        if p.models@[n - 1].kind == kind {
            assert(forall|id: Seq<char>| #[trigger]
                all.contains(id) <==> before.contains(id) || id == x) by {
                assert forall|id: Seq<char>| #[trigger] all.contains(id) <==> before.contains(id)
                    || id == x by {
                    if all.contains(id) {
                        let i = choose|i: int| 0 <= i < all.len() && all[i] == id;
                        if i < before.len() {
                            assert(before[i] == id);
                        }
                    }
                    if before.contains(id) {
                        let i = choose|i: int| 0 <= i < before.len() && before[i] == id;
                        assert(all[i] == id);
                    }
                    if !before.contains(x) {
                        assert(all[all.len() - 1] == x);
                    }
                }
            }
            if known.no_duplicates() && !before.contains(x) {
                assert forall|i: int, j: int|
                    0 <= i < all.len() && 0 <= j < all.len() && i != j implies all[i] != all[j] by {
                    if i < before.len() {
                        assert(before.contains(before[i]));
                    }
                    if j < before.len() {
                        assert(before.contains(before[j]));
                    }
                }
            }
        }
    }
}

} // verus!
