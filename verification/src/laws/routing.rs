//! Who is offered, who is chosen, and whom a job is handed on to.
use vstd::prelude::*;

use crate::order::{in_order, text_before};
use crate::protocol::{JobKind, ModelDescriptor};
use crate::routing::{
    answers_to, chosen_places, is_free_other, is_twin, law_only_online_peers_are_offered, model_at,
    names, on_offer, peer_picks, picks, price_at, price_in, retries, tried_in_order, try_ranks,
    Fallback, Wish,
};
use crate::store::Peer;

verus! {

broadcast use vstd::string::group_string_axioms;

// ------------------------------------------------------------ what is there

/// A model of a peer: the places of both.
pub type Place = (int, int);

pub open spec fn peer_of(peers: Seq<Peer>, at: Place) -> Peer {
    peers[at.0]
}

pub open spec fn model_of(peers: Seq<Peer>, at: Place) -> ModelDescriptor {
    peers[at.0].models@[at.1]
}

/// There is such a model, of this kind, and its peer is online.
pub open spec fn on_the_network(peers: Seq<Peer>, kind: JobKind, at: Place) -> bool {
    &&& 0 <= at.0 < peers.len()
    &&& 0 <= at.1 < peers[at.0].models@.len()
    &&& peers[at.0].status@ == "online"@
    &&& peers[at.0].models@[at.1].kind == kind
}

/// The name asked for is the listed one, or begins with it.
pub open spec fn meant_by(asked: Seq<char>, listed: Seq<char>) -> bool {
    asked == listed || (listed.len() <= asked.len() && asked.take(listed.len() as int) == listed)
}

/// Machine limits on how much there can be.
pub open spec fn countable(peers: Seq<Peer>) -> bool {
    &&& peers.len() <= usize::MAX
    &&& forall|i: int| 0 <= i < peers.len() ==> (#[trigger] peers[i]).models@.len() <= usize::MAX
}

/// The offer the user saw: the first model of that kind and name that the
/// first peer with that id lists.
pub open spec fn is_the_offer(
    peers: Seq<Peer>,
    kind: JobKind,
    model: Seq<char>,
    peer_id: Seq<char>,
    at: Place,
) -> bool {
    &&& 0 <= at.0 < peers.len()
    &&& 0 <= at.1 < peers[at.0].models@.len()
    &&& peers[at.0].id@ == peer_id
    &&& forall|k: int| 0 <= k < at.0 ==> (#[trigger] peers[k]).id@ != peer_id
    &&& model_of(peers, at).kind == kind
    &&& meant_by(model, model_of(peers, at).id@)
    &&& forall|k: int|
        0 <= k < at.1 ==> !((#[trigger] peers[at.0].models@[k]).kind == kind && meant_by(
            model,
            peers[at.0].models@[k].id@,
        ))
}

proof fn lemma_price_in(models: Seq<ModelDescriptor>, kind: JobKind, model: Seq<char>, j: int)
    requires
        0 <= j < models.len(),
        models[j].kind == kind && meant_by(model, models[j].id@),
        forall|k: int|
            0 <= k < j ==> !((#[trigger] models[k]).kind == kind && meant_by(model, models[k].id@)),
    ensures
        price_in(models, kind, model) == models[j].listed(),
    decreases models.len(),
{
    assert forall|m: Seq<char>| meant_by(model, m) == #[trigger] answers_to(m, model) by {}
    if j > 0 {
        assert(!answers_to(models[0].id@, model) || models[0].kind != kind);
        let rest = models.drop_first();
        assert forall|k: int| 0 <= k < j - 1 implies !((#[trigger] rest[k]).kind == kind && meant_by(
            model,
            rest[k].id@,
        )) by {
            assert(rest[k] == models[k + 1]);
        }
        lemma_price_in(rest, kind, model, j - 1);
    } else {
        assert(answers_to(models[0].id@, model));
    }
}

/// What the retries are held to is the listed price of the very model the user
/// saw at the first choice.
pub proof fn law_retries_are_held_to_the_offer(
    peers: Seq<Peer>,
    kind: JobKind,
    model: Seq<char>,
    peer_id: Seq<char>,
    offer: Place,
)
    requires
        is_the_offer(peers, kind, model, peer_id, offer),
    ensures
        price_at(peers, kind, model, peer_id) == model_of(peers, offer).listed(),
    decreases peers.len(),
{
    if offer.0 == 0 {
        let ms = peers[0].models@;
        assert forall|k: int| 0 <= k < offer.1 implies !((#[trigger] ms[k]).kind == kind && meant_by(
            model,
            ms[k].id@,
        )) by {
            assert(ms[k] == peers[offer.0].models@[k]);
        }
        lemma_price_in(ms, kind, model, offer.1);
    } else {
        assert(peers[0].id@ != peer_id);
        let rest = peers.drop_first();
        let at = (offer.0 - 1, offer.1);
        assert(rest[at.0] == peers[offer.0]);
        assert forall|k: int| 0 <= k < at.0 implies (#[trigger] rest[k]).id@ != peer_id by {
            assert(rest[k] == peers[k + 1]);
        }
        assert forall|k: int| 0 <= k < at.1 implies !((#[trigger] rest[at.0].models@[k]).kind
            == kind && meant_by(model, rest[at.0].models@[k].id@)) by {
            assert(rest[at.0].models@[k] == peers[offer.0].models@[k]);
        }
        law_retries_are_held_to_the_offer(rest, kind, model, peer_id, at);
    }
}

// ---------------------------------------------------------- all that is on

proof fn lemma_peer_picks_all(ms: Seq<ModelDescriptor>, kind: JobKind, peer: usize, n: int, q: int)
    requires
        0 <= q < n <= ms.len() <= usize::MAX,
        ms[q].kind == kind,
    ensures
        peer_picks(ms, kind, peer, n).contains((peer, q as usize)),
    decreases n,
{
    let all = peer_picks(ms, kind, peer, n);
    if q == n - 1 {
        assert(all.last() == (peer, q as usize));
        assert(all[all.len() - 1] == (peer, q as usize));
    } else {
        lemma_peer_picks_all(ms, kind, peer, n - 1, q);
        let front = peer_picks(ms, kind, peer, n - 1);
        let i = choose|i: int| 0 <= i < front.len() && front[i] == (peer, q as usize);
        assert(all[i] == front[i]);
    }
}

proof fn lemma_picks_all(peers: Seq<Peer>, kind: JobKind, n: int, at: Place)
    requires
        0 <= n <= peers.len(),
        countable(peers),
        at.0 < n,
        on_the_network(peers, kind, at),
    ensures
        picks(peers, kind, n).contains((at.0 as usize, at.1 as usize)),
    decreases n,
{
    let want = (at.0 as usize, at.1 as usize);
    let all = picks(peers, kind, n);
    let front = picks(peers, kind, n - 1);
    if at.0 == n - 1 {
        let ms = peers[n - 1].models@;
        lemma_peer_picks_all(ms, kind, (n - 1) as usize, ms.len() as int, at.1);
        let mine = peer_picks(ms, kind, (n - 1) as usize, ms.len() as int);
        let i = choose|i: int| 0 <= i < mine.len() && mine[i] == want;
        assert(all[front.len() + i] == want);
    } else {
        lemma_picks_all(peers, kind, n - 1, at);
        let i = choose|i: int| 0 <= i < front.len() && front[i] == want;
        assert(all[i] == want);
    }
}

/// What is on offer is exactly the models of the kind that online peers list.
pub proof fn law_everything_online_is_on_offer(peers: Seq<Peer>, kind: JobKind, at: Place)
    requires
        countable(peers),
        0 <= at.0 < peers.len(),
        0 <= at.1 < peers[at.0].models@.len(),
    ensures
        on_offer(peers, kind).contains((at.0 as usize, at.1 as usize)) <==> on_the_network(
            peers,
            kind,
            at,
        ),
{
    if on_the_network(peers, kind, at) {
        lemma_picks_all(peers, kind, peers.len() as int, at);
    }
    let all = on_offer(peers, kind);
    let want = (at.0 as usize, at.1 as usize);
    if all.contains(want) {
        let k = choose|k: int| 0 <= k < all.len() && all[k] == want;
        law_only_online_peers_are_offered(peers, kind, peers.len() as int, k);
    }
}

// ----------------------------------------------------------------- retries

/// A fallback names the peer and the model at a place.
pub open spec fn tells_of(f: Fallback, peers: Seq<Peer>, at: Place) -> bool {
    &&& f.peer_id@ == peer_of(peers, at).id@
    &&& f.peer_label@ == peer_of(peers, at).label@
    &&& f.model@ == model_of(peers, at).id@
}

/// Another online peer serves the same model for no more than the offer.
pub open spec fn same_for_no_more(
    peers: Seq<Peer>,
    kind: JobKind,
    model: Seq<char>,
    offer: Place,
    at: Place,
) -> bool {
    &&& on_the_network(peers, kind, at)
    &&& peer_of(peers, at).id@ != peer_of(peers, offer).id@
    &&& meant_by(model, model_of(peers, at).id@)
    &&& model_of(peers, at).listed() <= model_of(peers, offer).listed()
}

/// The offer was free, and another online peer serves another text model for
/// nothing.
pub open spec fn another_for_nothing(
    peers: Seq<Peer>,
    kind: JobKind,
    model: Seq<char>,
    offer: Place,
    at: Place,
) -> bool {
    &&& on_the_network(peers, kind, at)
    &&& kind == JobKind::Llm
    &&& peer_of(peers, at).id@ != peer_of(peers, offer).id@
    &&& !meant_by(model, model_of(peers, at).id@)
    &&& model_of(peers, offer).listed() == 0
    &&& model_of(peers, at).listed() == 0
}

proof fn lemma_chosen_has(
    peers: Seq<Peer>,
    at: Seq<(usize, usize)>,
    w: Wish,
    twins: bool,
    place: (usize, usize),
)
    requires
        at.contains(place),
        if twins {
            is_twin(peers, place, w)
        } else {
            is_free_other(peers, place, w)
        },
    ensures
        chosen_places(peers, at, w, twins).contains(place),
    decreases at.len(),
{
    let front = at.drop_last();
    let rest = chosen_places(peers, front, w, twins);
    let all = chosen_places(peers, at, w, twins);
    if at.last() == place {
        assert(all[all.len() - 1] == place);
    } else {
        let i = choose|i: int| 0 <= i < at.len() && at[i] == place;
        assert(front[i] == place);
        lemma_chosen_has(peers, front, w, twins, place);
        let j = choose|j: int| 0 <= j < rest.len() && rest[j] == place;
        assert(all[j] == place);
    }
}

proof fn lemma_chosen_is(
    peers: Seq<Peer>,
    at: Seq<(usize, usize)>,
    w: Wish,
    twins: bool,
    k: int,
)
    requires
        0 <= k < chosen_places(peers, at, w, twins).len(),
    ensures
        ({
            let place = chosen_places(peers, at, w, twins)[k];
            &&& at.contains(place)
            &&& if twins {
                is_twin(peers, place, w)
            } else {
                is_free_other(peers, place, w)
            }
        }),
    decreases at.len(),
{
    if at.len() > 0 {
        let front = at.drop_last();
        let rest = chosen_places(peers, front, w, twins);
        if k < rest.len() {
            lemma_chosen_is(peers, front, w, twins, k);
            let i = choose|i: int| 0 <= i < front.len() && front[i] == rest[k];
            assert(at[i] == rest[k]);
        } else {
            assert(at[at.len() - 1] == at.last());
        }
    }
}

/// Whoever a job is handed on to is online, is not the one that failed, and
/// serves the same model for no more than the offer the user saw; or, where
/// that offer was free, serves another text model for nothing.
pub proof fn law_a_retry_costs_no_more_than_the_offer(
    r: Seq<Fallback>,
    peers: Seq<Peer>,
    kind: JobKind,
    model: Seq<char>,
    first: Seq<char>,
    offer: Place,
    k: int,
)
    requires
        retries(r, peers, kind, model, first),
        countable(peers),
        is_the_offer(peers, kind, model, first, offer),
        0 <= k < r.len(),
    ensures
        exists|at: Place|
            {
                &&& #[trigger] tells_of(r[k], peers, at)
                &&& same_for_no_more(peers, kind, model, offer, at) || another_for_nothing(
                    peers,
                    kind,
                    model,
                    offer,
                    at,
                )
            },
{
    law_retries_are_held_to_the_offer(peers, kind, model, first, offer);
    let all = on_offer(peers, kind);
    let w = Wish { kind, model, first, price: price_at(peers, kind, model, first) };
    let n = chosen_places(peers, all, w, true).len() as int;
    let twins = k < n;
    let chosen = chosen_places(peers, all, w, twins);
    let part = if twins {
        r.take(n)
    } else {
        r.skip(n)
    };
    let i = if twins {
        k
    } else {
        k - n
    };
    assert(part[i] == r[k]);
    let d = choose|d: Seq<u32>| #[trigger] tried_in_order(part, peers, chosen, d);
    let p = choose|p: Seq<usize>|
        {
            &&& #[trigger] in_order(try_ranks(peers, chosen, d), p)
            &&& part.len() == chosen.len()
            &&& forall|i: int|
                0 <= i < part.len() ==> names(#[trigger] part[i], peers, chosen[p[i] as int])
        };
    assert(p[i] < try_ranks(peers, chosen, d).len());
    let place = chosen[p[i] as int];
    assert(names(part[i], peers, place));
    lemma_chosen_is(peers, all, w, twins, p[i] as int);
    let m = choose|m: int| 0 <= m < all.len() && all[m] == place;
    law_only_online_peers_are_offered(peers, kind, peers.len() as int, m);
    let at: Place = (place.0 as int, place.1 as int);
    assert(tells_of(r[k], peers, at));
    assert(meant_by(model, model_of(peers, at).id@) == answers_to(model_of(peers, at).id@, model));
}

proof fn lemma_tried(
    part: Seq<Fallback>,
    peers: Seq<Peer>,
    chosen: Seq<(usize, usize)>,
    place: (usize, usize),
) -> (i: int)
    requires
        exists|d: Seq<u32>| #[trigger] tried_in_order(part, peers, chosen, d),
        chosen.contains(place),
        chosen.len() <= usize::MAX,
    ensures
        0 <= i < part.len(),
        names(part[i], peers, place),
{
    let d = choose|d: Seq<u32>| #[trigger] tried_in_order(part, peers, chosen, d);
    let p = choose|p: Seq<usize>|
        {
            &&& #[trigger] in_order(try_ranks(peers, chosen, d), p)
            &&& part.len() == chosen.len()
            &&& forall|i: int|
                0 <= i < part.len() ==> names(#[trigger] part[i], peers, chosen[p[i] as int])
        };
    let j = choose|j: int| 0 <= j < chosen.len() && chosen[j] == place;
    assert(p.contains(j as usize));
    let i = choose|i: int| 0 <= i < p.len() && p[i] == j as usize;
    assert(names(part[i], peers, chosen[p[i] as int]));
    i
}

/// Everybody who may be turned to is: no provider of the same model for no
/// more is passed over, nor, where the offer was free, a free one of another
/// text model.
pub proof fn law_no_retry_is_passed_over(
    r: Seq<Fallback>,
    peers: Seq<Peer>,
    kind: JobKind,
    model: Seq<char>,
    first: Seq<char>,
    offer: Place,
    at: Place,
)
    requires
        retries(r, peers, kind, model, first),
        countable(peers),
        r.len() <= usize::MAX,
        is_the_offer(peers, kind, model, first, offer),
        same_for_no_more(peers, kind, model, offer, at) || another_for_nothing(
            peers,
            kind,
            model,
            offer,
            at,
        ),
    ensures
        exists|k: int| 0 <= k < r.len() && tells_of(#[trigger] r[k], peers, at),
{
    law_retries_are_held_to_the_offer(peers, kind, model, first, offer);
    law_everything_online_is_on_offer(peers, kind, at);
    let all = on_offer(peers, kind);
    let w = Wish { kind, model, first, price: price_at(peers, kind, model, first) };
    let n = chosen_places(peers, all, w, true).len() as int;
    let place = (at.0 as usize, at.1 as usize);
    assert(meant_by(model, model_of(peers, at).id@) == answers_to(model_of(peers, at).id@, model));
    assert(model_at(peers, place) == model_of(peers, at));
    if same_for_no_more(peers, kind, model, offer, at) {
        lemma_chosen_has(peers, all, w, true, place);
        let i = lemma_tried(r.take(n), peers, chosen_places(peers, all, w, true), place);
        assert(r.take(n)[i] == r[i]);
        assert(tells_of(r[i], peers, at));
    } else {
        lemma_chosen_has(peers, all, w, false, place);
        let others = chosen_places(peers, all, w, false);
        let d = choose|d: Seq<u32>| #[trigger] tried_in_order(r.skip(n), peers, others, d);
        let i = lemma_tried(r.skip(n), peers, others, place);
        assert(r.skip(n)[i] == r[n + i]);
        assert(tells_of(r[n + i], peers, at));
    }
}

/// Providers of the same model come first, the cheaper before the dearer:
/// places can be given to the fallbacks, one each, such that a place of another
/// model is followed by no place of the same one, nor a dearer place of the
/// same model by a cheaper one.
pub proof fn law_retries_go_from_cheap_to_dear(
    r: Seq<Fallback>,
    peers: Seq<Peer>,
    kind: JobKind,
    model: Seq<char>,
    first: Seq<char>,
) -> (at: Seq<Place>)
    requires
        retries(r, peers, kind, model, first),
        countable(peers),
    ensures
        at.len() == r.len(),
        forall|i: int|
            0 <= i < r.len() ==> on_the_network(peers, kind, #[trigger] at[i]) && tells_of(
                r[i],
                peers,
                at[i],
            ),
        forall|i: int, j: int|
            0 <= i < j < r.len() && meant_by(model, model_of(peers, #[trigger] at[j]).id@)
                ==> meant_by(model, model_of(peers, #[trigger] at[i]).id@) && model_of(
                peers,
                at[i],
            ).listed() <= model_of(peers, at[j]).listed(),
{
    let all = on_offer(peers, kind);
    let w = Wish { kind, model, first, price: price_at(peers, kind, model, first) };
    let same = chosen_places(peers, all, w, true);
    let others = chosen_places(peers, all, w, false);
    let n = same.len() as int;
    let d = choose|d: Seq<u32>| #[trigger] tried_in_order(r.take(n), peers, same, d);
    let e = choose|e: Seq<u32>| #[trigger] tried_in_order(r.skip(n), peers, others, e);
    let p = choose|p: Seq<usize>|
        {
            &&& #[trigger] in_order(try_ranks(peers, same, d), p)
            &&& r.take(n).len() == same.len()
            &&& forall|i: int|
                0 <= i < r.take(n).len() ==> names(
                    #[trigger] r.take(n)[i],
                    peers,
                    same[p[i] as int],
                )
        };
    let q = choose|q: Seq<usize>|
        {
            &&& #[trigger] in_order(try_ranks(peers, others, e), q)
            &&& r.skip(n).len() == others.len()
            &&& forall|i: int|
                0 <= i < r.skip(n).len() ==> names(
                    #[trigger] r.skip(n)[i],
                    peers,
                    others[q[i] as int],
                )
        };
    let places = Seq::new(
        r.len(),
        |i: int|
            if i < n {
                same[p[i] as int]
            } else {
                others[q[i - n] as int]
            },
    );
    let at = Seq::new(r.len(), |i: int| (places[i].0 as int, places[i].1 as int));
    assert forall|i: int| 0 <= i < r.len() implies {
        &&& on_the_network(peers, kind, #[trigger] at[i])
        &&& tells_of(r[i], peers, at[i])
        &&& meant_by(model, model_of(peers, at[i]).id@) == (i < n)
    } by {
        if i < n {
            assert(p[i] < try_ranks(peers, same, d).len());
            assert(names(r.take(n)[i], peers, same[p[i] as int]));
            lemma_chosen_is(peers, all, w, true, p[i] as int);
        } else {
            assert(q[i - n] < try_ranks(peers, others, e).len());
            assert(names(r.skip(n)[i - n], peers, others[q[i - n] as int]));
            lemma_chosen_is(peers, all, w, false, q[i - n] as int);
        }
        let place = places[i];
        let m = choose|m: int| 0 <= m < all.len() && all[m] == place;
        law_only_online_peers_are_offered(peers, kind, peers.len() as int, m);
        assert(meant_by(model, model_of(peers, at[i]).id@) == answers_to(
            model_of(peers, at[i]).id@,
            model,
        ));
    }
    assert forall|i: int, j: int|
        0 <= i < j < r.len() && meant_by(model, model_of(peers, #[trigger] at[j]).id@) implies meant_by(
        model,
        model_of(peers, #[trigger] at[i]).id@,
    ) && model_of(peers, at[i]).listed() <= model_of(peers, at[j]).listed() by {
        assert(j < n);
        let rs = try_ranks(peers, same, d);
        assert(p[i] != p[j]);
        assert(!rs[p[j] as int].before(rs[p[i] as int]));
        assert(model_of(peers, at[i]) == model_at(peers, same[p[i] as int]));
        assert(model_of(peers, at[j]) == model_at(peers, same[p[j] as int]));
    }
    at
}

/// Texts come in the order of their first difference; where there is none the
/// shorter comes first.
pub proof fn law_texts_go_by_their_first_difference(a: Seq<char>, b: Seq<char>, i: int)
    requires
        0 <= i <= a.len(),
        i <= b.len(),
        a.take(i) == b.take(i),
    ensures
        i < a.len() && i < b.len() && a[i] < b[i] ==> text_before(a, b) && !text_before(b, a),
        i == a.len() && i < b.len() ==> text_before(a, b) && !text_before(b, a),
    decreases i,
{
    if i > 0 {
        assert(a[0] == a.take(i)[0] && b[0] == b.take(i)[0]);
        let (x, y) = (a.drop_first(), b.drop_first());
        assert(x.take(i - 1) =~= a.take(i).drop_first());
        assert(y.take(i - 1) =~= b.take(i).drop_first());
        law_texts_go_by_their_first_difference(x, y, i - 1);
    }
}

} // verus!
