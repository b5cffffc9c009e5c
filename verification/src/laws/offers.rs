//! What is on offer, as a person picks from it.
use vstd::prelude::*;

use crate::laws::routing::{
    countable, law_everything_online_is_on_offer, model_of, on_the_network, peer_of, Place,
};
use crate::order::{in_order, text_before};
use crate::protocol::{opt, JobKind, ModelDescriptor};
use crate::routing::{
    cheapest, covers, is_served, law_only_online_peers_are_offered, listed_in_order, model_at,
    named, offered, offers, on_offer, opt_tree, peer_picks, picks, price_at, price_in, row_ranks,
    rows_in_order, serving, shows, stands_for, ModelOption, ProviderOption,
};
use crate::store::Peer;

verus! {

broadcast use vstd::string::group_string_axioms;

/// The option is what this place offers.
pub open spec fn is_offer_of(o: ModelOption, peers: Seq<Peer>, kind: JobKind, at: Place) -> bool {
    &&& on_the_network(peers, kind, at)
    &&& o.kind == kind
    &&& o.model@ == model_of(peers, at).id@
    &&& o.peer_id@ == peer_of(peers, at).id@
    &&& o.peer_label@ == peer_of(peers, at).label@
    &&& o.price == model_of(peers, at).listed()
    &&& o.currency@ == model_of(peers, at).currency()
    &&& o.latency_ms == peer_of(peers, at).latency_ms
    &&& o.unpriced <==> o.price == 0
}

proof fn lemma_place_on_offer(peers: Seq<Peer>, kind: JobKind, k: int)
    requires
        countable(peers),
        0 <= k < on_offer(peers, kind).len(),
    ensures
        on_the_network(
            peers,
            kind,
            (on_offer(peers, kind)[k].0 as int, on_offer(peers, kind)[k].1 as int),
        ),
{
    law_only_online_peers_are_offered(peers, kind, peers.len() as int, k);
}

proof fn lemma_offer_at(peers: Seq<Peer>, kind: JobKind, at: Place) -> (k: int)
    requires
        countable(peers),
        on_the_network(peers, kind, at),
    ensures
        0 <= k < on_offer(peers, kind).len(),
        on_offer(peers, kind)[k] == (at.0 as usize, at.1 as usize),
{
    law_everything_online_is_on_offer(peers, kind, at);
    let all = on_offer(peers, kind);
    choose|k: int| 0 <= k < all.len() && all[k] == (at.0 as usize, at.1 as usize)
}

/// An option is the offer of an online peer, and nobody online offers the same
/// model for less.
pub proof fn law_the_chosen_offer_is_the_cheapest(
    o: ModelOption,
    peers: Seq<Peer>,
    kind: JobKind,
    other: Place,
)
    requires
        countable(peers),
        stands_for(o, peers, kind, on_offer(peers, kind)),
    ensures
        exists|at: Place| #[trigger] is_offer_of(o, peers, kind, at),
        on_the_network(peers, kind, other) && model_of(peers, other).id@ == o.model@ ==> o.price
            <= model_of(peers, other).listed(),
{
    reveal(offered);
    reveal(offers);
    reveal(cheapest);
    let all = on_offer(peers, kind);
    let k = choose|k: int| 0 <= k < all.len() && offers(o, peers, kind, #[trigger] all[k]);
    lemma_place_on_offer(peers, kind, k);
    let at = (all[k].0 as int, all[k].1 as int);
    assert(model_at(peers, all[k]) == model_of(peers, at));
    assert(is_offer_of(o, peers, kind, at));
    if on_the_network(peers, kind, other) && model_of(peers, other).id@ == o.model@ {
        let j = lemma_offer_at(peers, kind, other);
        assert(model_at(peers, all[j]) == model_of(peers, other));
    }
}

/// Every model that somebody online serves is an option, once; nothing else is.
pub proof fn law_each_model_is_an_option_once(
    options: Seq<ModelOption>,
    peers: Seq<Peer>,
    kind: JobKind,
    at: Place,
)
    requires
        countable(peers),
        covers(options, peers, kind, on_offer(peers, kind)),
        on_the_network(peers, kind, at),
    ensures
        exists|i: int|
            0 <= i < options.len() && (#[trigger] options[i]).model@ == model_of(peers, at).id@,
        forall|i: int, j: int|
            0 <= i < options.len() && 0 <= j < options.len() && i != j ==> (
            #[trigger] options[i]).model@ != (#[trigger] options[j]).model@,
{
    reveal(named);
    let k = lemma_offer_at(peers, kind, at);
    let all = on_offer(peers, kind);
    assert(model_at(peers, all[k]) == model_of(peers, at));
    assert(named(options, model_at(peers, all[k]).id@));
}

/// A model is served exactly where somebody online lists it.
pub proof fn law_who_is_served(peers: Seq<Peer>, kind: JobKind, model: Seq<char>)
    requires
        countable(peers),
    ensures
        is_served(peers, kind, model) <==> exists|at: Place| #[trigger]
            on_the_network(peers, kind, at) && model_of(peers, at).id@ == model,
{
    let all = on_offer(peers, kind);
    if is_served(peers, kind, model) {
        let k = choose|k: int|
            0 <= k < all.len() && model_at(peers, #[trigger] all[k]).id@ == model;
        lemma_place_on_offer(peers, kind, k);
        let at = (all[k].0 as int, all[k].1 as int);
        assert(on_the_network(peers, kind, at) && model_of(peers, at).id@ == model);
    }
    if exists|at: Place| #[trigger]
        on_the_network(peers, kind, at) && model_of(peers, at).id@ == model {
        let at = choose|at: Place| #[trigger]
            on_the_network(peers, kind, at) && model_of(peers, at).id@ == model;
        let k = lemma_offer_at(peers, kind, at);
        assert(model_at(peers, all[k]).id@ == model);
    }
}

/// Options stand from the cheapest to the dearest, those of one price by name.
pub proof fn law_options_go_from_cheap_to_dear(options: Seq<ModelOption>, i: int, j: int)
    requires
        listed_in_order(options),
        0 <= i < j < options.len(),
    ensures
        options[i].price <= options[j].price,
        options[i].price == options[j].price ==> text_before(options[i].model@, options[j].model@),
{
}

/// How often a list names a model of a kind.
pub open spec fn listing(ms: Seq<ModelDescriptor>, kind: JobKind, model: Seq<char>) -> nat
    decreases ms.len(),
{
    if ms.len() == 0 {
        0
    } else {
        listing(ms.drop_last(), kind, model) + if ms.last().kind == kind && ms.last().id@ == model {
            1nat
        } else {
            0nat
        }
    }
}

/// One more peer adds to the providers of a model as often as it lists it,
/// where it is online, and nothing where it is not.
pub proof fn law_each_peer_online_is_counted(
    peers: Seq<Peer>,
    p: Peer,
    kind: JobKind,
    model: Seq<char>,
)
    requires
        countable(peers),
        peers.len() < usize::MAX,
        p.models@.len() <= usize::MAX,
    ensures
        serving(peers.push(p), on_offer(peers.push(p), kind), model) == serving(
            peers,
            on_offer(peers, kind),
            model,
        ) + if p.status@ == "online"@ {
            listing(p.models@, kind, model)
        } else {
            0
        },
        serving(seq![], on_offer(seq![], kind), model) == 0,
{
    let more = peers.push(p);
    let n = peers.len() as int;
    lemma_picks_stay(peers, p, kind, n);
    let all = on_offer(peers, kind);
    assert forall|k: int| 0 <= k < all.len() implies (#[trigger] all[k]).0 < peers.len() by {
        lemma_place_on_offer(peers, kind, k);
    }
    lemma_serving_stays(peers, p, all, model);
    assert(more[n] == p);
    if p.online() {
        let mine = peer_picks(p.models@, kind, n as usize, p.models@.len() as int);
        assert(on_offer(more, kind) == all + mine);
        lemma_serving_joined(more, all, mine, model);
        lemma_serving_of_peer(more, n, kind, model, p.models@.len() as int);
        assert(p.models@.take(p.models@.len() as int) =~= p.models@);
    }
}

proof fn lemma_picks_stay(peers: Seq<Peer>, p: Peer, kind: JobKind, n: int)
    requires
        0 <= n <= peers.len(),
    ensures
        picks(peers.push(p), kind, n) == picks(peers, kind, n),
    decreases n,
{
    if n > 0 {
        lemma_picks_stay(peers, p, kind, n - 1);
        assert(peers.push(p)[n - 1] == peers[n - 1]);
    }
}

proof fn lemma_serving_stays(
    peers: Seq<Peer>,
    p: Peer,
    at: Seq<(usize, usize)>,
    model: Seq<char>,
)
    requires
        forall|k: int| 0 <= k < at.len() ==> (#[trigger] at[k]).0 < peers.len(),
    ensures
        serving(peers.push(p), at, model) == serving(peers, at, model),
    decreases at.len(),
{
    if at.len() > 0 {
        let front = at.drop_last();
        assert forall|k: int| 0 <= k < front.len() implies (#[trigger] front[k]).0 < peers.len() by {
            assert(front[k] == at[k]);
        }
        lemma_serving_stays(peers, p, front, model);
        assert(at[at.len() - 1].0 < peers.len());
        assert(peers.push(p)[at.last().0 as int] == peers[at.last().0 as int]);
    }
}

proof fn lemma_serving_joined(
    peers: Seq<Peer>,
    a: Seq<(usize, usize)>,
    b: Seq<(usize, usize)>,
    model: Seq<char>,
)
    ensures
        serving(peers, a + b, model) == serving(peers, a, model) + serving(peers, b, model),
    decreases b.len(),
{
    if b.len() == 0 {
        assert(a + b =~= a);
    } else {
        assert((a + b).drop_last() =~= a + b.drop_last());
        assert((a + b).last() == b.last());
        lemma_serving_joined(peers, a, b.drop_last(), model);
    }
}

proof fn lemma_serving_of_peer(
    peers: Seq<Peer>,
    i: int,
    kind: JobKind,
    model: Seq<char>,
    n: int,
)
    requires
        0 <= i < peers.len(),
        i <= usize::MAX,
        0 <= n <= peers[i].models@.len() <= usize::MAX,
    ensures
        serving(peers, peer_picks(peers[i].models@, kind, i as usize, n), model) == listing(
            peers[i].models@.take(n),
            kind,
            model,
        ),
    decreases n,
{
    let ms = peers[i].models@;
    if n > 0 {
        lemma_serving_of_peer(peers, i, kind, model, n - 1);
        assert(ms.take(n).drop_last() =~= ms.take(n - 1));
        assert(ms.take(n).last() == ms[n - 1]);
        let before = peer_picks(ms, kind, i as usize, n - 1);
        if ms[n - 1].kind == kind {
            let last = (i as usize, (n - 1) as usize);
            assert(before.push(last).drop_last() =~= before);
            assert(model_at(peers, last) == ms[n - 1]);
        }
    }
}

// --------------------------------------------------------------------- rows

/// A row tells all that is known of the offer at a place.
pub open spec fn is_row_of(o: ProviderOption, peers: Seq<Peer>, kind: JobKind, at: Place) -> bool {
    &&& on_the_network(peers, kind, at)
    &&& o.kind == kind
    &&& o.model@ == model_of(peers, at).id@
    &&& o.peer_id@ == peer_of(peers, at).id@
    &&& o.peer_label@ == peer_of(peers, at).label@
    &&& opt(o.peer_country) == opt(peer_of(peers, at).country)
    &&& o.price == model_of(peers, at).listed()
    &&& o.currency@ == model_of(peers, at).currency()
    &&& o.latency_ms == peer_of(peers, at).latency_ms
    &&& o.unpriced <==> o.price == 0
    &&& opt_tree(o.video) == opt_tree(model_of(peers, at).video)
}

/// The row is that of some offer.
pub open spec fn is_some_row(o: ProviderOption, peers: Seq<Peer>, kind: JobKind) -> bool {
    exists|at: Place| #[trigger] is_row_of(o, peers, kind, at)
}

/// There is a row for every offer and for nothing else, from the cheapest to
/// the dearest, those of one price by the model's name.
pub proof fn law_rows_show_every_offer(
    rows: Seq<ProviderOption>,
    peers: Seq<Peer>,
    kind: JobKind,
    at: Place,
)
    requires
        countable(peers),
        rows.len() <= usize::MAX,
        rows_in_order(rows, peers, kind, on_offer(peers, kind)),
    ensures
        forall|i: int|
            0 <= i < rows.len() ==> is_some_row(#[trigger] rows[i], peers, kind),
        on_the_network(peers, kind, at) ==> exists|i: int|
            0 <= i < rows.len() && is_row_of(#[trigger] rows[i], peers, kind, at),
        forall|i: int, j: int|
            0 <= i < j < rows.len() ==> (#[trigger] rows[i]).price <= (#[trigger] rows[j]).price,
        forall|i: int, j: int|
            0 <= i < j < rows.len() && (#[trigger] rows[i]).price == (#[trigger] rows[j]).price
                ==> !text_before(rows[j].model@, rows[i].model@),
{
    reveal(shows);
    let all = on_offer(peers, kind);
    let ranks = row_ranks(peers, all);
    let p = choose|p: Seq<usize>|
        {
            &&& #[trigger] in_order(row_ranks(peers, all), p)
            &&& rows.len() == all.len()
            &&& forall|i: int|
                0 <= i < rows.len() ==> shows(#[trigger] rows[i], peers, kind, all[p[i] as int])
        };
    assert forall|i: int| 0 <= i < rows.len() implies is_row_of(
        #[trigger] rows[i],
        peers,
        kind,
        (all[p[i] as int].0 as int, all[p[i] as int].1 as int),
    ) by {
        assert(p[i] < ranks.len());
        lemma_place_on_offer(peers, kind, p[i] as int);
        assert(shows(rows[i], peers, kind, all[p[i] as int]));
    }
    if on_the_network(peers, kind, at) {
        let k = lemma_offer_at(peers, kind, at);
        assert(p.contains(k as usize));
        let i = choose|i: int| 0 <= i < p.len() && p[i] == k as usize;
        assert(is_row_of(rows[i], peers, kind, at));
    }
    assert forall|i: int, j: int| 0 <= i < j < rows.len() implies (#[trigger] rows[i]).price <= (
    #[trigger] rows[j]).price && (rows[i].price == rows[j].price ==> !text_before(
        rows[j].model@,
        rows[i].model@,
    )) by {
        assert(p[i] != p[j]);
        assert(p[i] < ranks.len() && p[j] < ranks.len());
        assert(shows(rows[i], peers, kind, all[p[i] as int]));
        assert(shows(rows[j], peers, kind, all[p[j] as int]));
        assert(!ranks[p[j] as int].before(ranks[p[i] as int]));
        crate::order::lemma_text_before_irreflexive(rows[i].model@);
    }
}

/// Where the first choice is unknown, or does not list the model, the user saw
/// no price, and only what is free stands in.
pub proof fn law_no_offer_no_price(
    peers: Seq<Peer>,
    kind: JobKind,
    model: Seq<char>,
    peer_id: Seq<char>,
)
    requires
        forall|i: int| 0 <= i < peers.len() ==> (#[trigger] peers[i]).id@ != peer_id,
    ensures
        price_at(peers, kind, model, peer_id) == 0,
        price_in(seq![], kind, model) == 0,
    decreases peers.len(),
{
    if peers.len() > 0 {
        assert(peers[0].id@ != peer_id);
        let rest = peers.drop_first();
        assert forall|i: int| 0 <= i < rest.len() implies (#[trigger] rest[i]).id@ != peer_id by {
            assert(rest[i] == peers[i + 1]);
        }
        law_no_offer_no_price(rest, kind, model, peer_id);
    }
}

} // verus!
