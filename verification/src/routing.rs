//! Choosing who runs the work.
//!
//! The user picks a model and the app picks the provider: the cheapest, and
//! among equals one drawn by chance, so that equal offers share the load.
use vstd::prelude::*;

use crate::json::{Json, Tree};
use crate::order::{in_order, lemma_rank_total, ordered, ranks, text_before, Key, Rank};
use crate::protocol::{copy_opt, opt, JobKind, ModelDescriptor};
use crate::store::Peer;
use crate::text::{has_prefix, same, starts_with};

verus! {

broadcast use vstd::string::group_string_axioms;

// ------------------------------------------------------------------ chance

/// `rand::Rng::gen_range` on the thread generator: some number below `n`, and
/// nothing more is known of it.
#[verifier::external_body]
fn random_below(n: u32) -> (r: u32)
    requires
        n > 0,
    ensures
        r < n,
{
    rand::Rng::gen_range(&mut rand::thread_rng(), 0..n)
}

/// `rand::Rng::gen` on the thread generator: any number.
#[verifier::external_body]
fn random_number() -> u32 {
    rand::Rng::gen(&mut rand::thread_rng())
}

// ---------------------------------------------------------------- listings

/// The models of one peer that are of a kind, among its first `n`.
pub open spec fn peer_picks(
    models: Seq<ModelDescriptor>,
    kind: JobKind,
    peer: usize,
    n: int,
) -> Seq<(usize, usize)>
    decreases n,
{
    if n <= 0 {
        seq![]
    } else if models[n - 1].kind == kind {
        peer_picks(models, kind, peer, n - 1).push((peer, (n - 1) as usize))
    } else {
        peer_picks(models, kind, peer, n - 1)
    }
}

/// Every model of a kind that an online peer among the first `n` serves, as
/// the places of the peer and of the model.
pub open spec fn picks(peers: Seq<Peer>, kind: JobKind, n: int) -> Seq<(usize, usize)>
    decreases n,
{
    if n <= 0 {
        seq![]
    } else if peers[n - 1].online() {
        let p = peers[n - 1];
        picks(peers, kind, n - 1) + peer_picks(
            p.models@,
            kind,
            (n - 1) as usize,
            p.models@.len() as int,
        )
    } else {
        picks(peers, kind, n - 1)
    }
}

/// Everything of a kind on offer.
pub open spec fn on_offer(peers: Seq<Peer>, kind: JobKind) -> Seq<(usize, usize)> {
    picks(peers, kind, peers.len() as int)
}

/// A place names a model of the kind, of an online peer.
pub open spec fn is_place(peers: Seq<Peer>, kind: JobKind, at: (usize, usize)) -> bool {
    &&& at.0 < peers.len()
    &&& at.1 < peers[at.0 as int].models@.len()
    &&& peers[at.0 as int].online()
    &&& peers[at.0 as int].models@[at.1 as int].kind == kind
}

/// The model at a place.
pub open spec fn model_at(peers: Seq<Peer>, at: (usize, usize)) -> ModelDescriptor {
    peers[at.0 as int].models@[at.1 as int]
}

fn listed(peers: &Vec<Peer>, kind: JobKind) -> (r: Vec<(usize, usize)>)
    ensures
        r@ == on_offer(peers@, kind),
        forall|k: int| 0 <= k < r@.len() ==> is_place(peers@, kind, #[trigger] r@[k]),
{
    let mut out: Vec<(usize, usize)> = Vec::new();
    let mut i: usize = 0;
    while i < peers.len()
        invariant
            i <= peers@.len(),
            out@ == picks(peers@, kind, i as int),
            forall|k: int| 0 <= k < out@.len() ==> is_place(peers@, kind, #[trigger] out@[k]),
        decreases peers@.len() - i,
    {
        if peers[i].is_online() {
            let ghost before = out@;
            let ghost ms = peers@[i as int].models@;
            let n: usize = peers[i].models.len();
            let mut j: usize = 0;
            while j < n
                invariant
                    i < peers@.len(),
                    peers@[i as int].online(),
                    ms == peers@[i as int].models@,
                    n == ms.len(),
                    j <= n,
                    out@ == before + peer_picks(ms, kind, i, j as int),
                    forall|k: int|
                        0 <= k < out@.len() ==> is_place(peers@, kind, #[trigger] out@[k]),
                decreases n - j,
            {
                if peers[i].models[j].kind == kind {
                    out.push((i, j));
                    assert(out@ =~= before + peer_picks(ms, kind, i, j as int + 1));
                }
                j = j + 1;
            }
        }
        i = i + 1;
    }
    out
}

/// How many offers of a kind there are.
pub fn offer_count(peers: &Vec<Peer>, kind: JobKind) -> (n: usize)
    ensures
        n == on_offer(peers@, kind).len(),
{
    listed(peers, kind).len()
}

// ------------------------------------------------------------ model options

/// A model one can ask for, and the provider that would serve it.
#[derive(Debug, PartialEq)]
pub struct ModelOption {
    pub model: String,
    pub kind: JobKind,
    /// How many online providers serve it.
    pub providers: u32,
    pub peer_id: String,
    pub peer_label: String,
    /// In cents: per million tokens for text, per picture for images.
    pub price: u64,
    pub currency: String,
    pub latency_ms: Option<u32>,
    /// Nobody serving it named a price.
    pub unpriced: bool,
}

/// Whether an option is the offer at a place, whoever else serves it.
#[verifier::opaque]
pub open spec fn offers(o: ModelOption, peers: Seq<Peer>, kind: JobKind, at: (usize, usize)) -> bool {
    let p = peers[at.0 as int];
    let m = model_at(peers, at);
    &&& o.model@ == m.id@
    &&& o.kind == kind
    &&& o.peer_id@ == p.id@
    &&& o.peer_label@ == p.label@
    &&& o.price == m.listed()
    &&& o.currency@ == m.currency()
    &&& o.latency_ms == p.latency_ms
    &&& o.unpriced == m.unpriced()
}

/// How many of the places are for this model.
pub open spec fn serving(peers: Seq<Peer>, at: Seq<(usize, usize)>, model: Seq<char>) -> nat
    decreases at.len(),
{
    if at.len() == 0 {
        0
    } else {
        serving(peers, at.drop_last(), model) + if model_at(peers, at.last()).id@ == model {
            1nat
        } else {
            0nat
        }
    }
}

/// An option is one of the offers at these places.
#[verifier::opaque]
pub open spec fn offered(
    o: ModelOption,
    peers: Seq<Peer>,
    kind: JobKind,
    at: Seq<(usize, usize)>,
) -> bool {
    exists|k: int| 0 <= k < at.len() && offers(o, peers, kind, #[trigger] at[k])
}

/// No offer of the same model at these places is cheaper.
#[verifier::opaque]
pub open spec fn cheapest(o: ModelOption, peers: Seq<Peer>, at: Seq<(usize, usize)>) -> bool {
    forall|k: int|
        0 <= k < at.len() && model_at(peers, #[trigger] at[k]).id@ == o.model@ ==> o.price
            <= model_at(peers, at[k]).listed()
}

/// An option stands for its model among these places: it is one of the offers
/// of the model, none is cheaper, and it counts them all.
pub open spec fn stands_for(
    o: ModelOption,
    peers: Seq<Peer>,
    kind: JobKind,
    at: Seq<(usize, usize)>,
) -> bool {
    &&& o.providers == serving(peers, at, o.model@)
    &&& offered(o, peers, kind, at)
    &&& cheapest(o, peers, at)
}

/// There is an option for this model.
#[verifier::opaque]
pub open spec fn named(options: Seq<ModelOption>, model: Seq<char>) -> bool {
    exists|i: int| 0 <= i < options.len() && (#[trigger] options[i]).model@ == model
}

/// One option for each model on offer.
pub open spec fn covers(
    options: Seq<ModelOption>,
    peers: Seq<Peer>,
    kind: JobKind,
    at: Seq<(usize, usize)>,
) -> bool {
    &&& forall|i: int| 0 <= i < options.len() ==> stands_for(#[trigger] options[i], peers, kind, at)
    &&& forall|i: int, j: int|
        0 <= i < j < options.len() ==> (#[trigger] options[i]).model@ != (
        #[trigger] options[j]).model@
    &&& forall|k: int|
        0 <= k < at.len() ==> named(options, model_at(peers, #[trigger] at[k]).id@)
}

proof fn lemma_serving_none(peers: Seq<Peer>, at: Seq<(usize, usize)>, model: Seq<char>)
    requires
        forall|k: int| 0 <= k < at.len() ==> model_at(peers, #[trigger] at[k]).id@ != model,
    ensures
        serving(peers, at, model) == 0,
    decreases at.len(),
{
    if at.len() > 0 {
        let front = at.drop_last();
        assert forall|k: int| 0 <= k < front.len() implies model_at(peers, #[trigger] front[k]).id@
            != model by {
            assert(front[k] == at[k]);
        }
        lemma_serving_none(peers, front, model);
        assert(at.last() == at[at.len() - 1]);
    }
}

proof fn lemma_serving_bound(peers: Seq<Peer>, at: Seq<(usize, usize)>, model: Seq<char>)
    ensures
        serving(peers, at, model) <= at.len(),
    decreases at.len(),
{
    if at.len() > 0 {
        lemma_serving_bound(peers, at.drop_last(), model);
    }
}

/// What an option stands for after one more offer came in.
proof fn lemma_stands_push(
    was: ModelOption,
    o: ModelOption,
    peers: Seq<Peer>,
    kind: JobKind,
    at: Seq<(usize, usize)>,
    next: (usize, usize),
)
    requires
        stands_for(was, peers, kind, at),
        o.model@ == was.model@,
        o.price <= was.price,
        offers(o, peers, kind, next) || offered(o, peers, kind, at),
        model_at(peers, next).id@ == o.model@ ==> o.price <= model_at(peers, next).listed(),
        o.providers == was.providers + if model_at(peers, next).id@ == o.model@ {
            1int
        } else {
            0int
        },
    ensures
        stands_for(o, peers, kind, at.push(next)),
{
    let all = at.push(next);
    assert(all.drop_last() =~= at);
    assert(all.last() == next);
    assert(offered(o, peers, kind, all)) by {
        reveal(offered);
        if offers(o, peers, kind, next) {
            assert(all[at.len() as int] == next);
        } else {
            let k = choose|k: int| 0 <= k < at.len() && offers(o, peers, kind, #[trigger] at[k]);
            assert(all[k] == at[k]);
        }
    }
    assert(cheapest(o, peers, all)) by {
        reveal(cheapest);
        assert forall|k: int|
            0 <= k < all.len() && model_at(peers, #[trigger] all[k]).id@
                == o.model@ implies o.price <= model_at(peers, all[k]).listed() by {
            if k < at.len() {
                assert(all[k] == at[k]);
            }
        }
    }
}

proof fn lemma_stands_new(
    o: ModelOption,
    peers: Seq<Peer>,
    kind: JobKind,
    at: Seq<(usize, usize)>,
    next: (usize, usize),
)
    requires
        offers(o, peers, kind, next),
        o.model@ == model_at(peers, next).id@,
        o.price == model_at(peers, next).listed(),
        o.providers == 1,
        forall|k: int| 0 <= k < at.len() ==> model_at(peers, #[trigger] at[k]).id@ != o.model@,
    ensures
        stands_for(o, peers, kind, at.push(next)),
{
    let all = at.push(next);
    assert(all.drop_last() =~= at);
    assert(all.last() == next);
    lemma_serving_none(peers, at, o.model@);
    assert(offered(o, peers, kind, all)) by {
        reveal(offered);
        assert(all[at.len() as int] == next);
    }
    assert(cheapest(o, peers, all)) by {
        reveal(cheapest);
        assert forall|k: int|
            0 <= k < all.len() && model_at(peers, #[trigger] all[k]).id@
                == o.model@ implies o.price <= model_at(peers, all[k]).listed() by {
            if k < at.len() {
                assert(all[k] == at[k]);
            }
        }
    }
}

proof fn lemma_named(options: Seq<ModelOption>, i: int)
    requires
        0 <= i < options.len(),
    ensures
        named(options, options[i].model@),
{
    reveal(named);
}

proof fn lemma_cover_more(
    before: Seq<ModelOption>,
    after: Seq<ModelOption>,
    peers: Seq<Peer>,
    kind: JobKind,
    at: Seq<(usize, usize)>,
    next: (usize, usize),
    i: int,
)
    requires
        covers(before, peers, kind, at),
        0 <= i < before.len(),
        after == before.update(i, after[i]),
        after[i].model@ == before[i].model@,
        before[i].model@ == model_at(peers, next).id@,
        after[i].providers == before[i].providers + 1,
        after[i].price <= before[i].price,
        after[i].price <= model_at(peers, next).listed(),
        offers(after[i], peers, kind, next) || offered(after[i], peers, kind, at),
    ensures
        covers(after, peers, kind, at.push(next)),
{
    let all = at.push(next);
    assert forall|j: int| 0 <= j < after.len() implies stands_for(
        #[trigger] after[j],
        peers,
        kind,
        all,
    ) by {
        assert(stands_for(before[j], peers, kind, at));
        if j != i {
            assert(after[j] == before[j]);
            if j < i {
                assert(before[j].model@ != before[i].model@);
            } else {
                assert(before[i].model@ != before[j].model@);
            }
        }
        lemma_stands_push(before[j], after[j], peers, kind, at, next);
    }
    assert forall|k: int| 0 <= k < all.len() implies named(
        after,
        model_at(peers, #[trigger] all[k]).id@,
    ) by {
        if k < at.len() {
            assert(all[k] == at[k]);
            assert(named(before, model_at(peers, at[k]).id@));
            reveal(named);
            let j = choose|j: int|
                0 <= j < before.len() && (#[trigger] before[j]).model@ == model_at(
                    peers,
                    at[k],
                ).id@;
            assert(after[j].model@ == before[j].model@);
        } else {
            lemma_named(after, i);
        }
    }
    assert forall|a: int, b: int| 0 <= a < b < after.len() implies (#[trigger] after[a]).model@
        != (#[trigger] after[b]).model@ by {
        assert(before[a].model@ != before[b].model@);
        assert(after[a].model@ == before[a].model@);
        assert(after[b].model@ == before[b].model@);
    }
}

proof fn lemma_cover_new(
    before: Seq<ModelOption>,
    o: ModelOption,
    peers: Seq<Peer>,
    kind: JobKind,
    at: Seq<(usize, usize)>,
    next: (usize, usize),
)
    requires
        covers(before, peers, kind, at),
        offers(o, peers, kind, next),
        o.model@ == model_at(peers, next).id@,
        o.price == model_at(peers, next).listed(),
        o.providers == 1,
        forall|i: int| 0 <= i < before.len() ==> (#[trigger] before[i]).model@ != o.model@,
    ensures
        covers(before.push(o), peers, kind, at.push(next)),
{
    let all = at.push(next);
    let after = before.push(o);
    assert forall|k: int| 0 <= k < at.len() implies model_at(peers, #[trigger] at[k]).id@
        != o.model@ by {
        assert(named(before, model_at(peers, at[k]).id@));
        reveal(named);
    }
    assert forall|j: int| 0 <= j < after.len() implies stands_for(
        #[trigger] after[j],
        peers,
        kind,
        all,
    ) by {
        if j < before.len() {
            assert(after[j] == before[j]);
            assert(stands_for(before[j], peers, kind, at));
            assert(before[j].model@ != o.model@);
            lemma_stands_push(before[j], before[j], peers, kind, at, next);
        } else {
            lemma_stands_new(o, peers, kind, at, next);
        }
    }
    assert forall|k: int| 0 <= k < all.len() implies named(
        after,
        model_at(peers, #[trigger] all[k]).id@,
    ) by {
        if k < at.len() {
            assert(all[k] == at[k]);
            assert(named(before, model_at(peers, at[k]).id@));
            reveal(named);
            let j = choose|j: int|
                0 <= j < before.len() && (#[trigger] before[j]).model@ == model_at(
                    peers,
                    at[k],
                ).id@;
            assert(after[j] == before[j]);
        } else {
            lemma_named(after, before.len() as int);
        }
    }
    assert forall|a: int, b: int| 0 <= a < b < after.len() implies (#[trigger] after[a]).model@
        != (#[trigger] after[b]).model@ by {
        assert(after[a] == before[a]);
        if b < before.len() {
            assert(after[b] == before[b]);
        }
    }
}

fn offer_at(peers: &Vec<Peer>, kind: JobKind, at: (usize, usize)) -> (r: ModelOption)
    requires
        is_place(peers@, kind, at),
    ensures
        offers(r, peers@, kind, at),
        r.model@ == model_at(peers@, at).id@,
        r.price == model_at(peers@, at).listed(),
        r.providers == 1,
{
    reveal(offers);
    let p = &peers[at.0];
    let m = &p.models[at.1];
    ModelOption {
        model: m.id.clone(),
        kind,
        providers: 1,
        peer_id: p.id.clone(),
        peer_label: p.label.clone(),
        price: m.amount(),
        currency: m.currency_text(),
        latency_ms: p.latency_ms,
        unpriced: m.is_unpriced(),
    }
}

/// Whether a newcomer takes the place of the best offer so far: when it is
/// cheaper, or as cheap and drawn. `drawn` is a number below the tied count.
pub fn takes_over(price: u64, best: u64, drawn: u32) -> (r: bool)
    ensures
        r == (price < best || (price == best && drawn == 0)),
{
    price < best || (price == best && drawn == 0)
}

/// The option for a model, found by its name.
fn position_of(options: &Vec<ModelOption>, model: &str) -> (r: Option<usize>)
    ensures
        match r {
            Some(i) => i < options@.len() && options@[i as int].model@ == model@,
            None => forall|i: int|
                0 <= i < options@.len() ==> (#[trigger] options@[i]).model@ != model@,
        },
{
    let mut i: usize = 0;
    while i < options.len()
        invariant
            i <= options@.len(),
            forall|k: int| 0 <= k < i ==> (#[trigger] options@[k]).model@ != model@,
        decreases options@.len() - i,
    {
        if same(options[i].model.as_str(), model) {
            return Some(i);
        }
        i = i + 1;
    }
    None
}

/// Two options that differ at most in how many serve the model.
spec fn same_offer(a: ModelOption, b: ModelOption) -> bool {
    &&& a.model@ == b.model@
    &&& a.kind == b.kind
    &&& a.peer_id@ == b.peer_id@
    &&& a.peer_label@ == b.peer_label@
    &&& a.price == b.price
    &&& a.currency@ == b.currency@
    &&& a.latency_ms == b.latency_ms
    &&& a.unpriced == b.unpriced
}

fn recounted(o: &ModelOption, providers: u32) -> (r: ModelOption)
    ensures
        same_offer(*o, r),
        r.providers == providers,
{
    ModelOption {
        model: o.model.clone(),
        kind: o.kind,
        providers,
        peer_id: o.peer_id.clone(),
        peer_label: o.peer_label.clone(),
        price: o.price,
        currency: o.currency.clone(),
        latency_ms: o.latency_ms,
        unpriced: o.unpriced,
    }
}

proof fn lemma_recounted(
    a: ModelOption,
    b: ModelOption,
    peers: Seq<Peer>,
    kind: JobKind,
    at: Seq<(usize, usize)>,
)
    requires
        same_offer(a, b),
        offered(a, peers, kind, at),
    ensures
        offered(b, peers, kind, at),
{
    reveal(offered);
    reveal(offers);
    let k = choose|k: int| 0 <= k < at.len() && offers(a, peers, kind, #[trigger] at[k]);
    assert(offers(b, peers, kind, at[k]));
}

/// The best offer for each model, in the order the models were met.
fn best_offers(peers: &Vec<Peer>, kind: JobKind) -> (r: Vec<ModelOption>)
    requires
        on_offer(peers@, kind).len() < u32::MAX,
    ensures
        covers(r@, peers@, kind, on_offer(peers@, kind)),
{
    let at = listed(peers, kind);
    let ghost all = on_offer(peers@, kind);
    let mut options: Vec<ModelOption> = Vec::new();
    let mut ties: Vec<u32> = Vec::new();
    let mut n: usize = 0;
    while n < at.len()
        invariant
            n <= at@.len() < u32::MAX,
            at@ == all,
            forall|k: int| 0 <= k < at@.len() ==> is_place(peers@, kind, #[trigger] at@[k]),
            covers(options@, peers@, kind, all.take(n as int)),
            ties@.len() == options@.len(),
            forall|i: int| 0 <= i < ties@.len() ==> 1 <= #[trigger] ties@[i] <= n,
        decreases at@.len() - n,
    {
        let ghost seen = all.take(n as int);
        let ghost next = all[n as int];
        assert(all.take(n as int + 1) =~= seen.push(next));
        assert(is_place(peers@, kind, at@[n as int]));
        let candidate = offer_at(peers, kind, at[n]);
        match position_of(&options, candidate.model.as_str()) {
            Some(i) => {
                let ghost before = options@;
                assert(stands_for(options@[i as int], peers@, kind, seen));
                proof {
                    lemma_serving_bound(peers@, seen, candidate.model@);
                }
                let providers: u32 = options[i].providers + 1;
                let best: u64 = options[i].price;
                let mut drawn: u32 = 1;
                if candidate.price < best {
                    ties.set(i, 1);
                } else if candidate.price == best {
                    let tied: u32 = ties[i] + 1;
                    ties.set(i, tied);
                    drawn = random_below(tied);
                }
                if takes_over(candidate.price, best, drawn) {
                    let mut chosen = candidate;
                    chosen.providers = providers;
                    proof {
                        reveal(offers);
                    }
                    assert(offers(chosen, peers@, kind, next));
                    options.set(i, chosen);
                } else {
                    let kept = recounted(&options[i], providers);
                    proof {
                        lemma_recounted(options@[i as int], kept, peers@, kind, seen);
                    }
                    options.set(i, kept);
                }
                proof {
                    lemma_cover_more(before, options@, peers@, kind, seen, next, i as int);
                }
            },
            None => {
                proof {
                    lemma_cover_new(options@, candidate, peers@, kind, seen, next);
                }
                options.push(candidate);
                ties.push(1);
            },
        }
        n = n + 1;
    }
    assert(all.take(n as int) =~= all);
    options
}


/// Cheaper first, then by name.
pub open spec fn listed_before(a: ModelOption, b: ModelOption) -> bool {
    a.price < b.price || (a.price == b.price && text_before(a.model@, b.model@))
}

/// The list a person picks from: cheapest first, then by name.
pub open spec fn listed_in_order(options: Seq<ModelOption>) -> bool {
    forall|i: int, j: int|
        0 <= i < j < options.len() ==> listed_before(#[trigger] options[i], #[trigger] options[j])
}

proof fn lemma_same_stands(
    a: ModelOption,
    b: ModelOption,
    peers: Seq<Peer>,
    kind: JobKind,
    at: Seq<(usize, usize)>,
)
    requires
        same_offer(a, b),
        a.providers == b.providers,
        stands_for(a, peers, kind, at),
    ensures
        stands_for(b, peers, kind, at),
{
    lemma_recounted(a, b, peers, kind, at);
    reveal(cheapest);
}

/// Every model on offer, each with the provider that would serve it: one of
/// the cheapest, drawn by chance among equals.
pub fn model_options(peers: &Vec<Peer>, kind: JobKind) -> (r: Vec<ModelOption>)
    requires
        on_offer(peers@, kind).len() < u32::MAX,
    ensures
        covers(r@, peers@, kind, on_offer(peers@, kind)),
        listed_in_order(r@),
{
    let options = best_offers(peers, kind);
    let ghost at = on_offer(peers@, kind);
    let mut keys: Vec<Key> = Vec::new();
    let mut i: usize = 0;
    while i < options.len()
        invariant
            i <= options@.len(),
            keys@.len() == i,
            forall|k: int|
                0 <= k < i ==> (#[trigger] keys@[k])@ == (Rank {
                    price: options@[k].price,
                    model: options@[k].model@,
                    label: ""@,
                    draw: 0,
                }),
        decreases options@.len() - i,
    {
        keys.push(
            Key {
                price: options[i].price,
                model: options[i].model.clone(),
                label: "".to_string(),
                draw: 0,
            },
        );
        i = i + 1;
    }
    let p = ordered(&keys);
    let ghost rs = ranks(keys@);
    let mut out: Vec<ModelOption> = Vec::new();
    let mut j: usize = 0;
    while j < p.len()
        invariant
            j <= p@.len(),
            p@.len() == options@.len(),
            forall|k: int| 0 <= k < p@.len() ==> (#[trigger] p@[k]) < options@.len(),
            out@.len() == j,
            forall|k: int|
                0 <= k < j ==> same_offer(options@[p@[k] as int], #[trigger] out@[k])
                    && out@[k].providers == options@[p@[k] as int].providers,
        decreases p@.len() - j,
    {
        let o = &options[p[j]];
        out.push(recounted(o, o.providers));
        j = j + 1;
    }
    proof {
        assert forall|k: int| 0 <= k < out@.len() implies stands_for(
            #[trigger] out@[k],
            peers@,
            kind,
            at,
        ) by {
            assert(stands_for(options@[p@[k] as int], peers@, kind, at));
            lemma_same_stands(options@[p@[k] as int], out@[k], peers@, kind, at);
        }
        assert forall|a: int, b: int| 0 <= a < b < out@.len() implies {
            &&& (#[trigger] out@[a]).model@ != (#[trigger] out@[b]).model@
            &&& listed_before(out@[a], out@[b])
        } by {
            assert(p@[a] != p@[b]);
            assert(options@[p@[a] as int].model@ != options@[p@[b] as int].model@) by {
                if p@[a] < p@[b] {
                    assert(options@[p@[a] as int].model@ != options@[p@[b] as int].model@);
                } else {
                    assert(options@[p@[b] as int].model@ != options@[p@[a] as int].model@);
                }
            }
            let x = rs[p@[a] as int];
            let y = rs[p@[b] as int];
            assert(!y.before(x));
            lemma_rank_total(x, y);
            assert(x == keys@[p@[a] as int]@);
            assert(y == keys@[p@[b] as int]@);
        }
        assert forall|k: int| 0 <= k < at.len() implies named(
            out@,
            model_at(peers@, #[trigger] at[k]).id@,
        ) by {
            assert(named(options@, model_at(peers@, at[k]).id@));
            reveal(named);
            let i = choose|i: int|
                0 <= i < options@.len() && (#[trigger] options@[i]).model@ == model_at(
                    peers@,
                    at[k],
                ).id@;
            assert(p@.contains(i as usize));
            let j = choose|j: int| 0 <= j < p@.len() && p@[j] == i as usize;
            assert(out@[j].model@ == options@[i].model@);
        }
    }
    out
}

/// Somebody who is online serves this model.
pub open spec fn is_served(peers: Seq<Peer>, kind: JobKind, model: Seq<char>) -> bool {
    exists|k: int|
        0 <= k < on_offer(peers, kind).len() && model_at(
            peers,
            #[trigger] on_offer(peers, kind)[k],
        ).id@ == model
}

proof fn lemma_standing_is_served(
    o: ModelOption,
    peers: Seq<Peer>,
    kind: JobKind,
)
    requires
        stands_for(o, peers, kind, on_offer(peers, kind)),
    ensures
        is_served(peers, kind, o.model@),
{
    reveal(offered);
    reveal(offers);
    let at = on_offer(peers, kind);
    let k = choose|k: int| 0 <= k < at.len() && offers(o, peers, kind, #[trigger] at[k]);
    assert(model_at(peers, on_offer(peers, kind)[k]).id@ == o.model@);
}

/// The provider to use for a named model, if anyone serves it.
pub fn provider_for(peers: &Vec<Peer>, kind: JobKind, model: &str) -> (r: Option<ModelOption>)
    requires
        on_offer(peers@, kind).len() < u32::MAX,
    ensures
        match r {
            Some(o) => o.model@ == model@ && stands_for(o, peers@, kind, on_offer(peers@, kind)),
            None => !is_served(peers@, kind, model@),
        },
        r is Some <==> is_served(peers@, kind, model@),
{
    let options = model_options(peers, kind);
    let ghost at = on_offer(peers@, kind);
    match position_of(&options, model) {
        Some(i) => {
            let o = recounted(&options[i], options[i].providers);
            proof {
                assert(stands_for(options@[i as int], peers@, kind, at));
                lemma_same_stands(options@[i as int], o, peers@, kind, at);
                lemma_standing_is_served(o, peers@, kind);
            }
            Some(o)
        },
        None => {
            proof {
                assert forall|k: int| 0 <= k < at.len() implies model_at(
                    peers@,
                    #[trigger] at[k],
                ).id@ != model@ by {
                    assert(named(options@, model_at(peers@, at[k]).id@));
                    reveal(named);
                }
            }
            None
        },
    }
}

/// Whoever is chosen for a model is online, serves that model, and nobody who
/// is online serves it for less.
pub proof fn law_cheapest_wins(
    o: ModelOption,
    peers: Seq<Peer>,
    kind: JobKind,
    rival: (usize, usize),
)
    requires
        stands_for(o, peers, kind, on_offer(peers, kind)),
        on_offer(peers, kind).contains(rival),
        model_at(peers, rival).id@ == o.model@,
    ensures
        o.price <= model_at(peers, rival).listed(),
        exists|at: (usize, usize)|
            on_offer(peers, kind).contains(at) && #[trigger] offers(o, peers, kind, at),
{
    let all = on_offer(peers, kind);
    reveal(offered);
    reveal(cheapest);
    let k = choose|k: int| 0 <= k < all.len() && offers(o, peers, kind, #[trigger] all[k]);
    assert(all.contains(all[k]));
    let r = choose|r: int| 0 <= r < all.len() && all[r] == rival;
    assert(model_at(peers, all[r]).id@ == o.model@);
}

/// Everything on offer is served by a peer that is online.
pub proof fn law_only_online_peers_are_offered(peers: Seq<Peer>, kind: JobKind, n: int, k: int)
    requires
        0 <= n <= peers.len() <= usize::MAX,
        forall|i: int| 0 <= i < peers.len() ==> (#[trigger] peers[i]).models@.len() <= usize::MAX,
        0 <= k < picks(peers, kind, n).len(),
    ensures
        is_place(peers, kind, picks(peers, kind, n)[k]),
    decreases n,
{
    if n > 0 {
        let rest = picks(peers, kind, n - 1);
        if k < rest.len() {
            law_only_online_peers_are_offered(peers, kind, n - 1, k);
        } else {
            let p = peers[n - 1];
            lemma_peer_picks(peers, kind, n - 1, p.models@.len() as int, k - rest.len());
        }
    }
}

proof fn lemma_peer_picks(peers: Seq<Peer>, kind: JobKind, peer: int, n: int, k: int)
    requires
        0 <= peer < peers.len() <= usize::MAX,
        peers[peer].online(),
        0 <= n <= peers[peer].models@.len() <= usize::MAX,
        0 <= k < peer_picks(peers[peer].models@, kind, peer as usize, n).len(),
    ensures
        is_place(
            peers,
            kind,
            peer_picks(peers[peer].models@, kind, peer as usize, n)[k],
        ),
    decreases n,
{
    if n > 0 && k < peer_picks(peers[peer].models@, kind, peer as usize, n - 1).len() {
        lemma_peer_picks(peers, kind, peer, n - 1, k);
    }
}

proof fn lemma_picks_of_peer(ms: Seq<ModelDescriptor>, kind: JobKind, peer: usize, n: int, k: int)
    requires
        0 <= n <= ms.len(),
        0 <= k < peer_picks(ms, kind, peer, n).len(),
    ensures
        peer_picks(ms, kind, peer, n)[k].0 == peer,
    decreases n,
{
    if n > 0 && k < peer_picks(ms, kind, peer, n - 1).len() {
        lemma_picks_of_peer(ms, kind, peer, n - 1, k);
    }
}

/// Everything on offer is offered by one of the peers.
pub proof fn lemma_offered_by_a_peer(peers: Seq<Peer>, kind: JobKind, n: int, k: int)
    requires
        0 <= n <= peers.len() <= usize::MAX,
        0 <= k < picks(peers, kind, n).len(),
    ensures
        picks(peers, kind, n)[k].0 < peers.len(),
    decreases n,
{
    if n > 0 {
        let rest = picks(peers, kind, n - 1);
        if k < rest.len() {
            lemma_offered_by_a_peer(peers, kind, n - 1, k);
        } else {
            let p = peers[n - 1];
            lemma_picks_of_peer(
                p.models@,
                kind,
                (n - 1) as usize,
                p.models@.len() as int,
                k - rest.len(),
            );
        }
    }
}

// --------------------------------------------------------- provider options

/// One provider of one model: what a person looks at to choose by hand.
#[derive(Debug, PartialEq)]
pub struct ProviderOption {
    pub model: String,
    pub kind: JobKind,
    pub peer_id: String,
    pub peer_label: String,
    pub peer_country: Option<String>,
    /// In cents.
    pub price: u64,
    pub currency: String,
    pub unpriced: bool,
    pub latency_ms: Option<u32>,
    /// Video models: the shapes on offer and their rates.
    pub video: Option<Json>,
}

pub open spec fn opt_tree(o: Option<Json>) -> Option<Tree> {
    match o {
        Some(j) => Some(j@),
        None => None,
    }
}

/// Whether a row shows the offer at a place.
pub open spec fn shows(
    o: ProviderOption,
    peers: Seq<Peer>,
    kind: JobKind,
    at: (usize, usize),
) -> bool {
    let p = peers[at.0 as int];
    let m = model_at(peers, at);
    &&& o.model@ == m.id@
    &&& o.kind == kind
    &&& o.peer_id@ == p.id@
    &&& o.peer_label@ == p.label@
    &&& opt(o.peer_country) == opt(p.country)
    &&& o.price == m.listed()
    &&& o.currency@ == m.currency()
    &&& o.unpriced == m.unpriced()
    &&& o.latency_ms == p.latency_ms
    &&& opt_tree(o.video) == opt_tree(m.video)
}

/// What the rows are ordered by: the price, the model, the provider's name.
pub open spec fn row_ranks(peers: Seq<Peer>, at: Seq<(usize, usize)>) -> Seq<Rank> {
    Seq::new(
        at.len(),
        |k: int|
            Rank {
                price: model_at(peers, at[k]).listed(),
                model: model_at(peers, at[k]).id@,
                label: peers[at[k].0 as int].label@,
                draw: 0,
            },
    )
}

/// The rows show every offer at the places once, in order.
pub open spec fn rows_in_order(
    rows: Seq<ProviderOption>,
    peers: Seq<Peer>,
    kind: JobKind,
    at: Seq<(usize, usize)>,
) -> bool {
    exists|p: Seq<usize>|
        {
            &&& #[trigger] in_order(row_ranks(peers, at), p)
            &&& rows.len() == at.len()
            &&& forall|i: int|
                0 <= i < rows.len() ==> shows(#[trigger] rows[i], peers, kind, at[p[i] as int])
        }
}

fn row_at(peers: &Vec<Peer>, kind: JobKind, at: (usize, usize)) -> (r: ProviderOption)
    requires
        is_place(peers@, kind, at),
    ensures
        shows(r, peers@, kind, at),
{
    let p = &peers[at.0];
    let m = &p.models[at.1];
    ProviderOption {
        model: m.id.clone(),
        kind,
        peer_id: p.id.clone(),
        peer_label: p.label.clone(),
        peer_country: copy_opt(&p.country),
        price: m.amount(),
        currency: m.currency_text(),
        unpriced: m.is_unpriced(),
        latency_ms: p.latency_ms,
        video: match &m.video {
            Some(j) => Some(j.copy()),
            None => None,
        },
    }
}

/// Everyone serving anything of this kind, one row each: cheapest first,
/// equals by name, so that the list holds still.
pub fn provider_options(peers: &Vec<Peer>, kind: JobKind) -> (r: Vec<ProviderOption>)
    ensures
        rows_in_order(r@, peers@, kind, on_offer(peers@, kind)),
{
    let at = listed(peers, kind);
    let mut keys: Vec<Key> = Vec::new();
    let mut i: usize = 0;
    while i < at.len()
        invariant
            i <= at@.len(),
            at@ == on_offer(peers@, kind),
            forall|k: int| 0 <= k < at@.len() ==> is_place(peers@, kind, #[trigger] at@[k]),
            keys@.len() == i,
            forall|k: int| 0 <= k < i ==> (#[trigger] keys@[k])@ == row_ranks(peers@, at@)[k],
        decreases at@.len() - i,
    {
        assert(is_place(peers@, kind, at@[i as int]));
        let p = &peers[at[i].0];
        let m = &p.models[at[i].1];
        keys.push(
            Key { price: m.amount(), model: m.id.clone(), label: p.label.clone(), draw: 0 },
        );
        i = i + 1;
    }
    let p = ordered(&keys);
    assert(ranks(keys@) =~= row_ranks(peers@, at@));
    let mut out: Vec<ProviderOption> = Vec::new();
    let mut j: usize = 0;
    while j < p.len()
        invariant
            j <= p@.len(),
            p@.len() == at@.len(),
            at@ == on_offer(peers@, kind),
            forall|k: int| 0 <= k < at@.len() ==> is_place(peers@, kind, #[trigger] at@[k]),
            forall|k: int| 0 <= k < p@.len() ==> (#[trigger] p@[k]) < at@.len(),
            out@.len() == j,
            forall|k: int|
                0 <= k < j ==> shows(#[trigger] out@[k], peers@, kind, at@[p@[k] as int]),
        decreases p@.len() - j,
    {
        assert(is_place(peers@, kind, at@[p@[j as int] as int]));
        out.push(row_at(peers, kind, at[p[j]]));
        j = j + 1;
    }
    assert(in_order(row_ranks(peers@, at@), p@));
    out
}

// ---------------------------------------------------------------- fallbacks

/// Whom to try next.
#[derive(Debug, PartialEq)]
pub struct Fallback {
    pub peer_id: String,
    pub peer_label: String,
    pub model: String,
}

/// A model asked for by a longer name still belongs to a provider that lists
/// the shorter one.
pub open spec fn answers_to(listed: Seq<char>, asked: Seq<char>) -> bool {
    listed == asked || starts_with(asked, listed)
}

pub fn serves(m: &ModelDescriptor, model: &str) -> (r: bool)
    ensures
        r == answers_to(m.id@, model@),
{
    same(m.id.as_str(), model) || has_prefix(model, m.id.as_str())
}

/// What the first model of a kind that answers to a name is listed at.
pub open spec fn price_in(models: Seq<ModelDescriptor>, kind: JobKind, model: Seq<char>) -> u64
    decreases models.len(),
{
    if models.len() == 0 {
        0
    } else if models[0].kind == kind && answers_to(models[0].id@, model) {
        models[0].listed()
    } else {
        price_in(models.drop_first(), kind, model)
    }
}

/// What the user was to pay: the first choice's listed price.
pub open spec fn price_at(
    peers: Seq<Peer>,
    kind: JobKind,
    model: Seq<char>,
    peer_id: Seq<char>,
) -> u64
    decreases peers.len(),
{
    if peers.len() == 0 {
        0
    } else if peers[0].id@ == peer_id {
        price_in(peers[0].models@, kind, model)
    } else {
        price_at(peers.drop_first(), kind, model, peer_id)
    }
}

fn first_price(peers: &Vec<Peer>, kind: JobKind, model: &str, peer_id: &str) -> (r: u64)
    ensures
        r == price_at(peers@, kind, model@, peer_id@),
{
    let mut i: usize = 0;
    assert(peers@.skip(0) =~= peers@);
    while i < peers.len()
        invariant
            i <= peers@.len(),
            price_at(peers@, kind, model@, peer_id@) == price_at(
                peers@.skip(i as int),
                kind,
                model@,
                peer_id@,
            ),
        decreases peers@.len() - i,
    {
        if same(peers[i].id.as_str(), peer_id) {
            let models = &peers[i].models;
            let mut j: usize = 0;
            assert(models@.skip(0) =~= models@);
            while j < models.len()
                invariant
                    j <= models@.len(),
                    price_at(peers@, kind, model@, peer_id@) == price_in(models@, kind, model@),
                    price_in(models@, kind, model@) == price_in(
                        models@.skip(j as int),
                        kind,
                        model@,
                    ),
                decreases models@.len() - j,
            {
                if models[j].kind == kind && serves(&models[j], model) {
                    return models[j].amount();
                }
                assert(models@.skip(j as int).drop_first() =~= models@.skip(j as int + 1));
                j = j + 1;
            }
            return 0;
        }
        assert(peers@.skip(i as int).drop_first() =~= peers@.skip(i as int + 1));
        i = i + 1;
    }
    0
}

/// What decides whom to turn to: what was asked, of whom, at what price.
pub struct Wish {
    pub kind: JobKind,
    pub model: Seq<char>,
    pub first: Seq<char>,
    pub price: u64,
}

/// Another provider of the same model, for no more.
pub open spec fn is_twin(peers: Seq<Peer>, at: (usize, usize), w: Wish) -> bool {
    &&& peers[at.0 as int].id@ != w.first
    &&& answers_to(model_at(peers, at).id@, w.model)
    &&& model_at(peers, at).listed() <= w.price
}

/// A free provider of another text model, where the first choice was free.
pub open spec fn is_free_other(peers: Seq<Peer>, at: (usize, usize), w: Wish) -> bool {
    &&& peers[at.0 as int].id@ != w.first
    &&& !answers_to(model_at(peers, at).id@, w.model)
    &&& w.price == 0
    &&& model_at(peers, at).listed() == 0
    &&& w.kind == JobKind::Llm
}

/// The places, in order, that are twins, or free others.
pub open spec fn chosen_places(
    peers: Seq<Peer>,
    at: Seq<(usize, usize)>,
    w: Wish,
    twins: bool,
) -> Seq<(usize, usize)>
    decreases at.len(),
{
    if at.len() == 0 {
        seq![]
    } else {
        let rest = chosen_places(peers, at.drop_last(), w, twins);
        if twins && is_twin(peers, at.last(), w) || !twins && is_free_other(peers, at.last(), w) {
            rest.push(at.last())
        } else {
            rest
        }
    }
}

/// A retry costs no more than the offer the user saw, is never put to the
/// provider that just failed, and a free choice stays free.
pub proof fn law_retry_never_costs_more(
    peers: Seq<Peer>,
    at: Seq<(usize, usize)>,
    w: Wish,
    twins: bool,
    k: int,
)
    requires
        0 <= k < chosen_places(peers, at, w, twins).len(),
    ensures
        ({
            let place = chosen_places(peers, at, w, twins)[k];
            &&& at.contains(place)
            &&& model_at(peers, place).listed() <= w.price
            &&& peers[place.0 as int].id@ != w.first
            &&& answers_to(model_at(peers, place).id@, w.model) || (w.price == 0 && w.kind
                == JobKind::Llm)
        }),
    decreases at.len(),
{
    if at.len() > 0 {
        let front = at.drop_last();
        let rest = chosen_places(peers, front, w, twins);
        if k < rest.len() {
            law_retry_never_costs_more(peers, front, w, twins, k);
            let place = rest[k];
            let i = choose|i: int| 0 <= i < front.len() && front[i] == place;
            assert(at[i] == place);
        } else {
            assert(at[at.len() - 1] == at.last());
        }
    }
}

/// What places are tried in the order of: the price, then a drawn number.
pub open spec fn try_ranks(peers: Seq<Peer>, at: Seq<(usize, usize)>, draws: Seq<u32>) -> Seq<Rank> {
    Seq::new(
        at.len(),
        |k: int|
            Rank {
                price: model_at(peers, at[k]).listed(),
                model: ""@,
                label: ""@,
                draw: draws[k],
            },
    )
}

/// Whether a fallback names the provider and the model at a place.
pub open spec fn names(f: Fallback, peers: Seq<Peer>, at: (usize, usize)) -> bool {
    &&& f.peer_id@ == peers[at.0 as int].id@
    &&& f.peer_label@ == peers[at.0 as int].label@
    &&& f.model@ == model_at(peers, at).id@
}

/// The places are tried cheapest first, equals in the order they were drawn.
pub open spec fn tried_in_order(
    fs: Seq<Fallback>,
    peers: Seq<Peer>,
    at: Seq<(usize, usize)>,
    draws: Seq<u32>,
) -> bool {
    &&& draws.len() == at.len()
    &&& exists|p: Seq<usize>|
        {
            &&& #[trigger] in_order(try_ranks(peers, at, draws), p)
            &&& fs.len() == at.len()
            &&& forall|i: int| 0 <= i < fs.len() ==> names(#[trigger] fs[i], peers, at[p[i] as int])
        }
}

/// The same for some numbers drawn.
pub open spec fn some_order(
    fs: Seq<Fallback>,
    peers: Seq<Peer>,
    at: Seq<(usize, usize)>,
) -> bool {
    exists|d: Seq<u32>| #[trigger] tried_in_order(fs, peers, at, d)
}

/// Puts places in the order they are tried in, given the numbers drawn.
pub fn arranged(
    peers: &Vec<Peer>,
    at: &Vec<(usize, usize)>,
    draws: &Vec<u32>,
) -> (r: Vec<Fallback>)
    requires
        draws@.len() == at@.len(),
        forall|k: int|
            0 <= k < at@.len() ==> (#[trigger] at@[k]).0 < peers@.len() && at@[k].1
                < peers@[at@[k].0 as int].models@.len(),
    ensures
        tried_in_order(r@, peers@, at@, draws@),
{
    let mut keys: Vec<Key> = Vec::new();
    let mut i: usize = 0;
    while i < at.len()
        invariant
            i <= at@.len(),
            draws@.len() == at@.len(),
            forall|k: int|
                0 <= k < at@.len() ==> (#[trigger] at@[k]).0 < peers@.len() && at@[k].1
                    < peers@[at@[k].0 as int].models@.len(),
            keys@.len() == i,
            forall|k: int|
                0 <= k < i ==> (#[trigger] keys@[k])@ == try_ranks(peers@, at@, draws@)[k],
        decreases at@.len() - i,
    {
        assert(at@[i as int].0 < peers@.len());
        let m = &peers[at[i].0].models[at[i].1];
        keys.push(
            Key {
                price: m.amount(),
                model: "".to_string(),
                label: "".to_string(),
                draw: draws[i],
            },
        );
        i = i + 1;
    }
    let p = ordered(&keys);
    assert(ranks(keys@) =~= try_ranks(peers@, at@, draws@));
    let mut out: Vec<Fallback> = Vec::new();
    let mut j: usize = 0;
    while j < p.len()
        invariant
            j <= p@.len(),
            p@.len() == at@.len(),
            forall|k: int|
                0 <= k < at@.len() ==> (#[trigger] at@[k]).0 < peers@.len() && at@[k].1
                    < peers@[at@[k].0 as int].models@.len(),
            forall|k: int| 0 <= k < p@.len() ==> (#[trigger] p@[k]) < at@.len(),
            out@.len() == j,
            forall|k: int| 0 <= k < j ==> names(#[trigger] out@[k], peers@, at@[p@[k] as int]),
        decreases p@.len() - j,
    {
        let here = at[p[j]];
        assert(at@[p@[j as int] as int].0 < peers@.len());
        let peer = &peers[here.0];
        out.push(
            Fallback {
                peer_id: peer.id.clone(),
                peer_label: peer.label.clone(),
                model: peer.models[here.1].id.clone(),
            },
        );
        j = j + 1;
    }
    assert(in_order(try_ranks(peers@, at@, draws@), p@));
    out
}

fn places(
    peers: &Vec<Peer>,
    at: &Vec<(usize, usize)>,
    kind: JobKind,
    model: &str,
    first: &str,
    price: u64,
    twins: bool,
) -> (r: Vec<(usize, usize)>)
    requires
        forall|k: int|
            0 <= k < at@.len() ==> (#[trigger] at@[k]).0 < peers@.len() && at@[k].1
                < peers@[at@[k].0 as int].models@.len(),
    ensures
        r@ == chosen_places(
            peers@,
            at@,
            (Wish { kind, model: model@, first: first@, price }),
            twins,
        ),
        forall|k: int|
            0 <= k < r@.len() ==> (#[trigger] r@[k]).0 < peers@.len() && r@[k].1
                < peers@[r@[k].0 as int].models@.len(),
{
    let ghost w = Wish { kind, model: model@, first: first@, price };
    let mut out: Vec<(usize, usize)> = Vec::new();
    let mut i: usize = 0;
    assert(out@ =~= chosen_places(peers@, at@.take(0), w, twins));
    while i < at.len()
        invariant
            i <= at@.len(),
            w == (Wish { kind, model: model@, first: first@, price }),
            forall|k: int|
                0 <= k < at@.len() ==> (#[trigger] at@[k]).0 < peers@.len() && at@[k].1
                    < peers@[at@[k].0 as int].models@.len(),
            out@ == chosen_places(peers@, at@.take(i as int), w, twins),
            forall|k: int|
                0 <= k < out@.len() ==> (#[trigger] out@[k]).0 < peers@.len() && out@[k].1
                    < peers@[out@[k].0 as int].models@.len(),
        decreases at@.len() - i,
    {
        let ghost now = at@.take(i as int + 1);
        assert(now.drop_last() =~= at@.take(i as int));
        assert(now.last() == at@[i as int]);
        let here = at[i];
        let peer = &peers[here.0];
        let m = &peer.models[here.1];
        if !same(peer.id.as_str(), first) {
            let known = serves(m, model);
            let asks: u64 = m.amount();
            if twins {
                if known && asks <= price {
                    out.push(here);
                }
            } else if !known && price == 0 && asks == 0 && kind == JobKind::Llm {
                out.push(here);
            }
        }
        i = i + 1;
    }
    assert(at@.take(i as int) =~= at@);
    out
}

fn draws(n: usize) -> (r: Vec<u32>)
    ensures
        r@.len() == n,
{
    let mut r: Vec<u32> = Vec::new();
    while r.len() < n
        invariant
            r@.len() <= n,
        decreases n - r@.len(),
    {
        r.push(random_number());
    }
    r
}

/// Whom to turn to after the first choice: the same model for no more first,
/// then free providers of other text models, each part in the order drawn.
pub open spec fn retries(
    r: Seq<Fallback>,
    peers: Seq<Peer>,
    kind: JobKind,
    model: Seq<char>,
    first: Seq<char>,
) -> bool {
    let at = on_offer(peers, kind);
    let w = Wish { kind, model, first, price: price_at(peers, kind, model, first) };
    let n = chosen_places(peers, at, w, true).len() as int;
    &&& 0 <= n <= r.len()
    &&& some_order(r.take(n), peers, chosen_places(peers, at, w, true))
    &&& some_order(r.skip(n), peers, chosen_places(peers, at, w, false))
}

/// Whom to try, in order, after the first choice gave nothing: the same model
/// for no more, and where the first choice was free, any other free text
/// provider after that.
pub fn fallbacks(peers: &Vec<Peer>, kind: JobKind, model: &str, first_peer_id: &str) -> (r: Vec<
    Fallback,
>)
    ensures
        retries(r@, peers@, kind, model@, first_peer_id@),
{
    let price: u64 = first_price(peers, kind, model, first_peer_id);
    let at = listed(peers, kind);
    assert forall|k: int| 0 <= k < at@.len() implies (#[trigger] at@[k]).0 < peers@.len() && at@[k].1
        < peers@[at@[k].0 as int].models@.len() by {
        assert(is_place(peers@, kind, at@[k]));
    }
    let twins = places(peers, &at, kind, model, first_peer_id, price, true);
    let others = places(peers, &at, kind, model, first_peer_id, price, false);
    let twin_draws = draws(twins.len());
    let other_draws = draws(others.len());
    let mut out = arranged(peers, &twins, &twin_draws);
    let mut rest = arranged(peers, &others, &other_draws);
    let ghost a = out@;
    let ghost b = rest@;
    out.append(&mut rest);
    assert(out@.take(a.len() as int) =~= a);
    assert(out@.skip(a.len() as int) =~= b);
    assert(tried_in_order(out@.take(a.len() as int), peers@, twins@, twin_draws@));
    assert(tried_in_order(out@.skip(a.len() as int), peers@, others@, other_draws@));
    out
}

} // verus!
