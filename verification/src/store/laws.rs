//! What holds of the rows whatever is done with them.
use vstd::prelude::*;
use vstd::set_lib::{lemma_int_range, lemma_subset_equality, set_int_range};

use crate::protocol::opt;
use crate::results::ResultRecord;
use crate::store::history::{in_chat, not_in_chat, without_result};
use crate::store::peers::peer_turn;
use crate::store::spends::{
    billed, covers, first_cover, no_later, other_spends, pays, resolved, spend_turn,
};
use crate::store::tables::{
    in_turn, kept, keys_of, lemma_kept_members, listed, picked, sooner, Turn,
};
use crate::store::{Db, Message, Peer, Settlement, SpendEntry, MOCK_ENDPOINT};

verus! {

broadcast use vstd::string::group_string_axioms;

/// Where none of the rows is to be kept, none is.
proof fn lemma_kept_none<T>(rows: Seq<T>, keep: spec_fn(T) -> bool)
    requires
        forall|i: int| 0 <= i < rows.len() ==> !keep(#[trigger] rows[i]),
    ensures
        kept(rows, keep).len() == 0,
{
    lemma_kept_members(rows, keep);
    let k = kept(rows, keep);
    if k.len() > 0 {
        assert(k.contains(k[0]));
        let i = choose|i: int| 0 <= i < rows.len() && rows[i] == k[0];
        assert(!keep(rows[i]));
    }
}

/// Rows that stay are found as before.
proof fn lemma_kept_twice<T>(rows: Seq<T>, first: spec_fn(T) -> bool, then_keep: spec_fn(T) -> bool)
    requires
        forall|t: T| #[trigger] then_keep(t) ==> first(t),
    ensures
        kept(kept(rows, first), then_keep) == kept(rows, then_keep),
    decreases rows.len(),
{
    if rows.len() > 0 {
        lemma_kept_twice(rows.drop_last(), first, then_keep);
        let k = kept(rows.drop_last(), first);
        if first(rows.last()) {
            assert(k.push(rows.last()).drop_last() =~= k);
        } else {
            assert(!then_keep(rows.last()));
        }
    }
}

/// No message outlives its chat, and no message of another chat is lost with
/// it.
pub proof fn law_messages_go_with_their_chat(messages: Seq<Message>, id: Seq<char>, other: Seq<char>)
    requires
        other != id,
    ensures
        kept(kept(messages, not_in_chat(id)), in_chat(id)).len() == 0,
        kept(kept(messages, not_in_chat(id)), in_chat(other)) == kept(messages, in_chat(other)),
{
    lemma_kept_members(messages, not_in_chat(id));
    let left = kept(messages, not_in_chat(id));
    assert forall|i: int| 0 <= i < left.len() implies !in_chat(id)(#[trigger] left[i]) by {
        assert(left.contains(left[i]));
        assert(not_in_chat(id)(left[i]));
    }
    lemma_kept_none(left, in_chat(id));
    assert forall|m: Message| #[trigger] in_chat(other)(m) implies not_in_chat(id)(m) by {}
    lemma_kept_twice(messages, not_in_chat(id), in_chat(other));
}

/// The next number is higher than that of any message there is.
pub proof fn law_message_numbers_are_new(db: Db, i: int)
    requires
        db.wf(),
        0 <= i < db.messages@.len(),
    ensures
        db.messages@[i].id < db.last_message + 1,
{
}

/// A result that was deleted is not found again, and the others stay.
pub proof fn law_a_deleted_result_is_gone(results: Seq<ResultRecord>, id: u128, r: ResultRecord)
    requires
        results.contains(r),
    ensures
        kept(results, without_result(id)).contains(r) <==> r.job_id != id,
{
    lemma_kept_members(results, without_result(id));
    assert(kept(results, without_result(id)).contains(r) <==> (results.contains(r)
        && without_result(id)(r)));
}

/// The job's own bills.
pub open spec fn bills_of_job(job: Seq<char>) -> spec_fn(SpendEntry) -> bool {
    |s: SpendEntry| s.job_id@ == job
}

/// However often a job's bill is recorded, the job has one bill, the last.
pub proof fn law_a_job_is_billed_once(spends: Seq<SpendEntry>, row: SpendEntry)
    ensures
        kept(
            kept(spends, other_spends(row.job_id@)).push(row),
            bills_of_job(row.job_id@),
        ) == seq![row],
{
    let job = row.job_id@;
    let left = kept(spends, other_spends(job));
    lemma_kept_members(spends, other_spends(job));
    assert forall|i: int| 0 <= i < left.len() implies !bills_of_job(job)(#[trigger] left[i]) by {
        assert(left.contains(left[i]));
        assert(other_spends(job)(left[i]));
    }
    lemma_kept_none(left, bills_of_job(job));
    assert(left.push(row).drop_last() =~= left);
    assert(kept(left, bills_of_job(job)) =~= seq![]);
    assert(kept(left.push(row), bills_of_job(job)) =~= seq![row]);
}

/// The settlement a bill points at covers it, and none that covers it comes
/// before; a bill that none covers points at none.
pub proof fn law_a_bill_points_at_its_first_cover(ts: Seq<Settlement>, s: SpendEntry, n: int)
    requires
        0 <= n <= ts.len(),
    ensures
        match first_cover(ts, s, n) {
            Some(u) => {
                &&& covers(u, s)
                &&& forall|i: int| 0 <= i < n && covers(#[trigger] ts[i], s) ==> no_later(u, ts[i])
            },
            None => forall|i: int| 0 <= i < n ==> !covers(#[trigger] ts[i], s),
        },
    decreases n,
{
    if n > 0 {
        law_a_bill_points_at_its_first_cover(ts, s, n - 1);
    }
}

/// A settlement that reaches further than the one that collected a bill does
/// not take its place.
pub proof fn law_later_settlements_move_no_bill(ts: Seq<Settlement>, t: Settlement, s: SpendEntry)
    requires
        first_cover(ts, s, ts.len() as int) matches Some(u) && no_later(u, t),
    ensures
        first_cover(ts.push(t), s, ts.len() as int + 1) == first_cover(ts, s, ts.len() as int),
{
    lemma_cover_prefix(ts, ts.push(t), s, ts.len() as int);
}

proof fn lemma_cover_prefix(a: Seq<Settlement>, b: Seq<Settlement>, s: SpendEntry, n: int)
    requires
        0 <= n <= a.len(),
        n <= b.len(),
        forall|i: int| 0 <= i < n ==> a[i] == b[i],
    ensures
        first_cover(a, s, n) == first_cover(b, s, n),
    decreases n,
{
    if n > 0 {
        lemma_cover_prefix(a, b, s, n - 1);
    }
}

/// Looking at the chain a second time changes no bill again.
pub proof fn law_resolving_again_changes_nothing(s: SpendEntry, ts: Seq<Settlement>)
    ensures
        resolved(resolved(s, ts), ts) == resolved(s, ts),
{
}

/// Nothing is charged for a reply that ended without a bill until the chain
/// shows that its chunk was kept.
pub proof fn law_a_stopped_reply_is_free_until_settled(s: SpendEntry, ts: Seq<Settlement>)
    requires
        s.abandoned && s.cost_micros == 0,
        resolved(s, ts).cost_micros != 0,
    ensures
        exists|i: int|
            0 <= i < ts.len() && opt(s.payout) == Some((#[trigger] ts[i]).payout@)
                && s.bond_cumulative == Some(ts[i].cumulative),
{
    let i = choose|i: int|
        0 <= i < ts.len() && pays(#[trigger] ts[i], opt(s.payout))
            && s.bond_cumulative == Some(ts[i].cumulative);
    assert(opt(s.payout) == Some(ts[i].payout@));
}

/// One place comes before another.
spec fn ahead(keys: Seq<Turn>, a: usize, b: usize) -> bool {
    sooner(keys[a as int], keys[b as int]) || (keys[a as int] == keys[b as int] && a < b)
}

/// Every place is named.
proof fn lemma_turn_names_all(keys: Seq<Turn>, p: Seq<usize>, k: usize)
    requires
        in_turn(keys, p),
        k < keys.len(),
    ensures
        p.contains(k),
{
    let n = keys.len() as int;
    let q = p.map_values(|x: usize| x as int);
    assert forall|i: int, j: int| 0 <= i < q.len() && 0 <= j < q.len() && i != j implies q[i]
        != q[j] by {
        if i < j {
            assert(p[i] != p[j] || ahead(keys, p[i], p[j]));
        } else {
            assert(p[j] != p[i] || ahead(keys, p[j], p[i]));
        }
    }
    assert(q.no_duplicates());
    q.unique_seq_to_set();
    lemma_int_range(0, n);
    let all = set_int_range(0, n);
    assert forall|x: int| q.to_set().contains(x) implies all.contains(x) by {
        let i = choose|i: int| 0 <= i < q.len() && q[i] == x;
        assert(p[i] < keys.len());
    }
    lemma_subset_equality(q.to_set(), all);
    assert(all.contains(k as int));
    assert(q.to_set().contains(k as int));
    let i = choose|i: int| 0 <= i < q.len() && q[i] == k as int;
    assert(p[i] == k);
}

proof fn lemma_turns_agree(keys: Seq<Turn>, p: Seq<usize>, q: Seq<usize>, n: int)
    requires
        in_turn(keys, p),
        in_turn(keys, q),
        0 <= n <= keys.len(),
    ensures
        forall|i: int| 0 <= i < n ==> p[i] == q[i],
    decreases n,
{
    if n > 0 {
        let k = n - 1;
        lemma_turns_agree(keys, p, q, k);
        if p[k] != q[k] {
            assert(p[k] < keys.len() && q[k] < keys.len());
            lemma_turn_names_all(keys, q, p[k]);
            let j = choose|j: int| 0 <= j < q.len() && q[j] == p[k];
            if j < k {
                assert(p[j] == p[k]);
                assert(ahead(keys, p[j], p[k]));
            }
            assert(ahead(keys, q[k], q[j]));
            lemma_turn_names_all(keys, p, q[k]);
            let l = choose|l: int| 0 <= l < p.len() && p[l] == q[k];
            if l < k {
                assert(q[l] == q[k]);
                assert(ahead(keys, q[l], q[k]));
            }
            assert(ahead(keys, p[k], p[l]));
        }
    }
}

/// Rows can be listed in one way only.
pub proof fn law_one_listing_only<T>(
    rows: Seq<T>,
    key: spec_fn(T) -> Turn,
    a: Seq<T>,
    b: Seq<T>,
)
    requires
        listed(rows, key, a),
        listed(rows, key, b),
    ensures
        a == b,
{
    let keys = keys_of(rows, key);
    let p = choose|p: Seq<usize>| #[trigger] in_turn(keys, p) && a == picked(rows, p);
    let q = choose|q: Seq<usize>| #[trigger] in_turn(keys, q) && b == picked(rows, q);
    lemma_turns_agree(keys, p, q, keys.len() as int);
    assert(p =~= q);
}

/// A listing holds every row.
pub proof fn law_a_listing_loses_no_row<T>(
    rows: Seq<T>,
    key: spec_fn(T) -> Turn,
    out: Seq<T>,
    row: T,
)
    requires
        listed(rows, key, out),
        rows.len() <= usize::MAX,
    ensures
        out.len() == rows.len(),
        out.contains(row) <==> rows.contains(row),
{
    let keys = keys_of(rows, key);
    let p = choose|p: Seq<usize>| #[trigger] in_turn(keys, p) && out == picked(rows, p);
    if rows.contains(row) {
        let k = choose|k: int| 0 <= k < rows.len() && rows[k] == row;
        lemma_turn_names_all(keys, p, k as usize);
        let i = choose|i: int| 0 <= i < p.len() && p[i] == k as usize;
        assert(out[i] == row);
    }
    if out.contains(row) {
        let i = choose|i: int| 0 <= i < out.len() && out[i] == row;
        assert(p[i] < keys.len());
        assert(rows[p[i] as int] == row);
    }
}

/// No row of a listing comes before one that stands ahead of it.
pub proof fn law_a_listing_is_in_order<T>(
    rows: Seq<T>,
    key: spec_fn(T) -> Turn,
    out: Seq<T>,
    i: int,
    j: int,
)
    requires
        listed(rows, key, out),
        0 <= i < j < out.len(),
    ensures
        !sooner(key(out[j]), key(out[i])),
{
    let keys = keys_of(rows, key);
    let p = choose|p: Seq<usize>| #[trigger] in_turn(keys, p) && out == picked(rows, p);
    assert(p[i] < keys.len() && p[j] < keys.len());
    assert(ahead(keys, p[i], p[j]));
}

/// Where the worker inside this process is listed, it is listed first.
pub proof fn law_the_worker_here_is_listed_first(peers: Seq<Peer>, out: Seq<Peer>, p: Peer)
    requires
        peers.len() <= usize::MAX,
        listed(peers, peer_turn(), out),
        peers.contains(p),
        p.endpoint@ == MOCK_ENDPOINT@,
    ensures
        out.len() > 0,
        out[0].endpoint@ == MOCK_ENDPOINT@,
{
    law_a_listing_loses_no_row(peers, peer_turn(), out, p);
    let i = choose|i: int| 0 <= i < out.len() && out[i] == p;
    if i > 0 {
        law_a_listing_is_in_order(peers, peer_turn(), out, 0, i);
    }
}

/// Of two bills the newer one is listed first.
pub proof fn law_bills_are_listed_newest_first(
    spends: Seq<SpendEntry>,
    out: Seq<SpendEntry>,
    i: int,
    j: int,
)
    requires
        listed(kept(spends, billed()).reverse(), spend_turn(), out),
        0 <= i < j < out.len(),
    ensures
        out[i].at >= out[j].at,
{
    law_a_listing_is_in_order(kept(spends, billed()).reverse(), spend_turn(), out, i, j);
}

} // verus!
