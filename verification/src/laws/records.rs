//! What is put on record: of jobs and what they cost, of peers, of tickets,
//! and of the page that a pot is funded on.
use vstd::prelude::*;
use vstd::arithmetic::power::pow;

use crate::codec::{hex_digit, hexed, uuid_text};
use crate::error::Trouble;
use crate::jobs::refused_kind;
use crate::json::{Json, Tree};
use crate::pipeline::{cannot_file, is_filed};
use crate::pot::chain::explorer_link;
use crate::pot::ledger::{
    job_in, job_place, key_of, public_tickets, ticket_in, ticket_place, Charge, LatestTicket, Pending, PendingJob,
};
use crate::pot::payment::{given_up, is_abandoned, is_charge, is_reply, told_tokens};
use crate::pot::wallet::{
    fund_link, is_kept, kept_for, kept_signature, listing_of, may_hold_lock, names_nobody, shown_locked,
    url_part, ChainConfig, DiskTicket, PotStatus,
};
use crate::protocol::{opt, JobKind};
use crate::results::ResultRecord;
use crate::store::{Db, JobRecord, Message, Peer, SpendEntry, StoredDeposit};
use crate::store::peers::{
    at_endpoint, is_new_peer, knows_endpoint, no_room_for, not_mock, with_id,
};
use crate::store::spends::{other_spends, payout_key};
use crate::store::tables::{kept, lemma_kept_members};
use crate::text::{contains, decimal, digit, lowercased, trimmed, value};

verus! {

broadcast use vstd::string::group_string_axioms;

// -------------------------------------------------------------------- chats

/// A result is filed in its chat as said by the assistant: its text, its hash,
/// the job it came of, the model that made it or else the one asked for, whom
/// it came from, and what it cost.
pub proof fn law_a_result_is_filed_as_it_came(
    m: Message,
    conversation: Seq<char>,
    j: JobRecord,
    label: Seq<char>,
    record: ResultRecord,
    thinking: Option<Seq<char>>,
    cost: Option<u64>,
    now: i64,
)
    requires
        is_filed(m, conversation, j, label, record, thinking, cost, now),
    ensures
        m.conversation_id@ == conversation && m.role@ == "assistant"@ && m.created_at == now,
        record.text matches Some(t) ==> m.content@ == t@,
        record.text is None ==> m.content@.len() == 0,
        opt(m.sha256) == Some(record.sha256@) && opt(m.job_id) == Some(uuid_text(record.job_id)),
        opt(m.peer) == Some(label) && opt(m.thinking) == thinking && m.cost_micros == cost,
        record.meta@.get("model"@) matches Some(Tree::Text(x)) ==> opt(m.model) == Some(x),
        record.meta@.get("model"@) is None ==> opt(m.model) == Some(j.model@),
        record.meta@.get("total_tokens"@) matches Some(Tree::Number(n)) ==> m.tokens == Some(n),
{
}

/// A message with numbers that fit, to a chat that is there, with room left,
/// cannot be refused.
pub proof fn law_when_a_message_cannot_be_filed(
    db: Db,
    conversation: Seq<char>,
    tokens: Option<u64>,
    cost: Option<u64>,
    e: Trouble,
)
    requires
        cannot_file(db, conversation, tokens, cost, e),
    ensures
        e is Db,
        (tokens matches Some(n) && n > i64::MAX) || (cost matches Some(n) && n > i64::MAX)
            || db.last_message == i64::MAX || db.messages@.len() == crate::store::MOST_ROWS || (
        forall|i: int| 0 <= i < db.chats@.len() ==> (#[trigger] db.chats@[i]).id@ != conversation),
{
}

// -------------------------------------------------------------------- money

/// A charge is for the job's model, its peer and its payout address, of the
/// amount that was signed for.
pub proof fn law_a_charge_is_for_its_job(
    c: Charge,
    job: Pending,
    tokens: Option<u64>,
    amount: u64,
    cumulative: Option<u64>,
)
    requires
        is_charge(c, job, tokens, amount, cumulative),
    ensures
        c.model@ == job.model && c.payout@ == job.payout,
        c.cost_micros == amount && c.tokens == tokens && c.cumulative_micros == cumulative,
        job.peer.len() > 0 ==> opt(c.peer) == Some(job.peer),
        job.peer.len() == 0 ==> c.peer is None,
{
}

/// A job that was given up is on record as such: it cost nothing yet, and its
/// bond and its ceiling are kept with it.
pub proof fn law_a_given_up_job_is_on_record(s: SpendEntry, job_id: u128, job: Pending, now: i64)
    requires
        is_abandoned(s, job_id, job, now),
    ensures
        s.abandoned && s.cost_micros == 0 && s.tokens is None && s.cumulative_micros is None,
        s.job_id@ == uuid_text(job_id) && s.model@ == job.model && opt(s.payout) == Some(
            job.payout,
        ),
        s.bond_cumulative == Some(job.bond) && s.chunk_micros == Some(job.ceiling),
        s.at == now && s.settle_tx is None && s.settle_block is None,
{
}

/// What a result tells of its tokens is what went in and what came out, added
/// up, of a text alone, and nothing where it tells of none.
pub proof fn law_told_tokens_add_up(kind: JobKind, m: Json, p: u64, c: u64)
    requires
        m@.get("prompt_tokens"@) == Some(Tree::Number(p)),
        m@.get("completion_tokens"@) == Some(Tree::Number(c)),
    ensures
        0 < p + c <= u64::MAX ==> told_tokens(JobKind::Llm, Some(m)) == Some((p + c) as u64),
        p + c == 0 ==> told_tokens(JobKind::Llm, Some(m)) is None,
        kind != JobKind::Llm ==> told_tokens(kind, Some(m)) is None,
        told_tokens(kind, None) is None,
{
}

/// A job's reply is what the assistant said of it, and nothing of another job.
pub proof fn law_which_message_is_the_reply(m: Message, job: Seq<char>)
    ensures
        is_reply(m, job) <==> m.role@ == "assistant"@ && (m.job_id matches Some(j) && j@ == job),
{
}

/// Addresses of payouts are compared in lower case.
pub proof fn law_payouts_go_by_lower_case(x: Seq<char>)
    ensures
        payout_key(Some(x)) == Some(lowercased(x)),
        payout_key(None) is None,
{
}

/// A lock is looked for with whoever may hold one: the fee's vault, the
/// configured worker, every peer that names a payout, and everybody to whom a
/// ticket was signed.
pub proof fn law_who_may_hold_a_lock(
    a: Seq<char>,
    cfg: ChainConfig,
    peers: Seq<Peer>,
    tickets: Seq<(String, LatestTicket)>,
    i: int,
)
    ensures
        !names_nobody(cfg.worker@) && a == lowercased(cfg.worker@) ==> may_hold_lock(
            a,
            cfg,
            peers,
            tickets,
        ),
        !names_nobody(cfg.fee_vault@) && a == lowercased(cfg.fee_vault@) ==> may_hold_lock(
            a,
            cfg,
            peers,
            tickets,
        ),
        0 <= i < peers.len() && (peers[i].payout matches Some(p) && !names_nobody(p@) && a
            == lowercased(trimmed(p@))) ==> may_hold_lock(a, cfg, peers, tickets),
        0 <= i < tickets.len() && a == "0x"@ + tickets[i].0@ ==> may_hold_lock(
            a,
            cfg,
            peers,
            tickets,
        ),
        names_nobody(cfg.worker@) && names_nobody(cfg.fee_vault@) && peers.len() == 0
            && tickets.len() == 0 ==> !may_hold_lock(a, cfg, peers, tickets),
{
    if 0 <= i < peers.len() {
        assert(opt(peers[i].payout) == opt(peers[i].payout));
        assert(crate::pot::wallet::pays_to(peers[i], a) == crate::pot::wallet::pays_to(peers[i], a));
    }
    if 0 <= i < tickets.len() {
        assert(tickets[i].0@ == tickets[i].0@);
    }
}

/// A job that is given up, and was locked for and not paid, is written down as
/// such, and every bill of another job stays; one that was paid, or never
/// locked for, leaves the bills as they are.
pub proof fn law_what_giving_up_writes_down(
    was: Seq<SpendEntry>,
    is: Seq<SpendEntry>,
    job_id: u128,
    job: Option<Pending>,
    now: i64,
    other: SpendEntry,
)
    requires
        given_up(was, is, job_id, job, now),
        was.len() < crate::store::MOST_ROWS,
    ensures
        job is None ==> is == was,
        job matches Some(j) ==> j.paid ==> is == was,
        job matches Some(j) ==> !j.paid ==> {
            &&& is.len() > 0 && is.last().abandoned && is.last().job_id@ == uuid_text(job_id)
            &&& is.last().model@ == j.model && is.last().bond_cumulative == Some(j.bond)
            &&& is.last().chunk_micros == Some(j.ceiling) && is.last().cost_micros == 0
            &&& other.job_id@ != uuid_text(job_id) ==> (is.contains(other) <==> was.contains(other))
        },
{
    let keep = other_spends(uuid_text(job_id));
    let others = kept(was, keep);
    lemma_kept_members(was, keep);
    lemma_kept_is_shorter(was, keep);
    if job is Some && !job.unwrap().paid {
        let last = is.last();
        assert(is == others.push(last));
        if other.job_id@ != uuid_text(job_id) {
            assert(keep(other));
            if was.contains(other) {
                assert(others.contains(other));
                let i = choose|i: int| 0 <= i < others.len() && others[i] == other;
                assert(is[i] == other);
            }
            if is.contains(other) {
                let i = choose|i: int| 0 <= i < is.len() && is[i] == other;
                assert(i < others.len());
                assert(others[i] == other);
                assert(others.contains(other));
            }
        }
    }
}

proof fn lemma_kept_is_shorter(rows: Seq<SpendEntry>, keep: spec_fn(SpendEntry) -> bool)
    ensures
        kept(rows, keep).len() <= rows.len(),
    decreases rows.len(),
{
    if rows.len() > 0 {
        lemma_kept_is_shorter(rows.drop_last(), keep);
    }
}

/// What is shown as locked is what was read, and where it could not be read,
/// what was last read of the same wallet; without a wallet it is nothing.
pub proof fn law_a_lock_is_shown_as_read(
    client: Seq<char>,
    n: u64,
    last: Option<PotStatus>,
    s: PotStatus,
)
    ensures
        shown_locked(Some(client), Some(n), last) == n,
        opt(s.client) == Some(client) ==> shown_locked(Some(client), None, Some(s))
            == s.reserved_micros,
        opt(s.client) != Some(client) ==> shown_locked(Some(client), None, Some(s)) == 0,
        shown_locked(Some(client), None, None) == 0,
        shown_locked(None, Some(n), last) == 0,
{
}

// ------------------------------------------------------------------ tickets

/// The ticket of a worker is the one that stands under its key, and the job of
/// an id is the one that stands under it; none is found where none stands.
pub proof fn law_what_the_book_finds(
    tickets: Seq<(String, LatestTicket)>,
    key: Seq<char>,
    jobs: Seq<(u128, PendingJob)>,
    id: u128,
    i: int,
)
    ensures
        0 <= i < tickets.len() && tickets[i].0@ == key && (forall|k: int|
            0 <= k < i ==> (#[trigger] tickets[k]).0@ != key) ==> ticket_in(tickets, key) == Some(
            tickets[i].1,
        ),
        (forall|k: int| 0 <= k < tickets.len() ==> (#[trigger] tickets[k]).0@ != key) ==> ticket_in(
            tickets,
            key,
        ) is None,
        0 <= i < jobs.len() && jobs[i].0 == id && (forall|k: int|
            0 <= k < i ==> (#[trigger] jobs[k]).0 != id) ==> job_in(jobs, id) == Some(jobs[i].1@),
        (forall|k: int| 0 <= k < jobs.len() ==> (#[trigger] jobs[k]).0 != id) ==> job_in(jobs, id)
            is None,
{
    if 0 <= i < tickets.len() && tickets[i].0@ == key && (forall|k: int|
        0 <= k < i ==> (#[trigger] tickets[k]).0@ != key) {
        lemma_ticket_place(tickets, key, i);
    }
    if forall|k: int| 0 <= k < tickets.len() ==> (#[trigger] tickets[k]).0@ != key {
        lemma_ticket_place(tickets, key, tickets.len() as int);
    }
    if 0 <= i < jobs.len() && jobs[i].0 == id && (forall|k: int|
        0 <= k < i ==> (#[trigger] jobs[k]).0 != id) {
        lemma_job_place(jobs, id, i);
    }
    if forall|k: int| 0 <= k < jobs.len() ==> (#[trigger] jobs[k]).0 != id {
        lemma_job_place(jobs, id, jobs.len() as int);
    }
}

proof fn lemma_ticket_place(tickets: Seq<(String, LatestTicket)>, key: Seq<char>, i: int)
    requires
        0 <= i <= tickets.len(),
        forall|k: int| 0 <= k < i ==> (#[trigger] tickets[k]).0@ != key,
        i < tickets.len() ==> tickets[i].0@ == key,
    ensures
        ticket_place(tickets, key) == i,
    decreases tickets.len(),
{
    if i > 0 {
        assert(tickets[0].0@ != key);
        let rest = tickets.drop_first();
        assert forall|k: int| 0 <= k < i - 1 implies (#[trigger] rest[k]).0@ != key by {
            assert(rest[k] == tickets[k + 1]);
        }
        lemma_ticket_place(rest, key, i - 1);
    }
}

proof fn lemma_job_place(jobs: Seq<(u128, PendingJob)>, id: u128, i: int)
    requires
        0 <= i <= jobs.len(),
        forall|k: int| 0 <= k < i ==> (#[trigger] jobs[k]).0 != id,
        i < jobs.len() ==> jobs[i].0 == id,
    ensures
        job_place(jobs, id) == i,
    decreases jobs.len(),
{
    if i > 0 {
        assert(jobs[0].0 != id);
        let rest = jobs.drop_first();
        assert forall|k: int| 0 <= k < i - 1 implies (#[trigger] rest[k]).0 != id by {
            assert(rest[k] == jobs[k + 1]);
        }
        lemma_job_place(rest, id, i - 1);
    }
}

/// A signature is kept in hex, with or without the mark in front, and only one
/// of 65 bytes is one.
pub proof fn law_a_kept_signature_reads_back(sig: Seq<u8>)
    requires
        sig.len() == 65,
    ensures
        kept_signature("0x"@ + hexed(sig)) == Some(sig),
{
    crate::codec::law_hex_round_trip(sig);
    crate::laws::chain::lemma_prefix_goes(hexed(sig));
}

/// The last ticket kept for a worker counts, of those whose signature is one;
/// tickets for others do not.
pub proof fn law_the_last_kept_ticket_counts(
    rows: Seq<DiskTicket>,
    d: DiskTicket,
    worker: Seq<char>,
)
    ensures
        kept_for(seq![], worker) is None,
        key_of(d.ticket.worker_payout@) == key_of(worker) && kept_signature(d.sig@) is Some
            ==> kept_for(rows.push(d), worker) == Some(d),
        key_of(d.ticket.worker_payout@) != key_of(worker) ==> kept_for(rows.push(d), worker)
            == kept_for(rows, worker),
        kept_signature(d.sig@) is None ==> kept_for(rows.push(d), worker) == kept_for(rows, worker),
{
    assert(rows.push(d).drop_last() =~= rows);
}

/// A ticket that is taken back is the one that was kept.
pub proof fn law_a_ticket_is_taken_back_as_kept(t: LatestTicket, d: DiskTicket)
    ensures
        is_kept(Some(t), Some(d)) <==> t.ticket == d.ticket && t.on_chain_paid == d.on_chain_paid
            && kept_signature(d.sig@) == Some(t.sig@),
        !is_kept(Some(t), None) && !is_kept(None, Some(d)),
{
}

/// A ticket that is still owed is shown with its worker, its total, its
/// deadline and its signature in hex, behind those before it; one that is not
/// is left out.
pub proof fn law_each_ticket_owed_is_shown(
    tickets: Seq<(String, LatestTicket)>,
    t: (String, LatestTicket),
)
    ensures
        public_tickets(seq![]).len() == 0,
        t.1.ticket.cumulative > t.1.on_chain_paid ==> {
            let all = public_tickets(tickets.push(t));
            &&& all.drop_last() == public_tickets(tickets)
            &&& all.len() > 0 && all.last().worker == t.1.ticket.worker_payout@
                && all.last().cumulative == t.1.ticket.cumulative && all.last().deadline
                == t.1.ticket.deadline && all.last().sig == "0x"@ + hexed(t.1.sig@)
        },
        t.1.ticket.cumulative <= t.1.on_chain_paid ==> public_tickets(tickets.push(t))
            == public_tickets(tickets),
{
    assert(tickets.push(t).drop_last() =~= tickets);
    let all = public_tickets(tickets.push(t));
    if t.1.ticket.cumulative > t.1.on_chain_paid {
        assert(all.drop_last() =~= public_tickets(tickets));
    }
}

/// A deposit links to the chain that it was made on, and where that was not
/// written down, to the one in use.
pub proof fn law_a_deposit_links_to_its_chain(d: StoredDeposit, chain_id: u64)
    ensures
        d.chain_id != 0 ==> listing_of(d, chain_id).url == explorer_link(d.chain_id, d.tx_hash@),
        d.chain_id == 0 ==> listing_of(d, chain_id).url == explorer_link(chain_id, d.tx_hash@),
        listing_of(d, chain_id).tx_hash == d.tx_hash@ && listing_of(d, chain_id).amount
            == d.amount_micros,
{
}

// -------------------------------------------------------------------- peers

/// A peer is found by its id, and by its address.
pub proof fn law_a_peer_is_found_by_id_and_address(p: Peer, id: Seq<char>, endpoint: Seq<char>)
    ensures
        with_id(id)(p) <==> p.id@ == id,
        at_endpoint(endpoint)(p) <==> p.endpoint@ == endpoint,
        not_mock()(p) <==> p.endpoint@ != crate::store::MOCK_ENDPOINT@,
{
}

/// A new peer is known by what it was added with and by nothing else yet.
pub proof fn law_a_new_peer_is_unknown_yet(
    p: Peer,
    id: Seq<char>,
    label: Seq<char>,
    endpoint: Seq<char>,
    public_key: Option<Seq<char>>,
    source: Seq<char>,
    now: i64,
)
    requires
        is_new_peer(p, id, label, endpoint, public_key, source, now),
    ensures
        p.id@ == id && p.label@ == label && p.endpoint@ == endpoint && opt(p.public_key)
            == public_key && p.source@ == source && p.added_at == now,
        !p.online(),
        p.models@.len() == 0 && p.caps@.len() == 0 && p.last_seen is None && p.payout is None,
        p.country is None && p.latency_ms is None && p.last_error is None && p.max_concurrent == 1,
{
    reveal_strlit("unknown");
    reveal_strlit("online");
    assert("unknown"@.len() == 7 && "online"@.len() == 6);
}

/// A peer is not added where one with its address is known, or its id, or
/// where there is no room; and what refuses it is the database.
pub proof fn law_when_a_peer_cannot_be_added(peers: Seq<Peer>, endpoint: Seq<char>, e: Trouble)
    requires
        no_room_for(peers, endpoint, e),
    ensures
        e is Db,
        peers.len() > 0,
        knows_endpoint(peers, endpoint) <==> exists|i: int|
            0 <= i < peers.len() && (#[trigger] peers[i]).endpoint@ == endpoint,
{
}

/// A refusal to run a kind of job names the peer and the kind.
pub proof fn law_a_refused_kind_is_named(peer: Peer, kind: JobKind)
    ensures
        refused_kind(peer, kind) matches Trouble::Invalid(s) && contains(s, peer.label@)
            && contains(s, kind.name()),
        JobKind::Llm.name() == "llm"@ && JobKind::Image.name() == "image"@ && JobKind::Video.name()
            == "video"@,
{
    let a = "peer '"@;
    let caps = crate::text::joined(crate::text::texts(peer.caps@), ", "@);
    let b = "' advertises ["@ + caps + "] and cannot run "@;
    let c = " jobs"@;
    let n = kind.name();
    let s = a + peer.label@ + "' advertises ["@ + caps + "] and cannot run "@ + n + c;
    assert(s =~= a + peer.label@ + (b + n + c));
    crate::text::lemma_contains_middle(a, peer.label@, b + n + c);
    assert(s =~= a + peer.label@ + b + n + c);
    crate::text::lemma_contains_middle(a + peer.label@ + b, n, c);
}

// ------------------------------------------------------------------ funding

/// A colon and a slash are spelled out in a link; every other character stays.
pub proof fn law_what_a_link_spells_out(s: Seq<char>, c: char)
    ensures
        url_part(seq![]) == Seq::<char>::empty(),
        url_part(s.push(':')) == url_part(s) + "%3A"@,
        url_part(s.push('/')) == url_part(s) + "%2F"@,
        c != ':' && c != '/' ==> url_part(s.push(c)) == url_part(s).push(c),
{
    assert(s.push(c).drop_last() =~= s);
    assert(s.push(':').drop_last() =~= s);
    assert(s.push('/').drop_last() =~= s);
}

/// The link of the funding page carries the token, the chain, the pot, the
/// coin, the app's key and the worker, each under its name.
pub proof fn law_a_funding_link_says_what_is_funded(
    cfg: ChainConfig,
    token: Seq<char>,
    app_key: Seq<char>,
)
    ensures
        ({
            let l = fund_link(cfg, token, app_key);
            &&& contains(l, "/?t="@ + token)
            &&& contains(l, "&rpc="@ + url_part(cfg.rpc@))
            &&& contains(l, "&pot="@ + cfg.pot@)
            &&& contains(l, "&usdc="@ + cfg.usdc@)
            &&& contains(l, "&appKey="@ + app_key)
            &&& contains(l, "&chainId="@ + decimal(cfg.chain_id as nat))
            &&& contains(l, "&worker="@ + cfg.worker@)
            &&& crate::text::starts_with(l, "http://127.0.0.1:"@ + decimal(17331))
        }),
{
    let a = "http://127.0.0.1:"@ + decimal(17331);
    let b = "/?t="@ + token;
    let c = "&rpc="@ + url_part(cfg.rpc@);
    let d = "&pot="@ + cfg.pot@;
    let e = "&usdc="@ + cfg.usdc@;
    let f = "&appKey="@ + app_key;
    let g = "&chainId="@ + decimal(cfg.chain_id as nat);
    let h = "&worker="@ + cfg.worker@;
    let none = Seq::<char>::empty();
    let l = fund_link(cfg, token, app_key);
    assert(l =~= a + b + (c + d + e + f + g + h));
    crate::text::lemma_contains_middle(a, b, c + d + e + f + g + h);
    assert(l =~= a + b + c + (d + e + f + g + h));
    crate::text::lemma_contains_middle(a + b, c, d + e + f + g + h);
    assert(l =~= a + b + c + d + (e + f + g + h));
    crate::text::lemma_contains_middle(a + b + c, d, e + f + g + h);
    assert(l =~= a + b + c + d + e + (f + g + h));
    crate::text::lemma_contains_middle(a + b + c + d, e, f + g + h);
    assert(l =~= a + b + c + d + e + f + (g + h));
    crate::text::lemma_contains_middle(a + b + c + d + e, f, g + h);
    assert(l =~= a + b + c + d + e + f + g + h);
    crate::text::lemma_contains_middle(a + b + c + d + e + f, g, h);
    assert(l =~= a + b + c + d + e + f + g + h + none);
    crate::text::lemma_contains_middle(a + b + c + d + e + f + g, h, none);
    assert(l =~= a + (b + c + d + e + f + g + h));
    crate::laws::texts::law_the_rest_follows_the_prefix(a, b + c + d + e + f + g + h);
}

/// An address of nothing but zeros names nobody; one with another figure does
/// name somebody.
pub proof fn law_who_is_named(digits: Seq<char>, i: int)
    requires
        trimmed("0x"@ + digits) == "0x"@ + digits,
        crate::text::all_digits(digits, 16),
        0 <= i < digits.len(),
    ensures
        digits[i] != '0' ==> !names_nobody("0x"@ + digits),
        (forall|k: int| 0 <= k < digits.len() ==> #[trigger] digits[k] == '0') ==> names_nobody(
            "0x"@ + digits,
        ),
{
    crate::laws::chain::lemma_prefix_goes(digits);
}

/// An id in words has its dashes at four places, and 36 characters in all.
pub proof fn law_an_id_has_five_groups(n: u128)
    ensures
        uuid_text(n).len() == 36,
        uuid_text(n)[8] == '-' && uuid_text(n)[13] == '-' && uuid_text(n)[18] == '-' && uuid_text(
            n,
        )[23] == '-',
        uuid_text(n)[35] == hex_digit(n as int % 16),
{
    reveal_strlit("-");
    assert("-"@.len() == 1 && "-"@[0] == '-');
    vstd::arithmetic::power::lemma_pow0(16);
    let s = uuid_text(n);
    assert(s[35] == hex_digit((n as int / 1) % 16));
}

/// The figures of an id, without its dashes, are its number.
pub proof fn law_an_id_is_its_number(n: u128)
    ensures
        ({
            let s = uuid_text(n);
            value(
                s.subrange(0, 8) + s.subrange(9, 13) + s.subrange(14, 18) + s.subrange(19, 23)
                    + s.subrange(24, 36),
                16,
            ) == n
        }),
{
    reveal_strlit("-");
    assert("-"@.len() == 1);
    let s = uuid_text(n);
    let d = Seq::new(32, |i: int| hex_digit((n as int / pow(16, (31 - i) as nat)) % 16));
    assert(s.subrange(0, 8) + s.subrange(9, 13) + s.subrange(14, 18) + s.subrange(19, 23)
        + s.subrange(24, 36) =~= d);
    lemma_figures(n, 32);
    assert(d =~= Seq::new(32, |i: int| hex_digit((n as int / pow(16, (31 - i) as nat)) % 16)));
    vstd::arithmetic::power::lemma_pow0(16);
}

proof fn lemma_figures(n: u128, k: nat)
    requires
        k <= 32,
    ensures
        value(
            Seq::new(k, |i: int| hex_digit((n as int / pow(16, (31 - i) as nat)) % 16)),
            16,
        ) == n as int / pow(16, (32 - k) as nat),
    decreases k,
{
    let d = Seq::new(k, |i: int| hex_digit((n as int / pow(16, (31 - i) as nat)) % 16));
    vstd::arithmetic::power::lemma_pow_positive(16, (32 - k) as nat);
    if k == 0 {
        assert(pow(16, 32) == 0x1_0000_0000_0000_0000 * 0x1_0000_0000_0000_0000) by {
            reveal_with_fuel(pow, 33);
        }
        assert(n < pow(16, 32));
        vstd::arithmetic::div_mod::lemma_basic_div(n as int, pow(16, 32));
    } else {
        let j = (k - 1) as nat;
        lemma_figures(n, j);
        assert(d.drop_last() =~= Seq::new(
            j,
            |i: int| hex_digit((n as int / pow(16, (31 - i) as nat)) % 16),
        ));
        let p = pow(16, (32 - k) as nat);
        let x = n as int / p;
        assert(pow(16, (32 - j) as nat) == 16 * p) by {
            reveal(pow);
        }
        vstd::arithmetic::div_mod::lemma_div_denominator(n as int, p, 16);
        assert(p * 16 == 16 * p);
        assert(n as int / (16 * p) == x / 16);
        assert(x >= 0) by {
            vstd::arithmetic::div_mod::lemma_div_pos_is_pos(n as int, p);
        }
        assert(d.last() == hex_digit(x % 16));
        assert(digit(hex_digit(x % 16)) == x % 16) by {
            let m = x % 16;
            if m < 10 {
                assert(hex_digit(m) as u32 == '0' as u32 + m);
            } else {
                assert(hex_digit(m) as u32 == 'a' as u32 + m - 10);
            }
        }
    }
}

} // verus!
