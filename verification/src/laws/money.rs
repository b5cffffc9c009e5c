//! What is locked, billed, promised and shown of the user's money.
use vstd::prelude::*;

use crate::json::Tree;
use crate::pot::ledger::{
    added_by, billable, cap_of, invoice_fault, key_of, lock_within, named_peer, positive,
    public_tickets, reserve_target, sat_add, text_lock, worst_case, ChannelSnap, JobInvoice,
    LatestTicket, Ledger, Pending, TICKET_TTL_SECS,
};
use crate::pot::payment::{
    promised_so_far, unbilled_cost, RECEIPT_EVERY_MS, RECEIPT_TRIES, SCAN_EVERY_MS, SETTLE_EVERY_MS,
    STATUS_FRESH_MS,
};
use crate::pot::wallet::{
    deposits_on, free_verdict, is_usable, known_client, only_zeros, shown_account, shown_locked,
    sum_of, verdict, ChainConfig, PotStatus,
};
use crate::pot::chain::Account;
use crate::protocol::{opt, JobKind, ModelDescriptor, TokenUsage};
use crate::store::StoredDeposit;
use crate::text::{blank, lowercased};

verus! {

broadcast use vstd::string::group_string_axioms;

// ------------------------------------------------------------------- limits

/// An account that names no limit for a job has half a dollar; one that names
/// a limit has that.
pub proof fn law_the_limit_is_the_users_or_half_a_dollar(max_per_job: u64)
    ensures
        max_per_job > 0 ==> cap_of(max_per_job) == max_per_job,
        cap_of(0) == 500_000,
{
}

/// A signed ticket is good for an hour.
pub proof fn law_tickets_last_an_hour()
    ensures
        TICKET_TTL_SECS == 60 * 60,
{
}

/// A status is good for three seconds, a scan is made every half minute at
/// most, a settle waits two seconds for more jobs, and a receipt is waited for
/// three seconds in all.
pub proof fn law_how_long_things_are_good_for()
    ensures
        STATUS_FRESH_MS == 3 * 1000,
        SCAN_EVERY_MS == 30 * 1000,
        SETTLE_EVERY_MS == 2 * 1000,
        RECEIPT_TRIES * RECEIPT_EVERY_MS == 3 * 1000,
{
}

// -------------------------------------------------------------------- locks

/// A text job is locked for in whole slices of a million tokens: as few as
/// cover the prompt and the longest answer, and one at least.
pub proof fn law_whole_slices_cover_the_job(prompt: u64, max_tokens: u32, chunk: u64) -> (s: int)
    requires
        prompt + max_tokens <= u64::MAX,
        chunk > 0,
    ensures
        s >= 1,
        s * 1_000_000 >= prompt + max_tokens,
        s > 1 ==> (s - 1) * 1_000_000 < prompt + max_tokens,
        s * chunk <= u64::MAX ==> text_lock(prompt, max_tokens, chunk) == s * chunk,
        s * chunk > u64::MAX ==> text_lock(prompt, max_tokens, chunk) == u64::MAX,
{
    let tokens: int = prompt + max_tokens;
    let up: int = if tokens % 1_000_000 == 0 {
        tokens / 1_000_000
    } else {
        tokens / 1_000_000 + 1
    };
    let s: int = if up < 1 {
        1
    } else {
        up
    };
    assert(s * chunk >= 1) by (nonlinear_arith)
        requires
            1 <= s,
            0 < chunk,
    ;
    s
}

/// What a text job could cost is the price of its tokens, per million, to the
/// nearest millionth, and at least one; a picture or a film costs its price.
pub proof fn law_the_worst_case_is_the_price(price: u64, min_tokens: u64)
    requires
        min_tokens * price <= 1_000_000 * u64::MAX - 1_000_000,
    ensures
        ({
            let w = worst_case(price, JobKind::Llm, min_tokens);
            &&& w >= 1
            &&& 2 * (min_tokens * price) <= 2_000_000 * w + 999_999
            &&& w > 1 ==> 2_000_000 * w <= 2 * (min_tokens * price) + 1_000_000
        }),
        price > 0 ==> worst_case(price, JobKind::Image, min_tokens) == price,
        price > 0 ==> worst_case(price, JobKind::Video, min_tokens) == price,
        worst_case(0, JobKind::Image, min_tokens) == 1,
{
    let exact: int = min_tokens * price;
    assert(exact >= 0) by (nonlinear_arith)
        requires
            exact == min_tokens * price,
            min_tokens >= 0,
            price >= 0,
    ;
}

/// What is locked is what the job needs, as far as every limit allows: it is
/// the need itself or one of the two limits, and none of the three is less.
pub proof fn law_the_lock_is_the_need_or_a_limit(need: u64, max_per_job: u64, ch: ChannelSnap)
    requires
        need > 0,
    ensures
        ({
            let l = lock_within(need, max_per_job, ch);
            let limit = if max_per_job == 0 {
                500_000u64
            } else {
                max_per_job
            };
            &&& l <= need && l <= limit
            &&& ch.max_per_job > 0 ==> l <= ch.max_per_job
            &&& l == need || l == limit || (ch.max_per_job > 0 && l == ch.max_per_job)
        }),
{
}

/// Where less than two jobs' worth is left on a channel, signing leaves four
/// jobs' worth there, or all that was left and free where that is less. Where
/// two or more are left the reserve stays as it is.
pub proof fn law_a_topped_up_channel_holds_four_jobs(ch: ChannelSnap, need: u64, free: u64)
    requires
        ch.earned <= ch.reserved,
        4 * need <= u64::MAX,
        ch.reserved + 4 * need <= u64::MAX,
    ensures
        ({
            let left = ch.reserved - ch.earned;
            let signed = match reserve_target(ch, need, free) {
                Some(t) => t as int,
                None => 0,
            };
            let left_then = signed - ch.earned;
            &&& left < 2 * need && left + free >= 4 * need ==> left_then == 4 * need
            &&& left < 2 * need && left + free < 4 * need ==> left_then == left + free
            &&& left >= 2 * need ==> signed == ch.reserved
            &&& reserve_target(ch, need, free) is None <==> signed == 0
        }),
{
}

/// A worker that earned more than was reserved leaves nothing on the channel:
/// four jobs' worth is added to it, as far as free funds reach.
pub proof fn law_an_overdrawn_channel_is_filled_anew(ch: ChannelSnap, need: u64, free: u64)
    requires
        ch.earned > ch.reserved,
        0 < need,
        4 * need <= u64::MAX,
        ch.reserved + 4 * need <= u64::MAX,
    ensures
        free >= 4 * need ==> reserve_target(ch, need, free) == Some((ch.reserved + 4 * need) as u64),
        0 < free < 4 * need ==> reserve_target(ch, need, free) == Some((ch.reserved + free) as u64),
{
}

// ------------------------------------------------------------------ tickets

/// A new ticket is for exactly what it adds on top of the most that was
/// promised, paid or earned so far.
pub proof fn law_a_ticket_adds_to_what_was_promised(
    l: Ledger,
    worker: Seq<char>,
    ch: ChannelSnap,
    extra: u64,
)
    requires
        promised_so_far(l, worker, ch) + extra <= u64::MAX,
    ensures
        ({
            let before = promised_so_far(l, worker, ch);
            &&& before >= l.promised(worker) && before >= ch.paid && before >= ch.earned
            &&& before == l.promised(worker) || before == ch.paid || before == ch.earned
            &&& sat_add(before, extra) == before + extra
        }),
        l.ticket(worker) matches Some(t) ==> l.promised(worker) == t.ticket.cumulative,
        l.ticket(worker) is None ==> l.promised(worker) == 0,
{
}

/// A worker is known by its address, however it is written: with a prefix or
/// without, in capitals or not.
pub proof fn law_a_worker_is_known_by_its_address(digits: Seq<char>)
    requires
        digits.len() < 2 || digits.take(2) != "0x"@,
    ensures
        key_of("0x"@ + digits) == key_of(digits),
        key_of(digits) == lowercased(digits),
{
    reveal_strlit("0x");
    let s = "0x"@ + digits;
    assert("0x"@.len() == 2);
    assert(s.take(2) =~= "0x"@);
    assert(s.skip(2) =~= digits);
}

// ----------------------------------------------------------------- invoices

/// A bill in order is paid: for this job, of a job not yet paid, of something,
/// within what was prepaid and within the advertised price. A top-up in order
/// is paid too: within the lock, and one slice at most.
pub proof fn law_a_fair_invoice_is_paid(
    job_id: u128,
    inv: JobInvoice,
    job: Pending,
    chunk: u64,
    fair: u64,
    limit: Seq<char>,
)
    requires
        inv.job_id == job_id,
        inv.amount > 0,
        !job.paid,
        !inv.top_up ==> inv.amount <= fair && inv.amount <= job.ceiling,
        inv.top_up ==> job.ceiling + inv.amount <= job.job_cap && inv.amount <= chunk,
    ensures
        invoice_fault(job_id, inv, Some(job), chunk, fair, limit) is None,
        !inv.top_up ==> added_by(inv, job) == inv.amount,
        inv.top_up ==> added_by(inv, job) == job.ceiling + inv.amount,
{
}

/// A job without a lock is never paid for.
pub proof fn law_no_lock_no_payment(
    job_id: u128,
    inv: JobInvoice,
    chunk: u64,
    fair: u64,
    limit: Seq<char>,
)
    ensures
        invoice_fault(job_id, inv, None, chunk, fair, limit) is Some,
{
}

/// A text job that reported no tokens costs nothing; any other costs its
/// price.
pub proof fn law_no_tokens_no_bill(kind: JobKind, usage: TokenUsage, priced: u64)
    ensures
        kind == JobKind::Llm && usage.prompt + usage.completion == 0 ==> unbilled_cost(
            kind,
            usage,
            priced,
        ) == 0,
        kind == JobKind::Llm && usage.prompt + usage.completion > 0 ==> unbilled_cost(
            kind,
            usage,
            priced,
        ) == priced,
        kind != JobKind::Llm ==> unbilled_cost(kind, usage, priced) == priced,
{
}

/// What a worker reports of a job is what it is billed for where no invoice
/// came: both counts where it gave both, or else the one total it gave.
pub proof fn law_a_report_is_billed_as_given(m: Tree)
    ensures
        m.get("prompt_tokens"@) matches Some(Tree::Number(p)) ==> (m.get(
            "completion_tokens"@,
        ) matches Some(Tree::Number(c)) ==> {
            let u = billable(Some(m));
            &&& u.prompt == p && u.completion == c
            &&& m.get("cached_tokens"@) matches Some(Tree::Number(n)) ==> u.cached == n
            &&& m.get("cached_tokens"@) is None ==> u.cached == 0
            &&& m.get("reasoning_tokens"@) matches Some(Tree::Number(n)) ==> u.reasoning == n
        }),
        m.get("prompt_tokens"@) is None ==> {
            let u = billable(Some(m));
            &&& u.prompt == 0 && u.cached == 0
            &&& m.get("total_tokens"@) matches Some(Tree::Number(n)) ==> u.completion == n
            &&& m.get("total_tokens"@) is None ==> (m.get("completion_tokens"@) matches Some(
                Tree::Number(n),
            ) ==> u.completion == n)
        },
        billable(None).prompt == 0 && billable(None).completion == 0,
{
}

/// Of two counts the larger is billed, the prompt's with the prompt's and the
/// answer's with the answer's; what was cached is the worker's to say, within
/// the prompt.
pub proof fn law_the_larger_count_is_billed(ours: TokenUsage, claim: TokenUsage)
    ensures
        ({
            let u = ours.reconciled(Some(claim));
            &&& u.prompt >= ours.prompt && u.prompt >= claim.prompt
            &&& u.prompt == ours.prompt || u.prompt == claim.prompt
            &&& u.completion >= ours.completion && u.completion >= claim.completion
            &&& u.completion == ours.completion || u.completion == claim.completion
            &&& u.reasoning >= ours.reasoning && u.reasoning >= claim.reasoning
            &&& u.reasoning == ours.reasoning || u.reasoning == claim.reasoning
            &&& claim.cached <= u.prompt ==> u.cached == claim.cached
            &&& claim.cached > u.prompt ==> u.cached == u.prompt
        }),
        ours.reconciled(None) == ours,
{
}

/// A listed price is the price asked, in cents, rounded up to the next; what
/// asks nothing is listed at nothing.
pub proof fn law_a_listed_price_is_the_asked_one(m: ModelDescriptor)
    ensures
        m.price matches Some(p) ==> m.listed() * 10_000 >= p.micros && m.listed() * 10_000
            < p.micros + 10_000 && m.currency() == p.currency@,
        m.price is None ==> m.listed() == 0 && m.unpriced() && m.currency() == "USD"@,
        m.unpriced() <==> m.listed() == 0,
{
}

/// A provider without a name is told as none, and no tokens as none.
pub proof fn law_nothing_is_told_as_none(n: u64, peer: Seq<char>)
    ensures
        n > 0 ==> positive(n) == Some(n),
        positive(0) is None,
        peer.len() > 0 ==> named_peer(peer) == Some(peer),
        named_peer(seq![]) is None,
{
}

/// Exactly the tickets that the chain has not all of yet are shown, with the
/// worker, the total and the deadline that were signed.
pub proof fn law_what_is_owed_is_shown(
    tickets: Seq<(String, LatestTicket)>,
    key: String,
    t: LatestTicket,
)
    ensures
        ({
            let before = public_tickets(tickets);
            let after = public_tickets(tickets.push((key, t)));
            if t.ticket.cumulative > t.on_chain_paid {
                &&& after.len() == before.len() + 1
                &&& after.drop_last() == before
                &&& after.last().worker == t.ticket.worker_payout@
                &&& after.last().cumulative == t.ticket.cumulative
                &&& after.last().deadline == t.ticket.deadline
            } else {
                after == before
            }
        }),
        public_tickets(seq![]).len() == 0,
{
    assert(tickets.push((key, t)).drop_last() =~= tickets);
    let before = public_tickets(tickets);
    let after = public_tickets(tickets.push((key, t)));
    if after.len() > before.len() {
        assert(after.drop_last() =~= before);
    }
}

// ------------------------------------------------------------------- wallet

/// A chain that names a pot is used; the test chain only where it is asked
/// for.
pub proof fn law_the_test_chain_has_to_be_asked_for(cfg: ChainConfig)
    ensures
        cfg.chain_id == 31337 ==> !is_usable(cfg, false),
        blank(cfg.pot@) ==> !is_usable(cfg, true) && !is_usable(cfg, false),
        !blank(cfg.pot@) ==> is_usable(cfg, true),
        !blank(cfg.pot@) && cfg.chain_id != 31337 ==> is_usable(cfg, false),
{
}

/// The wallet is the one that deposited last, or else the one known before.
pub proof fn law_the_wallet_is_the_one_that_deposited(c: Seq<char>, last: Option<Seq<char>>)
    ensures
        !blank(c) ==> known_client(Some(c), last) == Some(c),
        blank(c) ==> known_client(Some(c), last) == last,
        known_client(None, last) == last,
{
}

/// What was read is shown, and without a wallet nothing is.
pub proof fn law_what_was_read_is_shown(
    client: Seq<char>,
    a: Account,
    locked: u64,
    last: Option<PotStatus>,
)
    ensures
        shown_account(Some(client), Some(a), last) == a,
        shown_locked(Some(client), Some(locked), last) == locked,
        shown_account(None, Some(a), last).balance == 0,
        shown_locked(None, Some(locked), last) == 0,
        last matches Some(s) ==> opt(s.client) != Some(client) ==> shown_account(
            Some(client),
            None,
            last,
        ).balance == 0 && shown_locked(Some(client), None, last) == 0,
{
}

/// What is locked in all is the sum of the reads; one that failed leaves no
/// sum.
pub proof fn law_locks_add_up(reads: Seq<Option<u64>>, n: u64)
    ensures
        sum_of(seq![]) == Some(0u64),
        sum_of(reads.push(None)) is None,
        sum_of(reads) is None ==> sum_of(reads.push(Some(n))) is None,
        sum_of(reads) matches Some(t) ==> t + n <= u64::MAX ==> sum_of(reads.push(Some(n)))
            == Some((t + n) as u64),
{
    assert(reads.push(None).drop_last() =~= reads);
    assert(reads.push(Some(n)).drop_last() =~= reads);
}

/// A pot that covers the worst case, within the limit, is ready; each reason
/// that it is not has a kind of its own, and only a limit is not mended with
/// funds.
pub proof fn law_a_pot_that_covers_a_job_is_ready(
    st: PotStatus,
    worst: u64,
    a: Seq<char>,
    b: Seq<char>,
    c: Seq<char>,
)
    requires
        st.balance_micros + st.reserved_micros <= u64::MAX,
    ensures
        ({
            let v = verdict(st, worst, a, b, c);
            let limit = if st.max_per_job_micros == 0 {
                500_000u64
            } else {
                st.max_per_job_micros
            };
            let open = st.configured && st.reachable;
            let funded = st.client is Some && st.balance_micros > 0;
            &&& v.cap == limit
            &&& !open ==> v.kind == "chain"@ && !v.ready && v.needs_fund
            &&& open && !funded ==> v.kind == "empty"@ && !v.ready && v.needs_fund
            &&& open && funded && worst > limit ==> v.kind == "cap"@ && !v.ready && !v.needs_fund
            &&& open && funded && worst <= limit && worst > st.balance_micros + st.reserved_micros
                ==> v.kind == "empty"@ && !v.ready && v.needs_fund
            &&& open && funded && worst <= limit && worst <= st.balance_micros
                + st.reserved_micros ==> v.ready && v.kind == "ok"@ && !v.needs_fund
                && v.reason.len() == 0
        }),
        free_verdict().ready && !free_verdict().needs_fund,
{
}

/// A deposit is listed where it was made on this chain, or where either chain
/// is not known; with its amount, its limits, its block and its time.
pub proof fn law_deposits_are_listed_for_their_chain(
    all: Seq<StoredDeposit>,
    d: StoredDeposit,
    chain_id: u64,
)
    ensures
        ({
            let before = deposits_on(all, chain_id);
            let after = deposits_on(all.push(d), chain_id);
            if d.chain_id == chain_id || d.chain_id == 0 || chain_id == 0 {
                let l = after.last();
                &&& after.len() == before.len() + 1
                &&& after.drop_last() == before
                &&& l.tx_hash == d.tx_hash@ && l.amount == d.amount_micros
                &&& l.max_per_job == d.max_per_job_micros && l.max_per_day == d.max_per_day_micros
                &&& l.block == d.block && l.at == d.at
            } else {
                after == before
            }
        }),
        deposits_on(seq![], chain_id).len() == 0,
{
    assert(all.push(d).drop_last() =~= all);
    let before = deposits_on(all, chain_id);
    let after = deposits_on(all.push(d), chain_id);
    if after.len() > before.len() {
        assert(after.drop_last() =~= before);
    }
}

/// An address of zeroes names nobody; one with another digit names somebody.
pub proof fn law_zeroes_name_nobody(hex: Seq<char>, i: int)
    requires
        0 <= i < hex.len(),
    ensures
        hex[i] != '0' ==> !only_zeros(hex),
        only_zeros(seq!['0', '0']),
{
}

} // verus!
