//! What an operation changes, and what it leaves as it was.
use vstd::prelude::*;

use crate::commands::rows_for;
use crate::error::AppError;
use crate::gateway::access::{called_for, port_for, Listening};
use crate::gateway::inbound::{ChatRequest, Shape};
use crate::gateway::serve::{is_entry, Failure, Request};
use crate::jobs::{follows, is_applied, is_lock, Apply, Lock, Next, Outcome};
use crate::json::{Json, Tree};
use crate::net::WorkerMessage;
use crate::pot::ledger::{JobInvoice, Pending, ReserveTicket, SpendTicket};
use crate::pot::payment::{is_drawn_for, is_left, signed_for, Draw, Unbilled};
use crate::pot::wallet::names_nobody;
use crate::protocol::{opt, JobKind, JobPayload, JobStatus};
use crate::store::{Chat, JobRecord, Message, Peer};
use crate::store::history::{are_interrupted, is_priced, is_reassigned, is_retitled};
use crate::store::peers::is_relabelled;
use crate::text::{lower, starts_with, trimmed};

verus! {

broadcast use vstd::string::group_string_axioms;

// --------------------------------------------------------------------- rows

/// The chat that is renamed has its new title and moves up; its id, its kind
/// and when it was begun stay, and so does every other chat.
pub proof fn law_only_the_renamed_chat_changes(
    was: Seq<Chat>,
    is: Seq<Chat>,
    id: Seq<char>,
    title: Seq<char>,
    now: i64,
    i: int,
)
    requires
        is_retitled(was, is, id, title, now),
        0 <= i < was.len(),
    ensures
        is.len() == was.len(),
        was[i].id@ == id ==> is[i].title@ == title && is[i].updated_at == now && is[i].id
            == was[i].id && is[i].kind == was[i].kind && is[i].created_at == was[i].created_at,
        was[i].id@ != id ==> is[i] == was[i],
{
    assert(is[i] == is[i]);
}

/// The job that is handed on is put down for the other peer, with the request
/// as it is put to it; it stays the same job, and every other job stays.
pub proof fn law_only_the_job_handed_on_changes(
    was: Seq<JobRecord>,
    is: Seq<JobRecord>,
    id: u128,
    peer_id: Seq<char>,
    payload: JobPayload,
    now: i64,
    i: int,
)
    requires
        is_reassigned(was, is, id, peer_id, payload, now),
        0 <= i < was.len(),
    ensures
        is.len() == was.len(),
        was[i].job_id == id ==> is[i].peer_id@ == peer_id && is[i].payload == payload
            && is[i].updated_at == now && is[i].job_id == id && is[i].status == was[i].status
            && is[i].created_at == was[i].created_at && is[i].conversation_id
            == was[i].conversation_id,
        was[i].job_id != id ==> is[i] == was[i],
{
    assert(is[i] == is[i]);
}

/// The reply to a job gets its cost, and says what it said; what the user said
/// of the job, and what is said of other jobs, stays without one.
pub proof fn law_only_the_reply_gets_the_cost(
    was: Seq<Message>,
    is: Seq<Message>,
    job: Seq<char>,
    cost_micros: u64,
    i: int,
)
    requires
        is_priced(was, is, job, cost_micros),
        0 <= i < was.len(),
    ensures
        is.len() == was.len(),
        was[i].role@ == "assistant"@ && opt(was[i].job_id) == Some(job) ==> is[i].cost_micros
            == Some(cost_micros) && is[i].content == was[i].content && is[i].tokens
            == was[i].tokens && is[i].job_id == was[i].job_id && is[i].role == was[i].role,
        was[i].role@ != "assistant"@ ==> is[i] == was[i],
        opt(was[i].job_id) != Some(job) ==> is[i] == was[i],
{
    assert(is[i] == is[i]);
}

/// The peer that is renamed has the first 40 characters of its new label; all
/// else of it stays, and so does every other peer.
pub proof fn law_only_the_renamed_peer_changes(
    was: Seq<Peer>,
    is: Seq<Peer>,
    id: Seq<char>,
    label: Seq<char>,
    i: int,
)
    requires
        is_relabelled(was, is, id, label),
        0 <= i < was.len(),
    ensures
        is.len() == was.len(),
        was[i].id@ == id ==> starts_with(label, is[i].label@) && is[i].label@.len() <= 40 && (
        label.len() <= 40 ==> is[i].label@ == label) && is[i].id == was[i].id && is[i].endpoint
            == was[i].endpoint && is[i].status == was[i].status && is[i].models == was[i].models
            && is[i].payout == was[i].payout,
        was[i].id@ == id && label.len() > 40 ==> is[i].label@.len() == 40,
        was[i].id@ != id ==> is[i] == was[i],
{
    assert(is[i] == is[i]);
    crate::laws::texts::law_the_first_characters(label, 40);
}

/// As many rows are listed as were asked for, but never more than a thousand.
pub proof fn law_how_many_rows_are_listed(n: u32, usual: u32)
    ensures
        n <= 1000 ==> rows_for(Some(n), usual) == n,
        n > 1000 ==> rows_for(Some(n), usual) == 1000,
        rows_for(None, usual) == rows_for(Some(usual), n),
{
}

// --------------------------------------------------------------------- jobs

/// A job that ended is over. One that came to nothing goes to the first
/// fallback that is still known, unless the user stopped it or none is; it then
/// fails for the reason that was given.
pub proof fn law_what_follows_on_a_try(
    r: Next,
    outcome: Outcome,
    stop_asked: bool,
    known: Seq<bool>,
    i: int,
)
    requires
        follows(r, outcome, stop_asked, known),
    ensures
        outcome is Settled <==> r is Over,
        outcome matches Outcome::Nothing(why) ==> stop_asked ==> r == Next::Fail(why),
        outcome matches Outcome::Nothing(why) ==> (forall|k: int|
            0 <= k < known.len() ==> !#[trigger] known[k]) ==> r == Next::Fail(why),
        outcome is Nothing && !stop_asked && 0 <= i < known.len() && known[i] ==> (
        r matches Next::Retry(k) && k <= i && known[k as int]),
{
    if 0 <= i < known.len() && known[i] {
        assert(known.contains(true));
    }
    if known.contains(true) {
        let k = choose|k: int| 0 <= k < known.len() && known[k] == true;
        assert(known[k]);
    }
}

/// A message about another job is passed over. A status of this one is kept as
/// it came, words and thoughts are, and a result is, unless it has another hash
/// than the one that was paid for.
pub proof fn law_what_is_kept_of_a_message(
    r: Result<Apply, AppError>,
    job_id: u128,
    m: WorkerMessage,
    expected: Option<Seq<char>>,
)
    requires
        is_applied(r, job_id, m, expected),
    ensures
        m.job() != Some(job_id) ==> r == Ok::<Apply, AppError>(Apply::Ignore),
        m matches WorkerMessage::JobStatus(s) ==> s.job_id == job_id ==> (r matches Ok(
            Apply::Status { status, progress, error },
        ) && status == s.status && progress == s.progress && opt(error) == opt(s.error)),
        m matches WorkerMessage::JobResult(q) ==> q.job_id == job_id ==> (r is Err <==> (
        expected matches Some(h) && h.len() > 0 && lower(h) != lower(q.sha256@))),
        m matches WorkerMessage::JobResult(q) ==> q.job_id == job_id && r is Ok ==> r == Ok::<
            Apply,
            AppError,
        >(Apply::Result),
        m matches WorkerMessage::JobDelta(d) ==> d.job_id == job_id && (d.text@.len() > 0
            || d.thinking@.len() > 0) ==> r == Ok::<Apply, AppError>(Apply::Delta),
{
}

/// Funds are locked for a job exactly where it has a price, there is a pot with
/// a wallet, and the provider names where it wants to be paid.
pub proof fn law_what_is_locked_for_a_job(
    r: Lock,
    price: Option<u64>,
    payout: Option<Seq<char>>,
    client: Option<Seq<char>>,
    configured: bool,
)
    requires
        is_lock(r, price, payout, client, configured),
    ensures
        price is None ==> r is Nothing,
        client is None ==> r is Nothing,
        !configured ==> r is Nothing,
        r matches Lock::Funds { price: p, client: c, payout: a } ==> price == Some(p) && client
            == Some(c@) && (payout matches Some(x) ==> a@ == trimmed(x)),
        price is Some && client is Some && configured ==> (payout matches Some(x)
            ==> !names_nobody(x) ==> r is Funds),
        price is Some && client is Some && configured ==> (payout matches Some(x) ==> names_nobody(
            x,
        ) ==> r is Refuse),
{
}

/// Jobs that a restart cut short have failed and say so; those that had ended
/// stay as they were.
pub proof fn law_a_restart_fails_what_was_open(
    was: Seq<JobRecord>,
    is: Seq<JobRecord>,
    now: i64,
    i: int,
)
    requires
        are_interrupted(was, is, now),
        0 <= i < was.len(),
    ensures
        is.len() == was.len(),
        was[i].status == JobStatus::Queued || was[i].status == JobStatus::Running ==> is[i].status
            == JobStatus::Failed && is[i].error is Some && is[i].updated_at == now && is[i].job_id
            == was[i].job_id && is[i].payload == was[i].payload,
        was[i].status == JobStatus::Done || was[i].status == JobStatus::Failed ==> is[i] == was[i],
{
    assert(is[i] == is[i]);
}

// -------------------------------------------------------------------- money

/// A bill that was signed for pays its job, at its amount, for the result of its
/// hash; a top-up pays nothing yet, and adds its amount to what is prepaid.
pub proof fn law_what_signing_changes(j: Pending, inv: JobInvoice, cumulative: u64)
    ensures
        ({
            let k = signed_for(j, inv, cumulative);
            &&& !inv.top_up ==> k.paid && k.cost == Some(inv.amount) && k.sha256 == Some(inv.sha256@)
                && k.ceiling == j.ceiling && k.bond == j.bond
            &&& inv.top_up ==> k.paid == j.paid && k.cost == j.cost && k.bond == cumulative
            &&& inv.top_up && j.ceiling + inv.amount <= u64::MAX ==> k.ceiling == j.ceiling
                + inv.amount
            &&& k.job_cap == j.job_cap && k.payout == j.payout && k.model == j.model && k.peer
                == j.peer && k.kind == j.kind
        }),
{
}

/// A job that ended without an invoice and was not paid yet owes its price,
/// unless it was free or reported nothing; one that was paid owes nothing.
pub proof fn law_what_is_left_to_pay(r: Unbilled, j: Pending, m: Json, priced: u64, n: u64)
    ensures
        is_left(r, None, Some(m), priced) <==> r is Nothing,
        j.paid ==> (is_left(r, Some(j), Some(m), priced) <==> r is Nothing),
        !j.paid && j.kind != JobKind::Llm && priced > 0 && is_left(r, Some(j), Some(m), priced) ==> (
        r matches Unbilled::Owes(p, k) && p@ == j && k == priced),
        !j.paid && n > 0 && m@.get("total_tokens"@) == Some(Tree::Number(n)) && m@.get(
            "prompt_tokens"@,
        ) is None && priced > 0 && is_left(r, Some(j), Some(m), priced) ==> (
        r matches Unbilled::Owes(p, k) && p@ == j && k == priced),
        !j.paid && priced == 0 && is_left(r, Some(j), Some(m), priced) ==> (r matches Unbilled::Free(
            c,
        ) && c.cost_micros == 0 && c.model@ == j.model && c.payout@ == j.payout),
{
}

/// An invoice is drawn for its worker, within the limit for a job, from the
/// wallet that there is.
pub proof fn law_what_is_drawn_for_an_invoice(
    r: Result<Draw, AppError>,
    inv: JobInvoice,
    job: Pending,
    client: Option<Seq<char>>,
    max_per_job: u64,
    limit: Seq<char>,
)
    requires
        is_drawn_for(r, inv, job, client, max_per_job, limit),
    ensures
        client is None ==> r is Err,
        max_per_job > 0 && inv.amount > max_per_job ==> r is Err,
        max_per_job == 0 && inv.amount > 500_000 ==> r is Err,
        client is Some && max_per_job > 0 && inv.amount <= max_per_job ==> r is Ok,
        r matches Ok(d) ==> d.worker@ == job.payout && client == Some(d.client@) && (d.settles
            <==> !inv.top_up) && (!inv.top_up ==> d.extra == inv.amount),
        r matches Ok(d) ==> (inv.top_up && job.ceiling + inv.amount <= u64::MAX ==> d.extra
            == job.ceiling + inv.amount),
{
}

// ------------------------------------------------------------------ gateway

/// Nobody is let in without the token, whatever they ask; whoever has it and
/// asks something is let in with what they asked, and anybody else is told
/// what was wrong, in the shape that they speak.
pub proof fn law_who_is_let_in(
    r: Result<ChatRequest, Failure>,
    shape: Shape,
    authorized: bool,
    parsed: Result<Request, String>,
)
    requires
        is_entry(r, shape, authorized, parsed),
    ensures
        !authorized ==> (r matches Err(f) && f.status == 401 && f.shape == shape),
        authorized ==> (parsed matches Ok(q) ==> q.asks_something() ==> (r matches Ok(c) && c.model@
            == q.model() && c.stream == q.streams() && c.params@ == q.ask())),
        authorized ==> (parsed matches Ok(q) ==> !q.asks_something() ==> (r matches Err(f)
            && f.status == 400 && f.shape == shape)),
        authorized ==> (parsed matches Err(why) ==> (r matches Err(f) && f.status == 400 && f.shape
            == shape && f.message@ == why@)),
{
}

/// The endpoint listens exactly while it is switched on, and at the port that
/// is set.
pub proof fn law_where_the_endpoint_listens(
    on: Option<Seq<char>>,
    port: Option<Seq<char>>,
    listening: Option<u16>,
)
    ensures
        on != Some("true"@) ==> called_for(on, port, listening) == Listening::Close,
        on == Some("true"@) ==> (called_for(on, port, listening) == Listening::Keep <==> listening
            == Some(port_for(port))),
        on == Some("true"@) && listening != Some(port_for(port)) ==> called_for(on, port, listening)
            == Listening::Open(port_for(port)),
{
}

// ------------------------------------------------------------------ tickets

/// A ticket is from this client to this worker, of this amount, and good for an
/// hour.
pub proof fn law_what_a_ticket_promises(
    t: SpendTicket,
    s: ReserveTicket,
    client: Seq<char>,
    worker: Seq<char>,
    amount: u64,
    now: u64,
)
    ensures
        t.promises(client, worker, amount, now) ==> t.client@ == client && t.worker_payout@
            == worker && t.cumulative == amount && t.deadline == now + 3600,
        s.reserves(client, worker, amount, now) ==> s.client@ == client && s.worker_payout@
            == worker && s.max_amount == amount && s.deadline == now + 3600,
{
}

} // verus!
