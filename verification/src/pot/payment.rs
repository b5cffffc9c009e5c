//! Paying for a job, step by step: what is locked, what is signed for, and
//! what is written down when it is.
use vstd::prelude::*;

use crate::codec::{hex_encode, hexed, uuid_text, write_uuid};
use crate::error::{AppError, Trouble};
use crate::json::Json;
use crate::pot::ledger::{
    added_by, authorised_so_far, billable, billable_usage, cap_of, flush_first, invoice_charge,
    invoice_extra, invoice_fault, job_limit, job_lock, key_of, least, lock_within, min, most,
    named_peer, next_cumulative, plus, positive, refuse_for_account, refuse_invoice, reserve_target,
    reserve_to_sign, sat_add, sat_sub, settled_charge, ChannelSnap, Charge, JobInvoice,
    LatestTicket, Ledger, Pending, PendingJob, SpendTicket,
};
use crate::protocol::{copy_opt, opt, reported, JobKind, TokenUsage};
use crate::store::history::too_big;
use crate::store::spends::{billed, chunk_kept, other_spends, payout_key, pays, resolved};
use crate::store::tables::{kept, lemma_kept_members};
use crate::store::{Db, Message, Settlement, SpendEntry, MOST_ROWS};
use crate::text::{concat, concat3, lowercased, same};

verus! {

broadcast use vstd::string::group_string_axioms;

/// How long a settle waits for more jobs to join it, in milliseconds.
pub const SETTLE_EVERY_MS: u64 = 2_000;

/// When the tickets are to be settled: a while after the last job, so that a
/// burst of them is settled at once.
pub fn flush_time(now: u64) -> (r: u64)
    ensures
        r == sat_add(now, SETTLE_EVERY_MS),
{
    plus(now, SETTLE_EVERY_MS)
}

/// How long a status that was read is good for, in milliseconds.
pub const STATUS_FRESH_MS: u64 = 3_000;

/// How long a scan for settlements is put off after the last one, in
/// milliseconds.
pub const SCAN_EVERY_MS: u64 = 30_000;

/// Whether something of `then` is still within the window `now`. Clocks that
/// run backwards count as no time passed.
pub fn within(then: u64, now: u64, window: u64) -> (r: bool)
    ensures
        r == (sat_sub(now, then) < window),
{
    if now < then {
        0 < window
    } else {
        now - then < window
    }
}

/// Whether the time set for a settle has come.
pub fn flush_due(at: Option<u64>, now: u64) -> (r: bool)
    ensures
        r == (at matches Some(t) && now >= t),
{
    match at {
        Some(t) => now >= t,
        None => false,
    }
}

// ------------------------------------------------------------------ reading

/// How long to wait before the channel is read for the n-th time, counted
/// from zero; after three times no more.
pub fn retry_wait_ms(attempt: u64) -> (r: Option<u64>)
    ensures
        r == (if attempt < 3 {
            Some((300 * attempt) as u64)
        } else {
            None
        }),
{
    if attempt < 3 {
        Some(300 * attempt)
    } else {
        None
    }
}

/// How a channel that could not be read is told. It is never taken for an
/// empty one.
pub fn channel_unreadable(last: &str) -> (r: AppError)
    ensures
        r@ == Trouble::Net(
            "could not read the payment channel on Base ("@ + last@
                + ") — try again in a moment"@,
        ),
{
    AppError::Net(
        concat3(
            "could not read the payment channel on Base (",
            last,
            ") — try again in a moment",
        ),
    )
}

/// What became of a transaction.
#[derive(Debug, Clone, Copy, PartialEq, Eq, Structural)]
pub enum Receipt {
    Waiting,
    Done,
    Reverted,
}

/// What a receipt says of its transaction.
pub fn receipt(rec: &Json) -> (r: Receipt)
    ensures
        r == (if rec is Null {
            Receipt::Waiting
        } else if rec@.text_at("status"@) == Some("0x1"@) {
            Receipt::Done
        } else {
            Receipt::Reverted
        }),
{
    if rec.is_null() {
        return Receipt::Waiting;
    }
    match rec.text_at("status") {
        Some(s) => if same(s.as_str(), "0x1") {
            Receipt::Done
        } else {
            Receipt::Reverted
        },
        None => Receipt::Reverted,
    }
}

/// How often a transaction's receipt is asked for.
pub const RECEIPT_TRIES: u64 = 20;

/// How long to wait before each time, in milliseconds.
pub const RECEIPT_EVERY_MS: u64 = 150;

/// What the n-th receipt asked for decides, counted from one: whether the
/// settlement went through, or nothing yet, and it is asked for again.
pub fn wait_ok(asked: u64, rec: &Json) -> (r: Option<Result<(), AppError>>)
    ensures
        r is None <==> rec is Null && asked < RECEIPT_TRIES,
        r matches Some(Ok(_)) <==> !(rec is Null) && rec@.text_at("status"@) == Some("0x1"@),
        r matches Some(Err(e)) ==> e@ == Trouble::Net(
            if rec is Null {
                "settle not mined"@
            } else {
                "settle reverted"@
            },
        ),
{
    match receipt(rec) {
        Receipt::Done => Some(Ok(())),
        Receipt::Reverted => Some(Err(AppError::Net("settle reverted".to_string()))),
        Receipt::Waiting => if asked < RECEIPT_TRIES {
            None
        } else {
            Some(Err(AppError::Net("settle not mined".to_string())))
        },
    }
}

// ------------------------------------------------------------------ locking

/// What a job's first ticket is for.
#[derive(Debug, Clone, Copy, PartialEq, Eq, Structural)]
pub struct TicketPlan {
    /// What is locked for the job.
    pub lock: u64,
    /// What the channel's reserve is to be raised to.
    pub reserve: Option<u64>,
    /// The total the ticket promises.
    pub cumulative: u64,
}

impl Ledger {
    /// What has been promised to a worker.
    pub open spec fn promised(self, worker: Seq<char>) -> u64 {
        match self.ticket(worker) {
            Some(t) => t.ticket.cumulative,
            None => 0,
        }
    }

    /// Plans the first ticket of a job that may cost `need`, for an account
    /// with `free` to spare.
    pub fn plan_ticket(
        &self,
        worker: &str,
        need: u64,
        max_per_job: u64,
        free: u64,
        ch: ChannelSnap,
    ) -> (r: TicketPlan)
        ensures
            r.lock == lock_within(need, max_per_job, ch),
            r.reserve == reserve_target(ch, r.lock, free),
            r.cumulative == sat_add(most(self.promised(worker@), ch.banked()), r.lock),
    {
        let lock: u64 = job_lock(need, max_per_job, ch);
        let reserve = reserve_to_sign(ch, lock, free);
        let so_far: (u64, u64) = authorised_so_far(self.cached_cumulative(worker), ch);
        TicketPlan { lock, reserve, cumulative: next_cumulative(so_far.0, lock) }
    }

    /// Writes down a job whose first ticket was signed.
    pub fn issue_ticket(
        &mut self,
        job_id: u128,
        kind: JobKind,
        plan: TicketPlan,
        model: &str,
        peer: &str,
        worker: &str,
    )
        requires
            old(self).wf(),
        ensures
            final(self).wf(),
            final(self).job(job_id) == Some(
                Pending {
                    kind,
                    paid: false,
                    sha256: None,
                    ceiling: plan.lock,
                    job_cap: plan.lock,
                    cost: None,
                    model: model@,
                    peer: peer@,
                    payout: worker@,
                    bond: plan.cumulative,
                },
            ),
            forall|other: u128|
                other != job_id ==> final(self).job(other) == #[trigger] old(self).job(other),
            final(self).tickets@ == old(self).tickets@,
    {
        let job = PendingJob {
            kind,
            paid: false,
            sha256: None,
            ceiling: plan.lock,
            job_cap: plan.lock,
            cost: None,
            model: model.to_string(),
            peer: peer.to_string(),
            payout: worker.to_string(),
            bond: plan.cumulative,
        };
        self.add_job(job_id, job);
    }
}

/// A signature as it travels.
pub fn signature_text(sig: &Vec<u8>) -> (r: String)
    ensures
        r@ == "0x"@ + hexed(sig@),
{
    concat("0x", hex_encode(sig.as_slice()).as_str())
}

// ------------------------------------------------------------------- paying

/// An amount to be drawn for a worker, and the limit a settle is held to.
#[derive(Debug, PartialEq)]
pub struct Draw {
    pub client: String,
    pub worker: String,
    pub extra: u64,
    pub limit: u64,
    /// Whether what is owed may have to be settled first.
    pub settles: bool,
}

/// What has been promised to a worker, by what was signed and by what the
/// chain shows.
pub open spec fn promised_so_far(l: Ledger, worker: Seq<char>, ch: ChannelSnap) -> u64 {
    most(l.promised(worker), ch.banked())
}

impl Draw {
    /// Whether what is owed has to be settled before this is added to it.
    pub fn flush_first(&self, ledger: &Ledger, ch: ChannelSnap) -> (r: bool)
        ensures
            r == {
                let owed = sat_sub(promised_so_far(*ledger, self.worker@, ch), ch.banked());
                self.settles && owed > 0 && sat_add(owed, self.extra) > self.limit
            },
    {
        let so_far: (u64, u64) = authorised_so_far(
            ledger.cached_cumulative(self.worker.as_str()),
            ch,
        );
        self.settles && flush_first(so_far.0, so_far.1, self.extra, self.limit)
    }

    /// The total to sign for, and what the chain has of it.
    pub fn total(&self, ledger: &Ledger, ch: ChannelSnap) -> (r: (u64, u64))
        ensures
            r.0 == sat_add(promised_so_far(*ledger, self.worker@, ch), self.extra),
            r.1 == ch.banked(),
    {
        let so_far: (u64, u64) = authorised_so_far(
            ledger.cached_cumulative(self.worker.as_str()),
            ch,
        );
        (next_cumulative(so_far.0, self.extra), so_far.1)
    }
}

/// An invoice that is being paid, and the job as it was when it came.
#[derive(Debug, PartialEq)]
pub struct Payment {
    pub invoice: JobInvoice,
    pub job: PendingJob,
}

fn copy_job(j: &PendingJob) -> (r: PendingJob)
    ensures
        r@ == j@,
{
    PendingJob {
        kind: j.kind,
        paid: j.paid,
        sha256: copy_opt(&j.sha256),
        ceiling: j.ceiling,
        job_cap: j.job_cap,
        cost: j.cost,
        model: j.model.clone(),
        peer: j.peer.clone(),
        payout: j.payout.clone(),
        bond: j.bond,
    }
}

/// A job once its invoice was signed for: a top-up adds to what is prepaid, and
/// a bill pays the job.
pub open spec fn signed_for(j: Pending, inv: JobInvoice, cumulative: u64) -> Pending {
    if inv.top_up {
        Pending { ceiling: sat_add(j.ceiling, inv.amount), bond: cumulative, ..j }
    } else {
        Pending { paid: true, sha256: Some(inv.sha256@), cost: Some(inv.amount), ..j }
    }
}

/// What is drawn from the pot for an invoice: nothing without a wallet or
/// beyond the limit for a job, and otherwise what it adds, for its worker.
pub open spec fn is_drawn_for(
    r: Result<Draw, AppError>,
    inv: JobInvoice,
    job: Pending,
    client: Option<Seq<char>>,
    max_per_job: u64,
    limit: Seq<char>,
) -> bool {
    match r {
        Ok(d) => {
            &&& client == Some(d.client@)
            &&& inv.amount <= cap_of(max_per_job)
            &&& d.worker@ == job.payout
            &&& d.extra == added_by(inv, job)
            &&& d.limit == cap_of(max_per_job)
            &&& d.settles == !inv.top_up
        },
        Err(e) => if client is None {
            e@ == Trouble::Invalid("no funded pot"@)
        } else {
            inv.amount > cap_of(max_per_job) && e@ == Trouble::Invalid(
                "invoice exceeds your $"@ + limit + " per-job cap"@,
            )
        },
    }
}

/// A charge for a job.
pub open spec fn is_charge(
    c: Charge,
    job: Pending,
    tokens: Option<u64>,
    amount: u64,
    cumulative: Option<u64>,
) -> bool {
    &&& c.model@ == job.model
    &&& opt(c.peer) == named_peer(job.peer)
    &&& c.tokens == tokens
    &&& c.cost_micros == amount
    &&& c.cumulative_micros == cumulative
    &&& c.payout@ == job.payout
}

impl Payment {
    /// Takes up an invoice, or says why it is not paid.
    pub fn begin(
        ledger: &Ledger,
        job_id: u128,
        invoice: JobInvoice,
        chunk: u64,
        fair: u64,
        limit: &str,
    ) -> (r: Result<Payment, AppError>)
        requires
            ledger.wf(),
        ensures
            ({
                let fault = invoice_fault(
                    job_id,
                    invoice,
                    ledger.job(job_id),
                    chunk,
                    fair,
                    limit@,
                );
                match r {
                    Ok(p) => {
                        &&& fault is None
                        &&& p.invoice == invoice
                        &&& ledger.job(job_id) == Some(p.job@)
                    },
                    Err(e) => fault matches Some(why) && e@ == Trouble::Invalid(why),
                }
            }),
    {
        let known = ledger.get(job_id);
        match refuse_invoice(job_id, &invoice, known, chunk, fair, limit) {
            Ok(_) => {},
            Err(e) => {
                return Err(e);
            },
        }
        match known {
            Some(j) => Ok(Payment { invoice, job: copy_job(j) }),
            None => Err(AppError::Invalid("no lock on file for this job".to_string())),
        }
    }

    /// Holds the invoice against the account. The channel is the one the funds
    /// were locked against.
    pub fn draw(&self, client: &Option<String>, max_per_job: u64, limit: &str) -> (r: Result<
        Draw,
        AppError,
    >)
        ensures
            is_drawn_for(r, self.invoice, self.job@, opt(*client), max_per_job, limit@),
    {
        match refuse_for_account(self.invoice.amount, client.is_some(), max_per_job, limit) {
            Ok(_) => {},
            Err(e) => {
                return Err(e);
            },
        }
        let client = match client {
            Some(c) => c.clone(),
            None => {
                return Err(AppError::Invalid("no funded pot".to_string()));
            },
        };
        Ok(
            Draw {
                client,
                worker: self.job.payout.clone(),
                extra: invoice_extra(&self.invoice, &self.job),
                limit: job_limit(max_per_job),
                settles: !self.invoice.top_up,
            },
        )
    }

    /// Writes down that the invoice was signed for. A top-up raises what is
    /// prepaid and is the job's new bond; a bill pays the job, keeps the ticket as the newest and is
    /// charged.
    pub fn finish(self, ledger: &mut Ledger, ticket: SpendTicket, sig: Vec<u8>, on_chain: u64) -> (r:
        Option<Charge>)
        requires
            old(ledger).wf(),
            old(ledger).job(self.invoice.job_id) matches Some(j) ==> self.invoice.top_up
                ==> j.ceiling + self.invoice.amount <= j.job_cap,
        ensures
            final(ledger).wf(),
            final(ledger).job(self.invoice.job_id) == (match old(ledger).job(self.invoice.job_id) {
                None => None,
                Some(j) => Some(signed_for(j, self.invoice, ticket.cumulative)),
            }),
            forall|other: u128|
                other != self.invoice.job_id ==> final(ledger).job(other) == #[trigger] old(
                    ledger,
                ).job(other),
            if self.invoice.top_up {
                r is None && final(ledger).tickets@ == old(ledger).tickets@
            } else {
                &&& final(ledger).ticket(self.job.payout@) == Some(
                    LatestTicket { ticket, sig, on_chain_paid: on_chain },
                )
                &&& forall|w: Seq<char>|
                    key_of(w) != key_of(self.job.payout@) ==> final(ledger).ticket(w)
                        == #[trigger] old(ledger).ticket(w)
                &&& r matches Some(c) && is_charge(
                    c,
                    self.job@,
                    positive(
                        sat_add(self.invoice.prompt_tokens, self.invoice.completion_tokens),
                    ),
                    self.invoice.amount,
                    Some(ticket.cumulative),
                )
            },
    {
        let cumulative: u64 = ticket.cumulative;
        let ghost before = *ledger;
        if !self.invoice.top_up {
            ledger.keep_ticket(
                self.job.payout.as_str(),
                LatestTicket { ticket, sig, on_chain_paid: on_chain },
            );
            proof {
                assert forall|id: u128| ledger.job(id) == #[trigger] before.job(id) by {}
            }
        }
        let ghost between = *ledger;
        ledger.invoice_paid(&self.invoice, cumulative);
        proof {
            assert forall|other: u128| other != self.invoice.job_id implies ledger.job(other)
                == #[trigger] before.job(other) by {
                assert(between.job(other) == before.job(other));
            }
            assert forall|w: Seq<char>| ledger.ticket(w) == #[trigger] between.ticket(w) by {}
        }
        if self.invoice.top_up {
            None
        } else {
            Some(invoice_charge(&self.invoice, &self.job, cumulative))
        }
    }
}

/// An invoice that is paid adds no more than its amount to what the client
/// owes, and a top-up no more than what was locked.
pub proof fn law_a_payment_adds_what_was_billed(
    job_id: u128,
    inv: JobInvoice,
    job: Pending,
    chunk: u64,
    fair: u64,
    limit: Seq<char>,
)
    requires
        invoice_fault(job_id, inv, Some(job), chunk, fair, limit) is None,
    ensures
        !inv.top_up ==> added_by(inv, job) == inv.amount && inv.amount <= job.ceiling,
        inv.top_up ==> added_by(inv, job) <= job.job_cap,
{
}

// ----------------------------------------------------------------- settling

/// A job that ended without an invoice.
#[derive(Debug, PartialEq)]
pub enum Unbilled {
    /// There is nothing to charge.
    Nothing,
    /// It costs nothing, which is written down.
    Free(Charge),
    /// It costs this much.
    Owes(PendingJob, u64),
}

/// What a job without an invoice costs: the price of what was reported, and
/// nothing where a text job reported nothing. `priced` is that price.
pub open spec fn unbilled_cost(kind: JobKind, usage: TokenUsage, priced: u64) -> u64 {
    if kind == JobKind::Llm && usage.prompt == 0 && usage.completion == 0 {
        0
    } else {
        priced
    }
}

/// The tokens a charge without an invoice names.
pub open spec fn told_tokens(kind: JobKind, meta: Option<Json>) -> Option<u64> {
    match (kind, meta) {
        (JobKind::Llm, Some(m)) => match reported(m@) {
            Some(u) => positive(sat_add(u.prompt, u.completion)),
            None => None,
        },
        _ => None,
    }
}

/// What is left to do for a job that ended without an invoice: nothing where it
/// was paid or never locked for, a note where it was free, and otherwise a
/// payment of what it cost.
pub open spec fn is_left(
    r: Unbilled,
    job: Option<Pending>,
    meta: Option<Json>,
    priced: u64,
) -> bool {
    match job {
        None => r is Nothing,
        Some(j) => if j.paid {
            r is Nothing
        } else {
            let cost = unbilled_cost(
                j.kind,
                billable(
                    match meta {
                        Some(m) => Some(m@),
                        None => None,
                    },
                ),
                priced,
            );
            if cost == 0 {
                r matches Unbilled::Free(c) && is_charge(c, j, told_tokens(j.kind, meta), 0, None)
            } else {
                r matches Unbilled::Owes(p, n) && p@ == j && n == cost
            }
        },
    }
}

/// Takes a job that ended without an invoice out of the book. `priced` is what
/// its reported tokens, or its piece, cost.
pub fn settle_job(ledger: &mut Ledger, job_id: u128, meta: &Option<Json>, priced: u64) -> (r:
    Unbilled)
    requires
        old(ledger).wf(),
    ensures
        final(ledger).wf(),
        final(ledger).job(job_id) is None,
        forall|other: u128|
            other != job_id ==> final(ledger).job(other) == #[trigger] old(ledger).job(other),
        final(ledger).tickets@ == old(ledger).tickets@,
        is_left(r, old(ledger).job(job_id), *meta, priced),
{
    let job = match ledger.drop_job(job_id) {
        Some(j) => j,
        None => {
            return Unbilled::Nothing;
        },
    };
    if job.paid {
        return Unbilled::Nothing;
    }
    let mut cost: u64 = priced;
    if job.kind == JobKind::Llm {
        let usage = billable_usage(meta);
        if usage.prompt == 0 && usage.completion == 0 {
            cost = 0;
        }
    }
    if cost == 0 {
        Unbilled::Free(settled_charge(&job, meta, 0, None))
    } else {
        Unbilled::Owes(job, cost)
    }
}

/// Holds such a job against the account: what it costs is drawn as far as the
/// limit goes.
pub fn settle_draw(job: &PendingJob, cost: u64, client: &Option<String>, max_per_job: u64) -> (r:
    Result<Draw, AppError>)
    ensures
        match r {
            Ok(d) => {
                &&& opt(*client) == Some(d.client@)
                &&& d.worker@ == job.payout@
                &&& d.extra == least(cost, cap_of(max_per_job))
                &&& d.limit == cap_of(max_per_job)
                &&& d.settles
            },
            Err(e) => *client is None && e@ == Trouble::Invalid("no funded pot"@),
        },
{
    match client {
        Some(c) => {
            let limit: u64 = job_limit(max_per_job);
            Ok(
                Draw {
                    client: c.clone(),
                    worker: job.payout.clone(),
                    extra: min(cost, limit),
                    limit,
                    settles: true,
                },
            )
        },
        None => Err(AppError::Invalid("no funded pot".to_string())),
    }
}

/// Writes down that such a job was signed for.
pub fn settled(
    ledger: &mut Ledger,
    job: &PendingJob,
    meta: &Option<Json>,
    amount: u64,
    ticket: SpendTicket,
    sig: Vec<u8>,
    on_chain: u64,
) -> (r: Charge)
    requires
        old(ledger).wf(),
    ensures
        final(ledger).wf(),
        final(ledger).jobs@ == old(ledger).jobs@,
        final(ledger).ticket(job.payout@) == Some(
            LatestTicket { ticket, sig, on_chain_paid: on_chain },
        ),
        forall|w: Seq<char>|
            key_of(w) != key_of(job.payout@) ==> final(ledger).ticket(w) == #[trigger] old(
                ledger,
            ).ticket(w),
        is_charge(r, job@, told_tokens(job.kind, *meta), amount, Some(ticket.cumulative)),
{
    let cumulative: u64 = ticket.cumulative;
    ledger.keep_ticket(
        job.payout.as_str(),
        LatestTicket { ticket, sig, on_chain_paid: on_chain },
    );
    settled_charge(job, meta, amount, Some(cumulative))
}

// -------------------------------------------------------------- writing down

/// The bill a charge makes.
pub fn spend_entry(job_id: u128, charge: Charge, now: i64) -> (r: SpendEntry)
    ensures
        r.job_id@ == uuid_text(job_id),
        r.model@ == charge.model@,
        opt(r.peer) == opt(charge.peer),
        r.tokens == charge.tokens,
        r.cost_micros == charge.cost_micros,
        r.at == now,
        r.cumulative_micros == charge.cumulative_micros,
        opt(r.payout) == Some(charge.payout@),
        !r.abandoned && r.bond_cumulative is None && r.chunk_micros is None,
        r.settle_tx is None && r.settle_block is None && r.settle_url is None,
{
    SpendEntry {
        job_id: write_uuid(job_id),
        model: charge.model,
        peer: charge.peer,
        tokens: charge.tokens,
        cost_micros: charge.cost_micros,
        at: now,
        cumulative_micros: charge.cumulative_micros,
        payout: Some(charge.payout),
        abandoned: false,
        bond_cumulative: None,
        chunk_micros: None,
        settle_tx: None,
        settle_block: None,
        settle_url: None,
    }
}

/// The reply a job produced.
pub open spec fn is_reply(m: Message, job: Seq<char>) -> bool {
    opt(m.job_id) == Some(job) && m.role@ == "assistant"@
}

/// Writes a charge without an invoice down in both places where it is seen:
/// on the reply, and among the bills.
pub fn record_job_cost(db: &mut Db, job_id: u128, charge: Charge, now: i64)
    requires
        old(db).wf(),
    ensures
        final(db).wf(),
        *final(db) == (Db {
            messages: final(db).messages,
            spends: final(db).spends,
            ..*old(db)
        }),
        final(db).messages@.len() == old(db).messages@.len(),
        forall|i: int|
            0 <= i < final(db).messages@.len() ==> {
                let (a, b) = (old(db).messages@[i], #[trigger] final(db).messages@[i]);
                if charge.cost_micros <= i64::MAX && is_reply(a, uuid_text(job_id)) {
                    b == (Message { cost_micros: Some(charge.cost_micros), ..a })
                } else {
                    a == b
                }
            },
        ({
            let others = kept(old(db).spends@, other_spends(uuid_text(job_id)));
            if too_big(charge.tokens) || others.len() == MOST_ROWS {
                final(db).spends@ == old(db).spends@
            } else {
                let s = final(db).spends@.last();
                &&& final(db).spends@ == others.push(s)
                &&& s.job_id@ == uuid_text(job_id) && s.model@ == charge.model@
                &&& opt(s.peer) == opt(charge.peer) && s.tokens == charge.tokens
                &&& s.cost_micros == charge.cost_micros && s.at == now
                &&& s.cumulative_micros == charge.cumulative_micros
                &&& opt(s.payout) == payout_key(Some(charge.payout@))
                &&& !s.abandoned
            }
        }),
{
    let id = write_uuid(job_id);
    let _ = db.set_job_cost(id.as_str(), charge.cost_micros);
    let entry = spend_entry(job_id, charge, now);
    let _ = db.record_spend(entry);
}

// ---------------------------------------------------------------- giving up

/// What is written down of a job that ended without a bill. The worker may
/// keep what was prepaid, which the chain shows when it settles the bond;
/// until it does nothing is charged.
pub open spec fn is_abandoned(s: SpendEntry, job_id: u128, job: Pending, now: i64) -> bool {
    &&& s.job_id@ == uuid_text(job_id) && s.model@ == job.model
    &&& opt(s.peer) == named_peer(job.peer) && opt(s.payout) == Some(job.payout)
    &&& s.tokens is None && s.cost_micros == 0 && s.at == now && s.cumulative_micros is None
    &&& s.abandoned && s.bond_cumulative == Some(job.bond) && s.chunk_micros == Some(job.ceiling)
    &&& s.settle_tx is None && s.settle_block is None && s.settle_url is None
}

fn abandoned_entry(job_id: u128, job: PendingJob, now: i64) -> (r: SpendEntry)
    ensures
        is_abandoned(r, job_id, job@, now),
{
    let peer = if job.peer.as_str().is_empty() {
        None
    } else {
        Some(job.peer)
    };
    SpendEntry {
        job_id: write_uuid(job_id),
        model: job.model,
        peer,
        tokens: None,
        cost_micros: 0,
        at: now,
        cumulative_micros: None,
        payout: Some(job.payout),
        abandoned: true,
        bond_cumulative: Some(job.bond),
        chunk_micros: Some(job.ceiling),
        settle_tx: None,
        settle_block: None,
        settle_url: None,
    }
}

/// The bills after a job was given up: a job that was locked for and not paid
/// is among them as abandoned, in place of what was written of it before.
pub open spec fn given_up(
    was: Seq<SpendEntry>,
    now_there: Seq<SpendEntry>,
    job_id: u128,
    job: Option<Pending>,
    now: i64,
) -> bool {
    let others = kept(was, other_spends(uuid_text(job_id)));
    match job {
        Some(j) if !j.paid && others.len() < MOST_ROWS => {
            let s = now_there.last();
            &&& now_there == others.push(s)
            &&& is_abandoned(s, job_id, Pending { payout: lowercased(j.payout), ..j }, now)
        },
        _ => now_there == was,
    }
}

/// Lets go of what was locked for a job, and writes down what the worker may
/// have kept of it.
pub fn abandon_job(ledger: &mut Ledger, db: &mut Db, job_id: u128, now: i64)
    requires
        old(ledger).wf(),
        old(db).wf(),
    ensures
        final(ledger).wf(),
        final(ledger).job(job_id) is None,
        forall|other: u128|
            other != job_id ==> final(ledger).job(other) == #[trigger] old(ledger).job(other),
        final(ledger).tickets@ == old(ledger).tickets@,
        final(db).wf(),
        *final(db) == (Db { spends: final(db).spends, ..*old(db) }),
        given_up(old(db).spends@, final(db).spends@, job_id, old(ledger).job(job_id), now),
{
    let job = match ledger.drop_job(job_id) {
        Some(j) => j,
        None => {
            return;
        },
    };
    if job.paid {
        return;
    }
    let _ = db.record_spend(abandoned_entry(job_id, job, now));
}

/// A job that was given up is not listed as money spent until the chain
/// settles its bond, and then costs what was prepaid for it.
pub proof fn law_a_given_up_job_costs_its_bond_or_nothing(
    was: Seq<SpendEntry>,
    there: Seq<SpendEntry>,
    job_id: u128,
    job: Pending,
    now: i64,
    ts: Seq<Settlement>,
)
    requires
        given_up(was, there, job_id, Some(job), now),
        !job.paid,
        was.len() < MOST_ROWS,
    ensures
        there.len() > 0,
        !billed()(there.last()),
        ({
            let kept_it = exists|i: int|
                0 <= i < ts.len() && (#[trigger] ts[i]).payout@ == lowercased(job.payout)
                    && ts[i].cumulative == job.bond;
            let later = resolved(there.last(), ts);
            &&& kept_it ==> later.cost_micros == job.ceiling && later.cumulative_micros == Some(
                job.bond,
            )
            &&& !kept_it ==> later == there.last()
        }),
{
    lemma_kept_members(was, other_spends(uuid_text(job_id)));
    let s = there.last();
    if exists|i: int|
        0 <= i < ts.len() && (#[trigger] ts[i]).payout@ == lowercased(job.payout)
            && ts[i].cumulative == job.bond {
        let i = choose|i: int|
            0 <= i < ts.len() && (#[trigger] ts[i]).payout@ == lowercased(job.payout)
                && ts[i].cumulative == job.bond;
        assert(pays(ts[i], opt(s.payout)));
    } else if chunk_kept(s, ts) {
        let i = choose|i: int|
            0 <= i < ts.len() && pays(#[trigger] ts[i], opt(s.payout)) && s.bond_cumulative == Some(
                ts[i].cumulative,
            );
        assert(ts[i].payout@ == lowercased(job.payout));
    }
}

} // verus!
