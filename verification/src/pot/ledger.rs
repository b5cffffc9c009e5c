//! What is locked, what was billed, what was signed for.
//!
//! All amounts are in millionths of a dollar.
use vstd::prelude::*;

use crate::codec::{hex_encode, hexed};
use crate::error::{AppError, Trouble};
use crate::json::{Json, Tree};
use crate::protocol::{copy_opt, opt, reported, JobKind, TokenUsage};
use crate::text::{
    concat, concat3, decimal, decimal_of, lowercased, same, to_lowercase, trim_start_matches,
    without_leading,
};

verus! {

broadcast use vstd::string::group_string_axioms;

/// The limit for a single job where the account names none: half a dollar.
pub const DEFAULT_MAX_JOB: u64 = 500_000;

/// How long a signed ticket is good for.
pub const TICKET_TTL_SECS: u64 = 3600;

/// How many jobs' worth of lock to hold on a channel when topping it up.
pub const RESERVE_HEADROOM_JOBS: u64 = 4;

/// How many tokens one prepaid slice covers.
pub const TOKEN_CHUNK: u64 = 1_000_000;

// ----------------------------------------------------------------- numbers

pub open spec fn sat_add(a: u64, b: u64) -> u64 {
    if a + b > u64::MAX {
        u64::MAX
    } else {
        (a + b) as u64
    }
}

pub open spec fn sat_sub(a: u64, b: u64) -> u64 {
    if a < b {
        0
    } else {
        (a - b) as u64
    }
}

pub open spec fn sat_mul(a: u64, b: u64) -> u64 {
    if a * b > u64::MAX {
        u64::MAX
    } else {
        (a * b) as u64
    }
}

pub open spec fn least(a: u64, b: u64) -> u64 {
    if a < b {
        a
    } else {
        b
    }
}

pub open spec fn most(a: u64, b: u64) -> u64 {
    if a < b {
        b
    } else {
        a
    }
}

pub fn plus(a: u64, b: u64) -> (r: u64)
    ensures
        r == sat_add(a, b),
{
    if a > u64::MAX - b {
        u64::MAX
    } else {
        a + b
    }
}

pub fn minus(a: u64, b: u64) -> (r: u64)
    ensures
        r == sat_sub(a, b),
{
    if a < b {
        0
    } else {
        a - b
    }
}

pub fn times(a: u64, b: u64) -> (r: u64)
    ensures
        r == sat_mul(a, b),
{
    assert(a as u128 * b as u128 <= u64::MAX as u128 * u64::MAX as u128) by (nonlinear_arith)
        requires
            a <= u64::MAX,
            b <= u64::MAX,
    ;
    let wide: u128 = a as u128 * b as u128;
    if wide > u64::MAX as u128 {
        u64::MAX
    } else {
        wide as u64
    }
}

pub fn min(a: u64, b: u64) -> (r: u64)
    ensures
        r == least(a, b),
{
    if a < b {
        a
    } else {
        b
    }
}

pub fn max(a: u64, b: u64) -> (r: u64)
    ensures
        r == most(a, b),
{
    if a < b {
        b
    } else {
        a
    }
}

/// The limit for a single job: the account's, or the usual one.
pub open spec fn cap_of(max_per_job: u64) -> u64 {
    if max_per_job == 0 {
        DEFAULT_MAX_JOB
    } else {
        max_per_job
    }
}

pub fn job_limit(max_per_job: u64) -> (r: u64)
    ensures
        r == cap_of(max_per_job),
        r > 0,
{
    if max_per_job == 0 {
        DEFAULT_MAX_JOB
    } else {
        max_per_job
    }
}

// ---------------------------------------------------------------- channels

/// What the chain says of the channel between this client and a worker.
#[derive(Debug, Clone, Copy, PartialEq, Eq, Structural)]
pub struct ChannelSnap {
    pub reserved: u64,
    pub paid: u64,
    pub earned: u64,
    /// The limit for a job as it was at the channel's first reserve, which is
    /// the one a settle is held to. Zero means there is no channel yet.
    pub max_per_job: u64,
}

impl Default for ChannelSnap {
    fn default() -> (r: ChannelSnap)
        ensures
            r == (ChannelSnap { reserved: 0, paid: 0, earned: 0, max_per_job: 0 }),
    {
        ChannelSnap { reserved: 0, paid: 0, earned: 0, max_per_job: 0 }
    }
}

impl ChannelSnap {
    /// What is locked and not yet earned.
    pub open spec fn left(self) -> u64 {
        sat_sub(self.reserved, self.earned)
    }

    /// What the chain already owes or paid the worker.
    pub open spec fn banked(self) -> u64 {
        most(self.paid, self.earned)
    }

    pub fn remaining(self) -> (r: u64)
        ensures
            r == self.left(),
    {
        minus(self.reserved, self.earned)
    }

    pub fn on_chain(self) -> (r: u64)
        ensures
            r == self.banked(),
    {
        max(self.paid, self.earned)
    }
}

// ------------------------------------------------------------------- locks

/// How much to lock for a text job: whole slices for the prompt and the
/// longest answer, at the price of a slice.
pub open spec fn text_lock(prompt: u64, max_tokens: u32, chunk: u64) -> u64 {
    let tokens = sat_add(prompt, max_tokens as u64);
    let slices = most(
        if tokens % TOKEN_CHUNK == 0 {
            tokens / TOKEN_CHUNK
        } else {
            (tokens / TOKEN_CHUNK + 1) as u64
        },
        1,
    );
    most(sat_mul(slices, chunk), 1)
}

pub fn text_lock_micros(prompt: u64, max_tokens: u32, chunk: u64) -> (r: u64)
    ensures
        r == text_lock(prompt, max_tokens, chunk),
        r >= 1,
{
    let tokens: u64 = plus(prompt, max_tokens as u64);
    let whole: u64 = tokens / TOKEN_CHUNK;
    let slices: u64 = if tokens % TOKEN_CHUNK == 0 {
        whole
    } else {
        whole + 1
    };
    max(times(max(slices, 1), chunk), 1)
}

/// What a job could cost at most: for text, the shortest ceiling that is ever
/// sent, at the price of its tokens; for a picture or a film, its price.
pub open spec fn worst_case(price: u64, kind: JobKind, min_tokens: u64) -> u64 {
    match kind {
        JobKind::Llm => {
            let rounded = (min_tokens * price + 500_000) / 1_000_000;
            if rounded > u64::MAX {
                u64::MAX
            } else {
                most(rounded as u64, 1)
            }
        },
        _ => most(price, 1),
    }
}

/// The worst case at a price in millionths: per million tokens for text, per
/// piece otherwise.
pub fn worst_case_micros(price: u64, kind: JobKind, min_tokens: u32) -> (r: u64)
    ensures
        r == worst_case(price, kind, min_tokens as u64),
        r >= 1,
{
    match kind {
        JobKind::Llm => {
            assert(min_tokens as u128 * price as u128 <= u32::MAX as u128 * u64::MAX as u128)
                by (nonlinear_arith)
                requires
                    min_tokens <= u32::MAX,
                    price <= u64::MAX,
            ;
            let exact: u128 = min_tokens as u128 * price as u128;
            let rounded: u128 = (exact + 500_000) / 1_000_000;
            if rounded > u64::MAX as u128 {
                u64::MAX
            } else {
                max(rounded as u64, 1)
            }
        },
        _ => max(price, 1),
    }
}

/// How much is locked for a job: what it needs, within the account's limit
/// and the one the channel was opened with.
pub open spec fn lock_within(need: u64, max_per_job: u64, ch: ChannelSnap) -> u64 {
    let capped = most(least(need, cap_of(max_per_job)), 1);
    if ch.max_per_job > 0 {
        least(capped, ch.max_per_job)
    } else {
        capped
    }
}

pub fn job_lock(need: u64, max_per_job: u64, ch: ChannelSnap) -> (r: u64)
    ensures
        r == lock_within(need, max_per_job, ch),
        r >= 1,
{
    let capped: u64 = max(min(need, job_limit(max_per_job)), 1);
    if ch.max_per_job > 0 {
        min(capped, ch.max_per_job)
    } else {
        capped
    }
}

/// A lock is never above the account's limit for a single job, nor above the
/// limit the channel settles by, and never above what the job needs.
pub proof fn law_lock_stays_within_limits(need: u64, max_per_job: u64, ch: ChannelSnap)
    requires
        need > 0,
    ensures
        lock_within(need, max_per_job, ch) <= cap_of(max_per_job),
        ch.max_per_job > 0 ==> lock_within(need, max_per_job, ch) <= ch.max_per_job,
        lock_within(need, max_per_job, ch) <= need,
        lock_within(need, max_per_job, ch) >= 1,
{
}

/// What to raise the channel's reserve to: a few jobs' worth where less than
/// two are left, as far as free funds reach; nothing where there would be no
/// reserve at all.
pub open spec fn reserve_target(ch: ChannelSnap, need: u64, free: u64) -> Option<u64> {
    let extra = if ch.left() < sat_mul(need, 2) {
        least(sat_sub(sat_mul(need, RESERVE_HEADROOM_JOBS), ch.left()), free)
    } else {
        0
    };
    let target = sat_add(ch.reserved, extra);
    if target == 0 {
        None
    } else {
        Some(target)
    }
}

pub fn reserve_to_sign(ch: ChannelSnap, need: u64, free: u64) -> (r: Option<u64>)
    ensures
        r == reserve_target(ch, need, free),
{
    let remaining: u64 = ch.remaining();
    let extra: u64 = if remaining < times(need, 2) {
        min(minus(times(need, RESERVE_HEADROOM_JOBS), remaining), free)
    } else {
        0
    };
    let target: u64 = plus(ch.reserved, extra);
    if target == 0 {
        None
    } else {
        Some(target)
    }
}

/// A reserve is never lowered, and never raised by more than what is free.
pub proof fn law_reserve_only_grows(ch: ChannelSnap, need: u64, free: u64)
    ensures
        match reserve_target(ch, need, free) {
            Some(t) => ch.reserved <= t <= ch.reserved + free,
            None => ch.reserved == 0,
        },
{
}

// ----------------------------------------------------------------- tickets

/// A worker's address as it is looked up: no prefix, lower case.
pub open spec fn key_of(worker: Seq<char>) -> Seq<char> {
    lowercased(without_leading(worker, "0x"@))
}

pub fn worker_key(worker: &str) -> (r: String)
    ensures
        r@ == key_of(worker@),
{
    to_lowercase(trim_start_matches(worker, "0x").as_str())
}

/// A promise to pay a worker up to a total.
#[derive(Debug, PartialEq)]
pub struct SpendTicket {
    pub client: String,
    pub worker_payout: String,
    pub cumulative: u64,
    pub deadline: u64,
}

/// A promise to lock up to an amount for a worker.
#[derive(Debug, PartialEq)]
pub struct ReserveTicket {
    pub client: String,
    pub worker_payout: String,
    pub max_amount: u64,
    pub deadline: u64,
}

impl SpendTicket {
    /// It promises this total from one to the other, for an hour from now.
    pub open spec fn promises(
        self,
        client: Seq<char>,
        worker: Seq<char>,
        cumulative: u64,
        now: u64,
    ) -> bool {
        &&& self.client@ == client
        &&& self.worker_payout@ == worker
        &&& self.cumulative == cumulative
        &&& self.deadline == now + TICKET_TTL_SECS
    }
}

impl ReserveTicket {
    /// It locks up to this amount for a worker, for an hour from now.
    pub open spec fn reserves(
        self,
        client: Seq<char>,
        worker: Seq<char>,
        max_amount: u64,
        now: u64,
    ) -> bool {
        &&& self.client@ == client
        &&& self.worker_payout@ == worker
        &&& self.max_amount == max_amount
        &&& self.deadline == now + TICKET_TTL_SECS
    }
}

/// The newest ticket signed for a worker.
#[derive(Debug, PartialEq)]
pub struct LatestTicket {
    pub ticket: SpendTicket,
    pub sig: Vec<u8>,
    /// What the chain had already paid the worker.
    pub on_chain_paid: u64,
}

/// A ticket not yet signed: what it is for, how much, until when.
pub fn spend_ticket(client: &str, worker: &str, cumulative: u64, now: u64) -> (r: SpendTicket)
    requires
        now + TICKET_TTL_SECS <= u64::MAX,
    ensures
        r.promises(client@, worker@, cumulative, now),
{
    SpendTicket {
        client: client.to_string(),
        worker_payout: worker.to_string(),
        cumulative,
        deadline: now + TICKET_TTL_SECS,
    }
}

pub fn reserve_ticket(client: &str, worker: &str, max_amount: u64, now: u64) -> (r: ReserveTicket)
    requires
        now + TICKET_TTL_SECS <= u64::MAX,
    ensures
        r.reserves(client@, worker@, max_amount, now),
{
    ReserveTicket {
        client: client.to_string(),
        worker_payout: worker.to_string(),
        max_amount,
        deadline: now + TICKET_TTL_SECS,
    }
}

// --------------------------------------------------------------- the ledger

/// A priced job under way.
#[derive(Debug, PartialEq)]
pub struct PendingJob {
    pub kind: JobKind,
    pub paid: bool,
    /// The hash the paid invoice names.
    pub sha256: Option<String>,
    /// What is prepaid for the job so far.
    pub ceiling: u64,
    /// What is locked for the whole job.
    pub job_cap: u64,
    /// What the final invoice billed, once paid.
    pub cost: Option<u64>,
    pub model: String,
    pub peer: String,
    /// The address the funds are locked against.
    pub payout: String,
    /// The total of the newest ticket the worker holds as a bond for the job.
    pub bond: u64,
}

/// What is known of a job.
pub struct Pending {
    pub kind: JobKind,
    pub paid: bool,
    pub sha256: Option<Seq<char>>,
    pub ceiling: u64,
    pub job_cap: u64,
    pub cost: Option<u64>,
    pub model: Seq<char>,
    pub peer: Seq<char>,
    pub payout: Seq<char>,
    pub bond: u64,
}

impl View for PendingJob {
    type V = Pending;

    open spec fn view(&self) -> Pending {
        Pending {
            kind: self.kind,
            paid: self.paid,
            sha256: opt(self.sha256),
            ceiling: self.ceiling,
            job_cap: self.job_cap,
            cost: self.cost,
            model: self.model@,
            peer: self.peer@,
            payout: self.payout@,
            bond: self.bond,
        }
    }
}

impl Pending {
    /// No more is prepaid than was locked.
    pub open spec fn within_lock(self) -> bool {
        self.ceiling <= self.job_cap
    }
}

/// A bill from a worker, or a request for one more slice.
#[derive(Debug, PartialEq)]
pub struct JobInvoice {
    pub job_id: u128,
    pub amount: u64,
    pub top_up: bool,
    pub prompt_tokens: u64,
    pub completion_tokens: u64,
    pub cached_tokens: u64,
    pub sha256: String,
}

/// Why an invoice is not paid, if it is not. `chunk` is the price of a slice,
/// `fair` what the claimed tokens cost at the advertised rate, `limit` the
/// lock in words.
pub open spec fn invoice_fault(
    job_id: u128,
    inv: JobInvoice,
    job: Option<Pending>,
    chunk: u64,
    fair: u64,
    limit: Seq<char>,
) -> Option<Seq<char>> {
    if inv.job_id != job_id {
        Some("invoice is for a different job"@)
    } else if inv.amount == 0 {
        Some("invoice has no amount"@)
    } else {
        match job {
            None => Some("no lock on file for this job"@),
            Some(j) => if j.paid {
                Some("this job is already paid"@)
            } else if inv.top_up {
                if inv.amount > sat_sub(j.job_cap, j.ceiling) {
                    Some("this reply reached your $"@ + limit + " limit for a single job"@)
                } else if inv.amount > chunk {
                    Some("top-up is larger than a 1M-token slice"@)
                } else {
                    None
                }
            } else if inv.amount > fair {
                Some(
                    "worker billed "@ + decimal(inv.amount as nat)
                        + " µUSDC; advertised price only covers "@ + decimal(fair as nat),
                )
            } else if inv.amount > j.ceiling {
                Some("invoice exceeds the prepaid slices for this job"@)
            } else {
                None
            },
        }
    }
}

/// What is wrong with an invoice.
pub fn refuse_invoice(
    job_id: u128,
    inv: &JobInvoice,
    job: Option<&PendingJob>,
    chunk: u64,
    fair: u64,
    limit: &str,
) -> (r: Result<(), AppError>)
    ensures
        ({
            let known = match job {
                Some(j) => Some(j@),
                None => None,
            };
            match r {
                Ok(_) => invoice_fault(job_id, *inv, known, chunk, fair, limit@) is None,
                Err(e) => {
                    &&& invoice_fault(job_id, *inv, known, chunk, fair, limit@) is Some
                    &&& e@ == Trouble::Invalid(
                        invoice_fault(job_id, *inv, known, chunk, fair, limit@)->0,
                    )
                },
            }
        }),
{
    if inv.job_id != job_id {
        return Err(AppError::Invalid("invoice is for a different job".to_string()));
    }
    if inv.amount == 0 {
        return Err(AppError::Invalid("invoice has no amount".to_string()));
    }
    let j = match job {
        Some(j) => j,
        None => {
            return Err(AppError::Invalid("no lock on file for this job".to_string()));
        },
    };
    if j.paid {
        return Err(AppError::Invalid("this job is already paid".to_string()));
    }
    if inv.top_up {
        let room: u64 = minus(j.job_cap, j.ceiling);
        if room == 0 || inv.amount > room {
            return Err(
                AppError::Invalid(
                    concat3("this reply reached your $", limit, " limit for a single job"),
                ),
            );
        }
        if inv.amount > chunk {
            return Err(AppError::Invalid("top-up is larger than a 1M-token slice".to_string()));
        }
    } else {
        if inv.amount > fair {
            let mut text = concat3(
                "worker billed ",
                decimal_of(inv.amount).as_str(),
                " µUSDC; advertised price only covers ",
            );
            text.append(decimal_of(fair).as_str());
            return Err(AppError::Invalid(text));
        }
        if inv.amount > j.ceiling {
            return Err(
                AppError::Invalid("invoice exceeds the prepaid slices for this job".to_string()),
            );
        }
    }
    Ok(())
}

/// The account's say over an invoice that is otherwise in order: there has to
/// be a funded pot, and the amount has to be within its limit.
pub fn refuse_for_account(amount: u64, funded: bool, max_per_job: u64, limit: &str) -> (r: Result<
    (),
    AppError,
>)
    ensures
        match r {
            Ok(_) => funded && amount <= cap_of(max_per_job),
            Err(e) => if !funded {
                e@ == Trouble::Invalid("no funded pot"@)
            } else {
                amount > cap_of(max_per_job) && e@ == Trouble::Invalid(
                    "invoice exceeds your $"@ + limit@ + " per-job cap"@,
                )
            },
        },
{
    if !funded {
        return Err(AppError::Invalid("no funded pot".to_string()));
    }
    if amount > job_limit(max_per_job) {
        return Err(
            AppError::Invalid(concat3("invoice exceeds your $", limit, " per-job cap")),
        );
    }
    Ok(())
}

/// What signing for an invoice adds to the total: the bill, or for a top-up
/// all that is then prepaid.
pub open spec fn added_by(inv: JobInvoice, job: Pending) -> u64 {
    if inv.top_up {
        sat_add(job.ceiling, inv.amount)
    } else {
        inv.amount
    }
}

pub fn invoice_extra(inv: &JobInvoice, job: &PendingJob) -> (r: u64)
    ensures
        r == added_by(*inv, job@),
{
    if inv.top_up {
        plus(job.ceiling, inv.amount)
    } else {
        inv.amount
    }
}

/// What has been promised to a worker so far, and what the chain has of it.
pub fn authorised_so_far(cached: u64, ch: ChannelSnap) -> (r: (u64, u64))
    ensures
        r.0 == most(cached, ch.banked()),
        r.1 == ch.banked(),
{
    let on_chain: u64 = ch.on_chain();
    (max(cached, on_chain), on_chain)
}

/// Whether what is owed has to be settled before more is added: the chain
/// takes no settle above the limit for a job.
pub fn flush_first(authorised: u64, on_chain: u64, extra: u64, limit: u64) -> (r: bool)
    ensures
        r == (sat_sub(authorised, on_chain) > 0 && sat_add(
            sat_sub(authorised, on_chain),
            extra,
        ) > limit),
{
    let owed: u64 = minus(authorised, on_chain);
    owed > 0 && plus(owed, extra) > limit
}

/// The total a new ticket is for.
pub fn next_cumulative(authorised: u64, extra: u64) -> (r: u64)
    ensures
        r == sat_add(authorised, extra),
        r >= authorised,
{
    plus(authorised, extra)
}

/// A new ticket never takes back what was promised, and never promises less
/// than the chain already shows.
pub proof fn law_tickets_only_grow(cached: u64, ch: ChannelSnap, extra: u64)
    ensures
        sat_add(most(cached, ch.banked()), extra) >= cached,
        sat_add(most(cached, ch.banked()), extra) >= ch.paid,
        sat_add(most(cached, ch.banked()), extra) >= ch.earned,
{
}

/// An invoice that is paid is for this job, is paid once, is within what was
/// prepaid and no more than the claimed tokens cost at the advertised rate; a
/// top-up keeps within the lock and is one slice at most.
pub proof fn law_paid_invoices_are_bounded(
    job_id: u128,
    inv: JobInvoice,
    job: Option<Pending>,
    chunk: u64,
    fair: u64,
    limit: Seq<char>,
)
    requires
        invoice_fault(job_id, inv, job, chunk, fair, limit) is None,
    ensures
        inv.job_id == job_id && inv.amount > 0 && job is Some && !job->0.paid,
        !inv.top_up ==> inv.amount <= job->0.ceiling && inv.amount <= fair,
        inv.top_up ==> inv.amount <= chunk && job->0.ceiling + inv.amount <= job->0.job_cap,
{
}

// -------------------------------------------------------------- spend entries

/// One bill, as the spend ledger keeps it.
#[derive(Debug, PartialEq)]
pub struct Charge {
    pub model: String,
    /// The provider, when it has a name.
    pub peer: Option<String>,
    /// Tokens billed for, when there were any.
    pub tokens: Option<u64>,
    pub cost_micros: u64,
    /// The ticket the charge rode on.
    pub cumulative_micros: Option<u64>,
    pub payout: String,
}

pub open spec fn positive(n: u64) -> Option<u64> {
    if n > 0 {
        Some(n)
    } else {
        None
    }
}

pub open spec fn named_peer(peer: Seq<char>) -> Option<Seq<char>> {
    if peer.len() > 0 {
        Some(peer)
    } else {
        None
    }
}

fn charge(job: &PendingJob, tokens: u64, amount: u64, cumulative: Option<u64>) -> (r: Charge)
    ensures
        r.model@ == job.model@,
        opt(r.peer) == named_peer(job.peer@),
        r.tokens == positive(tokens),
        r.cost_micros == amount,
        r.cumulative_micros == cumulative,
        r.payout@ == job.payout@,
{
    let peer = if job.peer.as_str().is_empty() {
        None
    } else {
        Some(job.peer.clone())
    };
    let counted: Option<u64> = if tokens > 0 {
        Some(tokens)
    } else {
        None
    };
    Charge {
        model: job.model.clone(),
        peer,
        tokens: counted,
        cost_micros: amount,
        cumulative_micros: cumulative,
        payout: job.payout.clone(),
    }
}

/// The ledger's entry for a paid invoice.
pub fn invoice_charge(inv: &JobInvoice, job: &PendingJob, cumulative: u64) -> (r: Charge)
    ensures
        r.model@ == job.model@,
        opt(r.peer) == named_peer(job.peer@),
        r.tokens == positive(sat_add(inv.prompt_tokens, inv.completion_tokens)),
        r.cost_micros == inv.amount,
        r.cumulative_micros == Some(cumulative),
        r.payout@ == job.payout@,
{
    charge(job, plus(inv.prompt_tokens, inv.completion_tokens), inv.amount, Some(cumulative))
}

/// The tokens a text job is billed for when no invoice came: what the worker
/// reported, or else the one total it gave.
pub open spec fn billable(meta: Option<Tree>) -> TokenUsage {
    match meta {
        None => (TokenUsage { prompt: 0, completion: 0, cached: 0, reasoning: 0 }),
        Some(m) => match reported(m) {
            Some(u) => u,
            None => {
                let total = match m.get("total_tokens"@) {
                    Some(Tree::Number(n)) => n,
                    Some(_) => 0,
                    None => match m.number_at("completion_tokens"@) {
                        Some(n) => n,
                        None => 0,
                    },
                };
                TokenUsage { prompt: 0, completion: total, cached: 0, reasoning: 0 }
            },
        },
    }
}

pub fn billable_usage(meta: &Option<Json>) -> (r: TokenUsage)
    ensures
        r == billable(
            match *meta {
                Some(j) => Some(j@),
                None => None,
            },
        ),
{
    match meta {
        None => TokenUsage { prompt: 0, completion: 0, cached: 0, reasoning: 0 },
        Some(m) => match TokenUsage::from_meta(m) {
            Some(u) => u,
            None => {
                let total: u64 = match m.get("total_tokens") {
                    Some(Json::Number(n)) => *n,
                    Some(_) => 0,
                    None => m.number_at("completion_tokens").unwrap_or(0),
                };
                TokenUsage { prompt: 0, completion: total, cached: 0, reasoning: 0 }
            },
        },
    }
}

/// The ledger's entry for a bill that was settled without an invoice. Tokens
/// are told for text only.
pub fn settled_charge(
    job: &PendingJob,
    meta: &Option<Json>,
    amount: u64,
    cumulative: Option<u64>,
) -> (r: Charge)
    ensures
        r.model@ == job.model@,
        opt(r.peer) == named_peer(job.peer@),
        r.cost_micros == amount,
        r.cumulative_micros == cumulative,
        r.payout@ == job.payout@,
        r.tokens == (match (job.kind, *meta) {
            (JobKind::Llm, Some(m)) => match reported(m@) {
                Some(u) => positive(sat_add(u.prompt, u.completion)),
                None => None,
            },
            _ => None,
        }),
{
    let mut tokens: u64 = 0;
    if job.kind == JobKind::Llm {
        if let Some(m) = meta {
            if let Some(u) = TokenUsage::from_meta(m) {
                tokens = plus(u.prompt, u.completion);
            }
        }
    }
    charge(job, tokens, amount, cumulative)
}


// ---------------------------------------------------------------- the book

/// The jobs under way and the newest ticket for each worker.
#[derive(Debug, PartialEq)]
pub struct Ledger {
    pub jobs: Vec<(u128, PendingJob)>,
    pub tickets: Vec<(String, LatestTicket)>,
}

/// The place of a job, or how many there are.
pub open spec fn job_place(jobs: Seq<(u128, PendingJob)>, id: u128) -> int
    decreases jobs.len(),
{
    if jobs.len() == 0 || jobs[0].0 == id {
        0
    } else {
        1 + job_place(jobs.drop_first(), id)
    }
}

/// What is known of a job.
pub open spec fn job_in(jobs: Seq<(u128, PendingJob)>, id: u128) -> Option<Pending> {
    let i = job_place(jobs, id);
    if 0 <= i < jobs.len() {
        Some(jobs[i].1@)
    } else {
        None
    }
}

pub open spec fn ticket_place(tickets: Seq<(String, LatestTicket)>, key: Seq<char>) -> int
    decreases tickets.len(),
{
    if tickets.len() == 0 || tickets[0].0@ == key {
        0
    } else {
        1 + ticket_place(tickets.drop_first(), key)
    }
}

/// The newest ticket for a worker.
pub open spec fn ticket_in(tickets: Seq<(String, LatestTicket)>, key: Seq<char>) -> Option<
    LatestTicket,
> {
    let i = ticket_place(tickets, key);
    if 0 <= i < tickets.len() {
        Some(tickets[i].1)
    } else {
        None
    }
}

proof fn lemma_job_place(jobs: Seq<(u128, PendingJob)>, id: u128)
    ensures
        0 <= job_place(jobs, id) <= jobs.len(),
        job_place(jobs, id) < jobs.len() ==> jobs[job_place(jobs, id)].0 == id,
        forall|i: int| 0 <= i < job_place(jobs, id) ==> (#[trigger] jobs[i]).0 != id,
    decreases jobs.len(),
{
    if jobs.len() > 0 && jobs[0].0 != id {
        lemma_job_place(jobs.drop_first(), id);
        assert forall|i: int| 0 <= i < job_place(jobs, id) implies (#[trigger] jobs[i]).0 != id by {
            if i > 0 {
                assert(jobs[i] == jobs.drop_first()[i - 1]);
            }
        }
    }
}

proof fn lemma_job_place_is(jobs: Seq<(u128, PendingJob)>, id: u128, k: int)
    requires
        0 <= k <= jobs.len(),
        k < jobs.len() ==> jobs[k].0 == id,
        forall|i: int| 0 <= i < k ==> (#[trigger] jobs[i]).0 != id,
    ensures
        job_place(jobs, id) == k,
{
    lemma_job_place(jobs, id);
    let j = job_place(jobs, id);
    if j < k {
        assert(jobs[j].0 == id);
    }
    if k < j {
        assert(jobs[k].0 != id);
    }
}

proof fn lemma_ticket_place(tickets: Seq<(String, LatestTicket)>, key: Seq<char>)
    ensures
        0 <= ticket_place(tickets, key) <= tickets.len(),
        ticket_place(tickets, key) < tickets.len() ==> tickets[ticket_place(tickets, key)].0@
            == key,
        forall|i: int| 0 <= i < ticket_place(tickets, key) ==> (#[trigger] tickets[i]).0@ != key,
    decreases tickets.len(),
{
    if tickets.len() > 0 && tickets[0].0@ != key {
        lemma_ticket_place(tickets.drop_first(), key);
        assert forall|i: int| 0 <= i < ticket_place(tickets, key) implies (
        #[trigger] tickets[i]).0@ != key by {
            if i > 0 {
                assert(tickets[i] == tickets.drop_first()[i - 1]);
            }
        }
    }
}

proof fn lemma_ticket_place_is(tickets: Seq<(String, LatestTicket)>, key: Seq<char>, k: int)
    requires
        0 <= k <= tickets.len(),
        k < tickets.len() ==> tickets[k].0@ == key,
        forall|i: int| 0 <= i < k ==> (#[trigger] tickets[i]).0@ != key,
    ensures
        ticket_place(tickets, key) == k,
{
    lemma_ticket_place(tickets, key);
    let j = ticket_place(tickets, key);
    if j < k {
        assert(tickets[j].0@ == key);
    }
    if k < j {
        assert(tickets[k].0@ != key);
    }
}

impl Ledger {
    /// No job and no worker is in the book twice, and no job is prepaid
    /// beyond its lock.
    pub open spec fn wf(self) -> bool {
        &&& forall|i: int, j: int|
            0 <= i < j < self.jobs@.len() ==> (#[trigger] self.jobs@[i]).0 != (
            #[trigger] self.jobs@[j]).0
        &&& forall|i: int, j: int|
            0 <= i < j < self.tickets@.len() ==> (#[trigger] self.tickets@[i]).0@ != (
            #[trigger] self.tickets@[j]).0@
        &&& forall|i: int|
            0 <= i < self.jobs@.len() ==> (#[trigger] self.jobs@[i]).1@.within_lock()
    }

    pub open spec fn job(self, id: u128) -> Option<Pending> {
        job_in(self.jobs@, id)
    }

    pub open spec fn ticket(self, worker: Seq<char>) -> Option<LatestTicket> {
        ticket_in(self.tickets@, key_of(worker))
    }

    pub fn new() -> (r: Ledger)
        ensures
            r.wf(),
            r.jobs@.len() == 0,
            r.tickets@.len() == 0,
            forall|id: u128| #[trigger] r.job(id) is None,
            forall|w: Seq<char>| #[trigger] r.ticket(w) is None,
    {
        Ledger { jobs: Vec::new(), tickets: Vec::new() }
    }

    fn find_job(&self, id: u128) -> (i: usize)
        ensures
            i == job_place(self.jobs@, id),
            i <= self.jobs@.len(),
            i < self.jobs@.len() ==> self.jobs@[i as int].0 == id,
            forall|k: int| 0 <= k < i ==> (#[trigger] self.jobs@[k]).0 != id,
    {
        let mut i: usize = 0;
        while i < self.jobs.len() && self.jobs[i].0 != id
            invariant
                i <= self.jobs@.len(),
                forall|k: int| 0 <= k < i ==> (#[trigger] self.jobs@[k]).0 != id,
            decreases self.jobs@.len() - i,
        {
            i = i + 1;
        }
        proof {
            lemma_job_place_is(self.jobs@, id, i as int);
        }
        i
    }

    fn find_ticket(&self, key: &str) -> (i: usize)
        ensures
            i == ticket_place(self.tickets@, key@),
            i <= self.tickets@.len(),
            i < self.tickets@.len() ==> self.tickets@[i as int].0@ == key@,
            forall|k: int| 0 <= k < i ==> (#[trigger] self.tickets@[k]).0@ != key@,
    {
        let mut i: usize = 0;
        while i < self.tickets.len() && !same(self.tickets[i].0.as_str(), key)
            invariant
                i <= self.tickets@.len(),
                forall|k: int| 0 <= k < i ==> (#[trigger] self.tickets@[k]).0@ != key@,
            decreases self.tickets@.len() - i,
        {
            i = i + 1;
        }
        proof {
            lemma_ticket_place_is(self.tickets@, key@, i as int);
        }
        i
    }

    /// What is known of a job.
    pub fn get(&self, id: u128) -> (r: Option<&PendingJob>)
        ensures
            (match r {
                Some(j) => Some(j@),
                None => None,
            }) == self.job(id),
    {
        let i: usize = self.find_job(id);
        if i < self.jobs.len() {
            Some(&self.jobs[i].1)
        } else {
            None
        }
    }

    /// Puts a job in the book, in place of whatever it held of it.
    pub fn add_job(&mut self, id: u128, job: PendingJob)
        requires
            old(self).wf(),
            job@.within_lock(),
        ensures
            final(self).wf(),
            final(self).job(id) == Some(job@),
            forall|other: u128|
                other != id ==> final(self).job(other) == #[trigger] old(self).job(other),
            final(self).tickets@ == old(self).tickets@,
    {
        let i: usize = self.find_job(id);
        let ghost before = self.jobs@;
        if i < self.jobs.len() {
            self.jobs.set(i, (id, job));
        } else {
            self.jobs.push((id, job));
        }
        let ghost after = self.jobs@;
        proof {
            lemma_job_place_is(after, id, i as int);
            assert forall|other: u128| other != id implies job_in(after, other)
                == #[trigger] job_in(before, other) by {
                lemma_job_place(before, other);
                let k = job_place(before, other);
                if k < before.len() {
                    lemma_job_place_is(after, other, k);
                } else {
                    lemma_job_place_is(after, other, after.len() as int);
                }
            }
            assert forall|other: u128| other != id implies self.job(other) == #[trigger] old(
                self,
            ).job(other) by {
                assert(job_in(after, other) == job_in(before, other));
            }
        }
    }

    /// Takes a job out of the book.
    pub fn drop_job(&mut self, id: u128) -> (r: Option<PendingJob>)
        requires
            old(self).wf(),
        ensures
            final(self).wf(),
            final(self).job(id) is None,
            (match r {
                Some(j) => Some(j@),
                None => None,
            }) == old(self).job(id),
            forall|other: u128|
                other != id ==> final(self).job(other) == #[trigger] old(self).job(other),
            final(self).tickets@ == old(self).tickets@,
    {
        let i: usize = self.find_job(id);
        let ghost before = self.jobs@;
        if i >= self.jobs.len() {
            return None;
        }
        let gone = self.jobs.remove(i);
        let ghost after = self.jobs@;
        proof {
            assert forall|k: int| 0 <= k < after.len() implies (#[trigger] after[k]).0 != id by {
                if k < i {
                    assert(after[k] == before[k]);
                } else {
                    assert(after[k] == before[k + 1]);
                    assert(before[i as int].0 != before[k + 1].0);
                }
            }
            lemma_job_place_is(after, id, after.len() as int);
            assert forall|other: u128| other != id implies self.job(other) == #[trigger] old(
                self,
            ).job(other) by {
                lemma_job_place(before, other);
                let k = job_place(before, other);
                if k < before.len() {
                    let k2 = if k < i {
                        k
                    } else {
                        k - 1
                    };
                    assert(after[k2] == before[k]);
                    assert forall|m: int| 0 <= m < k2 implies (#[trigger] after[m]).0 != other by {
                        if m < i {
                            assert(after[m] == before[m]);
                        } else {
                            assert(after[m] == before[m + 1]);
                        }
                    }
                    lemma_job_place_is(after, other, k2);
                } else {
                    assert forall|m: int| 0 <= m < after.len() implies (#[trigger] after[m]).0
                        != other by {
                        if m < i {
                            assert(after[m] == before[m]);
                        } else {
                            assert(after[m] == before[m + 1]);
                        }
                    }
                    lemma_job_place_is(after, other, after.len() as int);
                }
            }
            assert forall|a: int, b: int| 0 <= a < b < after.len() implies (#[trigger] after[a]).0
                != (#[trigger] after[b]).0 by {
                let a2 = if a < i {
                    a
                } else {
                    a + 1
                };
                let b2 = if b < i {
                    b
                } else {
                    b + 1
                };
                assert(after[a] == before[a2] && after[b] == before[b2]);
            }
            assert forall|a: int| 0 <= a < after.len() implies (
            #[trigger] after[a]).1@.within_lock() by {
                let a2 = if a < i {
                    a
                } else {
                    a + 1
                };
                assert(after[a] == before[a2]);
            }
        }
        Some(gone.1)
    }

    /// What has been promised to a worker.
    pub fn cached_cumulative(&self, worker: &str) -> (r: u64)
        ensures
            r == (match self.ticket(worker@) {
                Some(t) => t.ticket.cumulative,
                None => 0,
            }),
    {
        let i: usize = self.find_ticket(worker_key(worker).as_str());
        if i < self.tickets.len() {
            self.tickets[i].1.ticket.cumulative
        } else {
            0
        }
    }

    /// Keeps a ticket as the newest for its worker.
    pub fn keep_ticket(&mut self, worker: &str, ticket: LatestTicket)
        requires
            old(self).wf(),
        ensures
            final(self).wf(),
            final(self).ticket(worker@) == Some(ticket),
            forall|other: Seq<char>|
                key_of(other) != key_of(worker@) ==> final(self).ticket(other)
                    == #[trigger] old(self).ticket(other),
            final(self).jobs@ == old(self).jobs@,
    {
        let key = worker_key(worker);
        let i: usize = self.find_ticket(key.as_str());
        let ghost before = self.tickets@;
        let ghost k_text = key@;
        if i < self.tickets.len() {
            self.tickets.set(i, (key, ticket));
        } else {
            self.tickets.push((key, ticket));
        }
        let ghost after = self.tickets@;
        proof {
            lemma_ticket_place_is(after, k_text, i as int);
            assert forall|other: Seq<char>| key_of(other) != key_of(worker@) implies self.ticket(
                other,
            ) == #[trigger] old(self).ticket(other) by {
                let o = key_of(other);
                lemma_ticket_place(before, o);
                let k = ticket_place(before, o);
                if k < before.len() {
                    lemma_ticket_place_is(after, o, k);
                } else {
                    lemma_ticket_place_is(after, o, after.len() as int);
                }
            }
        }
    }

    /// Notes that an invoice was signed for with a ticket of this total: a
    /// top-up raises what is prepaid and is the new bond, anything else pays
    /// the job.
    pub fn invoice_paid(&mut self, inv: &JobInvoice, cumulative: u64)
        requires
            old(self).wf(),
            old(self).job(inv.job_id) matches Some(j) ==> inv.top_up ==> j.ceiling + inv.amount
                <= j.job_cap,
        ensures
            final(self).wf(),
            final(self).job(inv.job_id) == (match old(self).job(inv.job_id) {
                None => None,
                Some(j) => Some(
                    if inv.top_up {
                        Pending {
                            ceiling: sat_add(j.ceiling, inv.amount),
                            bond: cumulative,
                            ..j
                        }
                    } else {
                        Pending {
                            paid: true,
                            sha256: Some(inv.sha256@),
                            cost: Some(inv.amount),
                            ..j
                        }
                    },
                ),
            }),
            forall|other: u128|
                other != inv.job_id ==> final(self).job(other) == #[trigger] old(self).job(other),
            final(self).tickets@ == old(self).tickets@,
    {
        let i: usize = self.find_job(inv.job_id);
        if i >= self.jobs.len() {
            return;
        }
        let row = &self.jobs[i].1;
        let next = if inv.top_up {
            PendingJob {
                kind: row.kind,
                paid: row.paid,
                sha256: copy_opt(&row.sha256),
                ceiling: plus(row.ceiling, inv.amount),
                job_cap: row.job_cap,
                cost: row.cost,
                model: row.model.clone(),
                peer: row.peer.clone(),
                payout: row.payout.clone(),
                bond: cumulative,
            }
        } else {
            PendingJob {
                kind: row.kind,
                paid: true,
                sha256: Some(inv.sha256.clone()),
                ceiling: row.ceiling,
                job_cap: row.job_cap,
                cost: Some(inv.amount),
                model: row.model.clone(),
                peer: row.peer.clone(),
                payout: row.payout.clone(),
                bond: row.bond,
            }
        };
        self.add_job(inv.job_id, next);
    }

    /// The hash the paid invoice for a job named.
    pub fn expected_sha256(&self, id: u128) -> (r: Option<String>)
        ensures
            opt(r) == (match self.job(id) {
                Some(j) => j.sha256,
                None => None,
            }),
    {
        match self.get(id) {
            Some(j) => copy_opt(&j.sha256),
            None => None,
        }
    }

    /// What the paid invoice for a job billed; none until one is paid.
    pub fn job_cost_micros(&self, id: u128) -> (r: Option<u64>)
        ensures
            r == (match self.job(id) {
                Some(j) => j.cost,
                None => None,
            }),
    {
        match self.get(id) {
            Some(j) => j.cost,
            None => None,
        }
    }

    /// Something signed for has not reached the chain.
    pub fn has_pending(&self) -> (r: bool)
        ensures
            r == exists|i: int|
                0 <= i < self.tickets@.len() && owed(#[trigger] self.tickets@[i].1),
    {
        let mut i: usize = 0;
        while i < self.tickets.len()
            invariant
                i <= self.tickets@.len(),
                forall|k: int| 0 <= k < i ==> !owed(#[trigger] self.tickets@[k].1),
            decreases self.tickets@.len() - i,
        {
            let t = &self.tickets[i].1;
            if t.ticket.cumulative > t.on_chain_paid {
                assert(owed(self.tickets@[i as int].1));
                return true;
            }
            i = i + 1;
        }
        false
    }

    /// The tickets the wallet page shows: the ones not yet on the chain.
    pub fn pending_public(&self) -> (r: Vec<PendingPublic>)
        ensures
            publics(r@) == public_tickets(self.tickets@),
    {
        let mut out: Vec<PendingPublic> = Vec::new();
        let mut i: usize = 0;
        assert(publics(out@) =~= public_tickets(self.tickets@.take(0)));
        while i < self.tickets.len()
            invariant
                i <= self.tickets@.len(),
                publics(out@) == public_tickets(self.tickets@.take(i as int)),
            decreases self.tickets@.len() - i,
        {
            let ghost now = self.tickets@.take(i as int + 1);
            assert(now.drop_last() =~= self.tickets@.take(i as int));
            let t = &self.tickets[i].1;
            if t.ticket.cumulative > t.on_chain_paid {
                let shown = PendingPublic {
                    worker: t.ticket.worker_payout.clone(),
                    cumulative: t.ticket.cumulative,
                    deadline: t.ticket.deadline,
                    sig: concat("0x", hex_encode(t.sig.as_slice()).as_str()),
                };
                let ghost before = out@;
                out.push(shown);
                assert(publics(out@) =~= publics(before).push(shown@));
            }
            i = i + 1;
        }
        assert(self.tickets@.take(i as int) =~= self.tickets@);
        out
    }
}

/// The chain has not yet paid all that was promised.
pub open spec fn owed(t: LatestTicket) -> bool {
    t.ticket.cumulative > t.on_chain_paid
}

/// A ticket as the wallet page shows it.
#[derive(Debug, PartialEq)]
pub struct PendingPublic {
    pub worker: String,
    pub cumulative: u64,
    pub deadline: u64,
    pub sig: String,
}

pub struct Shown {
    pub worker: Seq<char>,
    pub cumulative: u64,
    pub deadline: u64,
    pub sig: Seq<char>,
}

impl View for PendingPublic {
    type V = Shown;

    open spec fn view(&self) -> Shown {
        Shown {
            worker: self.worker@,
            cumulative: self.cumulative,
            deadline: self.deadline,
            sig: self.sig@,
        }
    }
}

pub open spec fn publics(v: Seq<PendingPublic>) -> Seq<Shown> {
    Seq::new(v.len(), |i: int| v[i]@)
}

pub open spec fn public_tickets(tickets: Seq<(String, LatestTicket)>) -> Seq<Shown>
    decreases tickets.len(),
{
    if tickets.len() == 0 {
        seq![]
    } else {
        let rest = public_tickets(tickets.drop_last());
        let t = tickets.last().1;
        if owed(t) {
            rest.push(
                Shown {
                    worker: t.ticket.worker_payout@,
                    cumulative: t.ticket.cumulative,
                    deadline: t.ticket.deadline,
                    sig: "0x"@ + hexed(t.sig@),
                },
            )
        } else {
            rest
        }
    }
}

/// A job that was paid is refused every further invoice.
pub proof fn law_no_job_is_paid_twice(
    job_id: u128,
    inv: JobInvoice,
    job: Pending,
    chunk: u64,
    fair: u64,
    limit: Seq<char>,
)
    requires
        job.paid,
    ensures
        invoice_fault(job_id, inv, Some(job), chunk, fair, limit) is Some,
{
}

} // verus!
