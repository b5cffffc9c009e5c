//! The life of a job: handed to a provider, heard from, kept, and handed on
//! when a provider gives nothing.
use vstd::prelude::*;

use crate::error::{AppError, Trouble};
use crate::json::Tree;
use crate::net::WorkerMessage;
use crate::p2p::P2P_SCHEME;
use crate::pot::wallet::{named_payout, only_zeros};
use crate::protocol::{
    copy_opt, opt, Ask, JobDelta, JobKind, JobPayload, JobResult, JobStatus, LlmParams,
    ModelDescriptor,
};
use crate::results::ResultRecord;
use crate::routing::{answers_to, serves};
use crate::store::{Peer, MOCK_ENDPOINT};
use crate::text::{
    blank, concat, concat3, has_prefix, is_blank, join, joined, lower, same, same_ignoring_case,
    starts_with, texts, trimmed, without_leading,
};

verus! {

broadcast use vstd::string::group_string_axioms;

/// The smallest ceiling worth sending: a reasoning model spends tokens
/// thinking before it writes a word.
pub const MIN_ANSWER_TOKENS: u32 = 8192;

pub const EVENT_JOB_UPDATE: &'static str = "job:update";

pub const EVENT_JOB_RESULT: &'static str = "job:result";

pub const EVENT_JOB_DELTA: &'static str = "job:delta";

pub const EVENT_PEER_UPDATE: &'static str = "peer:update";

pub const EVENT_MESSAGE_NEW: &'static str = "message:new";

// ----------------------------------------------------------------- requests

/// A ceiling a model can think under.
pub open spec fn workable(n: u32) -> u32 {
    if n < MIN_ANSWER_TOKENS {
        MIN_ANSWER_TOKENS
    } else {
        n
    }
}

/// The payload with a ceiling a model can think under.
pub open spec fn with_room(p: JobPayload) -> JobPayload {
    match p {
        JobPayload::Llm(params) => JobPayload::Llm(
            LlmParams { max_tokens: workable(params.max_tokens), ..params },
        ),
        other => other,
    }
}

/// Raises a ceiling too low to think under, and leaves everything else alone.
pub fn with_workable_ceiling(payload: JobPayload) -> (r: JobPayload)
    ensures
        r == with_room(payload),
{
    match payload {
        JobPayload::Llm(mut params) => {
            if params.max_tokens < MIN_ANSWER_TOKENS {
                params.max_tokens = MIN_ANSWER_TOKENS;
            }
            JobPayload::Llm(params)
        },
        other => other,
    }
}

/// No ceiling that is sent is too low to think under, and none is lowered.
pub proof fn law_every_ceiling_is_workable(n: u32)
    ensures
        workable(n) >= MIN_ANSWER_TOKENS,
        workable(n) >= n,
        n >= MIN_ANSWER_TOKENS ==> workable(n) == n,
{
}

/// The same request put to another model: only a text request that names a
/// model names another.
pub open spec fn asked_of(p: JobPayload, model: Seq<char>, r: JobPayload) -> bool {
    match p {
        JobPayload::Llm(params) => match opt(params.model_id) {
            Some(id) if id != model => r matches JobPayload::Llm(q) && q@ == (Ask {
                model_id: Some(model),
                ..params@
            }),
            _ => r == p,
        },
        _ => r == p,
    }
}

/// The same request put to another model.
pub fn for_model(payload: JobPayload, model: &str) -> (r: JobPayload)
    ensures
        asked_of(payload, model@, r),
{
    match payload {
        JobPayload::Llm(mut p) => {
            let other = match &p.model_id {
                Some(id) => !same(id.as_str(), model),
                None => false,
            };
            if other {
                p.model_id = Some(model.to_string());
            }
            JobPayload::Llm(p)
        },
        other => other,
    }
}

/// The request as it leaves: for the model that serves it, with room to think.
pub fn prepared(params: LlmParams, served: &str) -> (r: JobPayload)
    ensures
        r matches JobPayload::Llm(q) && q@ == (Ask {
            model_id: Some(served@),
            max_tokens: workable(params.max_tokens),
            ..params@
        }),
{
    let mut p = params;
    p.model_id = Some(served.to_string());
    with_workable_ceiling(JobPayload::Llm(p))
}

/// What a peer asks for a model: the first it lists that answers to the name,
/// where it asks anything.
pub open spec fn asks_for(models: Seq<ModelDescriptor>, model: Seq<char>) -> Option<u64>
    decreases models.len(),
{
    if models.len() == 0 {
        None
    } else if answers_to(models[0].id@, model) {
        match models[0].price {
            Some(p) if p.micros > 0 => Some(p.micros),
            _ => None,
        }
    } else {
        asks_for(models.drop_first(), model)
    }
}

/// What a peer asks for a model, in millionths; none where it is free.
pub fn asked_price(peer: &Peer, model: &str) -> (r: Option<u64>)
    ensures
        r == asks_for(peer.models@, model@),
{
    let mut i: usize = 0;
    assert(peer.models@.skip(0) =~= peer.models@);
    while i < peer.models.len()
        invariant
            i <= peer.models@.len(),
            asks_for(peer.models@, model@) == asks_for(peer.models@.skip(i as int), model@),
        decreases peer.models@.len() - i,
    {
        let m = &peer.models[i];
        if serves(m, model) {
            return match &m.price {
                Some(p) => if p.micros > 0 {
                    Some(p.micros)
                } else {
                    None
                },
                None => None,
            };
        }
        assert(peer.models@.skip(i as int).drop_first() =~= peer.models@.skip(i as int + 1));
        i = i + 1;
    }
    None
}

/// What is locked before a job goes out.
#[derive(Debug, PartialEq)]
pub enum Lock {
    /// Nothing: the model is free, or there is no pot to lock from.
    Nothing,
    /// Funds at this price, of this client, for this worker.
    Funds { price: u64, client: String, payout: String },
    /// It cannot be locked, which no other provider would mend.
    Refuse(String),
}

/// How a lock that failed is told.
pub fn lock_failed(e: &AppError) -> (r: String)
    ensures
        r@ == "could not lock funds for this job: "@ + e@.words(),
{
    concat("could not lock funds for this job: ", e.message().as_str())
}

/// What a job asks to be locked: nothing where it is free or there is no pot,
/// and otherwise its price for the payout address that the provider names.
pub open spec fn is_lock(
    r: Lock,
    price: Option<u64>,
    payout: Option<Seq<char>>,
    client: Option<Seq<char>>,
    configured: bool,
) -> bool {
    &&& (price is None || client is None || !configured) <==> r is Nothing
    &&& price is Some && client is Some && configured ==> ({
        let named = match payout {
            Some(s) => trimmed(s),
            None => trimmed(""@),
        };
        if only_zeros(without_leading(named, "0x"@)) {
            r matches Lock::Refuse(w) && w@ == "could not lock funds for this job: "@
                + "this provider did not name a payout address"@
        } else {
            r matches Lock::Funds { price: p, client: c, payout: a } && Some(p) == price && Some(c@)
                == client && a@ == named
        }
    })
}

/// What is locked for a job before it goes out. `price` is what the provider
/// asks and `payout` where it wants it; `client` is the wallet that pays, where
/// there is one; `configured` whether there is a chain.
pub fn lock_for(
    price: Option<u64>,
    payout: &Option<String>,
    client: &Option<String>,
    configured: bool,
) -> (r: Lock)
    ensures
        is_lock(r, price, opt(*payout), opt(*client), configured),
{
    let price: u64 = match price {
        Some(p) => p,
        None => {
            return Lock::Nothing;
        },
    };
    match client {
        Some(who) => {
            if !configured {
                return Lock::Nothing;
            }
            match named_payout(payout) {
                Ok(payout) => Lock::Funds { price, client: who.clone(), payout },
                Err(e) => Lock::Refuse(lock_failed(&e)),
            }
        },
        None => Lock::Nothing,
    }
}

/// How a peer is reached.
#[derive(Debug, Clone, Copy, PartialEq, Eq, Structural)]
pub enum Route {
    /// It runs in this process.
    InProcess,
    /// Over the network, by its key.
    Network,
    /// Over the network, by an address the node has to be told.
    Address,
    /// Over a socket.
    Socket,
}

pub open spec fn route_of(endpoint: Seq<char>) -> Route {
    if endpoint == MOCK_ENDPOINT@ {
        Route::InProcess
    } else if starts_with(endpoint, "/"@) {
        Route::Address
    } else if starts_with(endpoint, P2P_SCHEME@) {
        Route::Network
    } else {
        Route::Socket
    }
}

/// How a peer is reached.
pub fn route_for(peer: &Peer) -> (r: Route)
    ensures
        r == route_of(peer.endpoint@),
{
    if peer.is_mock() {
        Route::InProcess
    } else if has_prefix(peer.endpoint.as_str(), "/") {
        Route::Address
    } else if has_prefix(peer.endpoint.as_str(), P2P_SCHEME) {
        Route::Network
    } else {
        Route::Socket
    }
}

/// A peer that says what it can do does only that.
pub open spec fn can_run(caps: Seq<Seq<char>>, kind: JobKind) -> bool {
    caps.len() == 0 || caps.contains(kind.name())
}

/// How a job of a kind that the peer does not advertise is refused.
pub open spec fn refused_kind(peer: Peer, kind: JobKind) -> Trouble {
    Trouble::Invalid(
        "peer '"@ + peer.label@ + "' advertises ["@ + joined(texts(peer.caps@), ", "@)
            + "] and cannot run "@ + kind.name() + " jobs"@,
    )
}

/// Refuses a job of a kind that the peer does not advertise.
pub fn check_caps(peer: &Peer, kind: JobKind) -> (r: Result<(), AppError>)
    ensures
        match r {
            Ok(_) => can_run(texts(peer.caps@), kind),
            Err(e) => !can_run(texts(peer.caps@), kind) && e@ == refused_kind(*peer, kind),
        },
{
    if peer.caps.len() == 0 {
        return Ok(());
    }
    let mut i: usize = 0;
    while i < peer.caps.len()
        invariant
            i <= peer.caps@.len(),
            forall|k: int| 0 <= k < i ==> (#[trigger] peer.caps@[k])@ != kind.name(),
        decreases peer.caps@.len() - i,
    {
        if same(peer.caps[i].as_str(), kind.as_str()) {
            assert(texts(peer.caps@)[i as int] == kind.name());
            return Ok(());
        }
        i = i + 1;
    }
    let mut text = concat3("peer '", peer.label.as_str(), "' advertises [");
    text.append(join(&peer.caps, ", ").as_str());
    text.append("] and cannot run ");
    text.append(kind.as_str());
    text.append(" jobs");
    Err(AppError::Invalid(text))
}

// ----------------------------------------------------------------- attempts

/// One provider's try at a job.
#[derive(Debug, PartialEq)]
pub struct Attempt {
    pub job_id: u128,
    /// Something reached the user; what follows is the job's verdict, and no
    /// longer only this provider's.
    pub spoke: bool,
    /// The job has reached its end.
    pub terminal: bool,
}

/// How one provider's try ended.
#[derive(Debug, PartialEq)]
pub enum Outcome {
    /// The job reached an end that was kept.
    Settled,
    /// The provider gave nothing: somebody else can have the job.
    Nothing(String),
}

/// A result that is no answer: no words and no tool calls.
pub open spec fn is_hollow(r: JobResult) -> bool {
    &&& r.kind == JobKind::Llm
    &&& match opt(r.text) {
        Some(t) => blank(t),
        None => true,
    }
    &&& r.tool_calls@.len() == 0
}

/// Why a message means that the provider gave nothing, if it means that: it
/// never does once something reached the user, nor once the job has reached
/// its end.
pub open spec fn gave_nothing(a: Attempt, m: WorkerMessage) -> Option<Seq<char>> {
    let job_id = a.job_id;
    if a.spoke || a.terminal {
        None
    } else {
        match m {
            WorkerMessage::JobStatus(s) if s.job_id == job_id && s.status == JobStatus::Failed => Some(
                match opt(s.error) {
                    Some(why) => why,
                    None => "the provider failed without saying why"@,
                },
            ),
            WorkerMessage::JobResult(r) if r.job_id == job_id && is_hollow(r) => Some(
                "the provider returned no answer"@,
            ),
            _ => None,
        }
    }
}

/// A message that reached the user.
pub open spec fn speaks(job_id: u128, m: WorkerMessage) -> bool {
    m matches WorkerMessage::JobDelta(d) && d.job_id == job_id && !d.says_nothing()
}

impl Attempt {
    pub fn new(job_id: u128) -> (r: Attempt)
        ensures
            r.job_id == job_id && !r.spoke && !r.terminal,
    {
        Attempt { job_id, spoke: false, terminal: false }
    }

    /// Hears a message. Where it means that the provider gave nothing, the try
    /// is over, and this is why.
    pub fn hear(&mut self, m: &WorkerMessage) -> (r: Option<String>)
        ensures
            final(self).job_id == old(self).job_id,
            final(self).terminal == old(self).terminal,
            final(self).spoke == (old(self).spoke || speaks(old(self).job_id, *m)),
            opt(r) == gave_nothing(*old(self), *m),
    {
        match m {
            WorkerMessage::JobDelta(d) => {
                if d.job_id == self.job_id && !d.is_empty() {
                    self.spoke = true;
                }
                None
            },
            WorkerMessage::JobStatus(s) => {
                if s.job_id == self.job_id && s.status == JobStatus::Failed && !self.spoke
                    && !self.terminal {
                    return match &s.error {
                        Some(why) => Some(why.clone()),
                        None => Some("the provider failed without saying why".to_string()),
                    };
                }
                None
            },
            WorkerMessage::JobResult(r) => {
                if r.job_id == self.job_id && !self.spoke && !self.terminal && r.kind
                    == JobKind::Llm && r.tool_calls.len() == 0 {
                    let empty = match &r.text {
                        Some(t) => is_blank(t.as_str()),
                        None => true,
                    };
                    if empty {
                        return Some("the provider returned no answer".to_string());
                    }
                }
                None
            },
            _ => None,
        }
    }

    /// How the try is judged once the stream is over. `ended` is why the
    /// connection failed, if it did; `open` whether the job as it is kept
    /// still waits for an end. The second part is why the job failed, where it
    /// is to be marked as failed.
    pub fn conclude(&self, ended: Option<String>, open: bool) -> (r: (Outcome, Option<String>))
        ensures
            ({
                let why = match opt(ended) {
                    Some(w) => Some(w),
                    None => if open {
                        Some("peer ended the stream without a final status"@)
                    } else {
                        None
                    },
                };
                if self.terminal || why is None {
                    r.0 == Outcome::Settled && r.1 is None
                } else if self.spoke {
                    r.0 == Outcome::Settled && opt(r.1) == why
                } else {
                    r.0 matches Outcome::Nothing(w) && Some(w@) == why && r.1 is None
                }
            }),
    {
        if self.terminal {
            return (Outcome::Settled, None);
        }
        let why = match ended {
            Some(w) => Some(w),
            None => if open {
                Some("peer ended the stream without a final status".to_string())
            } else {
                None
            },
        };
        match why {
            None => (Outcome::Settled, None),
            Some(w) => if self.spoke {
                (Outcome::Settled, Some(w))
            } else {
                (Outcome::Nothing(w), None)
            },
        }
    }
}

/// A job whose provider said something is not handed on, whatever comes after.
pub proof fn law_a_job_that_spoke_is_not_handed_on(a: Attempt, m: WorkerMessage)
    requires
        a.spoke,
    ensures
        gave_nothing(a, m) is None,
{
}

/// A job that has reached its end is not handed on: what was kept of it stays
/// its verdict.
pub proof fn law_an_ended_job_is_not_handed_on(a: Attempt, m: WorkerMessage)
    requires
        a.terminal,
    ensures
        gave_nothing(a, m) is None,
{
}

/// What becomes of a job after a try.
#[derive(Debug, PartialEq)]
pub enum Next {
    /// It is over.
    Over,
    /// It failed, for this reason.
    Fail(String),
    /// It goes to the fallback at this place.
    Retry(usize),
}

/// What follows on a try: nothing where it ended the job, a failure where the
/// job was told to stop or nobody is left, and otherwise the first fallback
/// that is still known.
pub open spec fn follows(r: Next, outcome: Outcome, stop_asked: bool, known: Seq<bool>) -> bool {
    match outcome {
        Outcome::Settled => r == Next::Over,
        Outcome::Nothing(why) => if stop_asked || !known.contains(true) {
            r == Next::Fail(why)
        } else {
            r matches Next::Retry(i) && i < known.len() && known[i as int] && forall|k: int|
                0 <= k < i ==> !#[trigger] known[k]
        },
    }
}

/// What becomes of a job after a try. `known` says of each fallback that is
/// left whether the peer is still known.
pub fn after_attempt(outcome: Outcome, stop_asked: bool, known: &Vec<bool>) -> (r: Next)
    ensures
        follows(r, outcome, stop_asked, known@),
{
    match outcome {
        Outcome::Settled => Next::Over,
        Outcome::Nothing(why) => {
            if stop_asked {
                return Next::Fail(why);
            }
            let mut i: usize = 0;
            while i < known.len()
                invariant
                    i <= known@.len(),
                    outcome == Outcome::Nothing(why),
                    !stop_asked,
                    forall|k: int| 0 <= k < i ==> !#[trigger] known@[k],
                decreases known@.len() - i,
            {
                if known[i] {
                    assert(known@[i as int]);
                    assert(known@.contains(true));
                    return Next::Retry(i);
                }
                i = i + 1;
            }
            Next::Fail(why)
        },
    }
}

// ----------------------------------------------------------------- messages

/// What keeping a message takes.
#[derive(Debug, PartialEq)]
pub enum Apply {
    /// Nothing.
    Ignore,
    /// The job has come this far.
    Status { status: JobStatus, progress: u32, error: Option<String> },
    /// The result is to be kept.
    Result,
    /// A piece of text is to be shown, and not kept.
    Delta,
}

impl Apply {
    /// The job is over once this is kept.
    pub open spec fn ends(self) -> bool {
        match self {
            Apply::Status { status, progress, error } => status.terminal(),
            Apply::Result => true,
            _ => false,
        }
    }

    pub fn is_terminal(&self) -> (r: bool)
        ensures
            r == self.ends(),
    {
        match self {
            Apply::Status { status, progress, error } => status.is_terminal(),
            Apply::Result => true,
            _ => false,
        }
    }
}

/// A result goes against the invoice that was paid for it.
pub open spec fn breaks_invoice(expected: Option<Seq<char>>, claimed: Seq<char>) -> bool {
    match expected {
        Some(e) => e.len() > 0 && lower(e) != lower(claimed),
        None => false,
    }
}

/// What is done with a message of a worker: it is kept where it is about this
/// job, and a result only where it has the hash that was paid for.
pub open spec fn is_applied(
    r: Result<Apply, AppError>,
    job_id: u128,
    m: WorkerMessage,
    expected: Option<Seq<char>>,
) -> bool {
    match m {
        WorkerMessage::JobStatus(s) => if s.job_id != job_id {
            r == Ok::<Apply, AppError>(Apply::Ignore)
        } else {
            r matches Ok(Apply::Status { status, progress, error }) && status == s.status
                && progress == s.progress && opt(error) == opt(s.error)
        },
        WorkerMessage::JobResult(q) => if q.job_id != job_id {
            r == Ok::<Apply, AppError>(Apply::Ignore)
        } else if breaks_invoice(expected, q.sha256@) {
            r matches Err(e) && e@ == Trouble::Invalid(
                "result hash does not match the invoice this job paid"@,
            )
        } else {
            r == Ok::<Apply, AppError>(Apply::Result)
        },
        WorkerMessage::JobDelta(d) => r == Ok::<Apply, AppError>(
            if d.job_id != job_id || d.says_nothing() {
                Apply::Ignore
            } else {
                Apply::Delta
            },
        ),
        _ => r == Ok::<Apply, AppError>(Apply::Ignore),
    }
}

/// What keeping a message takes. `expected` is the hash that the paid invoice
/// named, if one was paid.
pub fn apply_message(job_id: u128, m: &WorkerMessage, expected: &Option<String>) -> (r: Result<
    Apply,
    AppError,
>)
    ensures
        is_applied(r, job_id, *m, opt(*expected)),
{
    match m {
        WorkerMessage::JobStatus(s) => {
            if s.job_id != job_id {
                return Ok(Apply::Ignore);
            }
            Ok(
                Apply::Status {
                    status: s.status,
                    progress: s.progress,
                    error: copy_opt(&s.error),
                },
            )
        },
        WorkerMessage::JobResult(q) => {
            if q.job_id != job_id {
                return Ok(Apply::Ignore);
            }
            if let Some(e) = expected {
                if !e.as_str().is_empty() && !same_ignoring_case(e.as_str(), q.sha256.as_str()) {
                    return Err(
                        AppError::Invalid(
                            "result hash does not match the invoice this job paid".to_string(),
                        ),
                    );
                }
            }
            Ok(Apply::Result)
        },
        WorkerMessage::JobDelta(d) => {
            if d.job_id != job_id || d.is_empty() {
                return Ok(Apply::Ignore);
            }
            Ok(Apply::Delta)
        },
        _ => Ok(Apply::Ignore),
    }
}

/// A message about another job changes nothing of this one.
pub proof fn law_other_jobs_change_nothing(job_id: u128, m: WorkerMessage)
    requires
        m.job() matches Some(id) && id != job_id,
    ensures
        forall|a: Attempt| a.job_id == job_id ==> #[trigger] gave_nothing(a, m) is None,
        !speaks(job_id, m),
{
}

// ------------------------------------------------------------------ replies

/// A reply to be filed into the conversation that asked for it.
#[derive(Debug, PartialEq)]
pub struct Reply {
    pub conversation_id: String,
    pub content: String,
    pub sha256: String,
    pub model: String,
    pub peer: String,
    pub tokens: Option<u64>,
    pub cost_micros: Option<u64>,
    pub thinking: Option<String>,
}

/// How many tokens a result reports in all, or else for the answer.
pub open spec fn reported_total(meta: Tree) -> Option<u64> {
    match meta.number_at("total_tokens"@) {
        Some(n) => Some(n),
        None => meta.number_at("completion_tokens"@),
    }
}

/// The reply a finished job files, where it belongs to a conversation. A
/// picture has no words, and is filed all the same.
pub fn file_reply(
    conversation: &Option<String>,
    job_model: &str,
    peer_label: &str,
    result: &ResultRecord,
    cost: Option<u64>,
    thinking: &Option<String>,
) -> (r: Option<Reply>)
    ensures
        match (opt(*conversation), r) {
            (None, None) => true,
            (Some(c), Some(m)) => {
                &&& m.conversation_id@ == c
                &&& m.content@ == (match opt(result.text) {
                    Some(t) => t,
                    None => seq![],
                })
                &&& m.sha256@ == result.sha256@
                &&& m.model@ == (match result.meta@.text_at("model"@) {
                    Some(t) => t,
                    None => job_model@,
                })
                &&& m.peer@ == peer_label@
                &&& m.tokens == reported_total(result.meta@)
                &&& m.cost_micros == cost
                &&& opt(m.thinking) == opt(*thinking)
            },
            _ => false,
        },
{
    let conversation_id = match conversation {
        Some(c) => c.clone(),
        None => {
            return None;
        },
    };
    let content = match &result.text {
        Some(t) => t.clone(),
        None => String::new(),
    };
    let model = match result.meta.text_at("model") {
        Some(t) => t.clone(),
        None => job_model.to_string(),
    };
    let total: Option<u64> = result.meta.number_at("total_tokens");
    let tokens: Option<u64> = if total.is_some() {
        total
    } else {
        result.meta.number_at("completion_tokens")
    };
    Some(
        Reply {
            conversation_id,
            content,
            sha256: result.sha256.clone(),
            model,
            peer: peer_label.to_string(),
            tokens,
            cost_micros: cost,
            thinking: copy_opt(thinking),
        },
    )
}

} // verus!
