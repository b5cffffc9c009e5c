//! What travels between this client and a worker.
use vstd::prelude::*;

use crate::json::{Json, Tree};
use crate::text::texts;

verus! {

broadcast use vstd::string::group_string_axioms;

/// The text of an optional string.
pub open spec fn opt(o: Option<String>) -> Option<Seq<char>> {
    match o {
        Some(s) => Some(s@),
        None => None,
    }
}

pub fn copy_opt(o: &Option<String>) -> (r: Option<String>)
    ensures
        opt(r) == opt(*o),
{
    match o {
        Some(s) => Some(s.clone()),
        None => None,
    }
}

pub fn copy_texts(v: &Vec<String>) -> (w: Vec<String>)
    ensures
        texts(w@) == texts(v@),
{
    let mut w: Vec<String> = Vec::new();
    let mut i: usize = 0;
    while i < v.len()
        invariant
            i <= v@.len(),
            w@.len() == i,
            forall|k: int| 0 <= k < i ==> (#[trigger] w@[k])@ == v@[k]@,
        decreases v@.len() - i,
    {
        w.push(v[i].clone());
        i = i + 1;
    }
    assert(texts(w@) =~= texts(v@));
    w
}

// ------------------------------------------------------------------- chat

/// A tool the model asked to have run, its arguments as JSON text.
#[derive(Debug, PartialEq)]
pub struct ToolCall {
    pub id: String,
    pub name: String,
    pub arguments: String,
}

/// What a tool call says.
pub struct Call {
    pub id: Seq<char>,
    pub name: Seq<char>,
    pub arguments: Seq<char>,
}

impl View for ToolCall {
    type V = Call;

    open spec fn view(&self) -> Call {
        Call { id: self.id@, name: self.name@, arguments: self.arguments@ }
    }
}

impl ToolCall {
    pub fn copy(&self) -> (r: ToolCall)
        ensures
            r@ == self@,
    {
        ToolCall {
            id: self.id.clone(),
            name: self.name.clone(),
            arguments: self.arguments.clone(),
        }
    }
}

pub open spec fn calls(v: Seq<ToolCall>) -> Seq<Call> {
    Seq::new(v.len(), |i: int| v[i]@)
}

pub fn copy_calls(v: &Vec<ToolCall>) -> (w: Vec<ToolCall>)
    ensures
        calls(w@) == calls(v@),
{
    let mut w: Vec<ToolCall> = Vec::new();
    let mut i: usize = 0;
    while i < v.len()
        invariant
            i <= v@.len(),
            w@.len() == i,
            forall|k: int| 0 <= k < i ==> (#[trigger] w@[k])@ == v@[k]@,
        decreases v@.len() - i,
    {
        w.push(v[i].copy());
        i = i + 1;
    }
    assert(calls(w@) =~= calls(v@));
    w
}

/// A tool the model may call, with the JSON schema of its arguments.
#[derive(Debug, PartialEq)]
pub struct ToolDef {
    pub name: String,
    pub description: Option<String>,
    pub input_schema: Json,
}

/// What a tool definition says.
pub struct Tool {
    pub name: Seq<char>,
    pub description: Option<Seq<char>>,
    pub schema: Tree,
}

impl View for ToolDef {
    type V = Tool;

    open spec fn view(&self) -> Tool {
        Tool { name: self.name@, description: opt(self.description), schema: self.input_schema@ }
    }
}

pub open spec fn tools(v: Seq<ToolDef>) -> Seq<Tool> {
    Seq::new(v.len(), |i: int| v[i]@)
}

/// One message of a conversation. Pictures are `data:` URLs.
#[derive(Debug, PartialEq)]
pub struct ChatMessage {
    pub role: String,
    pub content: String,
    pub tool_calls: Vec<ToolCall>,
    pub tool_call_id: Option<String>,
    pub images: Vec<String>,
}

/// What a message says.
pub struct Turn {
    pub role: Seq<char>,
    pub content: Seq<char>,
    pub calls: Seq<Call>,
    pub call_id: Option<Seq<char>>,
    pub images: Seq<Seq<char>>,
}

impl View for ChatMessage {
    type V = Turn;

    open spec fn view(&self) -> Turn {
        Turn {
            role: self.role@,
            content: self.content@,
            calls: calls(self.tool_calls@),
            call_id: opt(self.tool_call_id),
            images: texts(self.images@),
        }
    }
}

pub open spec fn turns(v: Seq<ChatMessage>) -> Seq<Turn> {
    Seq::new(v.len(), |i: int| v[i]@)
}

impl Turn {
    /// Words and nothing else.
    pub open spec fn plain(role: Seq<char>, content: Seq<char>) -> Turn {
        Turn { role, content, calls: seq![], call_id: None, images: seq![] }
    }
}

impl ChatMessage {
    /// A message of words and nothing else.
    pub fn new(role: &str, content: String) -> (r: ChatMessage)
        ensures
            r@ == Turn::plain(role@, content@),
    {
        let r = ChatMessage {
            role: role.to_string(),
            content,
            tool_calls: Vec::new(),
            tool_call_id: None,
            images: Vec::new(),
        };
        assert(r@.calls =~= seq![]);
        assert(r@.images =~= seq![]);
        r
    }

    pub fn copy(&self) -> (r: ChatMessage)
        ensures
            r@ == self@,
    {
        ChatMessage {
            role: self.role.clone(),
            content: self.content.clone(),
            tool_calls: copy_calls(&self.tool_calls),
            tool_call_id: copy_opt(&self.tool_call_id),
            images: copy_texts(&self.images),
        }
    }
}

pub proof fn lemma_turns_push(v: Seq<ChatMessage>, m: ChatMessage)
    ensures
        turns(v.push(m)) == turns(v).push(m@),
{
    assert(turns(v.push(m)) =~= turns(v).push(m@));
}

/// A request for a chat completion. `temperature` is the bit pattern of a
/// single-precision number, so zero is 0.
#[derive(Debug, PartialEq)]
pub struct LlmParams {
    pub model_hash: Option<String>,
    pub model_id: Option<String>,
    pub messages: Vec<ChatMessage>,
    pub tools: Vec<ToolDef>,
    pub max_tokens: u32,
    pub temperature: u32,
}

/// What a chat completion request says.
pub struct Ask {
    pub model_hash: Option<Seq<char>>,
    pub model_id: Option<Seq<char>>,
    pub messages: Seq<Turn>,
    pub tools: Seq<Tool>,
    pub max_tokens: u32,
    pub temperature: u32,
}

impl View for LlmParams {
    type V = Ask;

    open spec fn view(&self) -> Ask {
        Ask {
            model_hash: opt(self.model_hash),
            model_id: opt(self.model_id),
            messages: turns(self.messages@),
            tools: tools(self.tools@),
            max_tokens: self.max_tokens,
            temperature: self.temperature,
        }
    }
}

// ------------------------------------------------------------------ models

/// What kind of work a model does.
#[derive(Debug, Clone, Copy, PartialEq, Eq, Structural)]
pub enum JobKind {
    Llm,
    Image,
    Video,
}

impl JobKind {
    /// Its name on the wire.
    pub open spec fn name(self) -> Seq<char> {
        match self {
            JobKind::Llm => "llm"@,
            JobKind::Image => "image"@,
            JobKind::Video => "video"@,
        }
    }

    pub fn as_str(self) -> (r: &'static str)
        ensures
            r@ == self.name(),
    {
        match self {
            JobKind::Llm => "llm",
            JobKind::Image => "image",
            JobKind::Video => "video",
        }
    }
}

/// What a worker asks: per million tokens for text, per picture for images.
/// Held in millionths of the currency.
#[derive(Debug, PartialEq)]
pub struct Price {
    pub micros: u64,
    pub currency: String,
}

/// An amount as it is listed: cents, rounded up.
pub open spec fn cents(micros: u64) -> u64 {
    if micros % 10_000 == 0 {
        micros / 10_000
    } else {
        (micros / 10_000 + 1) as u64
    }
}

impl Price {
    /// A price in dollars.
    pub fn new(micros: u64) -> (r: Price)
        ensures
            r.micros == micros,
            r.currency@ == "USD"@,
    {
        Price { micros, currency: "USD".to_string() }
    }

    pub fn is_free(&self) -> (r: bool)
        ensures
            r == (self.micros == 0),
    {
        self.micros == 0
    }
}

/// A model a worker serves. What it offers for video is carried as it was
/// announced.
#[derive(Debug, PartialEq)]
pub struct ModelDescriptor {
    pub id: String,
    pub sha256: Option<String>,
    pub kind: JobKind,
    pub price: Option<Price>,
    pub video: Option<Json>,
}

impl ModelDescriptor {
    /// The listed price in cents; nothing asked is nothing.
    pub open spec fn listed(self) -> u64 {
        match self.price {
            Some(p) => cents(p.micros),
            None => 0,
        }
    }

    pub open spec fn currency(self) -> Seq<char> {
        match self.price {
            Some(p) => p.currency@,
            None => "USD"@,
        }
    }

    /// Nobody named a price, or the price named is nothing.
    pub open spec fn unpriced(self) -> bool {
        match self.price {
            Some(p) => p.micros == 0,
            None => true,
        }
    }

    pub fn amount(&self) -> (r: u64)
        ensures
            r == self.listed(),
    {
        match &self.price {
            Some(p) => if p.micros % 10_000 == 0 {
                p.micros / 10_000
            } else {
                p.micros / 10_000 + 1
            },
            None => 0,
        }
    }

    pub fn currency_text(&self) -> (r: String)
        ensures
            r@ == self.currency(),
    {
        match &self.price {
            Some(p) => p.currency.clone(),
            None => "USD".to_string(),
        }
    }

    pub fn is_unpriced(&self) -> (r: bool)
        ensures
            r == self.unpriced(),
    {
        match &self.price {
            Some(p) => p.is_free(),
            None => true,
        }
    }
}

/// A listed price is never below what is asked, and less than a cent above.
pub proof fn law_listed_prices_round_up(micros: u64)
    ensures
        cents(micros) * 10_000 >= micros,
        cents(micros) * 10_000 < micros + 10_000,
        cents(micros) == 0 <==> micros == 0,
{
}

// ------------------------------------------------------------------- usage

/// Tokens one job used.
#[derive(Debug, Clone, Copy, PartialEq, Eq, Structural)]
pub struct TokenUsage {
    pub prompt: u64,
    pub completion: u64,
    pub cached: u64,
    pub reasoning: u64,
}

/// The worker's own count in a result's `meta`, when it gave both the prompt
/// and the completion.
pub open spec fn reported(meta: Tree) -> Option<TokenUsage> {
    match (meta.number_at("prompt_tokens"@), meta.number_at("completion_tokens"@)) {
        (Some(prompt), Some(completion)) => Some(
            TokenUsage {
                prompt,
                completion,
                cached: or_zero(meta.number_at("cached_tokens"@)),
                reasoning: or_zero(meta.number_at("reasoning_tokens"@)),
            },
        ),
        _ => None,
    }
}

pub open spec fn or_zero(n: Option<u64>) -> u64 {
    match n {
        Some(n) => n,
        None => 0,
    }
}

/// The larger of two counts.
pub open spec fn more(a: u64, b: u64) -> u64 {
    if a < b {
        b
    } else {
        a
    }
}

impl TokenUsage {
    /// A count of our own, raised to the worker's where that is higher. Cache
    /// hits are the worker's to report, as a part of the prompt.
    pub open spec fn reconciled(self, claim: Option<TokenUsage>) -> TokenUsage {
        match claim {
            None => self,
            Some(c) => TokenUsage {
                prompt: more(self.prompt, c.prompt),
                completion: more(self.completion, c.completion),
                cached: if c.cached <= more(self.prompt, c.prompt) {
                    c.cached
                } else {
                    more(self.prompt, c.prompt)
                },
                reasoning: more(self.reasoning, c.reasoning),
            },
        }
    }

    pub fn from_meta(meta: &Json) -> (r: Option<TokenUsage>)
        ensures
            r == reported(meta@),
    {
        match (meta.number_at("prompt_tokens"), meta.number_at("completion_tokens")) {
            (Some(prompt), Some(completion)) => Some(
                TokenUsage {
                    prompt,
                    completion,
                    cached: meta.number_at("cached_tokens").unwrap_or(0),
                    reasoning: meta.number_at("reasoning_tokens").unwrap_or(0),
                },
            ),
            _ => None,
        }
    }

    pub fn reconcile(self, claim: Option<TokenUsage>) -> (r: TokenUsage)
        ensures
            r == self.reconciled(claim),
    {
        match claim {
            None => self,
            Some(c) => {
                let prompt: u64 = if self.prompt < c.prompt {
                    c.prompt
                } else {
                    self.prompt
                };
                TokenUsage {
                    prompt,
                    completion: if self.completion < c.completion {
                        c.completion
                    } else {
                        self.completion
                    },
                    cached: if c.cached <= prompt {
                        c.cached
                    } else {
                        prompt
                    },
                    reasoning: if self.reasoning < c.reasoning {
                        c.reasoning
                    } else {
                        self.reasoning
                    },
                }
            },
        }
    }
}

/// However little a worker admits to, the bill is never below what was
/// counted here, and never below what the worker itself reported. What it says
/// was cached is a part of the prompt.
pub proof fn law_bill_covers_both_counts(ours: TokenUsage, claim: TokenUsage)
    ensures
        ours.reconciled(Some(claim)).prompt >= ours.prompt,
        ours.reconciled(Some(claim)).prompt >= claim.prompt,
        ours.reconciled(Some(claim)).completion >= ours.completion,
        ours.reconciled(Some(claim)).completion >= claim.completion,
        ours.reconciled(Some(claim)).cached <= ours.reconciled(Some(claim)).prompt,
        claim.cached <= claim.prompt ==> ours.reconciled(Some(claim)).cached == claim.cached,
{
}


// ------------------------------------------------------------------ results

/// What a worker sends when a job is done. A job is named by the number its
/// id writes.
#[derive(Debug, PartialEq)]
pub struct JobResult {
    pub job_id: u128,
    pub kind: JobKind,
    /// The worker's claim of what the bytes hash to.
    pub sha256: String,
    pub text: Option<String>,
    /// A picture or a film as base64; a path only ever from this process.
    pub image_path_or_b64: Option<String>,
    pub tool_calls: Vec<ToolCall>,
    pub thinking: Option<String>,
    pub meta: Json,
}

/// How far a job has come.
#[derive(Debug, Clone, Copy, PartialEq, Eq, Structural)]
pub enum JobStatus {
    Queued,
    Running,
    Done,
    Failed,
}

impl JobStatus {
    /// Nothing more will come of it.
    pub open spec fn terminal(self) -> bool {
        self == JobStatus::Done || self == JobStatus::Failed
    }

    pub fn is_terminal(self) -> (r: bool)
        ensures
            r == self.terminal(),
    {
        self == JobStatus::Done || self == JobStatus::Failed
    }
}


// ---------------------------------------------------------------- payloads

/// A request for a picture. `change` is the bit pattern of a single-precision
/// number.
#[derive(Debug, PartialEq)]
pub struct ImageParams {
    pub model_hash: Option<String>,
    pub checkpoint_id: Option<String>,
    pub prompt: String,
    /// A picture to start from, as base64.
    pub from_image: Option<String>,
    pub change: Option<u32>,
    pub mask: Option<String>,
}

/// A request for a film.
#[derive(Debug, PartialEq)]
pub struct VideoParams {
    pub checkpoint_id: Option<String>,
    pub prompt: String,
    pub from_image: Option<String>,
}

/// What a job asks for.
#[derive(Debug, PartialEq)]
pub enum JobPayload {
    Llm(LlmParams),
    Image(ImageParams),
    Video(VideoParams),
}

impl JobPayload {
    pub open spec fn job_kind(self) -> JobKind {
        match self {
            JobPayload::Llm(_) => JobKind::Llm,
            JobPayload::Image(_) => JobKind::Image,
            JobPayload::Video(_) => JobKind::Video,
        }
    }

    pub fn kind(&self) -> (r: JobKind)
        ensures
            r == self.job_kind(),
    {
        match self {
            JobPayload::Llm(_) => JobKind::Llm,
            JobPayload::Image(_) => JobKind::Image,
            JobPayload::Video(_) => JobKind::Video,
        }
    }
}

// ---------------------------------------------------------------- messages

/// How far a job has come. `progress` is the bit pattern of a
/// single-precision number.
#[derive(Debug, PartialEq)]
pub struct JobStatusUpdate {
    pub job_id: u128,
    pub status: JobStatus,
    pub progress: u32,
    pub error: Option<String>,
}

/// A piece of an answer, or of the thinking before it.
#[derive(Debug, PartialEq)]
pub struct JobDelta {
    pub job_id: u128,
    pub text: String,
    pub thinking: String,
}

impl JobDelta {
    pub open spec fn says_nothing(self) -> bool {
        self.text@.len() == 0 && self.thinking@.len() == 0
    }

    pub fn is_empty(&self) -> (r: bool)
        ensures
            r == self.says_nothing(),
    {
        self.text.as_str().is_empty() && self.thinking.as_str().is_empty()
    }
}

/// What a worker says of itself.
#[derive(Debug, PartialEq)]
pub struct PeerAnnounce {
    pub peer_id: String,
    pub label: Option<String>,
    pub country: Option<String>,
    pub payout: Option<String>,
    pub caps: Vec<String>,
    pub models: Vec<ModelDescriptor>,
    pub max_concurrent: u32,
}

} // verus!
