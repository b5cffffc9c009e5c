//! Serving a request: who answers it, what counts as an answer, and how a
//! refusal reads.
use vstd::prelude::*;
use vstd::string::StringSliceAdditionalSpecFns;
use vstd::utf8::encode_utf8;

use crate::codec::{sha256_of_text, sha256_text};
use crate::error::{AppError, Trouble};
use crate::gateway::answer::{usage_of, Answer, Reply, Usage};
use crate::gateway::anthropic::{
    anthropic_body, anthropic_error, anthropic_message, anthropic_refusal,
};
use crate::gateway::inbound::{
    any_asks, any_not_system, chat_ask, openai_turns, AnthropicRequest, ChatRequest, OpenAiRequest,
    ResponsesRequest, Shape,
};
use crate::gateway::openai::{completion_body, openai_completion, openai_error, openai_refusal};
use crate::gateway::responses::{openai_response, response_body, responses_error};
use crate::gateway::thinking::{answer_part, peel_thinking};
use crate::json::{trees, Json, Tree};
use crate::net::WorkerMessage;
use crate::jobs::{prepared, workable};
use crate::protocol::{
    calls, copy_calls, copy_opt, opt, reported, Ask, JobKind, JobPayload, JobResult, JobStatus,
    ModelDescriptor, TokenUsage,
};
use crate::results::hash_fault;
use crate::routing::{
    covers, is_served, lemma_offered_by_a_peer, listed_in_order, model_options, offered,
    offers, on_offer, provider_for, stands_for, ModelOption,
};
use crate::store::peers::knows_id;
use crate::store::{Db, Peer};
use crate::text::{concat, concat3, join, joined, lower, same, same_ignoring_case, texts};

verus! {

broadcast use vstd::string::group_string_axioms;

// ---------------------------------------------------------------- refusals

/// A refusal, in the shape the client speaks: a client parses errors as
/// strictly as it parses successes.
#[derive(Debug, PartialEq)]
pub struct Failure {
    /// The HTTP status.
    pub status: u16,
    pub kind: &'static str,
    pub message: String,
    pub shape: Shape,
}

impl Failure {
    pub open spec fn says(self, shape: Shape, status: u16, kind: Seq<char>, message: Seq<char>) -> bool {
        &&& self.shape == shape
        &&& self.status == status
        &&& self.kind@ == kind
        &&& self.message@ == message
    }

    /// The body of the refusal.
    pub fn body(&self) -> (r: Json)
        ensures
            r@ == (match self.shape {
                Shape::Anthropic => anthropic_refusal(self.kind@, self.message@),
                _ => openai_refusal(self.kind@, self.message@),
            }),
    {
        match self.shape {
            Shape::Anthropic => anthropic_error(self.kind, self.message.as_str()),
            Shape::OpenAi => openai_error(self.kind, self.message.as_str()),
            Shape::Responses => responses_error(self.kind, self.message.as_str()),
        }
    }
}

/// The status and the kind a failure is reported under.
pub open spec fn class_of(e: Trouble) -> (u16, Seq<char>) {
    match e {
        Trouble::NotFound(_) => (404, "not_found_error"@),
        Trouble::Invalid(_) => (400, "invalid_request_error"@),
        _ => (502, "api_error"@),
    }
}

pub fn classify(e: &AppError) -> (r: (u16, &'static str))
    ensures
        (r.0, r.1@) == class_of(e@),
{
    match e {
        AppError::NotFound(_) => (404, "not_found_error"),
        AppError::Invalid(_) => (400, "invalid_request_error"),
        _ => (502, "api_error"),
    }
}

/// How a failure reads to the client.
pub fn refusal(shape: Shape, e: &AppError) -> (r: Failure)
    ensures
        r.says(shape, class_of(e@).0, class_of(e@).1, e@.words()),
{
    let (status, kind) = classify(e);
    Failure { status, kind, message: e.message(), shape }
}

/// A request as it was parsed.
#[derive(Debug, PartialEq)]
pub enum Request {
    Anthropic(AnthropicRequest),
    OpenAi(OpenAiRequest),
    Responses(ResponsesRequest),
}

impl Request {
    pub open spec fn model(self) -> Seq<char> {
        match self {
            Request::Anthropic(r) => r.model@,
            Request::OpenAi(r) => r.model@,
            Request::Responses(r) => r.model@,
        }
    }

    pub open spec fn streams(self) -> bool {
        match self {
            Request::Anthropic(r) => r.stream,
            Request::OpenAi(r) => r.stream,
            Request::Responses(r) => r.stream,
        }
    }

    /// There is something to answer.
    pub open spec fn asks_something(self) -> bool {
        match self {
            Request::Anthropic(r) => any_asks(r.conversation()),
            Request::OpenAi(r) => any_not_system(openai_turns(r.messages@)),
            Request::Responses(r) => any_not_system(r.conversation()),
        }
    }

    /// What a request with nothing to answer is told.
    pub open spec fn complaint(self) -> Seq<char> {
        match self {
            Request::Responses(_) => "request has no input"@,
            _ => "request has no user or assistant turns"@,
        }
    }

    /// The chat request it comes down to.
    pub open spec fn ask(self) -> Ask {
        match self {
            Request::Anthropic(r) => chat_ask(
                Shape::Anthropic,
                r.model@,
                r.conversation(),
                trees(r.tools@),
                r.max_tokens,
                r.temperature,
            ),
            Request::OpenAi(r) => chat_ask(
                Shape::OpenAi,
                r.model@,
                openai_turns(r.messages@),
                trees(r.tools@),
                r.ceiling(),
                r.temperature,
            ),
            Request::Responses(r) => chat_ask(
                Shape::Responses,
                r.model@,
                r.conversation(),
                trees(r.tools@),
                r.max_output_tokens,
                r.temperature,
            ),
        }
    }
}

/// A request is let in, or refused and told why: first for its token, then for
/// its body, then for asking nothing.
pub open spec fn is_entry(
    r: Result<ChatRequest, Failure>,
    shape: Shape,
    authorized: bool,
    parsed: Result<Request, String>,
) -> bool {
    match r {
        Ok(c) => match parsed {
            Ok(q) => {
                &&& authorized && q.asks_something()
                &&& c.model@ == q.model()
                &&& c.stream == q.streams()
                &&& c.params@ == q.ask()
            },
            Err(_) => false,
        },
        Err(f) => if !authorized {
            f.says(
                shape,
                401,
                "authentication_error"@,
                "missing or wrong token — copy it from rootmode's Connect screen"@,
            )
        } else {
            match parsed {
                Ok(q) => !q.asks_something() && f.says(
                    shape,
                    400,
                    "invalid_request_error"@,
                    q.complaint(),
                ),
                Err(why) => f.says(shape, 400, "invalid_request_error"@, why@),
            }
        },
    }
}

/// Lets a request in, or says why not: first the token, then the parse, then
/// whether it asks anything. `parsed` is the request, or what is wrong with
/// its body.
pub fn let_in(shape: Shape, authorized: bool, parsed: Result<Request, String>) -> (r: Result<
    ChatRequest,
    Failure,
>)
    ensures
        is_entry(r, shape, authorized, parsed),
{
    if !authorized {
        return Err(
            Failure {
                status: 401,
                kind: "authentication_error",
                message: "missing or wrong token — copy it from rootmode's Connect screen".to_string(),
                shape,
            },
        );
    }
    let request = match parsed {
        Ok(r) => r,
        Err(why) => {
            return Err(
                Failure { status: 400, kind: "invalid_request_error", message: why, shape },
            );
        },
    };
    let chat = match request {
        Request::Anthropic(r) => r.into_chat(),
        Request::OpenAi(r) => r.into_chat(),
        Request::Responses(r) => r.into_chat(),
    };
    match chat {
        Ok(c) => Ok(c),
        Err(e) => Err(
            Failure { status: 400, kind: "invalid_request_error", message: e.0, shape },
        ),
    }
}

// ----------------------------------------------------------------- replies

/// A finished reply in the shape that was asked for.
pub open spec fn reply_body(
    shape: Shape,
    id: Seq<char>,
    model: Seq<char>,
    r: Reply,
    created: i64,
) -> Tree {
    match shape {
        Shape::Anthropic => anthropic_body(id, model, r),
        Shape::OpenAi => completion_body(id, model, r, created),
        Shape::Responses => response_body(id, model, r, created),
    }
}

/// The reply names the model that answered, which after a substitution is not
/// the one that was asked for.
pub fn respond(shape: Shape, id: &str, model: &str, answer: &Answer, created: i64) -> (r: Json)
    requires
        answer.usage.fits(),
    ensures
        r@ == reply_body(shape, id@, model@, answer@, created),
{
    match shape {
        Shape::Anthropic => anthropic_message(id, model, answer),
        Shape::OpenAi => openai_completion(id, model, answer, created),
        Shape::Responses => openai_response(id, model, answer, created),
    }
}

/// A model in both catalogue formats at once: a client reads whichever fields
/// it understands.
pub open spec fn catalogue_entry(model: Seq<char>, created: i64) -> Tree {
    Tree::record().with("id"@, Tree::Text(model)).with("object"@, Tree::Text("model"@)).with(
        "type"@,
        Tree::Text("model"@),
    ).with("created"@, Tree::integer(created)).with("created_at"@, Tree::integer(created)).with(
        "display_name"@,
        Tree::Text(model),
    ).with("owned_by"@, Tree::Text("rootmode"@))
}

pub open spec fn catalogue(options: Seq<ModelOption>, created: i64) -> Tree {
    Tree::record().with("object"@, Tree::Text("list"@)).with(
        "data"@,
        Tree::List(
            Seq::new(options.len(), |i: int| catalogue_entry(options[i].model@, created)),
        ),
    ).with("has_more"@, Tree::Bool(false))
}

/// Every model on offer, as a client lists them.
pub fn list_models(options: &Vec<ModelOption>, created: i64) -> (r: Json)
    ensures
        r@ == catalogue(options@, created),
{
    let mut data: Vec<Json> = Vec::new();
    let mut i: usize = 0;
    while i < options.len()
        invariant
            i <= options@.len(),
            data@.len() == i,
            forall|k: int|
                0 <= k < i ==> (#[trigger] data@[k])@ == catalogue_entry(
                    options@[k].model@,
                    created,
                ),
        decreases options@.len() - i,
    {
        let model = options[i].model.as_str();
        data.push(
            Json::record().with("id", Json::text(model)).with("object", Json::text("model")).with(
                "type",
                Json::text("model"),
            ).with("created", Json::integer(created)).with(
                "created_at",
                Json::integer(created),
            ).with("display_name", Json::text(model)).with("owned_by", Json::text("rootmode")),
        );
        i = i + 1;
    }
    assert(trees(data@) =~= Seq::new(
        options@.len(),
        |i: int| catalogue_entry(options@[i].model@, created),
    ));
    Json::record().with("object", Json::text("list")).with("data", Json::list(data)).with(
        "has_more",
        Json::Bool(false),
    )
}

// ------------------------------------------------------------- who answers

/// Who answers a request.
#[derive(Debug, Clone, Copy, PartialEq, Eq, Structural)]
pub enum Choice {
    /// The provider of the model that was asked for.
    Exact,
    /// This one of the models on offer, in its place.
    Offered(usize),
}

/// The first of the names that is this one.
pub open spec fn is_first(names: Seq<Seq<char>>, want: Seq<char>, i: int) -> bool {
    &&& 0 <= i < names.len()
    &&& names[i] == want
    &&& forall|k: int| 0 <= k < i ==> #[trigger] names[k] != want
}

/// What the models on offer are called.
pub open spec fn model_names(offered: Seq<ModelOption>) -> Seq<Seq<char>> {
    Seq::new(offered.len(), |i: int| offered[i].model@)
}

/// Chooses who answers. A model nobody serves is answered by another one on
/// offer unless that is switched off: the one the user prefers where it is
/// served, otherwise the first, which is the cheapest.
pub fn choose_model(
    asked: &str,
    served: bool,
    offered: &Vec<ModelOption>,
    substitute: bool,
    preferred: &Option<String>,
) -> (r: Result<Choice, AppError>)
    ensures
        match r {
            Ok(Choice::Exact) => served,
            Ok(Choice::Offered(i)) => {
                &&& !served && substitute
                &&& i < offered@.len()
                &&& match opt(*preferred) {
                    Some(want) if model_names(offered@).contains(want) => is_first(
                        model_names(offered@),
                        want,
                        i as int,
                    ),
                    _ => i == 0,
                }
            },
            Err(e) => {
                &&& !served
                &&& offered@.len() == 0 || !substitute
                &&& e@ == Trouble::NotFound(
                    if offered@.len() == 0 {
                        "no provider is online right now — open rootmode and wait for one to appear"@
                    } else {
                        "no provider serves '"@ + asked@ + "'. Currently on offer: "@ + joined(
                            model_names(offered@),
                            ", "@,
                        )
                    },
                )
            },
        },
{
    if served {
        return Ok(Choice::Exact);
    }
    if offered.len() == 0 {
        return Err(
            AppError::NotFound(
                "no provider is online right now — open rootmode and wait for one to appear".to_string(),
            ),
        );
    }
    if !substitute {
        let mut names: Vec<String> = Vec::new();
        let mut i: usize = 0;
        while i < offered.len()
            invariant
                i <= offered@.len(),
                names@.len() == i,
                forall|k: int| 0 <= k < i ==> (#[trigger] names@[k])@ == offered@[k].model@,
            decreases offered@.len() - i,
        {
            names.push(offered[i].model.clone());
            i = i + 1;
        }
        assert(texts(names@) =~= model_names(offered@));
        let mut text = concat3("no provider serves '", asked, "'. Currently on offer: ");
        text.append(join(&names, ", ").as_str());
        return Err(AppError::NotFound(text));
    }
    if let Some(want) = preferred {
        let mut i: usize = 0;
        while i < offered.len()
            invariant
                i <= offered@.len(),
                !served && substitute,
                opt(*preferred) == Some(want@),
                forall|k: int| 0 <= k < i ==> #[trigger] model_names(offered@)[k] != want@,
            decreases offered@.len() - i,
        {
            if same(offered[i].model.as_str(), want.as_str()) {
                assert(model_names(offered@)[i as int] == want@);
                return Ok(Choice::Offered(i));
            }
            i = i + 1;
        }
    }
    Ok(Choice::Offered(0))
}

/// The place of the option that answers in place of a model nobody serves.
pub open spec fn is_pick(options: Seq<ModelOption>, preferred: Option<Seq<char>>, i: int) -> bool {
    match preferred {
        Some(want) if model_names(options).contains(want) => is_first(
            model_names(options),
            want,
            i,
        ),
        _ => i == 0 && options.len() > 0,
    }
}

/// What is told when nobody answers.
pub open spec fn nobody_answers(options: Seq<ModelOption>, asked: Seq<char>) -> Trouble {
    Trouble::NotFound(
        if options.len() == 0 {
            "no provider is online right now — open rootmode and wait for one to appear"@
        } else {
            "no provider serves '"@ + asked + "'. Currently on offer: "@ + joined(
                model_names(options),
                ", "@,
            )
        },
    )
}

/// What comes of a model nobody serves: one of the options, or a refusal.
pub open spec fn is_substitute(
    r: Result<ModelOption, AppError>,
    options: Seq<ModelOption>,
    asked: Seq<char>,
    substitute: bool,
    preferred: Option<Seq<char>>,
) -> bool {
    match r {
        Ok(o) => substitute && exists|i: int|
            #[trigger] is_pick(options, preferred, i) && o == options[i],
        Err(e) => (options.len() == 0 || !substitute) && e@ == nobody_answers(options, asked),
    }
}

/// The options there are for text.
pub open spec fn are_options(options: Seq<ModelOption>, peers: Seq<Peer>) -> bool {
    covers(options, peers, JobKind::Llm, on_offer(peers, JobKind::Llm)) && listed_in_order(options)
}

/// Chooses a provider among the peers for a chat request: the cheapest of the
/// model asked for, or else of a substitute.
pub fn choose_provider(
    peers: &Vec<Peer>,
    asked: &str,
    substitute: bool,
    preferred: &Option<String>,
) -> (r: Result<ModelOption, AppError>)
    requires
        on_offer(peers@, JobKind::Llm).len() < u32::MAX,
    ensures
        r matches Ok(o) ==> stands_for(o, peers@, JobKind::Llm, on_offer(peers@, JobKind::Llm)),
        is_served(peers@, JobKind::Llm, asked@) ==> (r matches Ok(o) && o.model@ == asked@),
        !is_served(peers@, JobKind::Llm, asked@) ==> exists|options: Seq<ModelOption>|
            #[trigger] are_options(options, peers@) && is_substitute(
                r,
                options,
                asked@,
                substitute,
                opt(*preferred),
            ),
{
    let exact = provider_for(peers, JobKind::Llm, asked);
    let mut options = model_options(peers, JobKind::Llm);
    let ghost all = options@;
    assert(are_options(all, peers@));
    match choose_model(asked, exact.is_some(), &options, substitute, preferred) {
        Err(e) => {
            let r = Err(e);
            assert(is_substitute(r, all, asked@, substitute, opt(*preferred)));
            r
        },
        Ok(Choice::Exact) => match exact {
            Some(o) => Ok(o),
            None => Err(AppError::NotFound(asked.to_string())),
        },
        Ok(Choice::Offered(i)) => {
            assert(stands_for(
                options@[i as int],
                peers@,
                JobKind::Llm,
                on_offer(peers@, JobKind::Llm),
            ));
            assert(is_pick(all, opt(*preferred), i as int));
            let r = Ok(options.swap_remove(i));
            assert(is_substitute(r, all, asked@, substitute, opt(*preferred)));
            r
        },
    }
}

/// What a peer asks for the first model it lists under exactly this name,
/// where it asks anything.
pub open spec fn listed_price(models: Seq<ModelDescriptor>, model: Seq<char>) -> Option<u64>
    decreases models.len(),
{
    if models.len() == 0 {
        None
    } else if models[0].id@ == model {
        match models[0].price {
            Some(p) if p.micros > 0 => Some(p.micros),
            _ => None,
        }
    } else {
        listed_price(models.drop_first(), model)
    }
}

fn price_of(peer: &Peer, model: &str) -> (r: Option<u64>)
    ensures
        r == listed_price(peer.models@, model@),
{
    let mut i: usize = 0;
    assert(peer.models@.skip(0) =~= peer.models@);
    while i < peer.models.len()
        invariant
            i <= peer.models@.len(),
            listed_price(peer.models@, model@) == listed_price(
                peer.models@.skip(i as int),
                model@,
            ),
        decreases peer.models@.len() - i,
    {
        let m = &peer.models[i];
        if same(m.id.as_str(), model) {
            return match &m.price {
                Some(p) => if p.micros > 0 {
                    Some(p.micros)
                } else {
                    None
                },
                None => None,
            };
        }
        assert(peer.models@.skip(i as int).drop_first() =~= peer.models@.skip(i as int + 1));
        i = i + 1;
    }
    None
}

/// A request that is on its way to a provider.
#[derive(Debug, PartialEq)]
pub struct TakenUp {
    /// The model that answers.
    pub served: String,
    pub peer_id: String,
    pub payload: JobPayload,
    /// What the provider asks, in millionths; none where it is free.
    pub price: Option<u64>,
}

/// A request that was taken up: for the model that was chosen, not the one
/// that was named, and with room to think.
pub open spec fn is_taken_up(t: TakenUp, request: ChatRequest, db: Db) -> bool {
    &&& t.payload matches JobPayload::Llm(q) && q@ == (Ask {
        model_id: Some(t.served@),
        max_tokens: workable(request.params.max_tokens),
        ..request.params@
    })
    &&& exists|i: int|
        0 <= i < db.peers@.len() && (#[trigger] db.peers@[i]).id@ == t.peer_id@ && t.price
            == listed_price(db.peers@[i].models@, t.served@)
}

/// What comes of a request for a model nobody serves.
pub open spec fn is_stand_in(
    r: Result<TakenUp, AppError>,
    options: Seq<ModelOption>,
    asked: Seq<char>,
    substitute: bool,
    preferred: Option<Seq<char>>,
) -> bool {
    match r {
        Ok(t) => substitute && exists|i: int|
            #[trigger] is_pick(options, preferred, i) && t.served@ == options[i].model@
                && t.peer_id@ == options[i].peer_id@,
        Err(e) => (options.len() == 0 || !substitute) && e@ == nobody_answers(options, asked),
    }
}

proof fn lemma_offered_is_known(o: ModelOption, peers: Seq<Peer>)
    requires
        peers.len() <= usize::MAX,
        stands_for(o, peers, JobKind::Llm, on_offer(peers, JobKind::Llm)),
    ensures
        knows_id(peers, o.peer_id@),
{
    reveal(offered);
    let at = on_offer(peers, JobKind::Llm);
    let k = choose|k: int| 0 <= k < at.len() && offers(o, peers, JobKind::Llm, #[trigger] at[k]);
    lemma_offered_by_a_peer(peers, JobKind::Llm, peers.len() as int, k);
    reveal(offers);
    assert(peers[at[k].0 as int].id@ == o.peer_id@);
}

/// Chooses a provider for a request and makes it ready.
pub fn submit(db: &Db, request: ChatRequest, substitute: bool, preferred: &Option<String>) -> (r:
    Result<TakenUp, AppError>)
    requires
        on_offer(db.peers@, JobKind::Llm).len() < u32::MAX,
    ensures
        r matches Ok(t) ==> is_taken_up(t, request, *db),
        is_served(db.peers@, JobKind::Llm, request.model@) ==> (r matches Ok(t) && t.served@
            == request.model@ && exists|o: ModelOption|
            #[trigger] stands_for(o, db.peers@, JobKind::Llm, on_offer(db.peers@, JobKind::Llm))
                && o.model@ == t.served@ && o.peer_id@ == t.peer_id@),
        !is_served(db.peers@, JobKind::Llm, request.model@) ==> exists|options: Seq<ModelOption>|
            #[trigger] are_options(options, db.peers@) && is_stand_in(
                r,
                options,
                request.model@,
                substitute,
                opt(*preferred),
            ),
{
    let chosen = choose_provider(&db.peers, request.model.as_str(), substitute, preferred);
    let choice = match chosen {
        Ok(c) => c,
        Err(e) => {
            return Err(e);
        },
    };
    proof {
        assert(db.peers.len() <= usize::MAX);
        lemma_offered_is_known(choice, db.peers@);
    }
    let peer = match db.get_peer(choice.peer_id.as_str()) {
        Some(p) => p,
        None => {
            return Err(AppError::NotFound(concat("peer ", choice.peer_id.as_str())));
        },
    };
    let ghost at = choose|i: int| 0 <= i < db.peers@.len() && db.peers@[i] == *peer;
    assert(db.peers@[at].id@ == choice.peer_id@);
    let price = price_of(peer, choice.model.as_str());
    let payload = prepared(request.params, choice.model.as_str());
    Ok(TakenUp { served: choice.model, peer_id: choice.peer_id, payload, price })
}

// --------------------------------------------------------------- answering

/// The text a result carries, empty where it carries none.
pub open spec fn raw_text(r: JobResult) -> Seq<char> {
    match r.text {
        Some(t) => t@,
        None => seq![],
    }
}

/// The hash a result's text really has.
pub open spec fn actual_hash(r: JobResult) -> Seq<char> {
    sha256_text(encode_utf8(raw_text(r)))
}

/// What is wrong with a result, if anything: it holds nothing, its hash is
/// missing or not that of its text, or there is nothing in it but reasoning.
/// Only the worker in this process may leave the hash out.
pub open spec fn fault_of(r: JobResult, local: bool) -> Option<Trouble> {
    let raw = raw_text(r);
    if raw.len() == 0 && r.tool_calls@.len() == 0 {
        Some(Trouble::Invalid("provider returned no answer"@))
    } else if r.sha256@.len() == 0 && !local {
        Some(
            Trouble::Invalid("result has no content hash; a remote peer must commit to one"@),
        )
    } else if r.sha256@.len() > 0 && lower(actual_hash(r)) != lower(r.sha256@) {
        Some(
            Trouble::Invalid(
                "hash mismatch: provider claimed "@ + r.sha256@ + ", bytes hash to "@
                    + actual_hash(r),
            ),
        )
    } else if answer_part(raw).len() == 0 && r.tool_calls@.len() == 0 {
        Some(Trouble::Invalid("provider returned only reasoning, no answer"@))
    } else {
        None
    }
}

/// The answer a sound result holds, given how many tokens were counted here.
pub open spec fn answer_of(r: JobResult, measured: TokenUsage) -> Reply {
    Reply {
        text: answer_part(raw_text(r)),
        calls: calls(r.tool_calls@),
        usage: usage_of(measured.reconciled(reported(r.meta@))),
        finish: r.meta@.text_at("finish_reason"@),
    }
}

/// The answer in a result. A result is held to its hash by the rule for a job
/// run from the app: it flows straight into an editor. `local` is whether the
/// worker is the one in this process.
pub fn build_answer(r: &JobResult, measured: TokenUsage, local: bool) -> (out: Result<
    Answer,
    AppError,
>)
    ensures
        match out {
            Ok(a) => fault_of(*r, local) is None && a@ == answer_of(*r, measured),
            Err(e) => fault_of(*r, local) == Some(e@),
        },
{
    let raw = match &r.text {
        Some(t) => t.clone(),
        None => String::new(),
    };
    if raw.as_str().is_empty() && r.tool_calls.len() == 0 {
        return Err(AppError::Invalid("provider returned no answer".to_string()));
    }
    if r.sha256.as_str().is_empty() && !local {
        return Err(
            AppError::Invalid(
                "result has no content hash; a remote peer must commit to one".to_string(),
            ),
        );
    }
    let actual = sha256_of_text(raw.as_str());
    if !r.sha256.as_str().is_empty() && !same_ignoring_case(actual.as_str(), r.sha256.as_str()) {
        let mut text = concat3(
            "hash mismatch: provider claimed ",
            r.sha256.as_str(),
            ", bytes hash to ",
        );
        text.append(actual.as_str());
        return Err(AppError::Invalid(text));
    }
    let text = peel_thinking(raw.as_str());
    if text.as_str().is_empty() && r.tool_calls.len() == 0 {
        return Err(AppError::Invalid("provider returned only reasoning, no answer".to_string()));
    }
    let finish = match r.meta.text_at("finish_reason") {
        Some(s) => Some(s.clone()),
        None => None,
    };
    Ok(
        Answer {
            text,
            tool_calls: copy_calls(&r.tool_calls),
            usage: Usage::billed(measured, &r.meta),
            finish,
        },
    )
}

/// A result that claims a hash its text does not have is never an answer.
pub proof fn law_mismatched_result_is_refused(r: JobResult, local: bool)
    requires
        r.sha256@.len() > 0,
        lower(actual_hash(r)) != lower(r.sha256@),
    ensures
        fault_of(r, local) is Some,
{
}

/// A result from afar is an answer only with the hash of its text, by the rule
/// that a job run from the app is held to.
pub proof fn law_remote_answers_carry_their_hash(r: JobResult)
    requires
        fault_of(r, false) is None,
    ensures
        r.sha256@.len() > 0,
        hash_fault(actual_hash(r), r.sha256@, false) is None,
{
}

/// An answer always says or does something.
pub proof fn law_answers_are_never_empty(r: JobResult, measured: TokenUsage, local: bool)
    requires
        fault_of(r, local) is None,
    ensures
        answer_of(r, measured).text.len() > 0 || answer_of(r, measured).acted(),
{
}

/// How the task that ran a job ended.
#[derive(Debug, PartialEq)]
pub enum RunEnd {
    /// It ran to its end.
    Finished,
    /// It gave up.
    Gave(AppError),
    /// It never came back, for this reason.
    Crashed(String),
}

/// What waiting for an answer comes to. A reason the provider gave beats one
/// the transport inferred.
pub open spec fn outcome_error(failure: Option<Seq<char>>, end: RunEnd) -> Trouble {
    match failure {
        Some(why) => Trouble::Net(why),
        None => match end {
            RunEnd::Finished => Trouble::Net("provider closed the connection without answering"@),
            RunEnd::Gave(e) => e@,
            RunEnd::Crashed(why) => Trouble::Net("provider task failed: "@ + why@),
        },
    }
}

/// What waiting for an answer comes to: the answer where one came, otherwise
/// the best reason there is.
pub fn conclude(answer: Option<Answer>, failure: Option<String>, end: RunEnd) -> (r: Result<
    Answer,
    AppError,
>)
    ensures
        match r {
            Ok(a) => answer == Some(a),
            Err(e) => answer is None && e@ == outcome_error(opt(failure), end),
        },
{
    if let Some(a) = answer {
        return Ok(a);
    }
    if let Some(why) = failure {
        return Err(AppError::Net(why));
    }
    match end {
        RunEnd::Finished => Err(
            AppError::Net("provider closed the connection without answering".to_string()),
        ),
        RunEnd::Gave(e) => Err(e),
        RunEnd::Crashed(why) => Err(
            AppError::Net(concat("provider task failed: ", why.as_str())),
        ),
    }
}

/// The reason a provider that failed the job is taken to have given.
pub fn failure_reason(error: Option<String>) -> (r: String)
    ensures
        r@ == (match opt(error) {
            Some(why) => why,
            None => "provider failed the job"@,
        }),
{
    match error {
        Some(why) => why,
        None => "provider failed the job".to_string(),
    }
}

/// What has come of a request that waits for its whole answer.
#[derive(Debug, PartialEq)]
pub struct Waiting {
    pub answer: Option<Answer>,
    pub failure: Option<String>,
}

impl Waiting {
    pub fn new() -> (r: Waiting)
        ensures
            r.answer is None && r.failure is None,
    {
        Waiting { answer: None, failure: None }
    }

    /// Hears a message. A result that is no answer ends the wait; `measured`
    /// is what a result is counted as, `local` whether the worker is the one in
    /// this process.
    pub fn hear(&mut self, m: &WorkerMessage, measured: TokenUsage, local: bool) -> (r: Result<
        (),
        AppError,
    >)
        ensures
            match *m {
                WorkerMessage::JobResult(q) => {
                    &&& final(self).failure == old(self).failure
                    &&& match fault_of(q, local) {
                        Some(why) => r matches Err(e) && e@ == why && final(self).answer == old(
                            self,
                        ).answer,
                        None => r is Ok && (final(self).answer matches Some(a) && a@ == answer_of(
                            q,
                            measured,
                        )),
                    }
                },
                WorkerMessage::JobStatus(s) if s.status == JobStatus::Failed => {
                    &&& r is Ok
                    &&& final(self).answer == old(self).answer
                    &&& opt(final(self).failure) == Some(
                        match opt(s.error) {
                            Some(why) => why,
                            None => "provider failed the job"@,
                        },
                    )
                },
                _ => r is Ok && *final(self) == *old(self),
            },
    {
        match m {
            WorkerMessage::JobResult(q) => match build_answer(q, measured, local) {
                Ok(a) => {
                    self.answer = Some(a);
                    Ok(())
                },
                Err(e) => Err(e),
            },
            WorkerMessage::JobStatus(s) => {
                if s.status == JobStatus::Failed {
                    self.failure = Some(failure_reason(copy_opt(&s.error)));
                }
                Ok(())
            },
            _ => Ok(()),
        }
    }

    /// What the wait comes to.
    pub fn end(self, end: RunEnd) -> (r: Result<Answer, AppError>)
        ensures
            match r {
                Ok(a) => self.answer == Some(a),
                Err(e) => self.answer is None && e@ == outcome_error(opt(self.failure), end),
            },
    {
        conclude(self.answer, self.failure, end)
    }
}

} // verus!
