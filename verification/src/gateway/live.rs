//! A reply sent while it is being made.
//!
//! One frame goes out the moment the job is accepted, then one for each piece
//! of text as the worker sends it, and the same ending a finished reply has.
use vstd::prelude::*;

use crate::error::AppError;
use crate::gateway::answer::{Answer, Reply};
use crate::gateway::anthropic::{
    anthropic_live_end, anthropic_live_error, anthropic_live_start, anthropic_live_text_delta,
    anthropic_live_text_start, anthropic_refusal, anthropic_tail, block_delta, block_start,
    message_begun, text_block, text_delta,
};
use crate::gateway::held::{law_shown_words_stay, lemma_nothing_to_show, show_so_far, shown_part};
use crate::gateway::inbound::Shape;
use crate::gateway::openai::{
    chunk, completion_tail, content_delta, openai_live_delta, openai_live_end, openai_live_error,
    openai_live_start, openai_refusal, role_delta,
};
use crate::gateway::responses::{
    begun, lemma_tail_len, response_tail, responses_live_delta, responses_live_end,
    responses_live_error, responses_live_in_progress, responses_live_start,
    responses_live_text_start, text_opening, words_event,
};
use crate::gateway::serve::{answer_of, build_answer, failure_reason, fault_of, RunEnd};
use crate::gateway::thinking::{answer_part, peel_thinking};
use crate::json::{law_put_then_get, pairs, trees, Json, Tree};
use crate::net::WorkerMessage;
use crate::protocol::{copy_opt, opt, JobStatus, TokenUsage};
use crate::text::{chars_of, concat, text_of};

verus! {

broadcast use vstd::string::group_string_axioms;

// ------------------------------------------------------------------ frames

/// The data of a frame: JSON, but for OpenAI's closing line.
#[derive(Debug, PartialEq)]
pub enum FrameData {
    Json(Json),
    Raw(&'static str),
}

/// One server-sent event. OpenAI's have no name.
#[derive(Debug, PartialEq)]
pub struct Frame {
    pub name: Option<String>,
    pub data: FrameData,
}

pub enum Body {
    Json(Tree),
    Raw(Seq<char>),
}

/// What a frame says.
pub struct Sent {
    pub name: Option<Seq<char>>,
    pub body: Body,
}

impl View for Frame {
    type V = Sent;

    open spec fn view(&self) -> Sent {
        Sent {
            name: opt(self.name),
            body: match self.data {
                FrameData::Json(j) => Body::Json(j@),
                FrameData::Raw(s) => Body::Raw(s@),
            },
        }
    }
}

pub open spec fn sent(v: Seq<Frame>) -> Seq<Sent> {
    Seq::new(v.len(), |i: int| v[i]@)
}

/// A frame with a name.
pub open spec fn named_frame(e: (Seq<char>, Tree)) -> Sent {
    Sent { name: Some(e.0), body: Body::Json(e.1) }
}

pub open spec fn named_frames(es: Seq<(Seq<char>, Tree)>) -> Seq<Sent> {
    Seq::new(es.len(), |i: int| named_frame(es[i]))
}

pub open spec fn plain_frame(t: Tree) -> Sent {
    Sent { name: None, body: Body::Json(t) }
}

pub open spec fn plain_frames(ts: Seq<Tree>) -> Seq<Sent> {
    Seq::new(ts.len(), |i: int| plain_frame(ts[i]))
}

/// Frames with a name and a running number, the first one after `seq`.
pub open spec fn numbered(es: Seq<(Seq<char>, Tree)>, seq: nat) -> Seq<Sent> {
    Seq::new(
        es.len(),
        |i: int|
            named_frame(
                (
                    es[i].0,
                    es[i].1.put("sequence_number"@, Tree::Number((seq + i + 1) as u64)),
                ),
            ),
    )
}

/// The line that ends an OpenAI stream; it is no JSON.
pub open spec fn done_frame() -> Sent {
    Sent { name: None, body: Body::Raw("[DONE]"@) }
}

fn named_of(events: Vec<(String, Json)>) -> (r: Vec<Frame>)
    ensures
        sent(r@) == named_frames(pairs(events@)),
{
    let mut out: Vec<Frame> = Vec::new();
    let mut i: usize = 0;
    while i < events.len()
        invariant
            i <= events@.len(),
            out@.len() == i,
            forall|k: int|
                0 <= k < i ==> (#[trigger] out@[k])@ == named_frame(
                    (events@[k].0@, events@[k].1@),
                ),
        decreases events@.len() - i,
    {
        out.push(
            Frame { name: Some(events[i].0.clone()), data: FrameData::Json(events[i].1.copy()) },
        );
        i = i + 1;
    }
    assert(sent(out@) =~= named_frames(pairs(events@)));
    out
}

fn plain_of(chunks: Vec<Json>) -> (r: Vec<Frame>)
    ensures
        sent(r@) == plain_frames(trees(chunks@)),
{
    let mut out: Vec<Frame> = Vec::new();
    let mut i: usize = 0;
    while i < chunks.len()
        invariant
            i <= chunks@.len(),
            out@.len() == i,
            forall|k: int| 0 <= k < i ==> (#[trigger] out@[k])@ == plain_frame(chunks@[k]@),
        decreases chunks@.len() - i,
    {
        out.push(Frame { name: None, data: FrameData::Json(chunks[i].copy()) });
        i = i + 1;
    }
    assert(sent(out@) =~= plain_frames(trees(chunks@)));
    out
}

fn one(event: (String, Json)) -> (r: Vec<(String, Json)>)
    ensures
        pairs(r@) == seq![(event.0@, event.1@)],
        r@.len() == 1,
{
    let mut v: Vec<(String, Json)> = Vec::new();
    v.push(event);
    assert(pairs(v@) =~= seq![(event.0@, event.1@)]);
    v
}

fn only(chunk: Json) -> (r: Vec<Json>)
    ensures
        trees(r@) == seq![chunk@],
{
    let mut v: Vec<Json> = Vec::new();
    v.push(chunk);
    assert(trees(v@) =~= seq![chunk@]);
    v
}

// ------------------------------------------------------------------- state

/// A reply under way.
#[derive(Debug, PartialEq)]
pub struct LiveState {
    /// All text seen so far, reasoning and all: a tag may be split between
    /// two pieces.
    pub raw: String,
    /// How many characters of the text without reasoning have gone out.
    pub emitted: usize,
    /// The text block, once one was opened.
    pub text_index: Option<usize>,
    pub started: bool,
    pub done: bool,
    /// The model that answers.
    pub served: String,
    pub id: String,
    pub created: i64,
    pub shape: Shape,
    /// The last running number given out.
    pub seq: u64,
}

/// What the state of a reply says.
pub struct Live {
    pub raw: Seq<char>,
    pub emitted: nat,
    pub text_index: Option<usize>,
    pub started: bool,
    pub done: bool,
    pub served: Seq<char>,
    pub id: Seq<char>,
    pub created: i64,
    pub shape: Shape,
    pub seq: u64,
}

impl View for LiveState {
    type V = Live;

    open spec fn view(&self) -> Live {
        Live {
            raw: self.raw@,
            emitted: self.emitted as nat,
            text_index: self.text_index,
            started: self.started,
            done: self.done,
            served: self.served@,
            id: self.id@,
            created: self.created,
            shape: self.shape,
            seq: self.seq,
        }
    }
}

/// What can happen to a reply.
#[derive(Debug, PartialEq)]
pub enum LiveEvent {
    /// A piece of text came.
    Delta(String),
    /// The result came, and this is what it held.
    Result(Result<Answer, AppError>),
    /// The worker failed the job, with or without a reason.
    Failed(Option<String>),
    /// The connection closed with nothing more to come.
    Closed(RunEnd),
}

/// What a worker's message means for the reply, if anything. `measured` is
/// what a result is counted as, `local` whether the worker is the one in this
/// process.
pub fn live_event(m: &WorkerMessage, measured: TokenUsage, local: bool) -> (r: Option<LiveEvent>)
    ensures
        match *m {
            WorkerMessage::JobDelta(d) => r matches Some(LiveEvent::Delta(t)) && t@ == d.text@,
            WorkerMessage::JobResult(q) => r matches Some(LiveEvent::Result(out)) && match out {
                Ok(a) => fault_of(q, local) is None && a@ == answer_of(q, measured),
                Err(e) => fault_of(q, local) == Some(e@),
            },
            WorkerMessage::JobStatus(s) if s.status == JobStatus::Failed => r matches Some(
                LiveEvent::Failed(why),
            ) && opt(why) == opt(s.error),
            _ => r is None,
        },
{
    match m {
        WorkerMessage::JobDelta(d) => Some(LiveEvent::Delta(d.text.clone())),
        WorkerMessage::JobResult(q) => Some(LiveEvent::Result(build_answer(q, measured, local))),
        WorkerMessage::JobStatus(s) => if s.status == JobStatus::Failed {
            Some(LiveEvent::Failed(copy_opt(&s.error)))
        } else {
            None
        },
        _ => None,
    }
}

impl Live {
    /// Running numbers are left for this many frames.
    pub open spec fn room(self, n: nat) -> bool {
        self.seq + n <= u64::MAX
    }

    pub open spec fn opening_frames(self) -> Seq<Sent> {
        match self.shape {
            Shape::Anthropic => seq![
                named_frame(
                    message_begun(
                        self.id,
                        self.served,
                        Tree::record().with("input_tokens"@, Tree::Number(0)).with(
                            "output_tokens"@,
                            Tree::Number(0),
                        ),
                    ),
                ),
            ],
            Shape::OpenAi => seq![
                plain_frame(chunk(self.id, self.served, self.created, role_delta(), Tree::Null)),
            ],
            Shape::Responses => numbered(
                seq![
                    begun("response.created"@, self.id, self.served, self.created),
                    begun("response.in_progress"@, self.id, self.served, self.created),
                ],
                self.seq as nat,
            ),
        }
    }

    /// What can be shown once `text` has come: what could still become a
    /// reasoning tag is held back.
    pub open spec fn words_with(self, text: Seq<char>) -> Seq<char> {
        shown_part(self.raw + text)
    }

    /// Whether there is more to send of some words.
    pub open spec fn has_more(self, words: Seq<char>) -> bool {
        words.len() > self.emitted
    }

    /// What is left to send of some words.
    pub open spec fn more_of(self, words: Seq<char>) -> Seq<char> {
        if self.has_more(words) {
            words.skip(self.emitted as int)
        } else {
            seq![]
        }
    }

    /// The state once words were sent up to their end.
    pub open spec fn having_said(self, words: Seq<char>) -> Live {
        if self.has_more(words) {
            Live {
                emitted: words.len(),
                text_index: if self.shape == Shape::OpenAi {
                    self.text_index
                } else {
                    Some(0usize)
                },
                seq: if self.shape == Shape::Responses {
                    (self.seq + self.more_frames(words).len()) as u64
                } else {
                    self.seq
                },
                ..self
            }
        } else {
            self
        }
    }

    /// The frames of what is left to send of some words.
    pub open spec fn more_frames(self, words: Seq<char>) -> Seq<Sent> {
        if self.has_more(words) {
            self.delta_frames(self.more_of(words))
        } else {
            seq![]
        }
    }

    pub open spec fn delta_events(self, fresh: Seq<char>) -> Seq<(Seq<char>, Tree)> {
        match self.shape {
            Shape::Anthropic => if self.text_index is None {
                seq![block_start(0, text_block(""@)), block_delta(0, text_delta(fresh))]
            } else {
                seq![block_delta(0, text_delta(fresh))]
            },
            _ => if self.text_index is None {
                text_opening(self.id).push(words_event(self.id, fresh))
            } else {
                seq![words_event(self.id, fresh)]
            },
        }
    }

    /// The frames of a fresh piece of text: the block it belongs to is opened
    /// before the first.
    pub open spec fn delta_frames(self, fresh: Seq<char>) -> Seq<Sent> {
        match self.shape {
            Shape::Anthropic => named_frames(self.delta_events(fresh)),
            Shape::OpenAi => seq![
                plain_frame(
                    chunk(
                        self.id,
                        self.served,
                        self.created,
                        content_delta(fresh),
                        Tree::Null,
                    ),
                ),
            ],
            Shape::Responses => numbered(self.delta_events(fresh), self.seq as nat),
        }
    }

    /// The frames a finished answer ends with.
    pub open spec fn ending_frames(self, r: Reply) -> Seq<Sent> {
        match self.shape {
            Shape::Anthropic => named_frames(anthropic_tail(r, self.text_index)),
            Shape::OpenAi => plain_frames(
                completion_tail(self.id, self.served, self.created, r),
            ).push(done_frame()),
            Shape::Responses => numbered(
                response_tail(self.id, self.served, r, self.created, self.text_index is Some),
                self.seq as nat,
            ),
        }
    }

    /// The frame that says what went wrong: the reply already answered 200.
    pub open spec fn error_frames(self, message: Seq<char>) -> Seq<Sent> {
        match self.shape {
            Shape::Anthropic => seq![
                named_frame(("error"@, anthropic_refusal("overloaded_error"@, message))),
            ],
            Shape::OpenAi => seq![plain_frame(openai_refusal("api_error"@, message))],
            Shape::Responses => numbered(
                seq![
                    (
                        "response.failed"@,
                        Tree::record().with("type"@, Tree::Text("response.failed"@)).with(
                            "response"@,
                            Tree::record().with("status"@, Tree::Text("failed"@)).with(
                                "error"@,
                                Tree::record().with("message"@, Tree::Text(message)),
                            ),
                        ),
                    ),
                ],
                self.seq as nat,
            ),
        }
    }

    /// The frames that follow an event.
    pub open spec fn frames_for(self, e: LiveEvent) -> Seq<Sent> {
        if self.done {
            seq![]
        } else {
            match e {
                LiveEvent::Delta(text) => self.more_frames(self.words_with(text@)),
                LiveEvent::Result(Ok(a)) => {
                    // What was held back has to go out: no more will come.
                    let words = answer_part(self.raw);
                    self.more_frames(words) + self.having_said(words).ending_frames(a@)
                },
                LiveEvent::Result(Err(why)) => self.error_frames(why@.words()),
                LiveEvent::Failed(why) => self.error_frames(
                    match opt(why) {
                        Some(w) => w,
                        None => "provider failed the job"@,
                    },
                ),
                LiveEvent::Closed(end) => self.error_frames(closing_words(end)),
            }
        }
    }

    /// The state after an event.
    pub open spec fn after(self, e: LiveEvent) -> Live {
        if self.done {
            self
        } else {
            match e {
                LiveEvent::Delta(text) => Live {
                    raw: self.raw + text@,
                    ..self.having_said(self.words_with(text@))
                },
                _ => {
                    let said = match e {
                        LiveEvent::Result(Ok(_)) => self.having_said(answer_part(self.raw)),
                        _ => self,
                    };
                    Live {
                        done: true,
                        seq: if self.shape == Shape::Responses {
                            (self.seq + self.frames_for(e).len()) as u64
                        } else {
                            self.seq
                        },
                        ..said
                    }
                },
            }
        }
    }
}

/// Why a stream that ended without a result is said to have failed.
pub open spec fn closing_words(end: RunEnd) -> Seq<char> {
    match end {
        RunEnd::Finished => "provider closed the connection without answering"@,
        RunEnd::Gave(e) => e@.words(),
        RunEnd::Crashed(why) => "provider task failed: "@ + why@,
    }
}

fn closing_reason(end: RunEnd) -> (r: String)
    ensures
        r@ == closing_words(end),
{
    match end {
        RunEnd::Finished => "provider closed the connection without answering".to_string(),
        RunEnd::Gave(e) => e.message(),
        RunEnd::Crashed(why) => concat("provider task failed: ", why.as_str()),
    }
}

impl LiveState {
    /// A reply that has not begun.
    pub fn new(shape: Shape, served: String, id: String, created: i64) -> (r: LiveState)
        ensures
            r@ == (Live {
                raw: seq![],
                emitted: 0,
                text_index: None,
                started: false,
                done: false,
                served: served@,
                id: id@,
                created,
                shape,
                seq: 0,
            }),
    {
        LiveState {
            raw: String::new(),
            emitted: 0,
            text_index: None,
            started: false,
            done: false,
            served,
            id,
            created,
            shape,
            seq: 0,
        }
    }

    /// Gives events the next running numbers.
    fn number(&mut self, events: Vec<(String, Json)>) -> (r: Vec<Frame>)
        requires
            old(self)@.room(events@.len()),
        ensures
            sent(r@) == numbered(pairs(events@), old(self).seq as nat),
            final(self)@ == (Live { seq: (old(self).seq + events@.len()) as u64, ..old(self)@ }),
    {
        let ghost start = self.seq;
        let mut out: Vec<Frame> = Vec::new();
        let mut i: usize = 0;
        while i < events.len()
            invariant
                i <= events@.len(),
                start + events@.len() <= u64::MAX,
                self@ == (Live { seq: (start + i) as u64, ..old(self)@ }),
                self.seq == start + i,
                out@.len() == i,
                forall|k: int|
                    0 <= k < i ==> (#[trigger] out@[k])@ == numbered(
                        pairs(events@),
                        start as nat,
                    )[k],
            decreases events@.len() - i,
        {
            self.seq = self.seq + 1;
            let body = events[i].1.copy().put("sequence_number", Json::Number(self.seq));
            out.push(Frame { name: Some(events[i].0.clone()), data: FrameData::Json(body) });
            i = i + 1;
        }
        assert(sent(out@) =~= numbered(pairs(events@), start as nat));
        out
    }

    /// The first frames, the instant the job is accepted.
    pub fn start(&mut self) -> (r: Vec<Frame>)
        requires
            old(self)@.room(2),
        ensures
            old(self).started ==> r@.len() == 0 && final(self)@ == old(self)@,
            !old(self).started ==> {
                &&& sent(r@) == old(self)@.opening_frames()
                &&& final(self)@ == (Live {
                    started: true,
                    seq: if old(self).shape == Shape::Responses {
                        (old(self).seq + 2) as u64
                    } else {
                        old(self).seq
                    },
                    ..old(self)@
                })
            },
    {
        if self.started {
            return Vec::new();
        }
        self.started = true;
        match self.shape {
            Shape::Anthropic => {
                let r = named_of(one(anthropic_live_start(self.id.as_str(), self.served.as_str())));
                assert(sent(r@) =~= old(self)@.opening_frames());
                r
            },
            Shape::OpenAi => {
                let r = plain_of(
                    only(
                        openai_live_start(self.id.as_str(), self.served.as_str(), self.created),
                    ),
                );
                assert(sent(r@) =~= old(self)@.opening_frames());
                r
            },
            Shape::Responses => {
                let mut events: Vec<(String, Json)> = Vec::new();
                events.push(
                    responses_live_start(self.id.as_str(), self.served.as_str(), self.created),
                );
                events.push(
                    responses_live_in_progress(
                        self.id.as_str(),
                        self.served.as_str(),
                        self.created,
                    ),
                );
                assert(pairs(events@) =~= seq![
                    begun("response.created"@, self@.id, self@.served, self@.created),
                    begun("response.in_progress"@, self@.id, self@.served, self@.created),
                ]);
                self.number(events)
            },
        }
    }

    /// What goes wrong is said in the stream itself.
    fn push_error(&mut self, message: &str) -> (r: Vec<Frame>)
        requires
            old(self)@.room(1),
        ensures
            sent(r@) == old(self)@.error_frames(message@),
            final(self)@ == (Live {
                seq: if old(self).shape == Shape::Responses {
                    (old(self).seq + 1) as u64
                } else {
                    old(self).seq
                },
                ..old(self)@
            }),
    {
        match self.shape {
            Shape::Anthropic => {
                let r = named_of(one(anthropic_live_error(message)));
                assert(sent(r@) =~= old(self)@.error_frames(message@));
                r
            },
            Shape::OpenAi => {
                let r = plain_of(only(openai_live_error(message)));
                assert(sent(r@) =~= old(self)@.error_frames(message@));
                r
            },
            Shape::Responses => self.number(one(responses_live_error(message))),
        }
    }

    /// Sends what is left of some words.
    fn say(&mut self, words: &str) -> (r: Vec<Frame>)
        requires
            old(self)@.room(3),
        ensures
            sent(r@) == old(self)@.more_frames(words@),
            r@.len() <= 3,
            final(self)@ == old(self)@.having_said(words@),
    {
        let v = chars_of(words);
        let n: usize = v.len();
        if n > self.emitted {
            let fresh = text_of(&v, self.emitted, n);
            assert(fresh@ =~= words@.skip(self.emitted as int));
            let r = self.delta(fresh.as_str());
            self.emitted = n;
            assert(sent(r@).len() == r@.len());
            r
        } else {
            let r: Vec<Frame> = Vec::new();
            assert(sent(r@) =~= seq![]);
            r
        }
    }

    fn delta(&mut self, fresh: &str) -> (r: Vec<Frame>)
        requires
            old(self)@.room(3),
        ensures
            sent(r@) == old(self)@.delta_frames(fresh@),
            r@.len() <= 3,
            final(self)@ == (Live {
                text_index: if old(self).shape == Shape::OpenAi {
                    old(self).text_index
                } else {
                    Some(0usize)
                },
                seq: if old(self).shape == Shape::Responses {
                    (old(self).seq + sent(r@).len()) as u64
                } else {
                    old(self).seq
                },
                ..old(self)@
            }),
    {
        match self.shape {
            Shape::Anthropic => {
                let mut events: Vec<(String, Json)> = Vec::new();
                if self.text_index.is_none() {
                    events.push(anthropic_live_text_start(0));
                }
                events.push(anthropic_live_text_delta(0, fresh));
                assert(pairs(events@) =~= old(self)@.delta_events(fresh@));
                self.text_index = Some(0);
                let r = named_of(events);
                assert(sent(r@).len() == r@.len());
                r
            },
            Shape::OpenAi => {
                let r = plain_of(
                    only(
                        openai_live_delta(
                            self.id.as_str(),
                            self.served.as_str(),
                            self.created,
                            fresh,
                        ),
                    ),
                );
                assert(sent(r@) =~= old(self)@.delta_frames(fresh@));
                r
            },
            Shape::Responses => {
                let mut events: Vec<(String, Json)> = if self.text_index.is_none() {
                    responses_live_text_start(self.id.as_str())
                } else {
                    Vec::new()
                };
                let ghost before = events@;
                let words = responses_live_delta(self.id.as_str(), fresh);
                events.push(words);
                assert(pairs(events@) =~= pairs(before).push((words.0@, words.1@)));
                assert(pairs(events@) =~= old(self)@.delta_events(fresh@));
                self.text_index = Some(0);
                assert(events@.len() == pairs(events@).len());
                self.number(events)
            },
        }
    }

    fn finish(&mut self, answer: &Answer) -> (r: Vec<Frame>)
        requires
            answer.usage.fits(),
            answer.tool_calls@.len() + 1 < usize::MAX,
            old(self).text_index matches Some(i) ==> i == 0,
            old(self)@.room(4 * answer.tool_calls@.len() + 7),
        ensures
            sent(r@) == old(self)@.ending_frames(answer@),
            final(self)@ == (Live {
                seq: if old(self).shape == Shape::Responses {
                    (old(self).seq + sent(r@).len()) as u64
                } else {
                    old(self).seq
                },
                ..old(self)@
            }),
    {
        match self.shape {
            Shape::Anthropic => named_of(anthropic_live_end(answer, self.text_index)),
            Shape::OpenAi => {
                let mut r = plain_of(
                    openai_live_end(
                        self.id.as_str(),
                        self.served.as_str(),
                        self.created,
                        answer,
                    ),
                );
                let ghost before = r@;
                r.push(Frame { name: None, data: FrameData::Raw("[DONE]") });
                assert(sent(r@) =~= sent(before).push(done_frame()));
                r
            },
            Shape::Responses => {
                let events = responses_live_end(
                    self.id.as_str(),
                    self.served.as_str(),
                    answer,
                    self.created,
                    self.text_index.is_some(),
                );
                proof {
                    lemma_tail_len(
                        self@.id,
                        self@.served,
                        answer@,
                        self@.created,
                        self@.text_index is Some,
                    );
                    assert(events@.len() == pairs(events@).len());
                }
                self.number(events)
            },
        }
    }

    /// A reply can take an event: its numbers do not run out, and the tokens
    /// of an answer can be summed.
    pub open spec fn takes(self, event: LiveEvent) -> bool {
        &&& self.text_index matches Some(i) ==> i == 0
        &&& match event {
            LiveEvent::Result(Ok(a)) => {
                &&& a.usage.fits()
                &&& a.tool_calls@.len() + 1 < usize::MAX
                &&& self@.room(4 * a.tool_calls@.len() + 10)
            },
            _ => self@.room(3),
        }
    }

    pub fn can_hear(&self, event: &LiveEvent) -> (r: bool)
        ensures
            r == self.takes(*event),
    {
        if let Some(i) = self.text_index {
            if i != 0 {
                return false;
            }
        }
        match event {
            LiveEvent::Result(Ok(a)) => {
                let n: usize = a.tool_calls.len();
                let next: u128 = self.seq as u128 + 4 * (n as u128) + 10;
                a.usage.can_be_summed() && n < usize::MAX - 1 && next <= u64::MAX as u128
            },
            _ => self.seq <= u64::MAX - 3,
        }
    }

    /// What an event does to the reply, and the frames that go out for it.
    pub fn hear(&mut self, event: LiveEvent) -> (r: Vec<Frame>)
        requires
            old(self).takes(event),
        ensures
            sent(r@) == old(self)@.frames_for(event),
            final(self)@ == old(self)@.after(event),
            final(self).text_index matches Some(i) ==> i == 0,
    {
        if self.done {
            let r: Vec<Frame> = Vec::new();
            assert(sent(r@) =~= seq![]);
            return r;
        }
        match event {
            LiveEvent::Delta(text) => {
                let mut raw = self.raw.clone();
                raw.append(text.as_str());
                let words = show_so_far(raw.as_str());
                let r = self.say(words.as_str());
                self.raw = raw;
                r
            },
            LiveEvent::Result(result) => match result {
                Ok(answer) => {
                    let words = peel_thinking(self.raw.as_str());
                    let mut r = self.say(words.as_str());
                    let ghost first = r@;
                    let mut tail = self.finish(&answer);
                    let ghost last = tail@;
                    self.done = true;
                    r.append(&mut tail);
                    assert(sent(r@) =~= sent(first) + sent(last));
                    r
                },
                Err(e) => {
                    let r = self.push_error(e.message().as_str());
                    self.done = true;
                    r
                },
            },
            LiveEvent::Failed(error) => {
                let r = self.push_error(failure_reason(error).as_str());
                self.done = true;
                r
            },
            LiveEvent::Closed(end) => {
                let r = self.push_error(closing_reason(end).as_str());
                self.done = true;
                r
            },
        }
    }
}

// -------------------------------------------------------------------- laws

/// Responses frames carry consecutive running numbers: the k-th frame of any
/// step carries the k-th number after the last one given out.
pub proof fn law_numbers_are_consecutive(es: Seq<(Seq<char>, Tree)>, seq: nat, k: int)
    requires
        0 <= k < es.len(),
        seq + es.len() <= u64::MAX,
    ensures
        numbered(es, seq).len() == es.len(),
        numbered(es, seq)[k].body matches Body::Json(t) && t.get("sequence_number"@) == Some(
            Tree::Number((seq + k + 1) as u64),
        ),
{
    law_put_then_get(
        es[k].1.fields(),
        "sequence_number"@,
        Tree::Number((seq + k + 1) as u64),
    );
}

/// The first words of a reply are preceded, in the same step, by the opening
/// of the block they belong to; later ones are not preceded by another.
pub proof fn law_words_follow_their_opening(v: Live, fresh: Seq<char>)
    requires
        v.shape != Shape::OpenAi,
    ensures
        v.text_index is None && v.shape == Shape::Anthropic ==> v.delta_events(fresh)[0]
            == block_start(0, text_block(""@)) && v.delta_events(fresh)[1] == block_delta(
            0,
            text_delta(fresh),
        ),
        v.text_index is None && v.shape == Shape::Responses ==> v.delta_events(fresh).take(2)
            == text_opening(v.id) && v.delta_events(fresh)[2] == words_event(v.id, fresh),
        v.text_index is Some ==> v.delta_events(fresh).len() == 1,
{
    if v.text_index is None && v.shape == Shape::Responses {
        assert(v.delta_events(fresh).take(2) =~= text_opening(v.id));
    }
}

/// Once a block was opened it stays opened, and once a reply is over nothing
/// more goes out.
pub proof fn law_replies_only_go_forward(v: Live, e: LiveEvent)
    ensures
        v.text_index is Some ==> v.after(e).text_index is Some,
        v.done ==> v.after(e) == v && v.frames_for(e).len() == 0,
        !(e is Delta) ==> v.after(e).done,
{
}

/// Some pieces of text, one after another.
pub open spec fn whole_text(ds: Seq<String>) -> Seq<char>
    decreases ds.len(),
{
    if ds.len() == 0 {
        seq![]
    } else {
        whole_text(ds.drop_last()) + ds.last()@
    }
}

impl Live {
    /// The state after some pieces of text.
    pub open spec fn after_pieces(self, ds: Seq<String>) -> Live
        decreases ds.len(),
    {
        if ds.len() == 0 {
            self
        } else {
            self.after_pieces(ds.drop_last()).after(LiveEvent::Delta(ds.last()))
        }
    }

    /// The words in the frames that some pieces of text sent.
    pub open spec fn words_sent(self, ds: Seq<String>) -> Seq<char>
        decreases ds.len(),
    {
        if ds.len() == 0 {
            seq![]
        } else {
            let before = self.after_pieces(ds.drop_last());
            self.words_sent(ds.drop_last()) + before.more_of(before.words_with(ds.last()@))
        }
    }
}

/// However a reply is cut into pieces, the words that were sent are those that
/// could be shown; and with what the result then sends of them, they are the
/// words of the whole answer, without its reasoning. A tag that was split
/// between two pieces is taken out like any other.
pub proof fn law_streamed_words_are_the_answer(v: Live, ds: Seq<String>)
    requires
        !v.done,
        v.raw.len() == 0,
        v.emitted == 0,
    ensures
        ({
            let w = v.after_pieces(ds);
            &&& !w.done
            &&& w.raw == whole_text(ds)
            &&& v.words_sent(ds) == shown_part(whole_text(ds))
            &&& v.words_sent(ds) + w.more_of(answer_part(w.raw)) == answer_part(whole_text(ds))
        }),
{
    lemma_words_sent(v, ds);
    let w = v.after_pieces(ds);
    let none = Seq::<char>::empty();
    law_shown_words_stay(w.raw, none);
    assert(w.raw + none =~= w.raw);
    let shown = shown_part(w.raw);
    let all = answer_part(w.raw);
    assert(shown + w.more_of(all) =~= all) by {
        assert(all.take(shown.len() as int) == shown);
        if !w.has_more(all) {
            assert(all.take(shown.len() as int) =~= all);
        }
    }
}

proof fn lemma_words_sent(v: Live, ds: Seq<String>)
    requires
        !v.done,
        v.raw.len() == 0,
        v.emitted == 0,
    ensures
        ({
            let w = v.after_pieces(ds);
            &&& !w.done
            &&& w.raw == whole_text(ds)
            &&& w.emitted == shown_part(w.raw).len()
            &&& v.words_sent(ds) == shown_part(w.raw)
        }),
    decreases ds.len(),
{
    if ds.len() == 0 {
        lemma_nothing_to_show();
        assert(v.raw =~= seq![]);
        assert(shown_part(v.raw) =~= seq![]);
    } else {
        let front = ds.drop_last();
        lemma_words_sent(v, front);
        let b = v.after_pieces(front);
        let text = ds.last()@;
        law_shown_words_stay(b.raw, text);
        let old_words = shown_part(b.raw);
        let words = b.words_with(text);
        assert(words.take(old_words.len() as int) == old_words);
        if b.has_more(words) {
            assert(old_words + words.skip(old_words.len() as int) =~= words);
        } else {
            assert(words.take(old_words.len() as int) =~= words);
            assert(old_words + Seq::<char>::empty() =~= words);
        }
    }
}

} // verus!
