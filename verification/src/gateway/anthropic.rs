//! Replies in Anthropic's Messages shape.
use vstd::prelude::*;

use crate::gateway::answer::{push_event, Answer, Reply};
use crate::json::{json_read, pairs, parse, trees, Json, Tree};
use crate::protocol::{calls, Call};

verus! {

broadcast use vstd::string::group_string_axioms;

/// A tool call's arguments as an object. A model can write arguments that
/// are no JSON object; they go under a key the client can still read.
pub open spec fn input_of(read: Option<Tree>, arguments: Seq<char>) -> Tree {
    match read {
        Some(t) if t is Record => t,
        _ => Tree::record().with("_raw"@, Tree::Text(arguments)),
    }
}

/// The input of a tool call, given what its arguments were read as.
pub fn arguments_as_input(read: Option<Json>, arguments: &str) -> (r: Json)
    ensures
        r@ == input_of(
            match read {
                Some(j) => Some(j@),
                None => None,
            },
            arguments@,
        ),
{
    if let Some(j) = read {
        if j.is_record() {
            return j;
        }
    }
    Json::record().with("_raw", Json::text(arguments))
}

pub fn parse_arguments(arguments: &str) -> (r: Json)
    ensures
        r@ == input_of(json_read(arguments@), arguments@),
{
    arguments_as_input(parse(arguments), arguments)
}

pub open spec fn text_block(text: Seq<char>) -> Tree {
    Tree::record().with("type"@, Tree::Text("text"@)).with("text"@, Tree::Text(text))
}

pub open spec fn tool_use_block(c: Call) -> Tree {
    Tree::record().with("type"@, Tree::Text("tool_use"@)).with("id"@, Tree::Text(c.id)).with(
        "name"@,
        Tree::Text(c.name),
    ).with("input"@, input_of(json_read(c.arguments), c.arguments))
}

/// The content of an Anthropic reply: the words first, then any tool calls.
pub open spec fn content_blocks(r: Reply) -> Seq<Tree> {
    let words = if r.text.len() > 0 {
        seq![text_block(r.text)]
    } else {
        seq![]
    };
    words + Seq::new(r.calls.len(), |i: int| tool_use_block(r.calls[i]))
}

fn text_block_json(text: &str) -> (r: Json)
    ensures
        r@ == text_block(text@),
{
    Json::record().with("type", Json::text("text")).with("text", Json::text(text))
}

pub fn anthropic_content(answer: &Answer) -> (r: Vec<Json>)
    ensures
        trees(r@) == content_blocks(answer@),
{
    let mut blocks: Vec<Json> = Vec::new();
    if !answer.text.as_str().is_empty() {
        blocks.push(text_block_json(answer.text.as_str()));
    }
    let ghost first = blocks@;
    let mut i: usize = 0;
    while i < answer.tool_calls.len()
        invariant
            i <= answer.tool_calls@.len(),
            blocks@.len() == first.len() + i,
            forall|k: int| 0 <= k < first.len() ==> #[trigger] blocks@[k] == first[k],
            forall|k: int|
                first.len() <= k < blocks@.len() ==> (#[trigger] blocks@[k])@ == tool_use_block(
                    calls(answer.tool_calls@)[k - first.len()],
                ),
        decreases answer.tool_calls@.len() - i,
    {
        let c = &answer.tool_calls[i];
        blocks.push(
            Json::record().with("type", Json::text("tool_use")).with(
                "id",
                Json::text(c.id.as_str()),
            ).with("name", Json::text(c.name.as_str())).with(
                "input",
                parse_arguments(c.arguments.as_str()),
            ),
        );
        i = i + 1;
    }
    assert(trees(blocks@) =~= content_blocks(answer@));
    blocks
}

pub open spec fn anthropic_body(id: Seq<char>, model: Seq<char>, r: Reply) -> Tree {
    Tree::record().with("id"@, Tree::Text(id)).with("type"@, Tree::Text("message"@)).with(
        "role"@,
        Tree::Text("assistant"@),
    ).with("model"@, Tree::Text(model)).with("content"@, Tree::List(content_blocks(r))).with(
        "stop_reason"@,
        Tree::Text(r.stop_reason()),
    ).with("stop_sequence"@, Tree::Null).with("usage"@, r.usage.anthropic())
}

/// A finished Anthropic response body.
pub fn anthropic_message(id: &str, model: &str, answer: &Answer) -> (r: Json)
    ensures
        r@ == anthropic_body(id@, model@, answer@),
{
    Json::record().with("id", Json::text(id)).with("type", Json::text("message")).with(
        "role",
        Json::text("assistant"),
    ).with("model", Json::text(model)).with("content", Json::list(anthropic_content(answer))).with(
        "stop_reason",
        Json::text(answer.stop_reason()),
    ).with("stop_sequence", Json::Null).with("usage", answer.usage.anthropic_json())
}

/// A message that has only just begun.
pub open spec fn message_begun(id: Seq<char>, model: Seq<char>, usage: Tree) -> (Seq<char>, Tree) {
    (
        "message_start"@,
        Tree::record().with("type"@, Tree::Text("message_start"@)).with(
            "message"@,
            Tree::record().with("id"@, Tree::Text(id)).with("type"@, Tree::Text("message"@)).with(
                "role"@,
                Tree::Text("assistant"@),
            ).with("model"@, Tree::Text(model)).with("content"@, Tree::List(seq![])).with(
                "stop_reason"@,
                Tree::Null,
            ).with("stop_sequence"@, Tree::Null).with("usage"@, usage),
        ),
    )
}

pub fn message_start(id: &str, model: &str, usage: Json) -> (r: (String, Json))
    ensures
        (r.0@, r.1@) == message_begun(id@, model@, usage@),
{
    (
        "message_start".to_string(),
        Json::record().with("type", Json::text("message_start")).with(
            "message",
            Json::record().with("id", Json::text(id)).with("type", Json::text("message")).with(
                "role",
                Json::text("assistant"),
            ).with("model", Json::text(model)).with("content", Json::empty()).with(
                "stop_reason",
                Json::Null,
            ).with("stop_sequence", Json::Null).with("usage", usage),
        ),
    )
}

pub open spec fn block_start(index: u64, block: Tree) -> (Seq<char>, Tree) {
    (
        "content_block_start"@,
        Tree::record().with("type"@, Tree::Text("content_block_start"@)).with(
            "index"@,
            Tree::Number(index),
        ).with("content_block"@, block),
    )
}

pub open spec fn block_delta(index: u64, delta: Tree) -> (Seq<char>, Tree) {
    (
        "content_block_delta"@,
        Tree::record().with("type"@, Tree::Text("content_block_delta"@)).with(
            "index"@,
            Tree::Number(index),
        ).with("delta"@, delta),
    )
}

pub open spec fn block_stop(index: u64) -> (Seq<char>, Tree) {
    (
        "content_block_stop"@,
        Tree::record().with("type"@, Tree::Text("content_block_stop"@)).with(
            "index"@,
            Tree::Number(index),
        ),
    )
}

pub open spec fn text_delta(text: Seq<char>) -> Tree {
    Tree::record().with("type"@, Tree::Text("text_delta"@)).with("text"@, Tree::Text(text))
}

/// A tool call as it begins: its input still to come.
pub open spec fn tool_use_begun(c: Call) -> Tree {
    Tree::record().with("type"@, Tree::Text("tool_use"@)).with("id"@, Tree::Text(c.id)).with(
        "name"@,
        Tree::Text(c.name),
    ).with("input"@, Tree::record())
}

pub open spec fn input_delta(arguments: Seq<char>) -> Tree {
    Tree::record().with("type"@, Tree::Text("input_json_delta"@)).with(
        "partial_json"@,
        Tree::Text(arguments),
    )
}

pub fn push_block_start(out: &mut Vec<(String, Json)>, index: u64, block: Json)
    ensures
        pairs(final(out)@) == pairs(old(out)@).push(block_start(index, block@)),
{
    push_event(
        out,
        "content_block_start",
        Json::record().with("type", Json::text("content_block_start")).with(
            "index",
            Json::Number(index),
        ).with("content_block", block),
    );
}

pub fn push_block_delta(out: &mut Vec<(String, Json)>, index: u64, delta: Json)
    ensures
        pairs(final(out)@) == pairs(old(out)@).push(block_delta(index, delta@)),
{
    push_event(
        out,
        "content_block_delta",
        Json::record().with("type", Json::text("content_block_delta")).with(
            "index",
            Json::Number(index),
        ).with("delta", delta),
    );
}

pub fn push_block_stop(out: &mut Vec<(String, Json)>, index: u64)
    ensures
        pairs(final(out)@) == pairs(old(out)@).push(block_stop(index)),
{
    push_event(
        out,
        "content_block_stop",
        Json::record().with("type", Json::text("content_block_stop")).with(
            "index",
            Json::Number(index),
        ),
    );
}

pub fn text_delta_json(text: &str) -> (r: Json)
    ensures
        r@ == text_delta(text@),
{
    Json::record().with("type", Json::text("text_delta")).with("text", Json::text(text))
}

/// The events of tool calls, each a block of its own, numbered from `base`.
pub open spec fn call_events(cs: Seq<Call>, base: nat) -> Seq<(Seq<char>, Tree)>
    decreases cs.len(),
{
    if cs.len() == 0 {
        seq![]
    } else {
        let index = (base + cs.len() - 1) as u64;
        call_events(cs.drop_last(), base).push(
            block_start(index, tool_use_begun(cs.last())),
        ).push(block_delta(index, input_delta(cs.last().arguments))).push(block_stop(index))
    }
}

/// How a message ends: why, what it came to, and that it is over.
pub open spec fn message_ending(r: Reply) -> Seq<(Seq<char>, Tree)> {
    seq![
        (
            "message_delta"@,
            Tree::record().with("type"@, Tree::Text("message_delta"@)).with(
                "delta"@,
                Tree::record().with("stop_reason"@, Tree::Text(r.stop_reason())).with(
                    "stop_sequence"@,
                    Tree::Null,
                ),
            ).with(
                "usage"@,
                Tree::record().with("output_tokens"@, Tree::Number(r.usage.output)),
            ),
        ),
        ("message_stop"@, Tree::record().with("type"@, Tree::Text("message_stop"@))),
    ]
}

pub fn push_call_events(out: &mut Vec<(String, Json)>, answer: &Answer, base: usize)
    requires
        base + answer.tool_calls@.len() <= usize::MAX,
    ensures
        pairs(final(out)@) == pairs(old(out)@) + call_events(answer@.calls, base as nat),
{
    let ghost start = pairs(out@);
    let ghost all = answer@.calls;
    let mut i: usize = 0;
    assert(start + call_events(all.take(0), base as nat) =~= start);
    while i < answer.tool_calls.len()
        invariant
            i <= answer.tool_calls@.len(),
            base + answer.tool_calls@.len() <= usize::MAX,
            all == calls(answer.tool_calls@),
            pairs(out@) == start + call_events(all.take(i as int), base as nat),
        decreases answer.tool_calls@.len() - i,
    {
        let ghost now = all.take(i as int + 1);
        assert(now.drop_last() =~= all.take(i as int));
        let c = &answer.tool_calls[i];
        assert(now.last() == c@);
        let index: u64 = (base + i) as u64;
        push_block_start(
            out,
            index,
            Json::record().with("type", Json::text("tool_use")).with(
                "id",
                Json::text(c.id.as_str()),
            ).with("name", Json::text(c.name.as_str())).with("input", Json::record()),
        );
        push_block_delta(
            out,
            index,
            Json::record().with("type", Json::text("input_json_delta")).with(
                "partial_json",
                Json::text(c.arguments.as_str()),
            ),
        );
        push_block_stop(out, index);
        assert(pairs(out@) =~= start + call_events(now, base as nat));
        i = i + 1;
    }
    assert(all.take(i as int) =~= all);
}

pub fn push_message_ending(out: &mut Vec<(String, Json)>, answer: &Answer)
    ensures
        pairs(final(out)@) == pairs(old(out)@) + message_ending(answer@),
{
    let ghost start = pairs(out@);
    push_event(
        out,
        "message_delta",
        Json::record().with("type", Json::text("message_delta")).with(
            "delta",
            Json::record().with("stop_reason", Json::text(answer.stop_reason())).with(
                "stop_sequence",
                Json::Null,
            ),
        ).with(
            "usage",
            Json::record().with("output_tokens", Json::Number(answer.usage.output)),
        ),
    );
    push_event(out, "message_stop", Json::record().with("type", Json::text("message_stop")));
    assert(pairs(out@) =~= start + message_ending(answer@));
}

/// The events of the words of an answer: one block, number zero.
pub open spec fn text_events(text: Seq<char>) -> Seq<(Seq<char>, Tree)> {
    if text.len() == 0 {
        seq![]
    } else {
        seq![
            block_start(0, text_block(""@)),
            block_delta(0, text_delta(text)),
            block_stop(0),
        ]
    }
}

/// All events of a finished answer, in order.
pub open spec fn anthropic_events(id: Seq<char>, model: Seq<char>, r: Reply) -> Seq<
    (Seq<char>, Tree),
> {
    let usage = Tree::record().with("input_tokens"@, Tree::Number(r.usage.input)).with(
        "output_tokens"@,
        Tree::Number(0),
    ).with("cache_read_input_tokens"@, Tree::Number(r.usage.cached));
    let base: nat = if r.text.len() == 0 {
        0
    } else {
        1
    };
    seq![message_begun(id, model, usage)] + text_events(r.text) + call_events(r.calls, base)
        + message_ending(r)
}

/// The server-sent events of a finished answer, in the order clients expect.
pub fn anthropic_stream(id: &str, model: &str, answer: &Answer) -> (r: Vec<(String, Json)>)
    requires
        answer.tool_calls@.len() < usize::MAX,
    ensures
        pairs(r@) == anthropic_events(id@, model@, answer@),
{
    let mut events: Vec<(String, Json)> = Vec::new();
    let usage = Json::record().with("input_tokens", Json::Number(answer.usage.input)).with(
        "output_tokens",
        Json::Number(0),
    ).with("cache_read_input_tokens", Json::Number(answer.usage.cached));
    let ghost usage_tree = usage@;
    events.push(message_start(id, model, usage));
    let ghost first = seq![message_begun(id@, model@, usage_tree)];
    assert(pairs(events@) =~= first);
    let mut index: usize = 0;
    if !answer.text.as_str().is_empty() {
        push_block_start(&mut events, 0, text_block_json(""));
        push_block_delta(&mut events, 0, text_delta_json(answer.text.as_str()));
        push_block_stop(&mut events, 0);
        index = 1;
    }
    assert(pairs(events@) =~= first + text_events(answer@.text));
    push_call_events(&mut events, answer, index);
    push_message_ending(&mut events, answer);
    events
}

pub open spec fn anthropic_refusal(kind: Seq<char>, message: Seq<char>) -> Tree {
    Tree::record().with("type"@, Tree::Text("error"@)).with(
        "error"@,
        Tree::record().with("type"@, Tree::Text(kind)).with("message"@, Tree::Text(message)),
    )
}

pub fn anthropic_error(kind: &str, message: &str) -> (r: Json)
    ensures
        r@ == anthropic_refusal(kind@, message@),
{
    Json::record().with("type", Json::text("error")).with(
        "error",
        Json::record().with("type", Json::text(kind)).with("message", Json::text(message)),
    )
}


// -------------------------------------------------------------------- live
//
// One frame as each part of the answer arrives. The connection is visibly
// alive from the moment the job is submitted, instead of silent to the end.

pub fn anthropic_live_start(id: &str, model: &str) -> (r: (String, Json))
    ensures
        (r.0@, r.1@) == message_begun(
            id@,
            model@,
            Tree::record().with("input_tokens"@, Tree::Number(0)).with(
                "output_tokens"@,
                Tree::Number(0),
            ),
        ),
{
    message_start(
        id,
        model,
        Json::record().with("input_tokens", Json::Number(0)).with("output_tokens", Json::Number(0)),
    )
}

pub fn anthropic_live_text_start(index: usize) -> (r: (String, Json))
    ensures
        (r.0@, r.1@) == block_start(index as u64, text_block(""@)),
{
    (
        "content_block_start".to_string(),
        Json::record().with("type", Json::text("content_block_start")).with(
            "index",
            Json::Number(index as u64),
        ).with("content_block", text_block_json("")),
    )
}

pub fn anthropic_live_text_delta(index: usize, text: &str) -> (r: (String, Json))
    ensures
        (r.0@, r.1@) == block_delta(index as u64, text_delta(text@)),
{
    (
        "content_block_delta".to_string(),
        Json::record().with("type", Json::text("content_block_delta")).with(
            "index",
            Json::Number(index as u64),
        ).with("delta", text_delta_json(text)),
    )
}

/// Everything after the words: their block's end, where one was opened, the
/// tool calls, and the message's end.
pub open spec fn anthropic_tail(r: Reply, text_index: Option<usize>) -> Seq<(Seq<char>, Tree)> {
    let (closing, base): (Seq<(Seq<char>, Tree)>, nat) = match text_index {
        Some(i) => (seq![block_stop(i as u64)], (i + 1) as nat),
        None => (seq![], 0),
    };
    closing + call_events(r.calls, base) + message_ending(r)
}

pub fn anthropic_live_end(answer: &Answer, text_index: Option<usize>) -> (r: Vec<(String, Json)>)
    requires
        answer.tool_calls@.len() + (match text_index {
            Some(i) => i + 1,
            None => 0,
        }) <= usize::MAX,
    ensures
        pairs(r@) == anthropic_tail(answer@, text_index),
{
    let mut events: Vec<(String, Json)> = Vec::new();
    let mut base: usize = 0;
    if let Some(i) = text_index {
        push_block_stop(&mut events, i as u64);
        base = i + 1;
        assert(pairs(events@) =~= seq![block_stop(i as u64)]);
    } else {
        assert(pairs(events@) =~= seq![]);
    }
    push_call_events(&mut events, answer, base);
    push_message_ending(&mut events, answer);
    events
}

pub fn anthropic_live_error(message: &str) -> (r: (String, Json))
    ensures
        (r.0@, r.1@) == ("error"@, anthropic_refusal("overloaded_error"@, message@)),
{
    ("error".to_string(), anthropic_error("overloaded_error", message))
}

/// Streaming the words as they come or all at once gives the same events:
/// those up to the words, then the tail. A reply without words has only the
/// first event before it.
pub proof fn law_live_tail_matches_stream(id: Seq<char>, model: Seq<char>, r: Reply)
    ensures
        r.text.len() > 0 ==> anthropic_events(id, model, r).skip(3) == anthropic_tail(
            r,
            Some(0usize),
        ),
        r.text.len() == 0 ==> anthropic_events(id, model, r).skip(1) == anthropic_tail(r, None),
{
    let whole = anthropic_events(id, model, r);
    if r.text.len() > 0 {
        assert(whole.skip(3) =~= anthropic_tail(r, Some(0usize)));
    } else {
        assert(whole.skip(1) =~= anthropic_tail(r, None));
    }
}

/// The events of tool calls come in threes, and the k-th three carry the
/// index k places after the base.
pub proof fn law_call_events_are_numbered(cs: Seq<Call>, base: nat, k: int)
    requires
        0 <= k < cs.len(),
    ensures
        call_events(cs, base).len() == 3 * cs.len(),
        call_events(cs, base)[3 * k] == block_start((base + k) as u64, tool_use_begun(cs[k])),
        call_events(cs, base)[3 * k + 1] == block_delta(
            (base + k) as u64,
            input_delta(cs[k].arguments),
        ),
        call_events(cs, base)[3 * k + 2] == block_stop((base + k) as u64),
    decreases cs.len(),
{
    let front = cs.drop_last();
    lemma_call_events_len(front, base);
    if k < front.len() {
        law_call_events_are_numbered(front, base, k);
        assert(front[k] == cs[k]);
    }
}

proof fn lemma_call_events_len(cs: Seq<Call>, base: nat)
    ensures
        call_events(cs, base).len() == 3 * cs.len(),
    decreases cs.len(),
{
    if cs.len() > 0 {
        lemma_call_events_len(cs.drop_last(), base);
    }
}

} // verus!
