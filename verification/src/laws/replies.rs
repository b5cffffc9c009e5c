//! What a reply says in each client's own shape, read back field by field.
use vstd::prelude::*;

use crate::gateway::answer::{usage_of, Reply, Usage};
use crate::gateway::anthropic::{
    anthropic_body, anthropic_events, anthropic_refusal, call_events, content_blocks, input_delta,
    input_of, law_call_events_are_numbered, message_ending, text_block, tool_use_begun,
    tool_use_block,
};
use crate::gateway::openai::{
    chunk, completion_body, completion_chunks, completion_message, completion_tail, content_delta,
    indexed_call, indexed_calls, openai_refusal, role_delta, tool_call, tool_calls,
};
use crate::gateway::responses::{
    function_item, message_item, output_items, response_body, text_part,
};
use crate::json::{json_read, lemma_lookup_push, Tree};
use crate::protocol::{Call, TokenUsage};

verus! {

broadcast use vstd::string::group_string_axioms;

/// A field that is asked for of a record with one more.
pub broadcast proof fn lemma_one_more_field(
    t: Tree,
    key: Seq<char>,
    value: Tree,
    asked: Seq<char>,
)
    ensures
        #[trigger] t.with(key, value).get(asked) == (match t.get(asked) {
            Some(v) => Some(v),
            None => if key == asked {
                Some(value)
            } else {
                None
            },
        }),
{
    lemma_lookup_push(t.fields(), (key, value), asked);
}

// ------------------------------------------------------------------- usage

/// Every shape tells the counts as they are, and the total is their sum.
pub proof fn law_usage_is_told_as_it_is(u: Usage)
    requires
        u.fits(),
    ensures
        ({
            let o = u.openai();
            &&& o.get("prompt_tokens"@) == Some(Tree::Number(u.input))
            &&& o.get("completion_tokens"@) == Some(Tree::Number(u.output))
            &&& o.get("total_tokens"@) matches Some(Tree::Number(n)) && n == u.input + u.output
            &&& o.get("prompt_tokens_details"@) matches Some(d) && d.get("cached_tokens"@) == Some(
                Tree::Number(u.cached),
            )
            &&& o.get("completion_tokens_details"@) matches Some(d) && d.get("reasoning_tokens"@)
                == Some(Tree::Number(u.reasoning))
        }),
        ({
            let a = u.anthropic();
            &&& a.get("input_tokens"@) == Some(Tree::Number(u.input))
            &&& a.get("output_tokens"@) == Some(Tree::Number(u.output))
            &&& a.get("cache_read_input_tokens"@) == Some(Tree::Number(u.cached))
        }),
        ({
            let r = u.responses();
            &&& r.get("input_tokens"@) == Some(Tree::Number(u.input))
            &&& r.get("output_tokens"@) == Some(Tree::Number(u.output))
            &&& r.get("total_tokens"@) matches Some(Tree::Number(n)) && n == u.input + u.output
            &&& r.get("input_tokens_details"@) matches Some(d) && d.get("cached_tokens"@) == Some(
                Tree::Number(u.cached),
            )
            &&& r.get("output_tokens_details"@) matches Some(d) && d.get("reasoning_tokens"@)
                == Some(Tree::Number(u.reasoning))
        }),
{
    broadcast use lemma_one_more_field;

    reveal_strlit("prompt_tokens");
    reveal_strlit("completion_tokens");
    reveal_strlit("total_tokens");
    reveal_strlit("prompt_tokens_details");
    reveal_strlit("completion_tokens_details");
    reveal_strlit("cached_tokens");
    reveal_strlit("reasoning_tokens");
    reveal_strlit("input_tokens");
    reveal_strlit("output_tokens");
    reveal_strlit("cache_read_input_tokens");
    reveal_strlit("input_tokens_details");
    reveal_strlit("output_tokens_details");
    assert("prompt_tokens"@.len() == 13);
    assert("completion_tokens"@.len() == 17);
    assert("total_tokens"@.len() == 12);
    assert("prompt_tokens_details"@.len() == 21);
    assert("completion_tokens_details"@.len() == 25);
    assert("cached_tokens"@.len() == 13);
    assert("reasoning_tokens"@.len() == 16);
    assert("input_tokens"@.len() == 12);
    assert("output_tokens"@.len() == 13);
    assert("cache_read_input_tokens"@.len() == 23);
    assert("input_tokens_details"@.len() == 20);
    assert("output_tokens_details"@.len() == 21);
    assert("prompt_tokens"@[0] == 'p');
    assert("cached_tokens"@[0] == 'c');
    assert("output_tokens"@[0] == 'o');
    assert("total_tokens"@[0] == 't');
    assert("input_tokens"@[0] == 'i');
    assert("prompt_tokens_details"@[0] == 'p');
    assert("output_tokens_details"@[0] == 'o');
}

/// The counts a reply tells are those of the job: the prompt is what went in,
/// the completion what came out.
pub proof fn law_usage_keeps_its_sides(u: TokenUsage)
    ensures
        usage_of(u).input == u.prompt,
        usage_of(u).output == u.completion,
        usage_of(u).cached == u.cached,
        usage_of(u).reasoning == u.reasoning,
{
}

// ------------------------------------------------------------------ endings

/// A reply that calls tools ends for that reason; one that was cut short says
/// so; any other is at its end.
pub proof fn law_why_a_reply_ends(r: Reply)
    ensures
        r.calls.len() > 0 ==> r.stop_reason() == "tool_use"@ && r.finish_reason() == "tool_calls"@,
        r.calls.len() == 0 && r.finish == Some("length"@) ==> r.stop_reason() == "max_tokens"@
            && r.finish_reason() == "length"@,
        r.calls.len() == 0 && r.finish != Some("length"@) ==> r.stop_reason() == "end_turn"@
            && r.finish_reason() == "stop"@,
        r.finish == Some("length"@) ==> r.status() == "incomplete"@,
        r.finish != Some("length"@) ==> r.status() == "completed"@,
{
}

// ------------------------------------------------------------------ openai

/// A tool call in OpenAI's shape reads as the model made it.
pub open spec fn reads_as_call(t: Tree, c: Call) -> bool {
    &&& t.get("id"@) == Some(Tree::Text(c.id))
    &&& t.get("type"@) == Some(Tree::Text("function"@))
    &&& t.get("function"@) matches Some(f) && f.get("name"@) == Some(Tree::Text(c.name)) && f.get(
        "arguments"@,
    ) == Some(Tree::Text(c.arguments))
}

proof fn lemma_call_reads(i: int, c: Call)
    ensures
        reads_as_call(tool_call(c), c),
        reads_as_call(indexed_call(i, c), c),
        indexed_call(i, c).get("index"@) == Some(Tree::Number(i as u64)),
{
    broadcast use lemma_one_more_field;

    reveal_strlit("id");
    reveal_strlit("type");
    reveal_strlit("function");
    reveal_strlit("name");
    reveal_strlit("arguments");
    reveal_strlit("index");
    assert("id"@.len() == 2);
    assert("type"@.len() == 4);
    assert("function"@.len() == 8);
    assert("name"@.len() == 4);
    assert("arguments"@.len() == 9);
    assert("index"@.len() == 5);
    assert("type"@[0] == 't');
    assert("name"@[0] == 'n');
}

/// The first choice of a completion or of a chunk of one.
pub open spec fn first_choice(t: Tree) -> Option<Tree> {
    match t.get("choices"@) {
        Some(Tree::List(c)) if c.len() > 0 => Some(c[0]),
        _ => None,
    }
}

/// A completion in OpenAI's shape reads as the answer: its words, each of its
/// tool calls with id, name and arguments, why it ended, and what it used. A
/// turn that only calls tools has no words, which is told as nothing.
pub proof fn law_a_completion_reads_as_the_answer(
    id: Seq<char>,
    model: Seq<char>,
    r: Reply,
    created: i64,
)
    ensures
        ({
            let body = completion_body(id, model, r, created);
            &&& body.get("id"@) == Some(Tree::Text(id))
            &&& body.get("model"@) == Some(Tree::Text(model))
            &&& body.get("object"@) == Some(Tree::Text("chat.completion"@))
            &&& created >= 0 ==> body.get("created"@) == Some(Tree::Number(created as u64))
            &&& body.get("usage"@) == Some(r.usage.openai())
            &&& first_choice(body) matches Some(c) && {
                &&& c.get("index"@) == Some(Tree::Number(0))
                &&& c.get("finish_reason"@) == Some(Tree::Text(r.finish_reason()))
                &&& c.get("message"@) matches Some(m) && reads_as_message(m, r)
            }
        }),
{
    broadcast use lemma_one_more_field;

    reveal_strlit("id");
    reveal_strlit("model");
    reveal_strlit("object");
    reveal_strlit("created");
    reveal_strlit("usage");
    reveal_strlit("choices");
    reveal_strlit("index");
    reveal_strlit("finish_reason");
    reveal_strlit("message");
    assert("id"@.len() == 2);
    assert("model"@.len() == 5);
    assert("object"@.len() == 6);
    assert("created"@.len() == 7);
    assert("usage"@.len() == 5);
    assert("choices"@.len() == 7);
    assert("index"@.len() == 5);
    assert("finish_reason"@.len() == 13);
    assert("message"@.len() == 7);
    assert("model"@[0] == 'm');
    assert("usage"@[0] == 'u');
    assert("index"@[0] == 'i');
    assert("created"@[1] == 'r');
    assert("choices"@[1] == 'h');
    assert("created"@[0] == 'c');
    assert("message"@[0] == 'm');
    assert("choices"@[0] == 'c');
    lemma_message_reads(r);
}

/// An assistant's message in OpenAI's shape.
pub open spec fn reads_as_message(m: Tree, r: Reply) -> bool {
    &&& m.get("role"@) == Some(Tree::Text("assistant"@))
    &&& r.text.len() > 0 || r.calls.len() == 0 ==> m.get("content"@) == Some(Tree::Text(r.text))
    &&& r.text.len() == 0 && r.calls.len() > 0 ==> m.get("content"@) == Some(Tree::Null)
    &&& r.calls.len() == 0 ==> m.get("tool_calls"@) is None
    &&& r.calls.len() > 0 ==> (m.get("tool_calls"@) matches Some(Tree::List(ts)) && ts.len()
        == r.calls.len() && forall|k: int|
        0 <= k < ts.len() ==> reads_as_call(#[trigger] ts[k], r.calls[k]))
}

proof fn lemma_message_reads(r: Reply)
    ensures
        reads_as_message(completion_message(r), r),
{
    broadcast use lemma_one_more_field;

    reveal_strlit("role");
    reveal_strlit("content");
    reveal_strlit("tool_calls");
    assert("role"@.len() == 4);
    assert("content"@.len() == 7);
    assert("tool_calls"@.len() == 10);
    let ts = tool_calls(r.calls);
    assert forall|k: int| 0 <= k < ts.len() implies reads_as_call(#[trigger] ts[k], r.calls[k]) by {
        lemma_call_reads(k, r.calls[k]);
    }
}

/// The change a chunk of a completion brings.
pub open spec fn delta_in(t: Tree) -> Option<Tree> {
    match first_choice(t) {
        Some(c) => c.get("delta"@),
        None => None,
    }
}

proof fn lemma_chunk_reads(id: Seq<char>, model: Seq<char>, created: i64, delta: Tree, finish: Tree)
    ensures
        ({
            let t = chunk(id, model, created, delta, finish);
            &&& t.get("id"@) == Some(Tree::Text(id))
            &&& t.get("model"@) == Some(Tree::Text(model))
            &&& t.get("object"@) == Some(Tree::Text("chat.completion.chunk"@))
            &&& created >= 0 ==> t.get("created"@) == Some(Tree::Number(created as u64))
            &&& delta_in(t) == Some(delta)
        }),
{
    broadcast use lemma_one_more_field;

    reveal_strlit("id");
    reveal_strlit("model");
    reveal_strlit("object");
    reveal_strlit("created");
    reveal_strlit("choices");
    reveal_strlit("index");
    reveal_strlit("delta");
    reveal_strlit("finish_reason");
    assert("id"@.len() == 2);
    assert("model"@.len() == 5);
    assert("object"@.len() == 6);
    assert("created"@.len() == 7);
    assert("choices"@.len() == 7);
    assert("index"@.len() == 5);
    assert("delta"@.len() == 5);
    assert("finish_reason"@.len() == 13);
    assert("model"@[0] == 'm');
    assert("index"@[0] == 'i');
    assert("delta"@[0] == 'd');
    assert("created"@[1] == 'r');
    assert("choices"@[1] == 'h');
}

/// A streamed completion says the same: the first chunk names the assistant,
/// the next brings the words where there are any, and the tail brings every
/// tool call with its place, id, name and arguments.
pub proof fn law_a_streamed_completion_reads_as_the_answer(
    id: Seq<char>,
    model: Seq<char>,
    r: Reply,
    created: i64,
)
    ensures
        ({
            let all = completion_chunks(id, model, r, created);
            &&& all.len() > 0
            &&& delta_in(all[0]) matches Some(d) && d.get("role"@) == Some(Tree::Text("assistant"@))
            &&& r.text.len() > 0 ==> all.len() > 1 && (delta_in(all[1]) matches Some(d) && d.get(
                "content"@,
            ) == Some(Tree::Text(r.text)))
        }),
        ({
            let tail = completion_tail(id, model, created, r);
            &&& r.calls.len() == 0 ==> tail.len() == 2
            &&& r.calls.len() > 0 ==> {
                &&& tail.len() == 3
                &&& tail[0].get("id"@) == Some(Tree::Text(id))
                &&& tail[0].get("model"@) == Some(Tree::Text(model))
                &&& delta_in(tail[0]) matches Some(d) && (d.get("tool_calls"@) matches Some(
                    Tree::List(ts),
                ) && ts.len() == r.calls.len() && forall|k: int|
                    0 <= k < ts.len() ==> reads_as_call(#[trigger] ts[k], r.calls[k])
                        && ts[k].get("index"@) == Some(Tree::Number(k as u64)))
            }
        }),
{
    broadcast use lemma_one_more_field;

    reveal_strlit("role");
    reveal_strlit("content");
    reveal_strlit("tool_calls");
    assert("role"@.len() == 4);
    assert("content"@.len() == 7);
    assert("tool_calls"@.len() == 10);
    let all = completion_chunks(id, model, r, created);
    let tail = completion_tail(id, model, created, r);
    lemma_chunk_reads(id, model, created, role_delta(), Tree::Null);
    assert(all[0] == chunk(id, model, created, role_delta(), Tree::Null));
    if r.text.len() > 0 {
        lemma_chunk_reads(id, model, created, content_delta(r.text), Tree::Null);
        assert(all[1] == chunk(id, model, created, content_delta(r.text), Tree::Null));
    }
    if r.calls.len() > 0 {
        let d = Tree::record().with("tool_calls"@, Tree::List(indexed_calls(r.calls)));
        lemma_chunk_reads(id, model, created, d, Tree::Null);
        assert(tail[0] == chunk(id, model, created, d, Tree::Null));
        let ts = indexed_calls(r.calls);
        assert forall|k: int| 0 <= k < ts.len() implies reads_as_call(
            #[trigger] ts[k],
            r.calls[k],
        ) && ts[k].get("index"@) == Some(Tree::Number(k as u64)) by {
            lemma_call_reads(k, r.calls[k]);
        }
    }
}

// --------------------------------------------------------------- anthropic

/// A block of a reply in Anthropic's shape reads as the call it is.
pub open spec fn reads_as_use(t: Tree, c: Call) -> bool {
    &&& t.get("type"@) == Some(Tree::Text("tool_use"@))
    &&& t.get("id"@) == Some(Tree::Text(c.id))
    &&& t.get("name"@) == Some(Tree::Text(c.name))
}

proof fn lemma_use_reads(c: Call)
    ensures
        reads_as_use(tool_use_block(c), c),
        reads_as_use(tool_use_begun(c), c),
        tool_use_block(c).get("input"@) == Some(input_of(json_read(c.arguments), c.arguments)),
        input_delta(c.arguments).get("partial_json"@) == Some(Tree::Text(c.arguments)),
        input_delta(c.arguments).get("type"@) == Some(Tree::Text("input_json_delta"@)),
{
    broadcast use lemma_one_more_field;

    reveal_strlit("type");
    reveal_strlit("id");
    reveal_strlit("name");
    reveal_strlit("input");
    reveal_strlit("partial_json");
    assert("type"@.len() == 4);
    assert("id"@.len() == 2);
    assert("name"@.len() == 4);
    assert("input"@.len() == 5);
    assert("partial_json"@.len() == 12);
    assert("type"@[0] == 't');
    assert("name"@[0] == 'n');
}

/// Arguments that are a JSON object are the input; any others are kept under a
/// key the client can read.
pub proof fn law_arguments_become_the_input(arguments: Seq<char>)
    ensures
        json_read(arguments) matches Some(Tree::Record(f)) ==> input_of(
            json_read(arguments),
            arguments,
        ) == Tree::Record(f),
        !(json_read(arguments) matches Some(Tree::Record(_))) ==> input_of(
            json_read(arguments),
            arguments,
        ).get("_raw"@) == Some(Tree::Text(arguments)),
{
    broadcast use lemma_one_more_field;

}

/// A message in Anthropic's shape reads as the answer: the words first, then
/// each tool call with its id, its name and its input.
pub proof fn law_a_message_reads_as_the_answer(id: Seq<char>, model: Seq<char>, r: Reply)
    ensures
        ({
            let m = anthropic_body(id, model, r);
            let n: int = if r.text.len() > 0 {
                1
            } else {
                0
            };
            &&& m.get("id"@) == Some(Tree::Text(id))
            &&& m.get("type"@) == Some(Tree::Text("message"@))
            &&& m.get("role"@) == Some(Tree::Text("assistant"@))
            &&& m.get("model"@) == Some(Tree::Text(model))
            &&& m.get("stop_reason"@) == Some(Tree::Text(r.stop_reason()))
            &&& m.get("usage"@) == Some(r.usage.anthropic())
            &&& m.get("content"@) matches Some(Tree::List(bs)) && {
                &&& bs.len() == n + r.calls.len()
                &&& n == 1 ==> bs[0].get("type"@) == Some(Tree::Text("text"@)) && bs[0].get(
                    "text"@,
                ) == Some(Tree::Text(r.text))
                &&& forall|k: int|
                    0 <= k < r.calls.len() ==> {
                        let c = #[trigger] r.calls[k];
                        &&& reads_as_use(bs[n + k], c)
                        &&& bs[n + k].get("input"@) == Some(
                            input_of(json_read(c.arguments), c.arguments),
                        )
                    }
            }
        }),
{
    broadcast use lemma_one_more_field;

    reveal_strlit("id");
    reveal_strlit("type");
    reveal_strlit("role");
    reveal_strlit("model");
    reveal_strlit("content");
    reveal_strlit("stop_reason");
    reveal_strlit("stop_sequence");
    reveal_strlit("usage");
    reveal_strlit("text");
    assert("id"@.len() == 2);
    assert("type"@.len() == 4);
    assert("role"@.len() == 4);
    assert("model"@.len() == 5);
    assert("content"@.len() == 7);
    assert("stop_reason"@.len() == 11);
    assert("stop_sequence"@.len() == 13);
    assert("usage"@.len() == 5);
    assert("text"@.len() == 4);
    assert("type"@[0] == 't');
    assert("role"@[0] == 'r');
    assert("type"@[1] == 'y');
    assert("text"@[1] == 'e');
    assert("text"@[0] == 't');
    assert("model"@[0] == 'm');
    assert("usage"@[0] == 'u');
    let n: int = if r.text.len() > 0 {
        1
    } else {
        0
    };
    let bs = content_blocks(r);
    assert forall|k: int| 0 <= k < r.calls.len() implies {
        let c = #[trigger] r.calls[k];
        &&& reads_as_use(bs[n + k], c)
        &&& bs[n + k].get("input"@) == Some(input_of(json_read(c.arguments), c.arguments))
    } by {
        lemma_use_reads(r.calls[k]);
        assert(bs[n + k] == tool_use_block(r.calls[k]));
    }
    if n == 1 {
        assert(bs[0] == text_block(r.text));
    }
}

/// The events of each tool call give its id, its name and its arguments, in a
/// block of the call's own number.
pub proof fn law_streamed_calls_read_as_they_were_made(cs: Seq<Call>, base: nat, k: int)
    requires
        0 <= k < cs.len(),
        base + cs.len() <= u64::MAX,
    ensures
        ({
            let e = call_events(cs, base);
            let place = Some(Tree::Number((base + k) as u64));
            &&& e.len() == 3 * cs.len()
            &&& e[3 * k].0 == "content_block_start"@ && e[3 * k].1.get("index"@) == place
            &&& e[3 * k].1.get("content_block"@) matches Some(b) && reads_as_use(b, cs[k])
            &&& e[3 * k + 1].0 == "content_block_delta"@ && e[3 * k + 1].1.get("index"@) == place
            &&& e[3 * k + 1].1.get("delta"@) matches Some(d) && d.get("type"@) == Some(
                Tree::Text("input_json_delta"@),
            ) && d.get("partial_json"@) == Some(Tree::Text(cs[k].arguments))
            &&& e[3 * k + 2].0 == "content_block_stop"@ && e[3 * k + 2].1.get("index"@) == place
        }),
{
    broadcast use lemma_one_more_field;

    reveal_strlit("type");
    reveal_strlit("index");
    reveal_strlit("content_block");
    reveal_strlit("delta");
    assert("type"@.len() == 4);
    assert("index"@.len() == 5);
    assert("content_block"@.len() == 13);
    assert("delta"@.len() == 5);
    assert("index"@[0] == 'i');
    assert("delta"@[0] == 'd');
    law_call_events_are_numbered(cs, base, k);
    lemma_use_reads(cs[k]);
}

/// A stream in Anthropic's shape names its id and model first, and closes with
/// why it ended and what came out.
pub proof fn law_a_stream_names_itself_and_its_end(id: Seq<char>, model: Seq<char>, r: Reply)
    ensures
        ({
            let e = anthropic_events(id, model, r);
            let n = e.len() as int;
            &&& n >= 3
            &&& e[0].0 == "message_start"@
            &&& e[0].1.get("message"@) matches Some(m) && {
                &&& m.get("id"@) == Some(Tree::Text(id))
                &&& m.get("model"@) == Some(Tree::Text(model))
                &&& m.get("role"@) == Some(Tree::Text("assistant"@))
                &&& m.get("usage"@) matches Some(u) && u.get("input_tokens"@) == Some(
                    Tree::Number(r.usage.input),
                )
            }
            &&& e[n - 2].0 == "message_delta"@
            &&& e[n - 2].1.get("delta"@) matches Some(d) && d.get("stop_reason"@) == Some(
                Tree::Text(r.stop_reason()),
            )
            &&& e[n - 2].1.get("usage"@) matches Some(u) && u.get("output_tokens"@) == Some(
                Tree::Number(r.usage.output),
            )
            &&& e[n - 1].0 == "message_stop"@
        }),
{
    broadcast use lemma_one_more_field;

    reveal_strlit("id");
    reveal_strlit("type");
    reveal_strlit("role");
    reveal_strlit("model");
    reveal_strlit("content");
    reveal_strlit("stop_reason");
    reveal_strlit("stop_sequence");
    reveal_strlit("usage");
    reveal_strlit("message");
    reveal_strlit("delta");
    reveal_strlit("input_tokens");
    reveal_strlit("output_tokens");
    reveal_strlit("cache_read_input_tokens");
    assert("id"@.len() == 2);
    assert("type"@.len() == 4);
    assert("role"@.len() == 4);
    assert("model"@.len() == 5);
    assert("content"@.len() == 7);
    assert("stop_reason"@.len() == 11);
    assert("stop_sequence"@.len() == 13);
    assert("usage"@.len() == 5);
    assert("message"@.len() == 7);
    assert("delta"@.len() == 5);
    assert("input_tokens"@.len() == 12);
    assert("output_tokens"@.len() == 13);
    assert("cache_read_input_tokens"@.len() == 23);
    assert("type"@[0] == 't');
    assert("role"@[0] == 'r');
    assert("model"@[0] == 'm');
    assert("usage"@[0] == 'u');
    assert("delta"@[0] == 'd');
    assert("content"@[0] == 'c');
    assert("message"@[0] == 'm');
    assert("stop_sequence"@[0] == 's');
    assert("output_tokens"@[0] == 'o');
    let e = anthropic_events(id, model, r);
    let n = e.len() as int;
    assert(e[n - 2] == message_ending(r)[0]);
    assert(e[n - 1] == message_ending(r)[1]);
}

// --------------------------------------------------------------- responses

/// A response reads as the answer: a message with the words, unless there is
/// nothing but calls, then each call with its id, its name and its arguments.
pub proof fn law_a_response_reads_as_the_answer(
    id: Seq<char>,
    model: Seq<char>,
    r: Reply,
    created: i64,
)
    ensures
        ({
            let body = response_body(id, model, r, created);
            let n: int = if r.text.len() > 0 || r.calls.len() == 0 {
                1
            } else {
                0
            };
            &&& body.get("id"@) == Some(Tree::Text(id))
            &&& body.get("model"@) == Some(Tree::Text(model))
            &&& body.get("object"@) == Some(Tree::Text("response"@))
            &&& created >= 0 ==> body.get("created_at"@) == Some(Tree::Number(created as u64))
            &&& body.get("status"@) == Some(Tree::Text(r.status()))
            &&& body.get("output_text"@) == Some(Tree::Text(r.text))
            &&& body.get("usage"@) == Some(r.usage.responses())
            &&& body.get("output"@) matches Some(Tree::List(items)) && {
                &&& items.len() == n + r.calls.len()
                &&& n == 1 ==> reads_as_words(items[0], r.text)
                &&& forall|k: int|
                    0 <= k < r.calls.len() ==> reads_as_function(
                        items[n + k],
                        #[trigger] r.calls[k],
                    )
            }
        }),
{
    broadcast use lemma_one_more_field;

    reveal_strlit("id");
    reveal_strlit("model");
    reveal_strlit("object");
    reveal_strlit("created_at");
    reveal_strlit("status");
    reveal_strlit("output");
    reveal_strlit("output_text");
    reveal_strlit("usage");
    assert("id"@.len() == 2);
    assert("model"@.len() == 5);
    assert("object"@.len() == 6);
    assert("created_at"@.len() == 10);
    assert("status"@.len() == 6);
    assert("output"@.len() == 6);
    assert("output_text"@.len() == 11);
    assert("usage"@.len() == 5);
    assert("model"@[0] == 'm');
    assert("usage"@[0] == 'u');
    assert("object"@[0] == 'o');
    assert("status"@[0] == 's');
    assert("object"@[1] == 'b');
    assert("output"@[1] == 'u');
    assert("output"@[0] == 'o');
    let n: int = if r.text.len() > 0 || r.calls.len() == 0 {
        1
    } else {
        0
    };
    let items = output_items(id, r);
    lemma_items_read(id, r.text);
    if n == 1 {
        assert(items[0] == message_item(id, r.text));
    }
    assert forall|k: int| 0 <= k < r.calls.len() implies reads_as_function(
        items[n + k],
        #[trigger] r.calls[k],
    ) by {
        let c = r.calls[k];
        lemma_function_reads(id, k as nat, c, "completed"@);
        assert(items[n + k] == function_item(id, k as nat, c, c.arguments, "completed"@));
    }
}

pub open spec fn reads_as_words(t: Tree, words: Seq<char>) -> bool {
    &&& t.get("type"@) == Some(Tree::Text("message"@))
    &&& t.get("role"@) == Some(Tree::Text("assistant"@))
    &&& t.get("status"@) == Some(Tree::Text("completed"@))
    &&& t.get("content"@) matches Some(Tree::List(parts)) && parts.len() == 1 && parts[0].get(
        "type"@,
    ) == Some(Tree::Text("output_text"@)) && parts[0].get("text"@) == Some(Tree::Text(words))
}

pub open spec fn reads_as_function(t: Tree, c: Call) -> bool {
    &&& t.get("type"@) == Some(Tree::Text("function_call"@))
    &&& t.get("call_id"@) == Some(Tree::Text(c.id))
    &&& t.get("name"@) == Some(Tree::Text(c.name))
    &&& t.get("arguments"@) == Some(Tree::Text(c.arguments))
}

proof fn lemma_items_read(id: Seq<char>, text: Seq<char>)
    ensures
        reads_as_words(message_item(id, text), text),
{
    broadcast use lemma_one_more_field;

    reveal_strlit("type");
    reveal_strlit("id");
    reveal_strlit("status");
    reveal_strlit("role");
    reveal_strlit("content");
    reveal_strlit("text");
    assert("type"@.len() == 4);
    assert("id"@.len() == 2);
    assert("status"@.len() == 6);
    assert("role"@.len() == 4);
    assert("content"@.len() == 7);
    assert("text"@.len() == 4);
    assert("type"@[0] == 't');
    assert("role"@[0] == 'r');
    assert("type"@[1] == 'y');
    assert("text"@[1] == 'e');
    assert("text"@[0] == 't');
    let parts = message_item(id, text).get("content"@)->0;
    assert(parts == Tree::just(text_part(text)));
}

proof fn lemma_function_reads(id: Seq<char>, i: nat, c: Call, status: Seq<char>)
    ensures
        reads_as_function(function_item(id, i, c, c.arguments, status), c),
        function_item(id, i, c, c.arguments, status).get("status"@) == Some(Tree::Text(status)),
{
    broadcast use lemma_one_more_field;

    reveal_strlit("type");
    reveal_strlit("id");
    reveal_strlit("call_id");
    reveal_strlit("name");
    reveal_strlit("arguments");
    reveal_strlit("status");
    assert("type"@.len() == 4);
    assert("id"@.len() == 2);
    assert("call_id"@.len() == 7);
    assert("name"@.len() == 4);
    assert("arguments"@.len() == 9);
    assert("status"@.len() == 6);
    assert("type"@[0] == 't');
    assert("name"@[0] == 'n');
}

// ----------------------------------------------------------------- refusals

/// A refusal gives its kind and its message where each client looks for them.
pub proof fn law_a_refusal_gives_its_reason(kind: Seq<char>, message: Seq<char>)
    ensures
        ({
            let t = anthropic_refusal(kind, message);
            &&& t.get("type"@) == Some(Tree::Text("error"@))
            &&& t.get("error"@) matches Some(e) && e.get("type"@) == Some(Tree::Text(kind))
                && e.get("message"@) == Some(Tree::Text(message))
        }),
        openai_refusal(kind, message).get("error"@) matches Some(e) && e.get("type"@) == Some(
            Tree::Text(kind),
        ) && e.get("message"@) == Some(Tree::Text(message)),
{
    broadcast use lemma_one_more_field;

    reveal_strlit("type");
    reveal_strlit("error");
    reveal_strlit("message");
    reveal_strlit("code");
    assert("type"@.len() == 4);
    assert("error"@.len() == 5);
    assert("message"@.len() == 7);
    assert("code"@.len() == 4);
    assert("type"@[0] == 't');
    assert("code"@[0] == 'c');
}

} // verus!
