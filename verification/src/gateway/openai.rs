//! Replies in OpenAI's chat completions shape.
use vstd::prelude::*;

use crate::gateway::answer::{Answer, Reply};
use crate::json::{trees, Json, Tree};
use crate::protocol::{calls, Call};

verus! {

broadcast use vstd::string::group_string_axioms;

/// A tool call, its arguments as JSON text.
pub open spec fn function_field(c: Call) -> Tree {
    Tree::record().with("name"@, Tree::Text(c.name)).with("arguments"@, Tree::Text(c.arguments))
}

pub open spec fn tool_call(c: Call) -> Tree {
    Tree::record().with("id"@, Tree::Text(c.id)).with("type"@, Tree::Text("function"@)).with(
        "function"@,
        function_field(c),
    )
}

pub open spec fn tool_calls(cs: Seq<Call>) -> Seq<Tree> {
    Seq::new(cs.len(), |i: int| tool_call(cs[i]))
}

/// A tool call in a stream carries the index it belongs to.
pub open spec fn indexed_call(i: int, c: Call) -> Tree {
    Tree::record().with("index"@, Tree::Number(i as u64)).with("id"@, Tree::Text(c.id)).with(
        "type"@,
        Tree::Text("function"@),
    ).with("function"@, function_field(c))
}

pub open spec fn indexed_calls(cs: Seq<Call>) -> Seq<Tree> {
    Seq::new(cs.len(), |i: int| indexed_call(i, cs[i]))
}

pub fn openai_tool_calls(answer: &Answer) -> (r: Vec<Json>)
    ensures
        trees(r@) == tool_calls(answer@.calls),
{
    let mut out: Vec<Json> = Vec::new();
    let mut i: usize = 0;
    while i < answer.tool_calls.len()
        invariant
            i <= answer.tool_calls@.len(),
            out@.len() == i,
            forall|k: int|
                0 <= k < i ==> (#[trigger] out@[k])@ == tool_call(answer.tool_calls@[k]@),
        decreases answer.tool_calls@.len() - i,
    {
        let c = &answer.tool_calls[i];
        out.push(
            Json::record().with("id", Json::text(c.id.as_str())).with(
                "type",
                Json::text("function"),
            ).with(
                "function",
                Json::record().with("name", Json::text(c.name.as_str())).with(
                    "arguments",
                    Json::text(c.arguments.as_str()),
                ),
            ),
        );
        i = i + 1;
    }
    assert(trees(out@) =~= tool_calls(answer@.calls));
    out
}

fn indexed_tool_calls(answer: &Answer) -> (r: Vec<Json>)
    ensures
        trees(r@) == indexed_calls(answer@.calls),
{
    let mut out: Vec<Json> = Vec::new();
    let mut i: usize = 0;
    while i < answer.tool_calls.len()
        invariant
            i <= answer.tool_calls@.len(),
            out@.len() == i,
            forall|k: int|
                0 <= k < i ==> (#[trigger] out@[k])@ == indexed_call(k, answer.tool_calls@[k]@),
        decreases answer.tool_calls@.len() - i,
    {
        let c = &answer.tool_calls[i];
        out.push(
            Json::record().with("index", Json::Number(i as u64)).with(
                "id",
                Json::text(c.id.as_str()),
            ).with("type", Json::text("function")).with(
                "function",
                Json::record().with("name", Json::text(c.name.as_str())).with(
                    "arguments",
                    Json::text(c.arguments.as_str()),
                ),
            ),
        );
        i = i + 1;
    }
    assert(trees(out@) =~= indexed_calls(answer@.calls));
    out
}

/// The assistant's message. A turn that only calls tools has no content,
/// which is `null` and not an empty text.
pub open spec fn completion_message(r: Reply) -> Tree {
    let content = if r.acted() && r.text.len() == 0 {
        Tree::Null
    } else {
        Tree::Text(r.text)
    };
    let plain = Tree::record().with("role"@, Tree::Text("assistant"@)).with("content"@, content);
    if r.acted() {
        plain.with("tool_calls"@, Tree::List(tool_calls(r.calls)))
    } else {
        plain
    }
}

pub open spec fn completion_body(id: Seq<char>, model: Seq<char>, r: Reply, created: i64) -> Tree {
    Tree::record().with("id"@, Tree::Text(id)).with("object"@, Tree::Text("chat.completion"@)).with(
        "created"@,
        Tree::integer(created),
    ).with("model"@, Tree::Text(model)).with(
        "choices"@,
        Tree::just(
            Tree::record().with("index"@, Tree::Number(0)).with(
                "message"@,
                completion_message(r),
            ).with("finish_reason"@, Tree::Text(r.finish_reason())),
        ),
    ).with("usage"@, r.usage.openai())
}

/// A finished completion.
pub fn openai_completion(id: &str, model: &str, answer: &Answer, created: i64) -> (r: Json)
    requires
        answer.usage.fits(),
    ensures
        r@ == completion_body(id@, model@, answer@, created),
{
    let content = if answer.acted() && answer.text.as_str().is_empty() {
        Json::Null
    } else {
        Json::text(answer.text.as_str())
    };
    let mut message = Json::record().with("role", Json::text("assistant")).with("content", content);
    if answer.acted() {
        message = message.with("tool_calls", Json::list(openai_tool_calls(answer)));
    }
    Json::record().with("id", Json::text(id)).with("object", Json::text("chat.completion")).with(
        "created",
        Json::integer(created),
    ).with("model", Json::text(model)).with(
        "choices",
        Json::just(
            Json::record().with("index", Json::Number(0)).with("message", message).with(
                "finish_reason",
                Json::text(answer.finish_reason()),
            ),
        ),
    ).with("usage", answer.usage.openai_json())
}

/// What every chunk of a stream begins with.
pub open spec fn chunk_head(id: Seq<char>, model: Seq<char>, created: i64) -> Tree {
    Tree::record().with("id"@, Tree::Text(id)).with(
        "object"@,
        Tree::Text("chat.completion.chunk"@),
    ).with("created"@, Tree::integer(created)).with("model"@, Tree::Text(model))
}

pub open spec fn chunk(
    id: Seq<char>,
    model: Seq<char>,
    created: i64,
    delta: Tree,
    finish: Tree,
) -> Tree {
    chunk_head(id, model, created).with(
        "choices"@,
        Tree::just(
            Tree::record().with("index"@, Tree::Number(0)).with("delta"@, delta).with(
                "finish_reason"@,
                finish,
            ),
        ),
    )
}

/// The last chunk, with the counts a client bills the turn by.
pub open spec fn usage_chunk(id: Seq<char>, model: Seq<char>, created: i64, r: Reply) -> Tree {
    chunk_head(id, model, created).with("choices"@, Tree::List(seq![])).with(
        "usage"@,
        r.usage.openai(),
    )
}

fn chunk_head_json(id: &str, model: &str, created: i64) -> (r: Json)
    ensures
        r@ == chunk_head(id@, model@, created),
{
    Json::record().with("id", Json::text(id)).with(
        "object",
        Json::text("chat.completion.chunk"),
    ).with("created", Json::integer(created)).with("model", Json::text(model))
}

fn chunk_json(id: &str, model: &str, created: i64, delta: Json, finish: Json) -> (r: Json)
    ensures
        r@ == chunk(id@, model@, created, delta@, finish@),
{
    chunk_head_json(id, model, created).with(
        "choices",
        Json::just(
            Json::record().with("index", Json::Number(0)).with("delta", delta).with(
                "finish_reason",
                finish,
            ),
        ),
    )
}

pub open spec fn role_delta() -> Tree {
    Tree::record().with("role"@, Tree::Text("assistant"@)).with("content"@, Tree::Text(""@))
}

pub open spec fn content_delta(text: Seq<char>) -> Tree {
    Tree::record().with("content"@, Tree::Text(text))
}

/// The chunks after the words: the tool calls, the finish, the usage.
pub open spec fn completion_tail(id: Seq<char>, model: Seq<char>, created: i64, r: Reply) -> Seq<
    Tree,
> {
    let called = if r.acted() {
        seq![
            chunk(
                id,
                model,
                created,
                Tree::record().with("tool_calls"@, Tree::List(indexed_calls(r.calls))),
                Tree::Null,
            ),
        ]
    } else {
        seq![]
    };
    called.push(
        chunk(id, model, created, Tree::record(), Tree::Text(r.finish_reason())),
    ).push(usage_chunk(id, model, created, r))
}

/// All chunks of a finished answer, in order.
pub open spec fn completion_chunks(id: Seq<char>, model: Seq<char>, r: Reply, created: i64) -> Seq<
    Tree,
> {
    let first = seq![chunk(id, model, created, role_delta(), Tree::Null)];
    let words = if r.text.len() > 0 {
        seq![chunk(id, model, created, content_delta(r.text), Tree::Null)]
    } else {
        seq![]
    };
    first + words + completion_tail(id, model, created, r)
}

pub fn openai_live_start(id: &str, model: &str, created: i64) -> (r: Json)
    ensures
        r@ == chunk(id@, model@, created, role_delta(), Tree::Null),
{
    chunk_json(
        id,
        model,
        created,
        Json::record().with("role", Json::text("assistant")).with("content", Json::text("")),
        Json::Null,
    )
}

pub fn openai_live_delta(id: &str, model: &str, created: i64, text: &str) -> (r: Json)
    ensures
        r@ == chunk(id@, model@, created, content_delta(text@), Tree::Null),
{
    chunk_json(id, model, created, Json::record().with("content", Json::text(text)), Json::Null)
}

pub fn openai_live_end(id: &str, model: &str, created: i64, answer: &Answer) -> (r: Vec<Json>)
    requires
        answer.usage.fits(),
    ensures
        trees(r@) == completion_tail(id@, model@, created, answer@),
{
    let mut out: Vec<Json> = Vec::new();
    if answer.acted() {
        out.push(
            chunk_json(
                id,
                model,
                created,
                Json::record().with("tool_calls", Json::list(indexed_tool_calls(answer))),
                Json::Null,
            ),
        );
    }
    out.push(
        chunk_json(id, model, created, Json::record(), Json::text(answer.finish_reason())),
    );
    out.push(
        chunk_head_json(id, model, created).with("choices", Json::empty()).with(
            "usage",
            answer.usage.openai_json(),
        ),
    );
    assert(trees(out@) =~= completion_tail(id@, model@, created, answer@));
    out
}

/// The chunks of a streamed completion. The `[DONE]` line that ends a stream
/// is no JSON and is the caller's to send.
pub fn openai_stream(id: &str, model: &str, answer: &Answer, created: i64) -> (r: Vec<Json>)
    requires
        answer.usage.fits(),
    ensures
        trees(r@) == completion_chunks(id@, model@, answer@, created),
{
    let mut out: Vec<Json> = Vec::new();
    out.push(openai_live_start(id, model, created));
    if !answer.text.as_str().is_empty() {
        out.push(openai_live_delta(id, model, created, answer.text.as_str()));
    }
    let ghost front = out@;
    let mut tail = openai_live_end(id, model, created, answer);
    let ghost back = tail@;
    out.append(&mut tail);
    assert(trees(out@) =~= trees(front) + trees(back));
    assert(trees(out@) =~= completion_chunks(id@, model@, answer@, created));
    out
}

pub open spec fn openai_refusal(kind: Seq<char>, message: Seq<char>) -> Tree {
    Tree::record().with(
        "error"@,
        Tree::record().with("type"@, Tree::Text(kind)).with("message"@, Tree::Text(message)).with(
            "code"@,
            Tree::Text(kind),
        ),
    )
}

pub fn openai_error(kind: &str, message: &str) -> (r: Json)
    ensures
        r@ == openai_refusal(kind@, message@),
{
    Json::record().with(
        "error",
        Json::record().with("type", Json::text(kind)).with("message", Json::text(message)).with(
            "code",
            Json::text(kind),
        ),
    )
}

pub fn openai_live_error(message: &str) -> (r: Json)
    ensures
        r@ == openai_refusal("api_error"@, message@),
{
    openai_error("api_error", message)
}

} // verus!
