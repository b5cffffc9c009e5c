//! Replies in OpenAI's Responses shape.
use vstd::prelude::*;

use crate::gateway::answer::{push_event, Answer, Reply};
use crate::gateway::openai::{openai_error, openai_refusal};
use crate::json::{pairs, trees, Json, Tree};
use crate::protocol::{calls, Call, ToolCall};
use crate::text::{concat, concat3, decimal, decimal_of};

verus! {

broadcast use vstd::string::group_string_axioms;

/// The id of the assistant's message item.
pub open spec fn message_id(id: Seq<char>) -> Seq<char> {
    "msg_"@ + id
}

/// The id of the i-th function call item.
pub open spec fn function_id(id: Seq<char>, i: nat) -> Seq<char> {
    "fc_"@ + id + "_"@ + decimal(i)
}

pub fn responses_message_id(id: &str) -> (r: String)
    ensures
        r@ == message_id(id@),
{
    concat("msg_", id)
}

pub fn responses_function_id(id: &str, i: usize) -> (r: String)
    ensures
        r@ == function_id(id@, i as nat),
{
    let mut r = concat3("fc_", id, "_");
    r.append(decimal_of(i as u64).as_str());
    r
}

pub open spec fn text_part(text: Seq<char>) -> Tree {
    Tree::record().with("type"@, Tree::Text("output_text"@)).with("text"@, Tree::Text(text)).with(
        "annotations"@,
        Tree::List(seq![]),
    )
}

pub fn responses_text_part(text: &str) -> (r: Json)
    ensures
        r@ == text_part(text@),
{
    Json::record().with("type", Json::text("output_text")).with("text", Json::text(text)).with(
        "annotations",
        Json::empty(),
    )
}

// ---------------------------------------------------------------- finished

pub open spec fn message_item(id: Seq<char>, text: Seq<char>) -> Tree {
    Tree::record().with("type"@, Tree::Text("message"@)).with(
        "id"@,
        Tree::Text(message_id(id)),
    ).with("status"@, Tree::Text("completed"@)).with("role"@, Tree::Text("assistant"@)).with(
        "content"@,
        Tree::just(text_part(text)),
    )
}

pub open spec fn function_item(
    id: Seq<char>,
    i: nat,
    c: Call,
    arguments: Seq<char>,
    status: Seq<char>,
) -> Tree {
    Tree::record().with("type"@, Tree::Text("function_call"@)).with(
        "id"@,
        Tree::Text(function_id(id, i)),
    ).with("call_id"@, Tree::Text(c.id)).with("name"@, Tree::Text(c.name)).with(
        "arguments"@,
        Tree::Text(arguments),
    ).with("status"@, Tree::Text(status))
}

/// The output of a reply: a message, unless there is nothing but tool calls,
/// then the calls.
pub open spec fn output_items(id: Seq<char>, r: Reply) -> Seq<Tree> {
    let message = if r.text.len() > 0 || !r.acted() {
        seq![message_item(id, r.text)]
    } else {
        seq![]
    };
    message + Seq::new(
        r.calls.len(),
        |i: int| function_item(id, i as nat, r.calls[i], r.calls[i].arguments, "completed"@),
    )
}

fn message_item_json(id: &str, text: &str) -> (r: Json)
    ensures
        r@ == message_item(id@, text@),
{
    Json::record().with("type", Json::text("message")).with(
        "id",
        Json::Text(responses_message_id(id)),
    ).with("status", Json::text("completed")).with("role", Json::text("assistant")).with(
        "content",
        Json::just(responses_text_part(text)),
    )
}

fn function_item_json(id: &str, i: usize, c: &ToolCall, arguments: &str, status: &str) -> (r: Json)
    ensures
        r@ == function_item(id@, i as nat, c@, arguments@, status@),
{
    Json::record().with("type", Json::text("function_call")).with(
        "id",
        Json::Text(responses_function_id(id, i)),
    ).with("call_id", Json::text(c.id.as_str())).with("name", Json::text(c.name.as_str())).with(
        "arguments",
        Json::text(arguments),
    ).with("status", Json::text(status))
}

pub fn responses_output_items(id: &str, answer: &Answer) -> (r: Vec<Json>)
    ensures
        trees(r@) == output_items(id@, answer@),
{
    let mut items: Vec<Json> = Vec::new();
    if !answer.text.as_str().is_empty() || !answer.acted() {
        items.push(message_item_json(id, answer.text.as_str()));
    }
    let ghost first = items@;
    let mut i: usize = 0;
    while i < answer.tool_calls.len()
        invariant
            i <= answer.tool_calls@.len(),
            items@.len() == first.len() + i,
            forall|k: int| 0 <= k < first.len() ==> #[trigger] items@[k] == first[k],
            forall|k: int|
                first.len() <= k < items@.len() ==> (#[trigger] items@[k])@ == function_item(
                    id@,
                    (k - first.len()) as nat,
                    answer@.calls[k - first.len()],
                    answer@.calls[k - first.len()].arguments,
                    "completed"@,
                ),
        decreases answer.tool_calls@.len() - i,
    {
        let c = &answer.tool_calls[i];
        items.push(function_item_json(id, i, c, c.arguments.as_str(), "completed"));
        i = i + 1;
    }
    assert(trees(items@) =~= output_items(id@, answer@));
    items
}

pub open spec fn response_body(id: Seq<char>, model: Seq<char>, r: Reply, created: i64) -> Tree {
    Tree::record().with("id"@, Tree::Text(id)).with("object"@, Tree::Text("response"@)).with(
        "created_at"@,
        Tree::integer(created),
    ).with("status"@, Tree::Text(r.status())).with("model"@, Tree::Text(model)).with(
        "output"@,
        Tree::List(output_items(id, r)),
    ).with("output_text"@, Tree::Text(r.text)).with("usage"@, r.usage.responses())
}

/// A finished response.
pub fn openai_response(id: &str, model: &str, answer: &Answer, created: i64) -> (r: Json)
    requires
        answer.usage.fits(),
    ensures
        r@ == response_body(id@, model@, answer@, created),
{
    Json::record().with("id", Json::text(id)).with("object", Json::text("response")).with(
        "created_at",
        Json::integer(created),
    ).with("status", Json::text(answer.status())).with("model", Json::text(model)).with(
        "output",
        Json::list(responses_output_items(id, answer)),
    ).with("output_text", Json::text(answer.text.as_str())).with(
        "usage",
        answer.usage.responses_json(),
    )
}

/// A response that has only just begun.
pub open spec fn skeleton(id: Seq<char>, model: Seq<char>, created: i64, status: Seq<char>) -> Tree {
    Tree::record().with("id"@, Tree::Text(id)).with("object"@, Tree::Text("response"@)).with(
        "created_at"@,
        Tree::integer(created),
    ).with("status"@, Tree::Text(status)).with("error"@, Tree::Null).with(
        "model"@,
        Tree::Text(model),
    ).with("output"@, Tree::List(seq![]))
}

pub fn responses_skeleton(id: &str, model: &str, created: i64, status: &str) -> (r: Json)
    ensures
        r@ == skeleton(id@, model@, created, status@),
{
    Json::record().with("id", Json::text(id)).with("object", Json::text("response")).with(
        "created_at",
        Json::integer(created),
    ).with("status", Json::text(status)).with("error", Json::Null).with(
        "model",
        Json::text(model),
    ).with("output", Json::empty())
}

pub fn responses_error(kind: &str, message: &str) -> (r: Json)
    ensures
        r@ == openai_refusal(kind@, message@),
{
    openai_error(kind, message)
}

// -------------------------------------------------------------------- live

pub open spec fn begun(
    name: Seq<char>,
    id: Seq<char>,
    model: Seq<char>,
    created: i64,
) -> (Seq<char>, Tree) {
    (
        name,
        Tree::record().with("type"@, Tree::Text(name)).with(
            "response"@,
            skeleton(id, model, created, "in_progress"@),
        ),
    )
}

pub fn responses_live_start(id: &str, model: &str, created: i64) -> (r: (String, Json))
    ensures
        (r.0@, r.1@) == begun("response.created"@, id@, model@, created),
{
    (
        "response.created".to_string(),
        Json::record().with("type", Json::text("response.created")).with(
            "response",
            responses_skeleton(id, model, created, "in_progress"),
        ),
    )
}

pub fn responses_live_in_progress(id: &str, model: &str, created: i64) -> (r: (String, Json))
    ensures
        (r.0@, r.1@) == begun("response.in_progress"@, id@, model@, created),
{
    (
        "response.in_progress".to_string(),
        Json::record().with("type", Json::text("response.in_progress")).with(
            "response",
            responses_skeleton(id, model, created, "in_progress"),
        ),
    )
}

/// An event about an item of the output.
pub open spec fn item_event(name: Seq<char>, index: nat, item: Tree) -> (Seq<char>, Tree) {
    (
        name,
        Tree::record().with("type"@, Tree::Text(name)).with(
            "output_index"@,
            Tree::Number(index as u64),
        ).with("item"@, item),
    )
}

/// An event about the words of the message item, which is always the first.
pub open spec fn part_event(
    name: Seq<char>,
    id: Seq<char>,
    field: Seq<char>,
    value: Tree,
) -> (Seq<char>, Tree) {
    (
        name,
        Tree::record().with("type"@, Tree::Text(name)).with(
            "item_id"@,
            Tree::Text(message_id(id)),
        ).with("output_index"@, Tree::Number(0)).with("content_index"@, Tree::Number(0)).with(
            field,
            value,
        ),
    )
}

fn push_item_event(out: &mut Vec<(String, Json)>, name: &str, index: usize, item: Json)
    ensures
        pairs(final(out)@) == pairs(old(out)@).push(item_event(name@, index as nat, item@)),
{
    push_event(
        out,
        name,
        Json::record().with("type", Json::text(name)).with(
            "output_index",
            Json::Number(index as u64),
        ).with("item", item),
    );
}

fn part_event_json(name: &str, id: &str, field: &str, value: Json) -> (r: (String, Json))
    ensures
        (r.0@, r.1@) == part_event(name@, id@, field@, value@),
{
    (
        name.to_string(),
        Json::record().with("type", Json::text(name)).with(
            "item_id",
            Json::Text(responses_message_id(id)),
        ).with("output_index", Json::Number(0)).with("content_index", Json::Number(0)).with(
            field,
            value,
        ),
    )
}

/// The message item as it opens: nothing in it yet.
pub open spec fn message_opened(id: Seq<char>) -> Tree {
    Tree::record().with("id"@, Tree::Text(message_id(id))).with(
        "type"@,
        Tree::Text("message"@),
    ).with("status"@, Tree::Text("in_progress"@)).with("role"@, Tree::Text("assistant"@)).with(
        "content"@,
        Tree::List(seq![]),
    )
}

/// Opening the message: the item, then its text part.
pub open spec fn text_opening(id: Seq<char>) -> Seq<(Seq<char>, Tree)> {
    seq![
        item_event("response.output_item.added"@, 0, message_opened(id)),
        part_event("response.content_part.added"@, id, "part"@, text_part(""@)),
    ]
}

pub open spec fn words_event(id: Seq<char>, text: Seq<char>) -> (Seq<char>, Tree) {
    part_event("response.output_text.delta"@, id, "delta"@, Tree::Text(text))
}

/// Closing the message: its words, its part, the item.
pub open spec fn text_closing(id: Seq<char>, text: Seq<char>) -> Seq<(Seq<char>, Tree)> {
    seq![
        part_event("response.output_text.done"@, id, "text"@, Tree::Text(text)),
        part_event("response.content_part.done"@, id, "part"@, text_part(text)),
        item_event("response.output_item.done"@, 0, message_item(id, text)),
    ]
}

pub fn responses_live_text_start(id: &str) -> (r: Vec<(String, Json)>)
    ensures
        pairs(r@) == text_opening(id@),
{
    let mut out: Vec<(String, Json)> = Vec::new();
    push_item_event(
        &mut out,
        "response.output_item.added",
        0,
        Json::record().with("id", Json::Text(responses_message_id(id))).with(
            "type",
            Json::text("message"),
        ).with("status", Json::text("in_progress")).with("role", Json::text("assistant")).with(
            "content",
            Json::empty(),
        ),
    );
    let ghost before = out@;
    let part = part_event_json("response.content_part.added", id, "part", responses_text_part(""));
    out.push(part);
    assert(pairs(out@) =~= pairs(before).push((part.0@, part.1@)));
    assert(pairs(out@) =~= text_opening(id@));
    out
}

pub fn responses_live_delta(id: &str, text: &str) -> (r: (String, Json))
    ensures
        (r.0@, r.1@) == words_event(id@, text@),
{
    part_event_json("response.output_text.delta", id, "delta", Json::text(text))
}

pub fn responses_live_text_close(id: &str, text: &str) -> (r: Vec<(String, Json)>)
    ensures
        pairs(r@) == text_closing(id@, text@),
{
    let mut out: Vec<(String, Json)> = Vec::new();
    out.push(part_event_json("response.output_text.done", id, "text", Json::text(text)));
    out.push(
        part_event_json("response.content_part.done", id, "part", responses_text_part(text)),
    );
    push_item_event(
        &mut out,
        "response.output_item.done",
        0,
        message_item_json(id, text),
    );
    assert(pairs(out@) =~= text_closing(id@, text@));
    out
}

/// An event about a function call's arguments.
pub open spec fn arguments_event(
    name: Seq<char>,
    item_id: Seq<char>,
    index: nat,
    field: Seq<char>,
    arguments: Seq<char>,
) -> (Seq<char>, Tree) {
    (
        name,
        Tree::record().with("type"@, Tree::Text(name)).with("item_id"@, Tree::Text(item_id)).with(
            "output_index"@,
            Tree::Number(index as u64),
        ).with(field, Tree::Text(arguments)),
    )
}

/// A function call: opened, its arguments given, closed.
pub open spec fn function_call_events(id: Seq<char>, i: nat, index: nat, c: Call) -> Seq<
    (Seq<char>, Tree),
> {
    seq![
        item_event(
            "response.output_item.added"@,
            index,
            function_item(id, i, c, ""@, "in_progress"@),
        ),
        arguments_event(
            "response.function_call_arguments.delta"@,
            function_id(id, i),
            index,
            "delta"@,
            c.arguments,
        ),
        arguments_event(
            "response.function_call_arguments.done"@,
            function_id(id, i),
            index,
            "arguments"@,
            c.arguments,
        ),
        item_event(
            "response.output_item.done"@,
            index,
            function_item(id, i, c, c.arguments, "completed"@),
        ),
    ]
}

fn push_arguments_event(
    out: &mut Vec<(String, Json)>,
    name: &str,
    item_id: &str,
    index: usize,
    field: &str,
    arguments: &str,
)
    ensures
        pairs(final(out)@) == pairs(old(out)@).push(
            arguments_event(name@, item_id@, index as nat, field@, arguments@),
        ),
{
    push_event(
        out,
        name,
        Json::record().with("type", Json::text(name)).with("item_id", Json::text(item_id)).with(
            "output_index",
            Json::Number(index as u64),
        ).with(field, Json::text(arguments)),
    );
}

pub fn responses_live_function_call(
    id: &str,
    i: usize,
    output_index: usize,
    call: &ToolCall,
) -> (r: Vec<(String, Json)>)
    ensures
        pairs(r@) == function_call_events(id@, i as nat, output_index as nat, call@),
{
    let item_id = responses_function_id(id, i);
    let mut out: Vec<(String, Json)> = Vec::new();
    push_item_event(
        &mut out,
        "response.output_item.added",
        output_index,
        function_item_json(id, i, call, "", "in_progress"),
    );
    push_arguments_event(
        &mut out,
        "response.function_call_arguments.delta",
        item_id.as_str(),
        output_index,
        "delta",
        call.arguments.as_str(),
    );
    push_arguments_event(
        &mut out,
        "response.function_call_arguments.done",
        item_id.as_str(),
        output_index,
        "arguments",
        call.arguments.as_str(),
    );
    push_item_event(
        &mut out,
        "response.output_item.done",
        output_index,
        function_item_json(id, i, call, call.arguments.as_str(), "completed"),
    );
    assert(pairs(out@) =~= function_call_events(id@, i as nat, output_index as nat, call@));
    out
}

/// All function calls, the i-th at the i-th place after `base`.
pub open spec fn all_function_calls(id: Seq<char>, cs: Seq<Call>, base: nat) -> Seq<
    (Seq<char>, Tree),
>
    decreases cs.len(),
{
    if cs.len() == 0 {
        seq![]
    } else {
        let i = (cs.len() - 1) as nat;
        all_function_calls(id, cs.drop_last(), base) + function_call_events(
            id,
            i,
            base + i,
            cs.last(),
        )
    }
}

/// The end of the message item: its closing where it is open, the whole of it
/// where words came only with the result, nothing where there are none.
pub open spec fn text_ending(id: Seq<char>, text: Seq<char>, opened: bool) -> Seq<
    (Seq<char>, Tree),
> {
    if opened {
        text_closing(id, text)
    } else if text.len() > 0 {
        text_opening(id).push(words_event(id, text)) + text_closing(id, text)
    } else {
        seq![]
    }
}

pub open spec fn completed(id: Seq<char>, model: Seq<char>, r: Reply, created: i64) -> (
    Seq<char>,
    Tree,
) {
    (
        "response.completed"@,
        Tree::record().with("type"@, Tree::Text("response.completed"@)).with(
            "response"@,
            response_body(id, model, r, created),
        ),
    )
}

/// How a streamed response ends.
pub open spec fn response_tail(
    id: Seq<char>,
    model: Seq<char>,
    r: Reply,
    created: i64,
    opened: bool,
) -> Seq<(Seq<char>, Tree)> {
    let base: nat = if opened || r.text.len() > 0 {
        1
    } else {
        0
    };
    (text_ending(id, r.text, opened) + all_function_calls(id, r.calls, base)).push(
        completed(id, model, r, created),
    )
}

fn extend(out: &mut Vec<(String, Json)>, more: Vec<(String, Json)>)
    ensures
        pairs(final(out)@) == pairs(old(out)@) + pairs(more@),
{
    let ghost before = out@;
    let mut more = more;
    let ghost added = more@;
    out.append(&mut more);
    assert(pairs(out@) =~= pairs(before) + pairs(added));
}

/// Closes the message item, or opens and closes one that came only with the
/// result, gives any tool calls in their places, and completes the response.
pub fn responses_live_end(
    id: &str,
    model: &str,
    answer: &Answer,
    created: i64,
    text_opened: bool,
) -> (r: Vec<(String, Json)>)
    requires
        answer.usage.fits(),
        answer.tool_calls@.len() < usize::MAX,
    ensures
        pairs(r@) == response_tail(id@, model@, answer@, created, text_opened),
{
    let mut events: Vec<(String, Json)> = Vec::new();
    let mut base: usize = 0;
    assert(pairs(events@) =~= seq![]);
    let has_text = !answer.text.as_str().is_empty();
    if text_opened {
        extend(&mut events, responses_live_text_close(id, answer.text.as_str()));
        base = 1;
    } else if has_text {
        extend(&mut events, responses_live_text_start(id));
        let ghost before = events@;
        events.push(responses_live_delta(id, answer.text.as_str()));
        assert(pairs(events@) =~= pairs(before).push(words_event(id@, answer@.text)));
        extend(&mut events, responses_live_text_close(id, answer.text.as_str()));
        base = 1;
    }
    let ghost start = text_ending(id@, answer@.text, text_opened);
    assert(pairs(events@) =~= start);
    let ghost all = answer@.calls;
    let mut i: usize = 0;
    assert(start + all_function_calls(id@, all.take(0), base as nat) =~= start);
    while i < answer.tool_calls.len()
        invariant
            i <= answer.tool_calls@.len(),
            answer.tool_calls@.len() < usize::MAX,
            base <= 1,
            all == calls(answer.tool_calls@),
            pairs(events@) == start + all_function_calls(id@, all.take(i as int), base as nat),
        decreases answer.tool_calls@.len() - i,
    {
        let ghost now = all.take(i as int + 1);
        assert(now.drop_last() =~= all.take(i as int));
        let ghost before = pairs(events@);
        extend(
            &mut events,
            responses_live_function_call(id, i, base + i, &answer.tool_calls[i]),
        );
        assert(pairs(events@) =~= start + all_function_calls(id@, now, base as nat));
        i = i + 1;
    }
    assert(all.take(i as int) =~= all);
    push_event(
        &mut events,
        "response.completed",
        Json::record().with("type", Json::text("response.completed")).with(
            "response",
            openai_response(id, model, answer, created),
        ),
    );
    events
}

/// All events of a finished answer, in order.
pub open spec fn response_events(id: Seq<char>, model: Seq<char>, r: Reply, created: i64) -> Seq<
    (Seq<char>, Tree),
> {
    let first = seq![
        begun("response.created"@, id, model, created),
        begun("response.in_progress"@, id, model, created),
    ];
    let words = if r.text.len() > 0 {
        text_opening(id).push(words_event(id, r.text))
    } else {
        seq![]
    };
    first + words + response_tail(id, model, r, created, r.text.len() > 0)
}

/// The events of a streamed response whose answer is already there.
pub fn openai_response_stream(id: &str, model: &str, answer: &Answer, created: i64) -> (r: Vec<
    (String, Json),
>)
    requires
        answer.usage.fits(),
        answer.tool_calls@.len() < usize::MAX,
    ensures
        pairs(r@) == response_events(id@, model@, answer@, created),
{
    let mut events: Vec<(String, Json)> = Vec::new();
    events.push(responses_live_start(id, model, created));
    events.push(responses_live_in_progress(id, model, created));
    let ghost first = seq![
        begun("response.created"@, id@, model@, created),
        begun("response.in_progress"@, id@, model@, created),
    ];
    assert(pairs(events@) =~= first);
    let has_text = !answer.text.as_str().is_empty();
    if has_text {
        extend(&mut events, responses_live_text_start(id));
        let ghost before = events@;
        events.push(responses_live_delta(id, answer.text.as_str()));
        assert(pairs(events@) =~= pairs(before).push(words_event(id@, answer@.text)));
        assert(pairs(events@) =~= first + text_opening(id@).push(words_event(id@, answer@.text)));
    } else {
        assert(pairs(events@) =~= first + seq![]);
    }
    extend(&mut events, responses_live_end(id, model, answer, created, has_text));
    events
}

pub fn responses_live_error(message: &str) -> (r: (String, Json))
    ensures
        (r.0@, r.1@) == (
            "response.failed"@,
            Tree::record().with("type"@, Tree::Text("response.failed"@)).with(
                "response"@,
                Tree::record().with("status"@, Tree::Text("failed"@)).with(
                    "error"@,
                    Tree::record().with("message"@, Tree::Text(message@)),
                ),
            ),
        ),
{
    (
        "response.failed".to_string(),
        Json::record().with("type", Json::text("response.failed")).with(
            "response",
            Json::record().with("status", Json::text("failed")).with(
                "error",
                Json::record().with("message", Json::text(message)),
            ),
        ),
    )
}

// -------------------------------------------------------------------- laws

/// Words are only ever sent after the item and then the part that they belong
/// to were opened; a client drops a delta that has no active item.
pub proof fn law_words_come_after_their_item(
    id: Seq<char>,
    model: Seq<char>,
    r: Reply,
    created: i64,
)
    requires
        r.text.len() > 0,
    ensures
        response_events(id, model, r, created)[2].0 == "response.output_item.added"@,
        response_events(id, model, r, created)[3].0 == "response.content_part.added"@,
        response_events(id, model, r, created)[4] == words_event(id, r.text),
{
    let e = response_events(id, model, r, created);
    let first = seq![
        begun("response.created"@, id, model, created),
        begun("response.in_progress"@, id, model, created),
    ];
    let words = text_opening(id).push(words_event(id, r.text));
    assert(e[2] == (first + words)[2]);
    assert(e[3] == (first + words)[3]);
    assert(e[4] == (first + words)[4]);
}

/// Every stream ends with the whole answer.
pub proof fn law_stream_ends_completed(id: Seq<char>, model: Seq<char>, r: Reply, created: i64)
    ensures
        response_events(id, model, r, created).last() == completed(id, model, r, created),
{
}

/// A worker that sends only the finished result gives the same events as one
/// whose words were streamed and then closed.
pub proof fn law_result_alone_opens_its_item(
    id: Seq<char>,
    model: Seq<char>,
    r: Reply,
    created: i64,
)
    requires
        r.text.len() > 0,
    ensures
        response_tail(id, model, r, created, false) == text_opening(id).push(
            words_event(id, r.text),
        ) + response_tail(id, model, r, created, true),
{
    assert(response_tail(id, model, r, created, false) =~= text_opening(id).push(
        words_event(id, r.text),
    ) + response_tail(id, model, r, created, true));
}

/// The i-th call's events stand together, and the place they name is the
/// place of the item in the finished response.
pub proof fn law_calls_keep_their_places(id: Seq<char>, r: Reply, i: int)
    requires
        0 <= i < r.calls.len(),
    ensures
        ({
            let base: nat = if r.text.len() > 0 {
                1
            } else {
                0
            };
            let all = all_function_calls(id, r.calls, base);
            &&& all.subrange(4 * i, 4 * i + 4) == function_call_events(
                id,
                i as nat,
                base + i as nat,
                r.calls[i],
            )
            &&& output_items(id, r)[base + i] == function_item(
                id,
                i as nat,
                r.calls[i],
                r.calls[i].arguments,
                "completed"@,
            )
        }),
{
    let base: nat = if r.text.len() > 0 {
        1
    } else {
        0
    };
    lemma_function_calls(id, r.calls, base, i);
}

/// How many events a response ends with.
pub proof fn lemma_tail_len(
    id: Seq<char>,
    model: Seq<char>,
    r: Reply,
    created: i64,
    opened: bool,
)
    ensures
        response_tail(id, model, r, created, opened).len() <= 4 * r.calls.len() + 7,
{
    let base: nat = if opened || r.text.len() > 0 {
        1
    } else {
        0
    };
    lemma_function_calls_len(id, r.calls, base);
}

pub proof fn lemma_function_calls_len(id: Seq<char>, cs: Seq<Call>, base: nat)
    ensures
        all_function_calls(id, cs, base).len() == 4 * cs.len(),
    decreases cs.len(),
{
    if cs.len() > 0 {
        lemma_function_calls_len(id, cs.drop_last(), base);
    }
}

pub proof fn lemma_function_calls(id: Seq<char>, cs: Seq<Call>, base: nat, i: int)
    requires
        0 <= i < cs.len(),
    ensures
        all_function_calls(id, cs, base).len() == 4 * cs.len(),
        all_function_calls(id, cs, base).subrange(4 * i, 4 * i + 4) == function_call_events(
            id,
            i as nat,
            base + i as nat,
            cs[i],
        ),
    decreases cs.len(),
{
    let front = cs.drop_last();
    lemma_function_calls_len(id, cs, base);
    lemma_function_calls_len(id, front, base);
    let all = all_function_calls(id, cs, base);
    if i < front.len() {
        lemma_function_calls(id, front, base, i);
        assert(front[i] == cs[i]);
        assert(all.subrange(4 * i, 4 * i + 4) =~= all_function_calls(id, front, base).subrange(
            4 * i,
            4 * i + 4,
        ));
    } else {
        assert(all.subrange(4 * i, 4 * i + 4) =~= function_call_events(
            id,
            i as nat,
            base + i as nat,
            cs[i],
        ));
    }
}

} // verus!
