//! A reply told at once and the same reply told in events: both say the same.
use vstd::prelude::*;

use crate::gateway::answer::Reply;
use crate::gateway::anthropic::{
    anthropic_body, anthropic_events, block_delta, block_start, block_stop, call_events,
    content_blocks, input_delta, message_begun, message_ending, text_block, text_delta,
    text_events, tool_use_begun, tool_use_block,
};
use crate::gateway::openai::{
    chunk, chunk_head, completion_chunks, completion_tail, content_delta, indexed_calls,
    role_delta, usage_chunk,
};
use crate::json::{lemma_with, Tree};
use crate::protocol::Call;

verus! {

broadcast use vstd::string::group_string_axioms;

// ---------------------------------------------------------------- gathering

/// What the events say one after the other, where `what` is what one says.
pub open spec fn gathered<T>(
    e: Seq<(Seq<char>, Tree)>,
    what: spec_fn((Seq<char>, Tree)) -> Seq<T>,
) -> Seq<T>
    decreases e.len(),
{
    if e.len() == 0 {
        seq![]
    } else {
        gathered(e.drop_last(), what) + what(e.last())
    }
}

proof fn lemma_gathered_push<T>(
    e: Seq<(Seq<char>, Tree)>,
    event: (Seq<char>, Tree),
    what: spec_fn((Seq<char>, Tree)) -> Seq<T>,
)
    ensures
        gathered(e.push(event), what) == gathered(e, what) + what(event),
{
    assert(e.push(event).drop_last() =~= e);
}

proof fn lemma_gathered_one<T>(
    event: (Seq<char>, Tree),
    what: spec_fn((Seq<char>, Tree)) -> Seq<T>,
)
    ensures
        gathered(seq![event], what) == what(event),
{
    let none: Seq<(Seq<char>, Tree)> = seq![];
    lemma_gathered_push(none, event, what);
    assert(none.push(event) =~= seq![event]);
    assert(gathered(none, what) + what(event) =~= what(event));
}

proof fn lemma_gathered_join<T>(
    a: Seq<(Seq<char>, Tree)>,
    b: Seq<(Seq<char>, Tree)>,
    what: spec_fn((Seq<char>, Tree)) -> Seq<T>,
)
    ensures
        gathered(a + b, what) == gathered(a, what) + gathered(b, what),
    decreases b.len(),
{
    if b.len() == 0 {
        assert(a + b =~= a);
        assert(gathered(a, what) + gathered(b, what) =~= gathered(a, what));
    } else {
        lemma_gathered_join(a, b.drop_last(), what);
        assert((a + b).drop_last() =~= a + b.drop_last());
        assert((a + b).last() == b.last());
        assert(gathered(a, what) + (gathered(b.drop_last(), what) + what(b.last())) =~= gathered(
            a,
            what,
        ) + gathered(b.drop_last(), what) + what(b.last()));
    }
}

/// A field of an event of this name, if it has it.
pub open spec fn told(event: (Seq<char>, Tree), name: Seq<char>, field: Seq<char>) -> Seq<Tree> {
    match event.1.get(field) {
        Some(t) if event.0 == name => seq![t],
        _ => seq![],
    }
}

/// The block an event opens.
#[verifier::opaque]
pub open spec fn block_in() -> spec_fn((Seq<char>, Tree)) -> Seq<Tree> {
    |event: (Seq<char>, Tree)| told(event, "content_block_start"@, "content_block"@)
}

/// The number of the block an event opens.
#[verifier::opaque]
pub open spec fn place_in() -> spec_fn((Seq<char>, Tree)) -> Seq<Tree> {
    |event: (Seq<char>, Tree)| told(event, "content_block_start"@, "index"@)
}

/// Why the message ends, where an event says so.
#[verifier::opaque]
pub open spec fn reason_in() -> spec_fn((Seq<char>, Tree)) -> Seq<Tree> {
    |event: (Seq<char>, Tree)|
        match event.1.get("delta"@) {
            Some(d) if event.0 == "message_delta"@ => match d.get("stop_reason"@) {
                Some(t) => seq![t],
                None => seq![],
            },
            _ => seq![],
        }
}

/// The words an event adds.
#[verifier::opaque]
pub open spec fn words_in() -> spec_fn((Seq<char>, Tree)) -> Seq<char> {
    |event: (Seq<char>, Tree)|
        match event.1.get("delta"@) {
            Some(d) if event.0 == "content_block_delta"@ && d.get("type"@) == Some(
                Tree::Text("text_delta"@),
            ) => match d.text_at("text"@) {
                Some(t) => t,
                None => seq![],
            },
            _ => seq![],
        }
}

proof fn lemma_keys()
    ensures
        "type"@ != "content_block"@,
        "type"@ != "index"@,
        "type"@ != "delta"@,
        "index"@ != "content_block"@,
        "index"@ != "delta"@,
        "type"@ != "message"@,
        "message"@ != "content_block"@,
        "message"@ != "index"@,
        "message"@ != "delta"@,
        "usage"@ != "delta"@,
        "type"@ != "text"@,
        "type"@ != "id"@,
        "type"@ != "name"@,
        "text"@ != "id"@,
        "text"@ != "name"@,
        "id"@ != "name"@,
        "input"@ != "name"@,
        "input"@ != "id"@,
        "text_delta"@ != "input_json_delta"@,
{
    reveal_strlit("type");
    reveal_strlit("content_block");
    reveal_strlit("index");
    reveal_strlit("delta");
    reveal_strlit("message");
    reveal_strlit("usage");
    reveal_strlit("text");
    reveal_strlit("id");
    reveal_strlit("name");
    reveal_strlit("input");
    reveal_strlit("text_delta");
    reveal_strlit("input_json_delta");
    assert("type"@.len() == 4 && "content_block"@.len() == 13 && "index"@.len() == 5);
    assert("delta"@.len() == 5 && "message"@.len() == 7 && "usage"@.len() == 5);
    assert("text"@.len() == 4 && "id"@.len() == 2 && "name"@.len() == 4 && "input"@.len() == 5);
    assert("text_delta"@.len() == 10 && "input_json_delta"@.len() == 16);
    assert("index"@[0] == 'i' && "delta"@[0] == 'd' && "usage"@[0] == 'u');
    assert("type"@[1] == 'y' && "text"@[1] == 'e' && "name"@[1] == 'a');
}

proof fn lemma_names()
    ensures
        "content_block_start"@ != "content_block_delta"@,
        "content_block_stop"@ != "content_block_start"@,
        "content_block_stop"@ != "content_block_delta"@,
        "content_block_start"@ != "message_delta"@,
        "content_block_delta"@ != "message_delta"@,
        "content_block_stop"@ != "message_delta"@,
        "message_start"@ != "message_delta"@,
        "message_stop"@ != "message_delta"@,
        "message_start"@ != "content_block_start"@,
        "message_start"@ != "content_block_delta"@,
        "message_stop"@ != "content_block_start"@,
        "message_stop"@ != "content_block_delta"@,
{
    reveal_strlit("content_block_start");
    reveal_strlit("content_block_delta");
    reveal_strlit("content_block_stop");
    reveal_strlit("message_start");
    reveal_strlit("message_delta");
    reveal_strlit("message_stop");
    assert("content_block_start"@.len() == 19 && "content_block_delta"@.len() == 19);
    assert("content_block_stop"@.len() == 18 && "message_start"@.len() == 13);
    assert("message_delta"@.len() == 13 && "message_stop"@.len() == 12);
    assert("content_block_start"@[14] == 's' && "content_block_delta"@[14] == 'd');
    assert("message_start"@[8] == 's' && "message_delta"@[8] == 'd');
}

/// What an event says of a stream: the blocks, their numbers, the reasons and
/// the words.
spec fn says(
    event: (Seq<char>, Tree),
    blocks: Seq<Tree>,
    places: Seq<Tree>,
    reasons: Seq<Tree>,
    words: Seq<char>,
) -> bool {
    &&& block_in()(event) == blocks
    &&& place_in()(event) == places
    &&& reason_in()(event) == reasons
    &&& words_in()(event) == words
}

proof fn lemma_block_start(index: u64, block: Tree)
    ensures
        says(
            block_start(index, block),
            seq![block],
            seq![Tree::Number(index)],
            seq![],
            seq![],
        ),
{
    reveal(block_in);
    reveal(place_in);
    reveal(reason_in);
    reveal(words_in);
    lemma_keys();
    lemma_names();
    let kind = Tree::Text("content_block_start"@);
    let t = Tree::record().with("type"@, kind);
    let u = t.with("index"@, Tree::Number(index));
    lemma_with(Tree::record(), "type"@, kind, "index"@);
    lemma_with(Tree::record(), "type"@, kind, "content_block"@);
    lemma_with(t, "index"@, Tree::Number(index), "index"@);
    lemma_with(t, "index"@, Tree::Number(index), "content_block"@);
    lemma_with(u, "content_block"@, block, "index"@);
    lemma_with(u, "content_block"@, block, "content_block"@);
}

proof fn lemma_block_delta(index: u64, delta: Tree)
    ensures
        says(
            block_delta(index, delta),
            seq![],
            seq![],
            seq![],
            if delta.get("type"@) == Some(Tree::Text("text_delta"@)) {
                match delta.text_at("text"@) {
                    Some(t) => t,
                    None => seq![],
                }
            } else {
                seq![]
            },
        ),
{
    reveal(block_in);
    reveal(place_in);
    reveal(reason_in);
    reveal(words_in);
    lemma_keys();
    lemma_names();
    let kind = Tree::Text("content_block_delta"@);
    let t = Tree::record().with("type"@, kind);
    let u = t.with("index"@, Tree::Number(index));
    lemma_with(Tree::record(), "type"@, kind, "delta"@);
    lemma_with(t, "index"@, Tree::Number(index), "delta"@);
    lemma_with(u, "delta"@, delta, "delta"@);
}

proof fn lemma_deltas(text: Seq<char>)
    ensures
        text_delta(text).get("type"@) == Some(Tree::Text("text_delta"@)),
        text_delta(text).text_at("text"@) == Some(text),
        input_delta(text).get("type"@) == Some(Tree::Text("input_json_delta"@)),
        input_delta(text).get("type"@) != Some(Tree::Text("text_delta"@)),
{
    lemma_keys();
    let a = Tree::Text("text_delta"@);
    let b = Tree::Text("input_json_delta"@);
    lemma_with(Tree::record(), "type"@, a, "type"@);
    lemma_with(Tree::record(), "type"@, a, "text"@);
    lemma_with(Tree::record().with("type"@, a), "text"@, Tree::Text(text), "type"@);
    lemma_with(Tree::record().with("type"@, a), "text"@, Tree::Text(text), "text"@);
    lemma_with(Tree::record(), "type"@, b, "type"@);
    lemma_with(Tree::record().with("type"@, b), "partial_json"@, Tree::Text(text), "type"@);
    assert(a->Text_0 != b->Text_0);
}

proof fn lemma_block_stop(index: u64)
    ensures
        says(block_stop(index), seq![], seq![], seq![], seq![]),
{
    reveal(block_in);
    reveal(place_in);
    reveal(reason_in);
    reveal(words_in);
    lemma_names();
}

proof fn lemma_message_begun(id: Seq<char>, model: Seq<char>, usage: Tree)
    ensures
        says(message_begun(id, model, usage), seq![], seq![], seq![], seq![]),
{
    reveal(block_in);
    reveal(place_in);
    reveal(reason_in);
    reveal(words_in);
    lemma_names();
}

proof fn lemma_message_ending(r: Reply)
    ensures
        message_ending(r).len() == 2,
        says(message_ending(r)[0], seq![], seq![], seq![Tree::Text(r.stop_reason())], seq![]),
        says(message_ending(r)[1], seq![], seq![], seq![], seq![]),
{
    reveal(block_in);
    reveal(place_in);
    reveal(reason_in);
    reveal(words_in);
    lemma_keys();
    lemma_names();
    let why = Tree::Text(r.stop_reason());
    let d = Tree::record().with("stop_reason"@, why);
    let delta = d.with("stop_sequence"@, Tree::Null);
    lemma_with(Tree::record(), "stop_reason"@, why, "stop_reason"@);
    lemma_with(d, "stop_sequence"@, Tree::Null, "stop_reason"@);
    let kind = Tree::Text("message_delta"@);
    let t = Tree::record().with("type"@, kind);
    let u = t.with("delta"@, delta);
    let usage = Tree::record().with("output_tokens"@, Tree::Number(r.usage.output));
    lemma_with(Tree::record(), "type"@, kind, "delta"@);
    lemma_with(t, "delta"@, delta, "delta"@);
    lemma_with(u, "usage"@, usage, "delta"@);
}

/// What a stream says as a whole.
spec fn says_all(
    e: Seq<(Seq<char>, Tree)>,
    blocks: Seq<Tree>,
    places: Seq<Tree>,
    reasons: Seq<Tree>,
    words: Seq<char>,
) -> bool {
    &&& gathered(e, block_in()) == blocks
    &&& gathered(e, place_in()) == places
    &&& gathered(e, reason_in()) == reasons
    &&& gathered(e, words_in()) == words
}

proof fn lemma_push_all(e: Seq<(Seq<char>, Tree)>, event: (Seq<char>, Tree))
    ensures
        says_all(
            e.push(event),
            gathered(e, block_in()) + block_in()(event),
            gathered(e, place_in()) + place_in()(event),
            gathered(e, reason_in()) + reason_in()(event),
            gathered(e, words_in()) + words_in()(event),
        ),
{
    lemma_gathered_push(e, event, block_in());
    lemma_gathered_push(e, event, place_in());
    lemma_gathered_push(e, event, reason_in());
    lemma_gathered_push(e, event, words_in());
}

spec fn begun_blocks(cs: Seq<Call>) -> Seq<Tree> {
    Seq::new(cs.len(), |i: int| tool_use_begun(cs[i]))
}

spec fn numbers(base: nat, many: nat) -> Seq<Tree> {
    Seq::new(many, |i: int| Tree::Number((base + i) as u64))
}

proof fn lemma_call_events(cs: Seq<Call>, base: nat)
    ensures
        says_all(
            call_events(cs, base),
            begun_blocks(cs),
            numbers(base, cs.len()),
            seq![],
            seq![],
        ),
    decreases cs.len(),
{
    if cs.len() == 0 {
        assert(begun_blocks(cs) =~= seq![]);
        assert(numbers(base, 0) =~= seq![]);
    } else {
        let front = cs.drop_last();
        let c = cs.last();
        lemma_call_events(front, base);
        let index = (base + cs.len() - 1) as u64;
        let e0 = call_events(front, base);
        let e1 = e0.push(block_start(index, tool_use_begun(c)));
        let e2 = e1.push(block_delta(index, input_delta(c.arguments)));
        lemma_block_start(index, tool_use_begun(c));
        lemma_block_delta(index, input_delta(c.arguments));
        lemma_deltas(c.arguments);
        lemma_block_stop(index);
        lemma_push_all(e0, block_start(index, tool_use_begun(c)));
        lemma_push_all(e1, block_delta(index, input_delta(c.arguments)));
        lemma_push_all(e2, block_stop(index));
        let e3 = call_events(cs, base);
        assert(e3 == e2.push(block_stop(index)));
        assert(gathered(e3, block_in()) =~= begun_blocks(cs));
        assert(gathered(e3, place_in()) =~= numbers(base, cs.len()));
        assert(gathered(e3, reason_in()) =~= seq![]);
        assert(gathered(e3, words_in()) =~= seq![]);
    }
}

proof fn lemma_text_events(text: Seq<char>)
    ensures
        says_all(
            text_events(text),
            if text.len() > 0 {
                seq![text_block(""@)]
            } else {
                seq![]
            },
            if text.len() > 0 {
                seq![Tree::Number(0)]
            } else {
                seq![]
            },
            seq![],
            text,
        ),
{
    let e = text_events(text);
    if text.len() > 0 {
        let none: Seq<(Seq<char>, Tree)> = seq![];
        let e1 = none.push(block_start(0, text_block(""@)));
        let e2 = e1.push(block_delta(0, text_delta(text)));
        lemma_block_start(0, text_block(""@));
        lemma_block_delta(0, text_delta(text));
        lemma_deltas(text);
        lemma_block_stop(0);
        lemma_push_all(none, block_start(0, text_block(""@)));
        lemma_push_all(e1, block_delta(0, text_delta(text)));
        lemma_push_all(e2, block_stop(0));
        assert(e =~= e2.push(block_stop(0)));
        assert(gathered(e, block_in()) =~= seq![text_block(""@)]);
        assert(gathered(e, place_in()) =~= seq![Tree::Number(0)]);
        assert(gathered(e, reason_in()) =~= seq![]);
        assert(gathered(e, words_in()) =~= text);
    } else {
        assert(gathered(e, words_in()) =~= text);
    }
}

proof fn lemma_ending(r: Reply)
    ensures
        says_all(
            message_ending(r),
            seq![],
            seq![],
            seq![Tree::Text(r.stop_reason())],
            seq![],
        ),
{
    let e = message_ending(r);
    let none: Seq<(Seq<char>, Tree)> = seq![];
    lemma_message_ending(r);
    lemma_push_all(none, e[0]);
    lemma_push_all(none.push(e[0]), e[1]);
    assert(e =~= none.push(e[0]).push(e[1]));
    assert(gathered(e, block_in()) =~= seq![]);
    assert(gathered(e, place_in()) =~= seq![]);
    assert(gathered(e, reason_in()) =~= seq![Tree::Text(r.stop_reason())]);
    assert(gathered(e, words_in()) =~= seq![]);
}

// --------------------------------------------------------------- agreement

/// Two blocks of one kind, and the same call where they are calls.
pub open spec fn same_block(a: Tree, b: Tree) -> bool {
    &&& a.get("type"@) is Some && a.get("type"@) == b.get("type"@)
    &&& a.get("id"@) == b.get("id"@)
    &&& a.get("name"@) == b.get("name"@)
}

proof fn lemma_text_block(a: Seq<char>)
    ensures
        text_block(a).get("type"@) == Some(Tree::Text("text"@)),
        text_block(a).get("id"@) is None,
        text_block(a).get("name"@) is None,
        text_block(a).text_at("text"@) == Some(a),
{
    lemma_keys();
    let kind = Tree::Text("text"@);
    let t = Tree::record().with("type"@, kind);
    lemma_with(Tree::record(), "type"@, kind, "type"@);
    lemma_with(Tree::record(), "type"@, kind, "id"@);
    lemma_with(Tree::record(), "type"@, kind, "name"@);
    lemma_with(Tree::record(), "type"@, kind, "text"@);
    lemma_with(t, "text"@, Tree::Text(a), "type"@);
    lemma_with(t, "text"@, Tree::Text(a), "id"@);
    lemma_with(t, "text"@, Tree::Text(a), "name"@);
    lemma_with(t, "text"@, Tree::Text(a), "text"@);
}

proof fn lemma_call_block(c: Call)
    ensures
        same_block(tool_use_begun(c), tool_use_block(c)),
{
    lemma_keys();
    let kind = Tree::Text("tool_use"@);
    let t = Tree::record().with("type"@, kind);
    let u = t.with("id"@, Tree::Text(c.id));
    let v = u.with("name"@, Tree::Text(c.name));
    lemma_with(Tree::record(), "type"@, kind, "type"@);
    lemma_with(t, "id"@, Tree::Text(c.id), "type"@);
    lemma_with(u, "name"@, Tree::Text(c.name), "type"@);
    lemma_with(Tree::record(), "type"@, kind, "id"@);
    lemma_with(t, "id"@, Tree::Text(c.id), "id"@);
    lemma_with(u, "name"@, Tree::Text(c.name), "id"@);
    lemma_with(Tree::record(), "type"@, kind, "name"@);
    lemma_with(t, "id"@, Tree::Text(c.id), "name"@);
    lemma_with(u, "name"@, Tree::Text(c.name), "name"@);
    let begun = Tree::record();
    let whole = tool_use_block(c).fields().last().1;
    lemma_with(v, "input"@, begun, "type"@);
    lemma_with(v, "input"@, begun, "id"@);
    lemma_with(v, "input"@, begun, "name"@);
    lemma_with(v, "input"@, whole, "type"@);
    lemma_with(v, "input"@, whole, "id"@);
    lemma_with(v, "input"@, whole, "name"@);
    assert(tool_use_block(c) == v.with("input"@, whole));
}

proof fn lemma_body(id: Seq<char>, model: Seq<char>, r: Reply)
    ensures
        anthropic_body(id, model, r).get("content"@) == Some(Tree::List(content_blocks(r))),
        anthropic_body(id, model, r).get("stop_reason"@) == Some(Tree::Text(r.stop_reason())),
{
    reveal_strlit("id");
    reveal_strlit("type");
    reveal_strlit("role");
    reveal_strlit("model");
    reveal_strlit("content");
    reveal_strlit("stop_reason");
    assert("id"@.len() == 2 && "type"@.len() == 4 && "role"@.len() == 4 && "model"@.len() == 5);
    assert("content"@.len() == 7 && "stop_reason"@.len() == 11);
    let (c, s) = ("content"@, "stop_reason"@);
    let t0 = Tree::record();
    let t1 = t0.with("id"@, Tree::Text(id));
    let t2 = t1.with("type"@, Tree::Text("message"@));
    let t3 = t2.with("role"@, Tree::Text("assistant"@));
    let t4 = t3.with("model"@, Tree::Text(model));
    let t5 = t4.with(c, Tree::List(content_blocks(r)));
    let t6 = t5.with(s, Tree::Text(r.stop_reason()));
    let t7 = t6.with("stop_sequence"@, Tree::Null);
    lemma_with(t0, "id"@, Tree::Text(id), c);
    lemma_with(t1, "type"@, Tree::Text("message"@), c);
    lemma_with(t2, "role"@, Tree::Text("assistant"@), c);
    lemma_with(t3, "model"@, Tree::Text(model), c);
    lemma_with(t4, c, Tree::List(content_blocks(r)), c);
    lemma_with(t5, s, Tree::Text(r.stop_reason()), c);
    lemma_with(t6, "stop_sequence"@, Tree::Null, c);
    lemma_with(t7, "usage"@, r.usage.anthropic(), c);
    lemma_with(t0, "id"@, Tree::Text(id), s);
    lemma_with(t1, "type"@, Tree::Text("message"@), s);
    lemma_with(t2, "role"@, Tree::Text("assistant"@), s);
    lemma_with(t3, "model"@, Tree::Text(model), s);
    lemma_with(t4, c, Tree::List(content_blocks(r)), s);
    lemma_with(t5, s, Tree::Text(r.stop_reason()), s);
    lemma_with(t6, "stop_sequence"@, Tree::Null, s);
    lemma_with(t7, "usage"@, r.usage.anthropic(), s);
}

/// What the events of an answer say.
proof fn lemma_stream(id: Seq<char>, model: Seq<char>, r: Reply)
    ensures
        says_all(
            anthropic_events(id, model, r),
            opened_blocks(r),
            numbers(0, opened_blocks(r).len()),
            seq![Tree::Text(r.stop_reason())],
            r.text,
        ),
{
    let e = anthropic_events(id, model, r);
    let usage = Tree::record().with("input_tokens"@, Tree::Number(r.usage.input)).with(
        "output_tokens"@,
        Tree::Number(0),
    ).with("cache_read_input_tokens"@, Tree::Number(r.usage.cached));
    let base: nat = if r.text.len() == 0 {
        0
    } else {
        1
    };
    let begun = message_begun(id, model, usage);
    lemma_message_begun(id, model, usage);
    lemma_text_events(r.text);
    lemma_call_events(r.calls, base);
    lemma_ending(r);
    assert(e == seq![begun] + text_events(r.text) + call_events(r.calls, base)
        + message_ending(r));
    lemma_parts(
        begun,
        text_events(r.text),
        call_events(r.calls, base),
        message_ending(r),
        block_in(),
    );
    lemma_parts(
        begun,
        text_events(r.text),
        call_events(r.calls, base),
        message_ending(r),
        place_in(),
    );
    lemma_parts(
        begun,
        text_events(r.text),
        call_events(r.calls, base),
        message_ending(r),
        reason_in(),
    );
    lemma_parts(
        begun,
        text_events(r.text),
        call_events(r.calls, base),
        message_ending(r),
        words_in(),
    );
    assert(gathered(e, block_in()) =~= opened_blocks(r));
    assert(gathered(e, place_in()) =~= numbers(0, opened_blocks(r).len()));
    assert(gathered(e, reason_in()) =~= seq![Tree::Text(r.stop_reason())]);
    assert(gathered(e, words_in()) =~= r.text);
}

proof fn lemma_parts<T>(
    first: (Seq<char>, Tree),
    a: Seq<(Seq<char>, Tree)>,
    b: Seq<(Seq<char>, Tree)>,
    c: Seq<(Seq<char>, Tree)>,
    what: spec_fn((Seq<char>, Tree)) -> Seq<T>,
)
    ensures
        gathered(seq![first] + a + b + c, what) == what(first) + gathered(a, what) + gathered(
            b,
            what,
        ) + gathered(c, what),
{
    lemma_gathered_one(first, what);
    lemma_gathered_join(seq![first], a, what);
    lemma_gathered_join(seq![first] + a, b, what);
    lemma_gathered_join(seq![first] + a + b, c, what);
}

/// The blocks of an answer as they are opened.
spec fn opened_blocks(r: Reply) -> Seq<Tree> {
    let words = if r.text.len() > 0 {
        seq![text_block(""@)]
    } else {
        seq![]
    };
    words + begun_blocks(r.calls)
}

proof fn lemma_same_blocks(r: Reply, k: int)
    requires
        0 <= k < opened_blocks(r).len(),
    ensures
        opened_blocks(r).len() == content_blocks(r).len(),
        same_block(opened_blocks(r)[k], content_blocks(r)[k]),
{
    if r.text.len() > 0 && k == 0 {
        lemma_text_block(""@);
        lemma_text_block(r.text);
        assert(opened_blocks(r)[k] == text_block(""@));
        assert(content_blocks(r)[k] == text_block(r.text));
    } else {
        let c = if r.text.len() > 0 {
            r.calls[k - 1]
        } else {
            r.calls[k]
        };
        lemma_call_block(c);
        assert(opened_blocks(r)[k] == tool_use_begun(c));
        assert(content_blocks(r)[k] == tool_use_block(c));
    }
}

/// The whole message and the stream of one answer agree: they end for the same
/// reason, which the stream says once; the stream opens one block for each
/// entry of the content, in order, numbered from zero, of the same kind and for
/// the same call; and the words the stream adds up to are the text entry's.
pub proof fn law_message_and_stream_agree(id: Seq<char>, model: Seq<char>, r: Reply)
    ensures
        ({
            let m = anthropic_body(id, model, r);
            let e = anthropic_events(id, model, r);
            let blocks = gathered(e, block_in());
            &&& gathered(e, reason_in()).len() == 1
            &&& m.get("stop_reason"@) == Some(gathered(e, reason_in())[0])
            &&& m.get("content"@) == Some(Tree::List(content_blocks(r)))
            &&& blocks.len() == content_blocks(r).len()
            &&& gathered(e, place_in()).len() == blocks.len()
            &&& forall|k: int|
                0 <= k < blocks.len() ==> {
                    &&& same_block(#[trigger] blocks[k], content_blocks(r)[k])
                    &&& gathered(e, place_in())[k] == Tree::Number(k as u64)
                }
            &&& gathered(e, words_in()) == r.text
            &&& r.text.len() > 0 ==> content_blocks(r)[0].text_at("text"@) == Some(
                gathered(e, words_in()),
            )
        }),
{
    let e = anthropic_events(id, model, r);
    lemma_body(id, model, r);
    lemma_stream(id, model, r);
    let blocks = gathered(e, block_in());
    assert(blocks == opened_blocks(r));
    assert(opened_blocks(r).len() == content_blocks(r).len());
    if r.text.len() > 0 {
        lemma_text_block(r.text);
        assert(content_blocks(r)[0] == text_block(r.text));
    }
    assert forall|k: int| 0 <= k < blocks.len() implies {
        &&& same_block(#[trigger] blocks[k], content_blocks(r)[k])
        &&& gathered(e, place_in())[k] == Tree::Number(k as u64)
    } by {
        lemma_same_blocks(r, k);
    }
}

/// How a chunk of a completion says it finishes.
pub open spec fn finish_in(chunk: Tree) -> Option<Tree> {
    match chunk.get("choices"@) {
        Some(Tree::List(choices)) if choices.len() > 0 => choices[0].get("finish_reason"@),
        _ => None,
    }
}

proof fn lemma_chunk(id: Seq<char>, model: Seq<char>, created: i64, delta: Tree, finish: Tree)
    ensures
        finish_in(chunk(id, model, created, delta, finish)) == Some(finish),
{
    lemma_head(id, model, created);
    reveal_strlit("index");
    reveal_strlit("delta");
    reveal_strlit("finish_reason");
    assert("index"@.len() == 5 && "delta"@.len() == 5 && "finish_reason"@.len() == 13);
    let t0 = Tree::record();
    let t1 = t0.with("index"@, Tree::Number(0));
    let t2 = t1.with("delta"@, delta);
    let choice = t2.with("finish_reason"@, finish);
    lemma_with(t0, "index"@, Tree::Number(0), "finish_reason"@);
    lemma_with(t1, "delta"@, delta, "finish_reason"@);
    lemma_with(t2, "finish_reason"@, finish, "finish_reason"@);
    lemma_with(chunk_head(id, model, created), "choices"@, Tree::just(choice), "choices"@);
}

proof fn lemma_head(id: Seq<char>, model: Seq<char>, created: i64)
    ensures
        chunk_head(id, model, created).get("choices"@) is None,
        chunk_head(id, model, created).get("usage"@) is None,
        "choices"@ != "usage"@,
{
    reveal_strlit("id");
    reveal_strlit("object");
    reveal_strlit("created");
    reveal_strlit("model");
    reveal_strlit("choices");
    reveal_strlit("usage");
    assert("id"@.len() == 2 && "object"@.len() == 6 && "created"@.len() == 7);
    assert("model"@.len() == 5 && "choices"@.len() == 7 && "usage"@.len() == 5);
    assert("created"@[1] == 'r' && "choices"@[1] == 'h');
    assert("model"@[0] == 'm' && "usage"@[0] == 'u');
    let (c, u) = ("choices"@, "usage"@);
    let t0 = Tree::record();
    let t1 = t0.with("id"@, Tree::Text(id));
    let t2 = t1.with("object"@, Tree::Text("chat.completion.chunk"@));
    let t3 = t2.with("created"@, Tree::integer(created));
    lemma_with(t0, "id"@, Tree::Text(id), c);
    lemma_with(t1, "object"@, Tree::Text("chat.completion.chunk"@), c);
    lemma_with(t2, "created"@, Tree::integer(created), c);
    lemma_with(t3, "model"@, Tree::Text(model), c);
    lemma_with(t0, "id"@, Tree::Text(id), u);
    lemma_with(t1, "object"@, Tree::Text("chat.completion.chunk"@), u);
    lemma_with(t2, "created"@, Tree::integer(created), u);
    lemma_with(t3, "model"@, Tree::Text(model), u);
}

/// What each chunk of a completion is.
proof fn lemma_chunk_at(id: Seq<char>, model: Seq<char>, r: Reply, created: i64, i: int)
    requires
        0 <= i < completion_chunks(id, model, r, created).len(),
    ensures
        ({
            let all = completion_chunks(id, model, r, created);
            let n = all.len() as int;
            &&& n >= 3
            &&& i == n - 1 ==> all[i] == usage_chunk(id, model, created, r)
            &&& i == n - 2 ==> finish_in(all[i]) == Some(Tree::Text(r.finish_reason()))
            &&& i < n - 2 ==> finish_in(all[i]) == Some(Tree::Null)
        }),
{
    let all = completion_chunks(id, model, r, created);
    let n = all.len() as int;
    let calls = Tree::record().with("tool_calls"@, Tree::List(indexed_calls(r.calls)));
    if i == n - 2 {
        lemma_chunk(id, model, created, Tree::record(), Tree::Text(r.finish_reason()));
        assert(all[i] == chunk(
            id,
            model,
            created,
            Tree::record(),
            Tree::Text(r.finish_reason()),
        ));
    } else if i == 0 {
        lemma_chunk(id, model, created, role_delta(), Tree::Null);
        assert(all[i] == chunk(id, model, created, role_delta(), Tree::Null));
    } else if i == 1 && r.text.len() > 0 {
        lemma_chunk(id, model, created, content_delta(r.text), Tree::Null);
        assert(all[i] == chunk(id, model, created, content_delta(r.text), Tree::Null));
    } else if i < n - 2 {
        lemma_chunk(id, model, created, calls, Tree::Null);
        assert(all[i] == chunk(id, model, created, calls, Tree::Null));
    }
}

proof fn lemma_usage_chunk(id: Seq<char>, model: Seq<char>, created: i64, r: Reply)
    ensures
        usage_chunk(id, model, created, r).get("choices"@) == Some(Tree::List(seq![])),
        usage_chunk(id, model, created, r).get("usage"@) == Some(r.usage.openai()),
{
    let head = chunk_head(id, model, created);
    lemma_head(id, model, created);
    let none = Tree::List(seq![]);
    let listed = head.with("choices"@, none);
    lemma_with(head, "choices"@, none, "choices"@);
    lemma_with(head, "choices"@, none, "usage"@);
    lemma_with(listed, "usage"@, r.usage.openai(), "choices"@);
    lemma_with(listed, "usage"@, r.usage.openai(), "usage"@);
}

/// A completion streamed as it comes ends as one streamed at once: with the
/// chunks after the words. The last chunk has no choices and gives the usage;
/// the one before it gives the reason, and no other gives one.
pub proof fn law_live_completion_ends_as_the_whole(
    id: Seq<char>,
    model: Seq<char>,
    r: Reply,
    created: i64,
)
    ensures
        ({
            let all = completion_chunks(id, model, r, created);
            let n = all.len() as int;
            &&& all.skip(
                if r.text.len() == 0 {
                    1
                } else {
                    2
                },
            ) == completion_tail(id, model, created, r)
            &&& n >= 3
            &&& all[n - 1].get("choices"@) == Some(Tree::List(seq![]))
            &&& all[n - 1].get("usage"@) == Some(r.usage.openai())
            &&& finish_in(all[n - 2]) == Some(Tree::Text(r.finish_reason()))
            &&& forall|i: int|
                0 <= i < n - 2 ==> finish_in(#[trigger] all[i]) == Some(Tree::Null)
        }),
{
    let all = completion_chunks(id, model, r, created);
    let n = all.len() as int;
    assert(all.skip(
        if r.text.len() == 0 {
            1
        } else {
            2
        },
    ) =~= completion_tail(id, model, created, r));
    lemma_chunk_at(id, model, r, created, 0);
    lemma_chunk_at(id, model, r, created, n - 1);
    lemma_chunk_at(id, model, r, created, n - 2);
    lemma_usage_chunk(id, model, created, r);
    assert forall|i: int| 0 <= i < n - 2 implies finish_in(#[trigger] all[i]) == Some(
        Tree::Null,
    ) by {
        lemma_chunk_at(id, model, r, created, i);
    }
}

} // verus!
