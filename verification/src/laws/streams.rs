//! A streamed reply, event by event: what a client that only listens hears.
use vstd::prelude::*;

use crate::gateway::answer::Reply;
use crate::gateway::anthropic::{
    anthropic_events, anthropic_tail, block_delta, call_events, message_ending, text_delta,
};
use crate::gateway::openai::{completion_chunks, completion_tail};
use crate::gateway::responses::{
    all_function_calls, completed, function_id, lemma_function_calls, message_id, response_events,
    text_closing, text_opening, words_event,
};
use crate::json::Tree;
use crate::laws::replies::lemma_one_more_field;
use crate::protocol::Call;

verus! {

broadcast use vstd::string::group_string_axioms;

/// In Anthropic's shape the words come in the first block, which is opened
/// before them and closed behind them.
pub proof fn law_the_words_of_a_message_come_first(id: Seq<char>, model: Seq<char>, r: Reply)
    requires
        r.text.len() > 0,
    ensures
        ({
            let e = anthropic_events(id, model, r);
            &&& e.len() >= 6
            &&& e[1].0 == "content_block_start"@ && e[1].1.get("index"@) == Some(Tree::Number(0))
            &&& e[1].1.get("content_block"@) matches Some(b) && b.get("type"@) == Some(
                Tree::Text("text"@),
            )
            &&& e[2].0 == "content_block_delta"@ && e[2].1.get("index"@) == Some(Tree::Number(0))
            &&& e[2].1.get("delta"@) matches Some(d) && d.get("type"@) == Some(
                Tree::Text("text_delta"@),
            ) && d.get("text"@) == Some(Tree::Text(r.text))
            &&& e[3].0 == "content_block_stop"@ && e[3].1.get("index"@) == Some(Tree::Number(0))
        }),
{
    broadcast use lemma_one_more_field;

    reveal_strlit("type");
    reveal_strlit("index");
    reveal_strlit("content_block");
    reveal_strlit("delta");
    reveal_strlit("text");
    assert("type"@.len() == 4);
    assert("index"@.len() == 5);
    assert("content_block"@.len() == 13);
    assert("delta"@.len() == 5);
    assert("text"@.len() == 4);
    assert("type"@[1] == 'y');
    assert("text"@[1] == 'e');
    assert("index"@[0] == 'i');
    assert("delta"@[0] == 'd');
    let e = anthropic_events(id, model, r);
    assert(e[2] == block_delta(0, text_delta(r.text)));
}

/// The end of a message that was streamed closes the words where there were
/// any, tells every call, and then why it ended: as the whole message does.
pub proof fn law_a_streamed_message_ends_with_its_calls(r: Reply, i: usize)
    requires
        i < usize::MAX,
    ensures
        anthropic_tail(r, None) == call_events(r.calls, 0) + message_ending(r),
        anthropic_tail(r, Some(i)).len() == 1 + anthropic_tail(r, None).len(),
        anthropic_tail(r, Some(i))[0].0 == "content_block_stop"@,
        anthropic_tail(r, Some(i))[0].1.get("index"@) == Some(Tree::Number(i as u64)),
        anthropic_tail(r, Some(i)).skip(1) == call_events(r.calls, (i + 1) as nat)
            + message_ending(r),
{
    broadcast use lemma_one_more_field;

    reveal_strlit("type");
    reveal_strlit("index");
    reveal_strlit("content_block");
    reveal_strlit("delta");
    reveal_strlit("text");
    assert("type"@.len() == 4);
    assert("index"@.len() == 5);
    assert("content_block"@.len() == 13);
    assert("delta"@.len() == 5);
    assert("text"@.len() == 4);
    assert("type"@[1] == 'y');
    assert("text"@[1] == 'e');
    assert("index"@[0] == 'i');
    assert("delta"@[0] == 'd');
    lemma_calls_len(r.calls, 0);
    lemma_calls_len(r.calls, (i + 1) as nat);
    assert(anthropic_tail(r, None) =~= call_events(r.calls, 0) + message_ending(r));
    assert(anthropic_tail(r, Some(i)).skip(1) =~= call_events(r.calls, (i + 1) as nat)
        + message_ending(r));
}

proof fn lemma_calls_len(cs: Seq<Call>, base: nat)
    ensures
        call_events(cs, base).len() == 3 * cs.len(),
    decreases cs.len(),
{
    if cs.len() > 0 {
        lemma_calls_len(cs.drop_last(), base);
    }
}

/// A streamed completion ends with why it ended, and then with what it used.
pub proof fn law_a_streamed_completion_ends_with_its_usage(
    id: Seq<char>,
    model: Seq<char>,
    r: Reply,
    created: i64,
)
    ensures
        ({
            let t = completion_tail(id, model, created, r);
            let n = t.len() as int;
            &&& n >= 2
            &&& t[n - 2].get("choices"@) matches Some(Tree::List(c)) && c.len() == 1 && c[0].get(
                "finish_reason"@,
            ) == Some(Tree::Text(r.finish_reason()))
            &&& t[n - 1].get("choices"@) == Some(Tree::List(Seq::<Tree>::empty()))
            &&& t[n - 1].get("usage"@) == Some(r.usage.openai())
            &&& forall|k: int|
                0 <= k < n ==> (#[trigger] t[k]).get("id"@) == Some(Tree::Text(id)) && t[k].get(
                    "model"@,
                ) == Some(Tree::Text(model)) && t[k].get("object"@) == Some(
                    Tree::Text("chat.completion.chunk"@),
                )
            &&& completion_chunks(id, model, r, created).skip(
                completion_chunks(id, model, r, created).len() - n,
            ) == t
        }),
{
    broadcast use lemma_one_more_field;

    reveal_strlit("id");
    reveal_strlit("object");
    reveal_strlit("created");
    reveal_strlit("model");
    reveal_strlit("choices");
    reveal_strlit("usage");
    reveal_strlit("index");
    reveal_strlit("delta");
    reveal_strlit("finish_reason");
    assert("id"@.len() == 2);
    assert("object"@.len() == 6);
    assert("created"@.len() == 7);
    assert("model"@.len() == 5);
    assert("choices"@.len() == 7);
    assert("usage"@.len() == 5);
    assert("index"@.len() == 5);
    assert("delta"@.len() == 5);
    assert("finish_reason"@.len() == 13);
    assert("created"@[1] == 'r');
    assert("choices"@[1] == 'h');
    assert("model"@[0] == 'm');
    assert("usage"@[0] == 'u');
    assert("index"@[0] == 'i');
    assert("delta"@[0] == 'd');
    let t = completion_tail(id, model, created, r);
    let all = completion_chunks(id, model, r, created);
    assert(all.skip(all.len() - t.len()) =~= t);
}

/// In the shape of Responses the words are told once as they come and once
/// whole, both times as they are, of the message that was opened for them.
pub proof fn law_the_words_of_a_response_are_told(
    id: Seq<char>,
    model: Seq<char>,
    r: Reply,
    created: i64,
)
    requires
        r.text.len() > 0,
    ensures
        ({
            let e = response_events(id, model, r, created);
            let item = Some(Tree::Text("msg_"@ + id));
            &&& e.len() >= 9
            &&& e[4].0 == "response.output_text.delta"@ && e[4].1.get("delta"@) == Some(
                Tree::Text(r.text),
            ) && e[4].1.get("item_id"@) == item
            &&& e[5].0 == "response.output_text.done"@ && e[5].1.get("text"@) == Some(
                Tree::Text(r.text),
            ) && e[5].1.get("item_id"@) == item
            &&& e[6].0 == "response.content_part.done"@ && e[6].1.get("item_id"@) == item
            &&& e[6].1.get("part"@) matches Some(p) && p.get("type"@) == Some(
                Tree::Text("output_text"@),
            ) && p.get("text"@) == Some(Tree::Text(r.text))
            &&& e[2].1.get("item"@) matches Some(m) && m.get("id"@) == item && m.get("role"@)
                == Some(Tree::Text("assistant"@)) && m.get("status"@) == Some(
                Tree::Text("in_progress"@),
            )
            &&& e[7].1.get("item"@) matches Some(m) && m.get("id"@) == item && m.get("status"@)
                == Some(Tree::Text("completed"@))
            &&& forall|k: int|
                2 <= k < 8 ==> (#[trigger] e[k]).1.get("output_index"@) == Some(Tree::Number(0))
                    && e[k].1.get("type"@) == Some(Tree::Text(e[k].0))
        }),
{
    broadcast use lemma_one_more_field;

    reveal_strlit("type");
    reveal_strlit("item_id");
    reveal_strlit("output_index");
    reveal_strlit("content_index");
    reveal_strlit("delta");
    reveal_strlit("text");
    reveal_strlit("part");
    reveal_strlit("item");
    reveal_strlit("id");
    reveal_strlit("status");
    reveal_strlit("role");
    reveal_strlit("content");
    reveal_strlit("annotations");
    assert("type"@.len() == 4);
    assert("item_id"@.len() == 7);
    assert("output_index"@.len() == 12);
    assert("content_index"@.len() == 13);
    assert("delta"@.len() == 5);
    assert("text"@.len() == 4);
    assert("part"@.len() == 4);
    assert("item"@.len() == 4);
    assert("id"@.len() == 2);
    assert("status"@.len() == 6);
    assert("role"@.len() == 4);
    assert("content"@.len() == 7);
    assert("annotations"@.len() == 11);
    assert("type"@[1] == 'y');
    assert("text"@[1] == 'e');
    assert("type"@[0] == 't');
    assert("part"@[0] == 'p');
    assert("item"@[0] == 'i');
    assert("role"@[0] == 'r');
    assert("item_id"@[0] == 'i');
    assert("content"@[0] == 'c');
    assert("text"@[0] == 't');
    let e = response_events(id, model, r, created);
    let o = text_opening(id);
    let c = text_closing(id, r.text);
    assert(e[2] == o[0] && e[3] == o[1]);
    assert(e[4] == words_event(id, r.text));
    assert(e[5] == c[0] && e[6] == c[1] && e[7] == c[2]);
}

/// Every call of a response is opened with its name, told as its arguments
/// come and once whole, and closed with them, under the id that the client has
/// to answer with and at its place in the output.
pub proof fn law_the_calls_of_a_response_are_told(id: Seq<char>, cs: Seq<Call>, base: nat, k: int)
    requires
        0 <= k < cs.len(),
        base + cs.len() <= u64::MAX,
    ensures
        ({
            let e = all_function_calls(id, cs, base);
            let place = Some(Tree::Number((base + k) as u64));
            let item = Some(Tree::Text(function_id(id, k as nat)));
            &&& e.len() == 4 * cs.len()
            &&& e[4 * k].0 == "response.output_item.added"@ && e[4 * k].1.get("output_index"@)
                == place
            &&& e[4 * k].1.get("item"@) matches Some(f) && f.get("name"@) == Some(
                Tree::Text(cs[k].name),
            ) && f.get("call_id"@) == Some(Tree::Text(cs[k].id)) && f.get("id"@) == item
            &&& e[4 * k + 1].0 == "response.function_call_arguments.delta"@ && e[4 * k + 1].1.get(
                "delta"@,
            ) == Some(Tree::Text(cs[k].arguments)) && e[4 * k + 1].1.get("item_id"@) == item && e[4
                * k + 1].1.get("output_index"@) == place
            &&& e[4 * k + 2].0 == "response.function_call_arguments.done"@ && e[4 * k + 2].1.get(
                "arguments"@,
            ) == Some(Tree::Text(cs[k].arguments)) && e[4 * k + 2].1.get("item_id"@) == item && e[4
                * k + 2].1.get("output_index"@) == place
            &&& e[4 * k + 3].0 == "response.output_item.done"@ && e[4 * k + 3].1.get(
                "output_index"@,
            ) == place
            &&& e[4 * k + 3].1.get("item"@) matches Some(f) && f.get("name"@) == Some(
                Tree::Text(cs[k].name),
            ) && f.get("call_id"@) == Some(Tree::Text(cs[k].id)) && f.get("arguments"@) == Some(
                Tree::Text(cs[k].arguments),
            ) && f.get("status"@) == Some(Tree::Text("completed"@))
        }),
{
    broadcast use lemma_one_more_field;

    reveal_strlit("type");
    reveal_strlit("item_id");
    reveal_strlit("output_index");
    reveal_strlit("delta");
    reveal_strlit("arguments");
    reveal_strlit("item");
    reveal_strlit("id");
    reveal_strlit("call_id");
    reveal_strlit("name");
    reveal_strlit("status");
    assert("type"@.len() == 4);
    assert("item_id"@.len() == 7);
    assert("output_index"@.len() == 12);
    assert("delta"@.len() == 5);
    assert("arguments"@.len() == 9);
    assert("item"@.len() == 4);
    assert("id"@.len() == 2);
    assert("call_id"@.len() == 7);
    assert("name"@.len() == 4);
    assert("status"@.len() == 6);
    assert("type"@[0] == 't');
    assert("item"@[0] == 'i');
    assert("name"@[0] == 'n');
    assert("item_id"@[0] == 'i');
    assert("call_id"@[0] == 'c');
    let e = all_function_calls(id, cs, base);
    lemma_function_calls(id, cs, base, k);
    let part = e.subrange(4 * k, 4 * k + 4);
    assert(part[0] == e[4 * k] && part[1] == e[4 * k + 1] && part[2] == e[4 * k + 2] && part[3]
        == e[4 * k + 3]);
}

/// The calls stand behind the words, from the next place on, and the whole
/// response ends the stream.
pub proof fn law_a_response_ends_with_its_calls_and_itself(
    id: Seq<char>,
    model: Seq<char>,
    r: Reply,
    created: i64,
)
    ensures
        ({
            let e = response_events(id, model, r, created);
            let n = e.len() as int;
            &&& e[0].0 == "response.created"@ && e[1].0 == "response.in_progress"@
            &&& e[n - 1] == completed(id, model, r, created)
            &&& e[n - 1].0 == "response.completed"@
            &&& r.text.len() > 0 ==> e.subrange(8, n - 1) == all_function_calls(id, r.calls, 1)
            &&& r.text.len() == 0 ==> e.subrange(2, n - 1) == all_function_calls(id, r.calls, 0)
        }),
{
    let e = response_events(id, model, r, created);
    let n = e.len() as int;
    if r.text.len() > 0 {
        assert(e.subrange(8, n - 1) =~= all_function_calls(id, r.calls, 1));
    } else {
        assert(e.subrange(2, n - 1) =~= all_function_calls(id, r.calls, 0));
    }
}

/// Two calls of one response have different ids, and so have their items and
/// the message.
pub proof fn law_items_have_their_own_ids(id: Seq<char>, i: u64, j: u64)
    requires
        i != j,
    ensures
        function_id(id, i as nat) != function_id(id, j as nat),
        function_id(id, i as nat) != message_id(id),
{
    reveal_strlit("fc_");
    reveal_strlit("msg_");
    reveal_strlit("_");
    let p = "fc_"@ + id + "_"@;
    let a = function_id(id, i as nat);
    let b = function_id(id, j as nat);
    assert(a.skip(p.len() as int) =~= crate::text::decimal(i as nat));
    assert(b.skip(p.len() as int) =~= crate::text::decimal(j as nat));
    crate::laws::texts::law_a_number_is_read_back(i);
    crate::laws::texts::law_a_number_is_read_back(j);
    assert("fc_"@.len() == 3 && "fc_"@[0] == 'f' && "msg_"@.len() == 4 && "msg_"@[0] == 'm');
    assert(a[0] == 'f');
    assert(message_id(id)[0] == 'm');
}

} // verus!
