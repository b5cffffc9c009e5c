//! The items of a streamed response, and the events that open and close them.
use vstd::prelude::*;

use crate::gateway::answer::Reply;
use crate::gateway::responses::{
    all_function_calls, arguments_event, begun, completed, function_call_events, function_id,
    function_item, item_event, lemma_function_calls, lemma_function_calls_len, message_item,
    message_opened, output_items, part_event, response_body, response_events, response_tail,
    skeleton, text_closing, text_opening, text_part, words_event,
};
use crate::json::{lemma_with, lookup, Tree};

verus! {

broadcast use vstd::string::group_string_axioms;

/// The place in the output that an event names, if it names one.
pub open spec fn place_of(event: (Seq<char>, Tree)) -> Option<Tree> {
    event.1.get("output_index"@)
}

/// A place among so many.
pub open spec fn is_place(p: Tree, many: nat) -> bool {
    p matches Tree::Number(k) && k < many
}

/// The event opens the item at this place.
pub open spec fn opens(event: (Seq<char>, Tree), k: nat) -> bool {
    event.0 == "response.output_item.added"@ && place_of(event) == Some(Tree::Number(k as u64))
}

/// The event closes the item at this place.
pub open spec fn closes(event: (Seq<char>, Tree), k: nat) -> bool {
    event.0 == "response.output_item.done"@ && place_of(event) == Some(Tree::Number(k as u64))
}

/// The item at this place is opened by one event, and later closed by one,
/// which gives the item as it is then.
pub open spec fn opened_and_closed(
    e: Seq<(Seq<char>, Tree)>,
    k: nat,
    item: Tree,
    i: int,
    j: int,
) -> bool {
    &&& 0 <= i < j < e.len()
    &&& opens(e[i], k)
    &&& closes(e[j], k)
    &&& e[j].1.get("item"@) == Some(item)
    &&& forall|n: int| 0 <= n < e.len() && opens(#[trigger] e[n], k) ==> n == i
    &&& forall|n: int| 0 <= n < e.len() && closes(#[trigger] e[n], k) ==> n == j
}

/// The item at this place is opened once, and later closed once.
pub open spec fn comes_and_goes(e: Seq<(Seq<char>, Tree)>, k: nat, item: Tree) -> bool {
    exists|i: int, j: int| opened_and_closed(e, k, item, i, j)
}

/// No event names a place beyond so many.
pub open spec fn names_only_items(e: Seq<(Seq<char>, Tree)>, many: nat) -> bool {
    forall|n: int|
        0 <= n < e.len() ==> (place_of(#[trigger] e[n]) matches Some(p) ==> is_place(p, many))
}

proof fn lemma_names()
    ensures
        "response.output_item.added"@ != "response.output_item.done"@,
        "response.created"@ != "response.output_item.added"@,
        "response.created"@ != "response.output_item.done"@,
        "response.in_progress"@ != "response.output_item.added"@,
        "response.in_progress"@ != "response.output_item.done"@,
        "response.content_part.added"@ != "response.output_item.added"@,
        "response.content_part.added"@ != "response.output_item.done"@,
        "response.output_text.delta"@ != "response.output_item.added"@,
        "response.output_text.delta"@ != "response.output_item.done"@,
        "response.output_text.done"@ != "response.output_item.added"@,
        "response.output_text.done"@ != "response.output_item.done"@,
        "response.content_part.done"@ != "response.output_item.added"@,
        "response.content_part.done"@ != "response.output_item.done"@,
        "response.function_call_arguments.delta"@ != "response.output_item.added"@,
        "response.function_call_arguments.delta"@ != "response.output_item.done"@,
        "response.function_call_arguments.done"@ != "response.output_item.added"@,
        "response.function_call_arguments.done"@ != "response.output_item.done"@,
        "response.completed"@ != "response.output_item.added"@,
        "response.completed"@ != "response.output_item.done"@,
{
    reveal_strlit("response.output_item.added");
    reveal_strlit("response.output_item.done");
    reveal_strlit("response.created");
    reveal_strlit("response.in_progress");
    reveal_strlit("response.content_part.added");
    reveal_strlit("response.output_text.delta");
    reveal_strlit("response.output_text.done");
    reveal_strlit("response.content_part.done");
    reveal_strlit("response.function_call_arguments.delta");
    reveal_strlit("response.function_call_arguments.done");
    reveal_strlit("response.completed");
    assert("response.output_item.added"@.len() == 26);
    assert("response.output_item.done"@.len() == 25);
    assert("response.created"@.len() == 16);
    assert("response.in_progress"@.len() == 20);
    assert("response.content_part.added"@.len() == 27);
    assert("response.output_text.delta"@.len() == 26);
    assert("response.output_text.done"@.len() == 25);
    assert("response.content_part.done"@.len() == 26);
    assert("response.function_call_arguments.delta"@.len() == 38);
    assert("response.function_call_arguments.done"@.len() == 37);
    assert("response.completed"@.len() == 18);
    assert("response.output_item.added"@[16] == 'i');
    assert("response.output_item.done"@[16] == 'i');
    assert("response.output_text.delta"@[16] == 't');
    assert("response.output_text.done"@[16] == 't');
    assert("response.content_part.done"@[9] == 'c');
    assert("response.output_item.added"@[9] == 'o');
}

proof fn lemma_keys()
    ensures
        "type"@ != "output_index"@,
        "item"@ != "output_index"@,
        "type"@ != "item"@,
        "item_id"@ != "output_index"@,
        "response"@ != "output_index"@,
{
    reveal_strlit("type");
    reveal_strlit("output_index");
    reveal_strlit("item");
    reveal_strlit("item_id");
    reveal_strlit("response");
    assert("type"@.len() == 4);
    assert("output_index"@.len() == 12);
    assert("item"@.len() == 4);
    assert("item_id"@.len() == 7);
    assert("response"@.len() == 8);
    assert("type"@[0] == 't' && "item"@[0] == 'i');
}

proof fn lemma_item_event(name: Seq<char>, index: nat, item: Tree)
    ensures
        place_of(item_event(name, index, item)) == Some(Tree::Number(index as u64)),
        item_event(name, index, item).1.get("item"@) == Some(item),
        item_event(name, index, item).0 == name,
{
    lemma_keys();
    let f = item_event(name, index, item).1.fields();
    assert(f.len() == 3);
    assert(f[0].0 == "type"@ && f[1].0 == "output_index"@ && f[2].0 == "item"@);
    let g = f.drop_first();
    assert(g[0] == f[1]);
    let h = g.drop_first();
    assert(h[0] == f[2]);
    assert(lookup(f, "output_index"@) == lookup(g, "output_index"@));
    assert(lookup(f, "item"@) == lookup(g, "item"@));
    assert(lookup(g, "item"@) == lookup(h, "item"@));
}

proof fn lemma_part_event(name: Seq<char>, id: Seq<char>, field: Seq<char>, value: Tree)
    ensures
        place_of(part_event(name, id, field, value)) == Some(Tree::Number(0)),
{
    lemma_keys();
    let f = part_event(name, id, field, value).1.fields();
    assert(f[0].0 == "type"@ && f[1].0 == "item_id"@ && f[2].0 == "output_index"@);
    let g = f.drop_first();
    assert(g[0] == f[1]);
    let h = g.drop_first();
    assert(h[0] == f[2]);
    assert(lookup(f, "output_index"@) == lookup(g, "output_index"@));
    assert(lookup(g, "output_index"@) == lookup(h, "output_index"@));
}

proof fn lemma_arguments_event(
    name: Seq<char>,
    item_id: Seq<char>,
    index: nat,
    field: Seq<char>,
    arguments: Seq<char>,
)
    ensures
        place_of(arguments_event(name, item_id, index, field, arguments)) == Some(
            Tree::Number(index as u64),
        ),
{
    lemma_keys();
    let f = arguments_event(name, item_id, index, field, arguments).1.fields();
    assert(f[0].0 == "type"@ && f[1].0 == "item_id"@ && f[2].0 == "output_index"@);
    let g = f.drop_first();
    assert(g[0] == f[1]);
    let h = g.drop_first();
    assert(h[0] == f[2]);
    assert(lookup(f, "output_index"@) == lookup(g, "output_index"@));
    assert(lookup(g, "output_index"@) == lookup(h, "output_index"@));
}

/// An event about the whole response names no place.
proof fn lemma_no_place(name: Seq<char>, body: Tree)
    ensures
        Tree::record().with("type"@, Tree::Text(name)).with("response"@, body).get(
            "output_index"@,
        ) is None,
{
    lemma_keys();
    let f = Tree::record().with("type"@, Tree::Text(name)).with("response"@, body).fields();
    assert(f.len() == 2);
    assert(f[0].0 == "type"@ && f[1].0 == "response"@);
    let g = f.drop_first();
    assert(g[0] == f[1]);
    assert(lookup(f, "output_index"@) == lookup(g, "output_index"@));
    assert(g.drop_first() =~= seq![]);
    assert(lookup(g, "output_index"@) == lookup(g.drop_first(), "output_index"@));
}

/// Where the events of the calls begin.
spec fn calls_at(r: Reply) -> int {
    if r.text.len() > 0 {
        8
    } else {
        2
    }
}

spec fn first_call(r: Reply) -> nat {
    if r.text.len() > 0 {
        1
    } else {
        0
    }
}

/// What each event of a response is.
proof fn lemma_event(id: Seq<char>, model: Seq<char>, r: Reply, created: i64, n: int)
    requires
        0 <= n < response_events(id, model, r, created).len(),
    ensures
        ({
            let e = response_events(id, model, r, created);
            let at = calls_at(r);
            &&& e.len() == at + 4 * r.calls.len() + 1
            &&& n == 0 ==> e[n] == begun("response.created"@, id, model, created)
            &&& n == 1 ==> e[n] == begun("response.in_progress"@, id, model, created)
            &&& 2 <= n < at ==> e[n] == (text_opening(id).push(words_event(id, r.text))
                + text_closing(id, r.text))[n - 2]
            &&& at <= n < at + 4 * r.calls.len() ==> e[n] == function_call_events(
                id,
                ((n - at) / 4) as nat,
                first_call(r) + ((n - at) / 4) as nat,
                r.calls[(n - at) / 4],
            )[(n - at) % 4]
            &&& n == at + 4 * r.calls.len() ==> e[n] == completed(id, model, r, created)
        }),
{
    let e = response_events(id, model, r, created);
    let at = calls_at(r);
    let base = first_call(r);
    let all = all_function_calls(id, r.calls, base);
    lemma_function_calls_len(id, r.calls, base);
    let tail = response_tail(id, model, r, created, r.text.len() > 0);
    if at <= n < at + 4 * r.calls.len() {
        let i = (n - at) / 4;
        let m = (n - at) % 4;
        lemma_function_calls(id, r.calls, base, i);
        assert(all.subrange(4 * i, 4 * i + 4)[m] == all[4 * i + m]);
        assert(4 * i + m == n - at);
        assert(e[n] == all[n - at]);
    }
}

/// What an event says of the items, by where it stands.
proof fn lemma_places(id: Seq<char>, model: Seq<char>, r: Reply, created: i64, n: int, k: nat)
    requires
        0 <= n < response_events(id, model, r, created).len(),
        r.calls.len() < u64::MAX,
        k < output_items(id, r).len(),
        r.text.len() > 0 || r.calls.len() > 0,
    ensures
        ({
            let e = response_events(id, model, r, created);
            let at = calls_at(r);
            let i = if k < first_call(r) {
                2
            } else {
                at + 4 * (k - first_call(r))
            };
            let j = if k < first_call(r) {
                7
            } else {
                i + 3
            };
            &&& opens(e[n], k) <==> n == i
            &&& closes(e[n], k) <==> n == j
            &&& n == j ==> e[n].1.get("item"@) == Some(output_items(id, r)[k as int])
            &&& place_of(e[n]) matches Some(p) ==> is_place(p, output_items(id, r).len())
        }),
{
    let e = response_events(id, model, r, created);
    let at = calls_at(r);
    let base = first_call(r);
    let items = output_items(id, r);
    lemma_event(id, model, r, created, n);
    lemma_names();
    assert(items.len() == base + r.calls.len());
    if n < 2 {
        lemma_no_place(e[n].0, skeleton(id, model, created, "in_progress"@));
    } else if n < at {
        let t = text_opening(id).push(words_event(id, r.text)) + text_closing(id, r.text);
        assert(t[0] == text_opening(id)[0] && t[1] == text_opening(id)[1]);
        assert(t[2] == words_event(id, r.text));
        assert(t[3] == text_closing(id, r.text)[0] && t[4] == text_closing(id, r.text)[1] && t[5]
            == text_closing(id, r.text)[2]);
        lemma_item_event(
            "response.output_item.added"@,
            0,
            message_opened(id),
        );
        lemma_item_event(
            "response.output_item.done"@,
            0,
            message_item(id, r.text),
        );
        lemma_part_event(
            "response.content_part.added"@,
            id,
            "part"@,
            text_part(""@),
        );
        lemma_part_event("response.output_text.delta"@, id, "delta"@, Tree::Text(r.text));
        lemma_part_event("response.output_text.done"@, id, "text"@, Tree::Text(r.text));
        lemma_part_event(
            "response.content_part.done"@,
            id,
            "part"@,
            text_part(r.text),
        );
        assert(place_of(e[n]) == Some(Tree::Number(0)));
        assert(items[0] == message_item(id, r.text));
    } else if n < at + 4 * r.calls.len() {
        let i = (n - at) / 4;
        let m = (n - at) % 4;
        let c = r.calls[i];
        let place = (base + i) as nat;
        let fid = function_id(id, i as nat);
        lemma_item_event(
            "response.output_item.added"@,
            place,
            function_item(id, i as nat, c, ""@, "in_progress"@),
        );
        lemma_item_event(
            "response.output_item.done"@,
            place,
            function_item(id, i as nat, c, c.arguments, "completed"@),
        );
        lemma_arguments_event(
            "response.function_call_arguments.delta"@,
            fid,
            place,
            "delta"@,
            c.arguments,
        );
        lemma_arguments_event(
            "response.function_call_arguments.done"@,
            fid,
            place,
            "arguments"@,
            c.arguments,
        );
        assert(place_of(e[n]) == Some(Tree::Number(place as u64)));
        assert(place < items.len());
        assert(place as u64 == k as u64 <==> place == k);
        assert(items[place as int] == function_item(
            id,
            i as nat,
            c,
            c.arguments,
            "completed"@,
        ));
    } else {
        lemma_no_place(e[n].0, response_body(id, model, r, created));
    }
}

/// Every item of the finished response is opened by one event of the stream
/// and later closed by one, which gives the item as it stands in the finished
/// response. No event is about an item that is not there.
pub proof fn law_each_item_is_opened_and_closed_once(
    id: Seq<char>,
    model: Seq<char>,
    r: Reply,
    created: i64,
)
    requires
        r.text.len() > 0 || r.calls.len() > 0,
        r.calls.len() < u64::MAX,
    ensures
        forall|k: nat|
            k < output_items(id, r).len() ==> #[trigger] comes_and_goes(
                response_events(id, model, r, created),
                k,
                output_items(id, r)[k as int],
            ),
        names_only_items(response_events(id, model, r, created), output_items(id, r).len()),
        response_events(id, model, r, created).last() == completed(id, model, r, created),
{
    let e = response_events(id, model, r, created);
    let items = output_items(id, r);
    lemma_event(id, model, r, created, 0);
    lemma_event(id, model, r, created, e.len() - 1);
    let at = calls_at(r);
    let base = first_call(r);
    assert(items.len() == base + r.calls.len());
    assert forall|k: nat| k < items.len() implies #[trigger] comes_and_goes(
        e,
        k,
        items[k as int],
    ) by {
        let i = if k < base {
            2
        } else {
            at + 4 * (k - base)
        };
        let j = if k < base {
            7
        } else {
            i + 3
        };
        assert(0 <= i < j < e.len());
        lemma_places(id, model, r, created, i, k);
        lemma_places(id, model, r, created, j, k);
        assert forall|n: int| 0 <= n < e.len() && opens(#[trigger] e[n], k) implies n == i by {
            lemma_places(id, model, r, created, n, k);
        }
        assert forall|n: int| 0 <= n < e.len() && closes(#[trigger] e[n], k) implies n == j by {
            lemma_places(id, model, r, created, n, k);
        }
        assert(opened_and_closed(e, k, items[k as int], i, j));
    }
    assert forall|n: int| 0 <= n < e.len() implies match place_of(#[trigger] e[n]) {
        Some(p) => is_place(p, items.len()),
        None => true,
    } by {
        lemma_places(id, model, r, created, n, 0);
    }
    assert(names_only_items(e, items.len()));
}

proof fn lemma_words_name()
    ensures
        "response.created"@ != "response.output_text.delta"@,
        "response.in_progress"@ != "response.output_text.delta"@,
        "response.output_item.added"@ != "response.output_text.delta"@,
        "response.content_part.added"@ != "response.output_text.delta"@,
        "response.function_call_arguments.delta"@ != "response.output_text.delta"@,
        "response.function_call_arguments.done"@ != "response.output_text.delta"@,
        "response.output_item.done"@ != "response.output_text.delta"@,
        "response.completed"@ != "response.output_text.delta"@,
{
    reveal_strlit("response.created");
    reveal_strlit("response.in_progress");
    reveal_strlit("response.output_item.added");
    reveal_strlit("response.content_part.added");
    reveal_strlit("response.function_call_arguments.delta");
    reveal_strlit("response.function_call_arguments.done");
    reveal_strlit("response.output_item.done");
    reveal_strlit("response.completed");
    reveal_strlit("response.output_text.delta");
    assert("response.output_text.delta"@.len() == 26);
    assert("response.created"@.len() == 16);
    assert("response.in_progress"@.len() == 20);
    assert("response.output_item.added"@.len() == 26);
    assert("response.content_part.added"@.len() == 27);
    assert("response.function_call_arguments.delta"@.len() == 38);
    assert("response.function_call_arguments.done"@.len() == 37);
    assert("response.output_item.done"@.len() == 25);
    assert("response.completed"@.len() == 18);
    assert("response.output_item.added"@[16] == 'i');
    assert("response.output_text.delta"@[16] == 't');
}

/// No words are streamed before the part they belong to was added.
pub proof fn law_words_follow_their_part(
    id: Seq<char>,
    model: Seq<char>,
    r: Reply,
    created: i64,
    n: int,
)
    requires
        0 <= n < response_events(id, model, r, created).len(),
        response_events(id, model, r, created)[n].0 == "response.output_text.delta"@,
    ensures
        exists|m: int|
            0 <= m < n && (#[trigger] response_events(id, model, r, created)[m]).0
                == "response.content_part.added"@,
{
    let e = response_events(id, model, r, created);
    let at = calls_at(r);
    lemma_event(id, model, r, created, n);
    lemma_words_name();
    if n >= 4 && r.text.len() > 0 {
        lemma_event(id, model, r, created, 3);
        let t = text_opening(id).push(words_event(id, r.text)) + text_closing(id, r.text);
        assert(t[1] == text_opening(id)[1]);
        assert(e[3] == t[1]);
        assert(e[3].0 == "response.content_part.added"@);
    } else if 2 <= n < at {
        let t = text_opening(id).push(words_event(id, r.text)) + text_closing(id, r.text);
        assert(t[0] == text_opening(id)[0] && t[1] == text_opening(id)[1]);
    } else if at <= n < at + 4 * r.calls.len() {
        let i = (n - at) / 4;
        let m = (n - at) % 4;
        assert(0 <= m < 4);
    }
}

/// The last event gives the whole response, with the items that were streamed.
pub proof fn law_the_last_event_is_the_response(
    id: Seq<char>,
    model: Seq<char>,
    r: Reply,
    created: i64,
)
    ensures
        ({
            let last = response_events(id, model, r, created).last();
            let whole = response_body(id, model, r, created);
            &&& last.0 == "response.completed"@
            &&& last.1.get("response"@) == Some(whole)
            &&& whole.get("output"@) == Some(Tree::List(output_items(id, r)))
        }),
{
    let e = response_events(id, model, r, created);
    let whole = response_body(id, model, r, created);
    lemma_event(id, model, r, created, e.len() - 1);
    reveal_strlit("type");
    reveal_strlit("response");
    assert("type"@.len() == 4 && "response"@.len() == 8);
    let name = Tree::Text("response.completed"@);
    lemma_with(Tree::record(), "type"@, name, "response"@);
    lemma_with(Tree::record().with("type"@, name), "response"@, whole, "response"@);
    reveal_strlit("id");
    reveal_strlit("object");
    reveal_strlit("created_at");
    reveal_strlit("status");
    reveal_strlit("model");
    reveal_strlit("output");
    assert("id"@.len() == 2 && "object"@.len() == 6 && "created_at"@.len() == 10);
    assert("status"@.len() == 6 && "model"@.len() == 5 && "output"@.len() == 6);
    assert("object"@[1] == 'b' && "output"@[1] == 'u' && "status"@[0] == 's');
    assert("output"@[0] == 'o');
    let o = "output"@;
    let t0 = Tree::record();
    let t1 = t0.with("id"@, Tree::Text(id));
    let t2 = t1.with("object"@, Tree::Text("response"@));
    let t3 = t2.with("created_at"@, Tree::integer(created));
    let t4 = t3.with("status"@, Tree::Text(r.status()));
    let t5 = t4.with("model"@, Tree::Text(model));
    let t6 = t5.with(o, Tree::List(output_items(id, r)));
    let t7 = t6.with("output_text"@, Tree::Text(r.text));
    lemma_with(t0, "id"@, Tree::Text(id), o);
    lemma_with(t1, "object"@, Tree::Text("response"@), o);
    lemma_with(t2, "created_at"@, Tree::integer(created), o);
    lemma_with(t3, "status"@, Tree::Text(r.status()), o);
    lemma_with(t4, "model"@, Tree::Text(model), o);
    lemma_with(t5, o, Tree::List(output_items(id, r)), o);
    lemma_with(t6, "output_text"@, Tree::Text(r.text), o);
    lemma_with(t7, "usage"@, r.usage.responses(), o);
}

} // verus!
