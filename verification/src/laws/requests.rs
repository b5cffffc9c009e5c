//! What a request in a client's own shape becomes, field by field.
use vstd::prelude::*;

use crate::gateway::inbound::{
    all_pictures, all_tools, all_words, any_asks, any_not_system, blocks_of, chat_ask, flat, folded,
    item_turns, late_systems_folded, lemma_opening, openai_turn, openai_turns, opening, resplit,
    resplit_all, system_turn, turn_calls,
    turn_results, turn_words, wrapped, AnthropicMessage, AnthropicRequest, OpenAiMessage, OpenAiRequest,
    ResponsesRequest, Shape,
};
use crate::json::{json_written, trees, Tree};
use crate::protocol::{opt, Ask, Call, Turn};
use crate::text::{blank, contains, ends_with, joined, starts_with, trimmed};

verus! {

broadcast use vstd::string::group_string_axioms;

/// The text a field of a record holds, where it holds one.
pub open spec fn words_at(t: Tree, field: Seq<char>) -> Option<Seq<char>> {
    match t.get(field) {
        Some(Tree::Text(s)) => Some(s),
        _ => None,
    }
}

/// A sequence with one more at its end.
pub open spec fn one_more<T>(before: Seq<T>, after: Seq<T>, item: T) -> bool {
    after == before.push(item)
}

// ------------------------------------------------------- what is asked for

/// The model, the ceiling and the temperature go through as the client named
/// them; a client that names no ceiling gets 16384 tokens, and one that names
/// no temperature the coldest.
pub proof fn law_what_is_asked_for_goes_through(
    shape: Shape,
    model: Seq<char>,
    ts: Seq<Turn>,
    offered: Seq<Tree>,
    ceiling: Option<u32>,
    temperature: Option<u32>,
)
    ensures
        ({
            let a = chat_ask(shape, model, ts, offered, ceiling, temperature);
            &&& a.model_id == Some(model)
            &&& a.model_hash is None
            &&& ceiling matches Some(n) ==> a.max_tokens == n
            &&& ceiling is None ==> a.max_tokens == 16384
            &&& temperature matches Some(t) ==> a.temperature == t
            &&& temperature is None ==> a.temperature == 0
        }),
{
}

/// Either name of the ceiling counts, the older one first.
pub proof fn law_either_name_of_the_ceiling_counts(r: OpenAiRequest)
    ensures
        r.max_tokens is Some ==> r.ceiling() == r.max_tokens,
        r.max_tokens is None ==> r.ceiling() == r.max_completion_tokens,
{
}

// ------------------------------------------------------------------- tools

/// A tool that Anthropic's shape describes with a name and an object as its
/// schema is passed on as it came: the name, the description and the schema.
/// Any other is left out. Nothing else changes.
pub proof fn law_anthropic_tools_are_passed_on(
    a: Ask,
    b: Ask,
    model: Seq<char>,
    ts: Seq<Turn>,
    offered: Seq<Tree>,
    t: Tree,
    ceiling: Option<u32>,
    temperature: Option<u32>,
)
    requires
        a == chat_ask(Shape::Anthropic, model, ts, offered, ceiling, temperature),
        b == chat_ask(Shape::Anthropic, model, ts, offered.push(t), ceiling, temperature),
    ensures
        b.messages == a.messages,
        match (t.get("name"@), t.get("input_schema"@)) {
            (Some(Tree::Text(name)), Some(Tree::Record(fields))) => {
                &&& b.tools.len() == a.tools.len() + 1
                &&& b.tools.drop_last() == a.tools
                &&& b.tools.last().name == name
                &&& b.tools.last().description == words_at(t, "description"@)
                &&& b.tools.last().schema == Tree::Record(fields)
            },
            _ => b.tools == a.tools,
        },
{
    assert(offered.push(t).drop_last() =~= offered);
    let rest = all_tools(Shape::Anthropic, offered);
    assert(rest.push(b.tools.last()).drop_last() =~= rest);
}

/// The same in OpenAI's shape, where what describes the tool stands one field
/// down; a tool without parameters takes any object.
pub proof fn law_openai_tools_are_passed_on(
    a: Ask,
    b: Ask,
    model: Seq<char>,
    ts: Seq<Turn>,
    offered: Seq<Tree>,
    t: Tree,
    ceiling: Option<u32>,
    temperature: Option<u32>,
)
    requires
        a == chat_ask(Shape::OpenAi, model, ts, offered, ceiling, temperature),
        b == chat_ask(Shape::OpenAi, model, ts, offered.push(t), ceiling, temperature),
    ensures
        b.messages == a.messages,
        match t.get("function"@) {
            Some(f) => match f.get("name"@) {
                Some(Tree::Text(name)) => {
                    &&& b.tools.len() == a.tools.len() + 1
                    &&& b.tools.drop_last() == a.tools
                    &&& b.tools.last().name == name
                    &&& b.tools.last().description == words_at(f, "description"@)
                    &&& f.get("parameters"@) matches Some(p) ==> b.tools.last().schema == p
                    &&& f.get("parameters"@) is None ==> b.tools.last().schema == Tree::Record(
                        seq![("type"@, Tree::Text("object"@))],
                    )
                },
                _ => b.tools == a.tools,
            },
            None => b.tools == a.tools,
        },
{
    assert(offered.push(t).drop_last() =~= offered);
    let rest = all_tools(Shape::OpenAi, offered);
    assert(rest.push(b.tools.last()).drop_last() =~= rest);
    assert(Seq::<(Seq<char>, Tree)>::empty().push(("type"@, Tree::Text("object"@))) =~= seq![
        ("type"@, Tree::Text("object"@)),
    ]);
}

/// The same in the shape of Responses, where only functions are passed on.
pub proof fn law_responses_tools_are_passed_on(
    a: Ask,
    b: Ask,
    model: Seq<char>,
    ts: Seq<Turn>,
    offered: Seq<Tree>,
    t: Tree,
    ceiling: Option<u32>,
    temperature: Option<u32>,
)
    requires
        a == chat_ask(Shape::Responses, model, ts, offered, ceiling, temperature),
        b == chat_ask(Shape::Responses, model, ts, offered.push(t), ceiling, temperature),
    ensures
        b.messages == a.messages,
        match (t.get("type"@), t.get("name"@)) {
            (Some(Tree::Text(kind)), Some(Tree::Text(name))) if kind == "function"@ => {
                &&& b.tools.len() == a.tools.len() + 1
                &&& b.tools.drop_last() == a.tools
                &&& b.tools.last().name == name
                &&& b.tools.last().description == words_at(t, "description"@)
                &&& t.get("parameters"@) matches Some(p) ==> b.tools.last().schema == p
                &&& t.get("parameters"@) is None ==> b.tools.last().schema == Tree::Record(
                    seq![("type"@, Tree::Text("object"@))],
                )
            },
            _ => b.tools == a.tools,
        },
{
    assert(offered.push(t).drop_last() =~= offered);
    let rest = all_tools(Shape::Responses, offered);
    assert(rest.push(b.tools.last()).drop_last() =~= rest);
    assert(Seq::<(Seq<char>, Tree)>::empty().push(("type"@, Tree::Text("object"@))) =~= seq![
        ("type"@, Tree::Text("object"@)),
    ]);
}

/// No tool is offered that the client did not offer.
pub proof fn law_no_tools_without_tools(
    shape: Shape,
    model: Seq<char>,
    ts: Seq<Turn>,
    ceiling: Option<u32>,
    temperature: Option<u32>,
)
    ensures
        chat_ask(shape, model, ts, seq![], ceiling, temperature).tools.len() == 0,
{
}

// ----------------------------------------------------------------- content

/// Content that is a text is that text; nothing is no words; a list is the
/// words of its blocks with a blank line between.
pub proof fn law_content_reads_as_its_words(s: Seq<char>, blocks: Seq<Tree>, b: Tree, spelled: bool)
    ensures
        flat(Tree::Text(s), spelled) == s,
        flat(Tree::Null, spelled).len() == 0,
        flat(Tree::List(seq![]), spelled).len() == 0,
        ({
            let before = flat(Tree::List(blocks), spelled);
            let after = flat(Tree::List(blocks.push(b)), spelled);
            let words = match b {
                Tree::Text(t) => Some(t),
                _ => match (b.get("type"@), b.get("text"@)) {
                    (Some(Tree::Text(kind)), Some(Tree::Text(t))) if kind == "text"@ || (spelled
                        && (kind == "input_text"@ || kind == "output_text"@)) => Some(t),
                    _ => None,
                },
            };
            match words {
                Some(t) if t.len() > 0 => after == (if before.len() == 0 {
                    t
                } else {
                    before + "\n\n"@ + t
                }),
                _ => after == before,
            }
        }),
{
    assert(blocks.push(b).drop_last() =~= blocks);
    let rest = all_words(blocks, spelled);
    lemma_words_not_empty(blocks, spelled);
    lemma_joined_empty(rest, "\n\n"@);
    let all = all_words(blocks.push(b), spelled);
    if all.len() > rest.len() {
        assert(all.drop_last() =~= rest);
        if rest.len() == 0 {
            assert(rest =~= seq![]);
            assert(all.len() == 1);
        }
    }
}

proof fn lemma_words_not_empty(blocks: Seq<Tree>, spelled: bool)
    ensures
        forall|i: int|
            0 <= i < all_words(blocks, spelled).len() ==> (#[trigger] all_words(
                blocks,
                spelled,
            )[i]).len() > 0,
    decreases blocks.len(),
{
    if blocks.len() > 0 {
        lemma_words_not_empty(blocks.drop_last(), spelled);
        let rest = all_words(blocks.drop_last(), spelled);
        let all = all_words(blocks, spelled);
        assert forall|i: int| 0 <= i < all.len() implies (#[trigger] all[i]).len() > 0 by {
            if i < rest.len() {
                assert(all[i] == rest[i]);
            }
        }
    }
}

proof fn lemma_joined_empty(parts: Seq<Seq<char>>, sep: Seq<char>)
    requires
        forall|i: int| 0 <= i < parts.len() ==> (#[trigger] parts[i]).len() > 0,
    ensures
        joined(parts, sep).len() == 0 <==> parts.len() == 0,
{
    if parts.len() == 1 {
        assert(parts[0].len() > 0);
    } else if parts.len() > 1 {
        assert(parts[parts.len() - 1].len() > 0);
    }
}

/// Every picture that carries its bytes is handed on, in order, as a `data:`
/// URL; a link is not.
pub proof fn law_pictures_are_handed_on(blocks: Seq<Tree>, b: Tree)
    ensures
        ({
            let before = all_pictures(blocks, false);
            let after = all_pictures(blocks.push(b), false);
            match b.get("type"@) {
                Some(Tree::Text(kind)) if kind == "image"@ => match b.get("source"@) {
                    None => after == before,
                    Some(source) => match (source.get("type"@), source.get("data"@)) {
                        (Some(Tree::Text(how)), Some(Tree::Text(data))) if how == "base64"@ => {
                            let media = match source.get("media_type"@) {
                                Some(Tree::Text(m)) => m,
                                _ => "image/png"@,
                            };
                            one_more(before, after, "data:"@ + media + ";base64,"@ + data)
                        },
                        (Some(Tree::Text(how)), _) if how == "base64"@ => after == before,
                        _ => match source.get("url"@) {
                            Some(Tree::Text(u)) if u.len() >= 5 && u.take(5) == "data:"@ =>
                                one_more(before, after, u),
                            _ => after == before,
                        },
                    },
                },
                Some(Tree::Text(kind)) if kind == "image_url"@ => match b.get("image_url"@) {
                    Some(at) => match at.get("url"@) {
                        Some(Tree::Text(u)) if u.len() >= 5 && u.take(5) == "data:"@ => one_more(
                            before,
                            after,
                            u,
                        ),
                        _ => after == before,
                    },
                    None => after == before,
                },
                _ => after == before,
            }
        }),
{
    reveal_strlit("data:");
    assert("data:"@.len() == 5);
    assert(blocks.push(b).drop_last() =~= blocks);
}

/// The same in the shape of Responses, whose URL is not nested.
pub proof fn law_responses_pictures_are_handed_on(blocks: Seq<Tree>, b: Tree)
    ensures
        ({
            let before = all_pictures(blocks, true);
            let after = all_pictures(blocks.push(b), true);
            match (b.get("type"@), b.get("image_url"@)) {
                (Some(Tree::Text(kind)), Some(Tree::Text(u))) if kind == "input_image"@ && u.len()
                    >= 5 && u.take(5) == "data:"@ => one_more(before, after, u),
                _ => after == before,
            }
        }),
{
    reveal_strlit("data:");
    assert("data:"@.len() == 5);
    assert(blocks.push(b).drop_last() =~= blocks);
}

// --------------------------------------------------------- anthropic's turns

/// The kind of a block; one that names none is of words.
pub open spec fn kind_of(b: Tree) -> Seq<char> {
    match b.get("type"@) {
        Some(Tree::Text(k)) => k,
        _ => "text"@,
    }
}

/// Each block adds what it holds and nothing else: a text block its words, a
/// `tool_use` block a call with its id, its name and its input as JSON text, a
/// `tool_result` block a message of role `tool` that names the call it answers.
pub proof fn law_each_block_adds_what_it_holds(blocks: Seq<Tree>, b: Tree)
    ensures
        match b.get("text"@) {
            Some(Tree::Text(t)) if kind_of(b) == "text"@ && t.len() > 0 => one_more(
                turn_words(blocks),
                turn_words(blocks.push(b)),
                t,
            ),
            _ => turn_words(blocks.push(b)) == turn_words(blocks),
        },
        if kind_of(b) == "tool_use"@ {
            let before = turn_calls(blocks);
            let after = turn_calls(blocks.push(b));
            &&& after.len() == before.len() + 1
            &&& after.drop_last() == before
            &&& b.get("id"@) matches Some(Tree::Text(id)) ==> after.last().id == id
            &&& b.get("name"@) matches Some(Tree::Text(name)) ==> after.last().name == name
            &&& b.get("input"@) matches Some(input) ==> after.last().arguments == json_written(
                input,
            )
            &&& b.get("input"@) is None ==> after.last().arguments == "{}"@
            &&& words_at(b, "id"@) is None ==> after.last().id.len() == 0
            &&& words_at(b, "name"@) is None ==> after.last().name == "tool"@
        } else {
            turn_calls(blocks.push(b)) == turn_calls(blocks)
        },
        if kind_of(b) == "tool_result"@ {
            let before = turn_results(blocks);
            let after = turn_results(blocks.push(b));
            &&& after.len() == before.len() + 1
            &&& after.drop_last() == before
            &&& after.last().role == "tool"@
            &&& after.last().call_id == words_at(b, "tool_use_id"@)
            &&& after.last().calls.len() == 0 && after.last().images.len() == 0
            &&& b.get("content"@) matches Some(c) ==> after.last().content == flat(c, false)
            &&& b.get("content"@) is None ==> after.last().content.len() == 0
        } else {
            turn_results(blocks.push(b)) == turn_results(blocks)
        },
        turn_words(seq![]).len() == 0 && turn_calls(seq![]).len() == 0 && turn_results(
            seq![],
        ).len() == 0,
{
    assert(blocks.push(b).drop_last() =~= blocks);
    assert(turn_calls(blocks.push(b)).drop_last() =~= turn_calls(blocks) || kind_of(b)
        != "tool_use"@);
    assert(turn_results(blocks.push(b)).drop_last() =~= turn_results(blocks) || kind_of(b)
        != "tool_result"@);
}

/// A turn that is a text is one message of that role with that text. A turn of
/// blocks is its tool results, each a message, and after them one message of
/// that role with its words, its calls and its pictures, where it has any.
pub proof fn law_a_turn_is_split_by_who_speaks(role: Seq<char>, s: Seq<char>, blocks: Seq<Tree>)
    ensures
        s.len() > 0 ==> {
            let r = resplit(role, Tree::Text(s));
            &&& r.len() == 1
            &&& r[0].role == role && r[0].content == s
            &&& r[0].calls.len() == 0 && r[0].images.len() == 0 && r[0].call_id is None
        },
        s.len() == 0 ==> resplit(role, Tree::Text(s)).len() == 0,
        ({
            let r = resplit(role, Tree::List(blocks));
            let words = turn_words(blocks);
            let n = turn_results(blocks).len() as int;
            let own = words.len() > 0 || turn_calls(blocks).len() > 0 || all_pictures(
                blocks,
                false,
            ).len() > 0;
            &&& r.take(n) == turn_results(blocks)
            &&& own ==> {
                &&& r.len() == n + 1
                &&& r[n].role == role
                &&& r[n].calls == turn_calls(blocks)
                &&& r[n].images == all_pictures(blocks, false)
                &&& r[n].call_id is None
                &&& words.len() == 0 ==> r[n].content.len() == 0
                &&& words.len() == 1 ==> r[n].content == words[0]
                &&& words.len() > 1 ==> r[n].content == joined(words.drop_last(), "\n\n"@)
                    + "\n\n"@ + words.last()
            }
            &&& !own ==> r.len() == n
        }),
{
    reveal_strlit("text");
    reveal_strlit("type");
    reveal_strlit("tool_use");
    reveal_strlit("tool_result");
    assert("text"@.len() == 4 && "tool_use"@.len() == 8 && "tool_result"@.len() == 11);
    assert("type"@.len() == 4 && "type"@[1] == 'y' && "text"@[1] == 'e');
    let b = Tree::record().with("type"@, Tree::Text("text"@)).with("text"@, Tree::Text(s));
    lemma_text_block(s);
    let none = Seq::<Tree>::empty();
    law_each_block_adds_what_it_holds(none, b);
    assert(blocks_of(Tree::Text(s)) =~= none.push(b));
    assert(turn_words(none) =~= seq![]);
    assert(turn_results(none) =~= seq![]);
    if s.len() > 0 {
        assert(turn_words(none.push(b)) =~= seq![s]);
        assert(joined(seq![s], "\n\n"@) == s);
    } else {
        assert(joined(turn_words(none.push(b)), "\n\n"@) =~= seq![]);
    }
    let r = resplit(role, Tree::List(blocks));
    let words = turn_words(blocks);
    lemma_turn_words_not_empty(blocks);
    lemma_joined_empty(words, "\n\n"@);
    assert(r.take(turn_results(blocks).len() as int) =~= turn_results(blocks));
}

proof fn lemma_text_block(s: Seq<char>)
    ensures
        ({
            let b = Tree::record().with("type"@, Tree::Text("text"@)).with("text"@, Tree::Text(s));
            &&& b.get("type"@) == Some(Tree::Text("text"@))
            &&& b.get("text"@) == Some(Tree::Text(s))
        }),
{
    reveal_strlit("text");
    reveal_strlit("type");
    assert("type"@.len() == 4 && "type"@[1] == 'y' && "text"@[1] == 'e');
    let t = Tree::record().with("type"@, Tree::Text("text"@));
    crate::json::lemma_with(Tree::record(), "type"@, Tree::Text("text"@), "type"@);
    crate::json::lemma_with(Tree::record(), "type"@, Tree::Text("text"@), "text"@);
    crate::json::lemma_with(t, "text"@, Tree::Text(s), "type"@);
    crate::json::lemma_with(t, "text"@, Tree::Text(s), "text"@);
}

proof fn lemma_turn_words_not_empty(blocks: Seq<Tree>)
    ensures
        forall|i: int|
            0 <= i < turn_words(blocks).len() ==> (#[trigger] turn_words(blocks)[i]).len() > 0,
    decreases blocks.len(),
{
    if blocks.len() > 0 {
        lemma_turn_words_not_empty(blocks.drop_last());
        let rest = turn_words(blocks.drop_last());
        let all = turn_words(blocks);
        assert forall|i: int| 0 <= i < all.len() implies (#[trigger] all[i]).len() > 0 by {
            if i < rest.len() {
                assert(all[i] == rest[i]);
            }
        }
    }
}

/// A conversation is its system prompt, where that says anything, and then
/// its turns one after the other.
pub proof fn law_a_conversation_is_its_turns(
    r: AnthropicRequest,
    ms: Seq<AnthropicMessage>,
    m: AnthropicMessage,
    prompt: Seq<char>,
)
    ensures
        resplit_all(ms.push(m)) == resplit_all(ms) + resplit(m.role@, m.content@),
        resplit_all(seq![]).len() == 0,
        !blank(prompt) ==> {
            let s = system_turn(Some(prompt));
            &&& s.len() == 1 && s[0].role == "system"@ && s[0].content == prompt
            &&& s[0].calls.len() == 0 && s[0].images.len() == 0 && s[0].call_id is None
        },
        blank(prompt) ==> system_turn(Some(prompt)).len() == 0,
        system_turn(None).len() == 0,
        r.system is None ==> r.conversation() == resplit_all(r.messages@),
        r.system matches Some(s) ==> {
            let n = r.conversation().len() - resplit_all(r.messages@).len();
            &&& r.conversation().skip(n) == resplit_all(r.messages@)
            &&& n == (if blank(flat(s@, false)) {
                0int
            } else {
                1int
            })
            &&& n == 1 ==> r.conversation()[0].role == "system"@ && r.conversation()[0].content
                == flat(s@, false)
        },
{
    assert(ms.push(m).drop_last() =~= ms);
    let all = resplit_all(r.messages@);
    assert(Seq::<Turn>::empty() + all =~= all);
    if r.system is Some {
        let first = system_turn(Some(flat(r.system->0@, false)));
        assert((first + all).skip(first.len() as int) =~= all);
    }
}

/// A request in which somebody other than the system says or calls anything is
/// taken up; where nobody does it is refused.
pub proof fn law_who_says_something_is_heard(ts: Seq<Turn>)
    ensures
        any_asks(ts) <==> exists|i: int|
            0 <= i < ts.len() && (#[trigger] ts[i]).role != "system"@ && (!blank(ts[i].content)
                || ts[i].calls.len() > 0),
        any_not_system(ts) <==> exists|i: int|
            0 <= i < ts.len() && (#[trigger] ts[i]).role != "system"@,
{
    if any_asks(ts) {
        let i = choose|i: int| 0 <= i < ts.len() && crate::gateway::inbound::asks(#[trigger] ts[i]);
        assert(ts[i].role != "system"@);
    }
    if exists|i: int|
        0 <= i < ts.len() && (#[trigger] ts[i]).role != "system"@ && (!blank(ts[i].content)
            || ts[i].calls.len() > 0) {
        let i = choose|i: int|
            0 <= i < ts.len() && (#[trigger] ts[i]).role != "system"@ && (!blank(ts[i].content)
                || ts[i].calls.len() > 0);
        assert(crate::gateway::inbound::asks(ts[i]));
    }
}

// ------------------------------------------------------------ openai's turns

/// A message in OpenAI's shape is one turn: its role, its words, its pictures,
/// the call it answers, and its own calls, each with its id, its name and its
/// arguments as they were written. One that neither says nor calls anything is
/// left out.
pub proof fn law_an_openai_message_is_one_turn(ms: Seq<OpenAiMessage>, m: OpenAiMessage)
    ensures
        openai_turns(seq![]).len() == 0,
        ({
            let before = openai_turns(ms);
            let after = openai_turns(ms.push(m));
            let words = flat(m.content@, false);
            if blank(words) && m.tool_calls@.len() == 0 {
                after == before
            } else {
                let t = after.last();
                &&& after.len() == before.len() + 1
                &&& after.drop_last() == before
                &&& t.role == m.role@
                &&& t.content == words
                &&& t.call_id == opt(m.tool_call_id)
                &&& m.content@ matches Tree::List(bs) ==> t.images == all_pictures(bs, false)
                &&& !(m.content@ is List) ==> t.images.len() == 0
                &&& t.calls.len() == m.tool_calls@.len()
                &&& forall|k: int|
                    0 <= k < t.calls.len() ==> call_reads(#[trigger] t.calls[k], m.tool_calls@[k]@)
            }
        }),
{
    assert(ms.push(m).drop_last() =~= ms);
    let t = openai_turn(m);
    assert(openai_turns(ms).push(t).drop_last() =~= openai_turns(ms));
    assert forall|k: int| 0 <= k < t.calls.len() implies call_reads(
        #[trigger] t.calls[k],
        m.tool_calls@[k]@,
    ) by {
        assert(trees(m.tool_calls@)[k] == m.tool_calls@[k]@);
    }
}

/// A call says what OpenAI's shape wrote of it.
pub open spec fn call_reads(c: Call, t: Tree) -> bool {
    &&& t.get("id"@) matches Some(Tree::Text(id)) ==> c.id == id
    &&& t.get("function"@) matches Some(f) ==> {
        &&& f.get("name"@) matches Some(Tree::Text(name)) ==> c.name == name
        &&& f.get("arguments"@) matches Some(Tree::Text(args)) ==> c.arguments == args
    }
}

// --------------------------------------------------------- responses' items

/// An input item in the shape of Responses is one turn: a message, a call, or
/// what a call put out. A message of role `developer` is the system's, an item
/// without a type is a message, one without a role is the user's, and an item
/// of another type is none.
pub proof fn law_an_input_item_is_one_turn(items: Seq<Tree>, item: Tree)
    ensures
        item_turns(seq![]).len() == 0,
        ({
            let before = item_turns(items);
            let after = item_turns(items.push(item));
            let kind = words_at(item, "type"@);
            let content = match item.get("content"@) {
                Some(c) => c,
                None => Tree::Null,
            };
            let t = after.last();
            if kind is None || kind == Some("message"@) {
                if flat(content, true).len() == 0 && all_pictures(content.items(), true).len()
                    == 0 {
                    after == before
                } else {
                    &&& after.len() == before.len() + 1 && after.drop_last() == before
                    &&& t.content == flat(content, true)
                    &&& t.images == all_pictures(content.items(), true)
                    &&& t.calls.len() == 0 && t.call_id is None
                    &&& words_at(item, "role"@) is None ==> t.role == "user"@
                    &&& words_at(item, "role"@) == Some("developer"@) ==> t.role == "system"@
                    &&& words_at(item, "role"@) matches Some(role) ==> role != "developer"@
                        ==> t.role == role
                }
            } else if kind == Some("function_call"@) {
                &&& after.len() == before.len() + 1 && after.drop_last() == before
                &&& t.role == "assistant"@ && t.content.len() == 0 && t.images.len() == 0
                &&& t.call_id is None && t.calls.len() == 1
                &&& item.get("call_id"@) matches Some(Tree::Text(id)) ==> t.calls[0].id == id
                &&& item.get("call_id"@) is None ==> (words_at(item, "id"@) matches Some(id)
                    ==> t.calls[0].id == id)
                &&& words_at(item, "name"@) matches Some(name) ==> t.calls[0].name == name
                &&& words_at(item, "arguments"@) matches Some(args) ==> t.calls[0].arguments
                    == args
            } else if kind == Some("function_call_output"@) {
                &&& after.len() == before.len() + 1 && after.drop_last() == before
                &&& t.role == "tool"@ && t.calls.len() == 0 && t.images.len() == 0
                &&& words_at(item, "call_id"@) matches Some(id) ==> t.call_id == Some(id)
                &&& item.get("output"@) matches Some(out) ==> t.content == flat(out, true)
                &&& item.get("output"@) is None ==> t.content.len() == 0
            } else {
                after == before
            }
        }),
{
    reveal_strlit("message");
    reveal_strlit("function_call");
    reveal_strlit("function_call_output");
    reveal_strlit("developer");
    reveal_strlit("user");
    assert("user"@.len() == 4 && "developer"@.len() == 9);
    assert("message"@.len() == 7 && "function_call"@.len() == 13);
    assert("function_call_output"@.len() == 20);
    assert(items.push(item).drop_last() =~= items);
    let before = item_turns(items);
    match crate::gateway::inbound::item_turn(item) {
        Some(t) => {
            assert(before.push(t).drop_last() =~= before);
        },
        None => {},
    }
}

/// What is said in the shape of Responses is the instructions first, where
/// they say anything, and then the input: a text is the user's.
pub proof fn law_input_follows_the_instructions(r: ResponsesRequest)
    ensures
        ({
            let c = r.conversation();
            let first = match r.instructions {
                Some(s) => !blank(s@),
                None => false,
            };
            let n: int = if first {
                1
            } else {
                0
            };
            &&& first ==> c.len() > 0 && c[0].role == "system"@ && c[0].content
                == r.instructions->0@
            &&& r.input@ matches Tree::Text(s) ==> c.len() == n + 1 && c[n].role == "user"@
                && c[n].content == s && c[n].calls.len() == 0 && c[n].images.len() == 0
            &&& r.input@ matches Tree::List(items) ==> c.len() == n + item_turns(items).len()
                && c.skip(n) == item_turns(items)
            &&& !(r.input@ is Text) && !(r.input@ is List) ==> c.len() == n
        }),
{
    let first = system_turn(opt(r.instructions));
    match r.input@ {
        Tree::List(items) => {
            assert((first + item_turns(items)).skip(first.len() as int) =~= item_turns(items));
        },
        _ => {},
    }
}

// ---------------------------------------------------------------- reminders

/// A system message in the middle of a conversation joins the user's turn
/// before it, behind its words, whatever stands around the two. The turn keeps
/// all else: its pictures and what it answers.
pub proof fn law_a_reminder_joins_the_turn_before(
    front: Seq<Turn>,
    u: Turn,
    s: Turn,
    more: Seq<Turn>,
)
    requires
        u.role == "user"@,
        s.role == "system"@,
    ensures
        late_systems_folded(front + seq![u, s] + more) == late_systems_folded(
            front + seq![
                Turn { content: u.content + "\n\n"@ + wrapped(s.content), ..u },
            ] + more,
        ),
{
    lemma_roles_differ();
    let v = Turn { content: u.content + "\n\n"@ + wrapped(s.content), ..u };
    let a = front + seq![u, s] + more;
    let b = front + seq![v] + more;
    let n = opening(front);
    lemma_opening(front);
    lemma_opening_of(front, u, seq![s] + more);
    lemma_opening_of(front, v, more);
    assert(a =~= front + seq![u] + (seq![s] + more));
    let rest = front.skip(n);
    assert(a.skip(n) =~= rest + seq![u, s] + more);
    assert(b.skip(n) =~= rest + seq![v] + more);
    assert(a.take(n) =~= b.take(n));
    lemma_joins_before(seq![], rest, u, s, more);
}

proof fn lemma_roles_differ()
    ensures
        "user"@ != "system"@,
{
    reveal_strlit("user");
    reveal_strlit("system");
    assert("user"@.len() == 4 && "system"@.len() == 6);
}

proof fn lemma_opening_of(front: Seq<Turn>, t: Turn, more: Seq<Turn>)
    requires
        !t.is_system(),
    ensures
        opening(front + seq![t] + more) == opening(front),
    decreases front.len(),
{
    let all = front + seq![t] + more;
    if front.len() > 0 {
        assert(all[0] == front[0]);
        assert(all.drop_first() =~= front.drop_first() + seq![t] + more);
        lemma_opening_of(front.drop_first(), t, more);
    } else {
        assert(all[0] == t);
    }
}

proof fn lemma_joins_before(done: Seq<Turn>, rest: Seq<Turn>, u: Turn, s: Turn, more: Seq<Turn>)
    requires
        u.role == "user"@,
        s.role == "system"@,
    ensures
        folded(done, rest + seq![u, s] + more) == folded(
            done,
            rest + seq![Turn { content: u.content + "\n\n"@ + wrapped(s.content), ..u }] + more,
        ),
    decreases rest.len(),
{
    lemma_roles_differ();
    let v = Turn { content: u.content + "\n\n"@ + wrapped(s.content), ..u };
    let a = rest + seq![u, s] + more;
    let b = rest + seq![v] + more;
    if rest.len() == 0 {
        assert(a[0] == u && b[0] == v);
        assert(a.drop_first() =~= seq![s] + more);
        assert(b.drop_first() =~= more);
        let d = done.push(u);
        let r = seq![s] + more;
        assert(r[0] == s);
        assert(r.drop_first() =~= more);
        assert(d.last() == u);
        assert(d.update(d.len() - 1, u.saying(u.content + "\n\n"@ + wrapped(s.content)))
            =~= done.push(v));
        assert(folded(done, a) == folded(d, r));
        assert(folded(d, r) == folded(done.push(v), more));
        assert(folded(done, b) == folded(done.push(v), more));
    } else {
        let x = rest[0];
        let tail = rest.drop_first();
        assert(a[0] == x && b[0] == x);
        assert(a.drop_first() =~= tail + seq![u, s] + more);
        assert(b.drop_first() =~= tail + seq![v] + more);
        if !x.is_system() {
            lemma_joins_before(done.push(x), tail, u, s, more);
        } else {
            let text = wrapped(x.content);
            let after = a.drop_first();
            let after2 = b.drop_first();
            if done.len() > 0 && done.last().is_user() {
                let last = done.last();
                lemma_joins_before(
                    done.update(done.len() - 1, last.saying(last.content + "\n\n"@ + text)),
                    tail,
                    u,
                    s,
                    more,
                );
            } else if tail.len() == 0 {
                let u2 = u.saying(text + "\n\n"@ + u.content);
                let v2 = v.saying(text + "\n\n"@ + v.content);
                assert(after[0] == u && after2[0] == v);
                assert(after.update(0, u2) =~= tail + seq![u2, s] + more);
                assert(after2.update(0, v2) =~= tail + seq![v2] + more);
                lemma_joins_before(done, tail, u2, s, more);
                assert(u2.content + "\n\n"@ + wrapped(s.content) =~= v2.content);
                assert(Turn { content: u2.content + "\n\n"@ + wrapped(s.content), ..u2 } == v2);
                assert(folded(done, a) == folded(done, after.update(0, u2)));
                assert(folded(done, b) == folded(done, after2.update(0, v2)));
            } else {
                assert(after[0] == tail[0] && after2[0] == tail[0]);
                if tail[0].is_user() {
                    let y = tail[0].saying(text + "\n\n"@ + tail[0].content);
                    assert(after.update(0, y) =~= tail.update(0, y) + seq![u, s] + more);
                    assert(after2.update(0, y) =~= tail.update(0, y) + seq![v] + more);
                    lemma_joins_before(done, tail.update(0, y), u, s, more);
                } else {
                    lemma_joins_before(done.push(Turn::plain("user"@, text)), tail, u, s, more);
                }
            }
        }
    }
}

/// Where the turn before it is not the user's, it joins the user's turn after
/// it, in front of its words; where that is not the user's either, it becomes a
/// turn of the user's own.
pub proof fn law_a_reminder_joins_the_turn_after(
    front: Seq<Turn>,
    t: Turn,
    s: Turn,
    u: Turn,
    more: Seq<Turn>,
)
    requires
        t.role != "user"@ && t.role != "system"@,
        s.role == "system"@,
    ensures
        u.role == "user"@ ==> late_systems_folded(front + seq![t, s, u] + more)
            == late_systems_folded(
            front + seq![
                t,
                Turn { content: wrapped(s.content) + "\n\n"@ + u.content, ..u },
            ] + more,
        ),
        u.role != "user"@ ==> late_systems_folded(front + seq![t, s, u] + more)
            == late_systems_folded(
            front + seq![
                t,
                Turn {
                    role: "user"@,
                    content: wrapped(s.content),
                    calls: seq![],
                    call_id: None,
                    images: seq![],
                },
                u,
            ] + more,
        ),
{
    lemma_roles_differ();
    let v = if u.role == "user"@ {
        seq![Turn { content: wrapped(s.content) + "\n\n"@ + u.content, ..u }]
    } else {
        seq![Turn::plain("user"@, wrapped(s.content)), u]
    };
    let a = front + seq![t, s, u] + more;
    let b = front + (seq![t] + v) + more;
    let n = opening(front);
    lemma_opening(front);
    lemma_opening_of(front, t, seq![s, u] + more);
    lemma_opening_of(front, t, v + more);
    assert(a =~= front + seq![t] + (seq![s, u] + more));
    assert(b =~= front + seq![t] + (v + more));
    let rest = front.skip(n);
    assert(a.skip(n) =~= rest + seq![t, s, u] + more);
    assert(b.skip(n) =~= rest + (seq![t] + v) + more);
    assert(a.take(n) =~= b.take(n));
    lemma_joins_after(seq![], rest, t, s, u, v, more);
    if u.role == "user"@ {
        assert(b =~= front + seq![t, v[0]] + more);
    } else {
        assert(b =~= front + seq![t, v[0], v[1]] + more);
    }
}

proof fn lemma_joins_after(
    done: Seq<Turn>,
    rest: Seq<Turn>,
    t: Turn,
    s: Turn,
    u: Turn,
    v: Seq<Turn>,
    more: Seq<Turn>,
)
    requires
        t.role != "user"@ && t.role != "system"@,
        s.role == "system"@,
        v == (if u.role == "user"@ {
            seq![Turn { content: wrapped(s.content) + "\n\n"@ + u.content, ..u }]
        } else {
            seq![Turn::plain("user"@, wrapped(s.content)), u]
        }),
    ensures
        folded(done, rest + seq![t, s, u] + more) == folded(done, rest + (seq![t] + v) + more),
    decreases rest.len(),
{
    lemma_roles_differ();
    let a = rest + seq![t, s, u] + more;
    let b = rest + (seq![t] + v) + more;
    if rest.len() == 0 {
        assert(a[0] == t && b[0] == t);
        assert(a.drop_first() =~= seq![s, u] + more);
        assert(b.drop_first() =~= v + more);
        let d = done.push(t);
        let r = seq![s, u] + more;
        assert(r[0] == s);
        assert(r.drop_first() =~= seq![u] + more);
        assert((seq![u] + more)[0] == u);
        assert(d.last() == t);
        let w = wrapped(s.content);
        if u.role == "user"@ {
            assert((seq![u] + more).update(0, u.saying(w + "\n\n"@ + u.content)) =~= v + more);
            assert(folded(done, a) == folded(d, r));
            assert(folded(d, r) == folded(d, v + more));
            assert(folded(done, b) == folded(d, v + more));
        } else {
            assert((v + more)[0] == v[0]);
            assert((v + more).drop_first() =~= seq![u] + more);
            assert(folded(done, a) == folded(d, r));
            assert(folded(d, r) == folded(d.push(v[0]), seq![u] + more));
            assert(folded(done, b) == folded(d, v + more));
            assert(folded(d, v + more) == folded(d.push(v[0]), seq![u] + more));
        }
    } else {
        let x = rest[0];
        let tail = rest.drop_first();
        assert(a[0] == x && b[0] == x);
        assert(a.drop_first() =~= tail + seq![t, s, u] + more);
        assert(b.drop_first() =~= tail + (seq![t] + v) + more);
        if !x.is_system() {
            lemma_joins_after(done.push(x), tail, t, s, u, v, more);
        } else {
            let text = wrapped(x.content);
            let after = a.drop_first();
            let after2 = b.drop_first();
            if done.len() > 0 && done.last().is_user() {
                let last = done.last();
                lemma_joins_after(
                    done.update(done.len() - 1, last.saying(last.content + "\n\n"@ + text)),
                    tail,
                    t,
                    s,
                    u,
                    v,
                    more,
                );
            } else if tail.len() > 0 && tail[0].is_user() {
                assert(after[0] == tail[0] && after2[0] == tail[0]);
                let y = tail[0].saying(text + "\n\n"@ + tail[0].content);
                assert(after.update(0, y) =~= tail.update(0, y) + seq![t, s, u] + more);
                assert(after2.update(0, y) =~= tail.update(0, y) + (seq![t] + v) + more);
                lemma_joins_after(done, tail.update(0, y), t, s, u, v, more);
            } else {
                if tail.len() > 0 {
                    assert(after[0] == tail[0] && after2[0] == tail[0]);
                } else {
                    assert(after[0] == t && after2[0] == t);
                }
                lemma_joins_after(done.push(Turn::plain("user"@, text)), tail, t, s, u, v, more);
            }
        }
    }
}

/// A reminder holds the words of the system message between its two marks.
pub proof fn law_a_reminder_holds_its_words(text: Seq<char>)
    ensures
        contains(wrapped(text), trimmed(text)),
        starts_with(wrapped(text), "<system-reminder>\n"@),
        ends_with(wrapped(text), "\n</system-reminder>"@),
        wrapped(text).len() == trimmed(text).len() + 37,
{
    let a = "<system-reminder>\n"@;
    let b = "\n</system-reminder>"@;
    reveal_strlit("<system-reminder>\n");
    reveal_strlit("\n</system-reminder>");
    assert(a.len() == 18 && b.len() == 19);
    crate::text::lemma_contains_middle(a, trimmed(text), b);
    assert(wrapped(text) =~= a + (trimmed(text) + b));
    crate::laws::texts::law_the_rest_follows_the_prefix(a, trimmed(text) + b);
    crate::laws::texts::law_the_rest_follows_the_prefix(a + trimmed(text), b);
}

} // verus!
