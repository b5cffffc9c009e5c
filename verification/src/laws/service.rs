//! Serving a request: who is let in, who answers, what counts as an answer,
//! and how it is sent piece by piece.
use vstd::prelude::*;

use crate::codec::hexed;
use crate::error::{AppError, Trouble};
use crate::gateway::access::{
    filled, loopback_url, not_switched_off, port_for, presented, switched_on, token_text,
};
use crate::gateway::answer::Reply;
use crate::gateway::anthropic::{block_delta, text_delta};
use crate::gateway::held::{last_open, may_become_tag, settled, shown_part};
use crate::gateway::inbound::{any_asks, any_not_system, openai_turns, ChatRequest, Shape};
use crate::gateway::live::{closing_words, Body, Live, LiveEvent};
use crate::gateway::openai::{chunk, content_delta};
use crate::gateway::responses::words_event;
use crate::gateway::serve::{
    actual_hash, answer_of, catalogue, class_of, fault_of, is_pick, is_stand_in, is_taken_up,
    listed_price, model_names, nobody_answers, outcome_error, raw_text, reply_body, Request, RunEnd,
    TakenUp,
};
use crate::gateway::thinking::{
    answer_part, collapsed, first_tag, has_tag, lemma_first_tag, lemma_nothing_to_take_out, peeled,
    tag_at, tidied, unthought,
};
use crate::json::{law_put_then_get, Tree};
use crate::laws::replies::lemma_one_more_field;
use crate::laws::texts::law_trimming_takes_the_space_around;
use crate::laws::tools::lemma_field_set;
use crate::protocol::{calls, opt, JobPayload, JobResult, ModelDescriptor, TokenUsage};
use crate::routing::ModelOption;
use crate::store::Db;
use crate::text::{
    blank, contains, decimal, is_white, joined, lines, lower, parsed, starts_with, trim_end, trimmed,
};

verus! {

broadcast use vstd::string::group_string_axioms;

// ------------------------------------------------------------------- access

/// The endpoint is off until somebody switches it on; another model answers
/// for an unknown one until somebody switches that off.
pub proof fn law_switches_mean_what_they_say(s: Seq<char>)
    ensures
        !switched_on(None) && switched_on(Some("true"@)) && !switched_on(Some("false"@)),
        not_switched_off(None) && not_switched_off(Some("true"@)) && !not_switched_off(
            Some("false"@),
        ),
        s != "true"@ ==> !switched_on(Some(s)),
        s != "false"@ ==> not_switched_off(Some(s)),
{
    reveal_strlit("true");
    reveal_strlit("false");
    assert("true"@.len() == 4 && "false"@.len() == 5);
}

/// A setting of nothing but white space is none.
pub proof fn law_a_blank_setting_is_none(s: Seq<char>)
    ensures
        filled(None) is None,
        blank(s) ==> filled(Some(s)) is None,
        !blank(s) ==> filled(Some(s)) == Some(trimmed(s)),
{
}

/// The port is the one that is set, where it is one, and 11435 where it is not.
pub proof fn law_the_port_is_the_one_set(n: u64, s: Seq<char>)
    requires
        trimmed(s) == decimal(n as nat),
    ensures
        0 < n <= 65535 ==> port_for(Some(s)) == n,
        n == 0 || n > 65535 ==> port_for(Some(s)) == 11435,
        port_for(None) == 11435,
{
    crate::laws::texts::law_a_number_is_read_back(n);
}

/// A client's own key is its token, and so is what follows `Bearer`; where it
/// sends both, its own key counts.
pub proof fn law_the_token_that_is_presented(
    key: Seq<char>,
    token: Seq<char>,
    authorization: Option<Seq<char>>,
)
    ensures
        presented(Some(key), authorization) == Some(key),
        presented(None, Some("Bearer "@ + token)) == Some(token),
        authorization matches Some(a) ==> !starts_with(a, "Bearer "@) ==> presented(
            None,
            authorization,
        ) is None,
{
    crate::laws::texts::law_the_rest_follows_the_prefix("Bearer "@, token);
}

/// Two secrets never make the same token; every token begins alike, and holds
/// two figures for each byte.
pub proof fn law_tokens_tell_secrets_apart(a: Seq<u8>, b: Seq<u8>)
    ensures
        starts_with(token_text(a), "rm-"@) && token_text(a).len() == 3 + 2 * a.len(),
        token_text(a) == token_text(b) ==> a == b,
{
    reveal_strlit("rm-");
    assert("rm-"@.len() == 3);
    crate::laws::texts::law_the_rest_follows_the_prefix("rm-"@, hexed(a));
    if token_text(a) == token_text(b) {
        let p = "rm-"@;
        assert(token_text(a).skip(p.len() as int) =~= hexed(a));
        assert(token_text(b).skip(p.len() as int) =~= hexed(b));
        crate::codec::law_hex_round_trip(a);
        crate::codec::law_hex_round_trip(b);
    }
}

// ----------------------------------------------------------------- refusals

/// What is not there is told as 404, what was asked wrongly as 400, and all
/// other trouble as the provider's.
pub proof fn law_trouble_has_its_status(s: Seq<char>, e: Trouble)
    ensures
        class_of(Trouble::NotFound(s)).0 == 404 && class_of(Trouble::NotFound(s)).1
            == "not_found_error"@,
        class_of(Trouble::Invalid(s)).0 == 400 && class_of(Trouble::Invalid(s)).1
            == "invalid_request_error"@,
        !(e is NotFound) && !(e is Invalid) ==> class_of(e).0 == 502 && class_of(e).1
            == "api_error"@,
{
}

/// Every model on offer is in the catalogue, at its place, under its name.
pub proof fn law_the_catalogue_lists_the_offer(options: Seq<ModelOption>, created: i64)
    ensures
        ({
            let c = catalogue(options, created);
            &&& c.get("object"@) == Some(Tree::Text("list"@))
            &&& c.get("has_more"@) == Some(Tree::Bool(false))
            &&& c.get("data"@) matches Some(Tree::List(d)) && d.len() == options.len() && forall|
                i: int,
            |
                0 <= i < d.len() ==> (#[trigger] d[i]).get("id"@) == Some(
                    Tree::Text(options[i].model@),
                ) && d[i].get("display_name"@) == Some(Tree::Text(options[i].model@)) && d[i].get(
                    "object"@,
                ) == Some(Tree::Text("model"@)) && d[i].get("type"@) == Some(Tree::Text("model"@))
                    && d[i].get("created"@) == Some(Tree::integer(created)) && d[i].get(
                    "created_at"@,
                ) == Some(Tree::integer(created)) && d[i].get("owned_by"@) == Some(
                    Tree::Text("rootmode"@),
                )
        }),
{
    broadcast use lemma_one_more_field;

    reveal_strlit("object");
    reveal_strlit("data");
    reveal_strlit("has_more");
    reveal_strlit("id");
    reveal_strlit("type");
    reveal_strlit("created");
    reveal_strlit("created_at");
    reveal_strlit("display_name");
    reveal_strlit("owned_by");
    assert("object"@.len() == 6);
    assert("data"@.len() == 4);
    assert("has_more"@.len() == 8);
    assert("id"@.len() == 2);
    assert("type"@.len() == 4);
    assert("created"@.len() == 7);
    assert("created_at"@.len() == 10);
    assert("display_name"@.len() == 12);
    assert("owned_by"@.len() == 8);
    assert("data"@[0] == 'd');
    assert("type"@[0] == 't');
    assert("has_more"@[0] == 'h');
    assert("owned_by"@[0] == 'o');
}

// -------------------------------------------------------------- who answers

/// Where another model answers, it is the one that the user prefers if that is
/// on offer, and otherwise the first.
pub proof fn law_the_preferred_model_stands_in(
    options: Seq<ModelOption>,
    want: Seq<char>,
    k: int,
    i: int,
)
    requires
        0 <= k < options.len(),
    ensures
        options[k].model@ == want && is_pick(options, Some(want), i) ==> 0 <= i <= k
            && options[i].model@ == want,
        is_pick(options, None, i) ==> i == 0,
        (forall|j: int| 0 <= j < options.len() ==> (#[trigger] options[j]).model@ != want)
            && is_pick(options, Some(want), i) ==> i == 0,
{
    let names = model_names(options);
    assert(names[k] == options[k].model@);
    if names.contains(want) {
        let j = choose|j: int| 0 <= j < names.len() && names[j] == want;
        assert(options[j].model@ == want);
    }
    if is_pick(options, Some(want), i) && names.contains(want) {
        assert(names[i] == options[i].model@);
        if i > k && options[k].model@ == want {
            assert(names[k] != want);
        }
    }
}

/// A refusal for want of a provider names the model that was asked for and
/// every one that is on offer.
pub proof fn law_a_refusal_names_what_is_on_offer(
    options: Seq<ModelOption>,
    asked: Seq<char>,
    k: int,
)
    requires
        0 <= k < options.len(),
    ensures
        nobody_answers(options, asked) matches Trouble::NotFound(s) && contains(s, asked)
            && contains(s, options[k].model@),
        nobody_answers(seq![], asked) is NotFound,
{
    let names = model_names(options);
    let list = joined(names, ", "@);
    let a = "no provider serves '"@;
    let b = "'. Currently on offer: "@;
    let s = a + asked + b + list;
    crate::text::lemma_contains_middle(a, asked, b + list);
    assert(a + asked + (b + list) =~= s);
    lemma_joined_holds(names, ", "@, k);
    let (x, y) = choose|x: Seq<char>, y: Seq<char>| list == #[trigger] (x + names[k] + y);
    crate::text::lemma_contains_middle(a + asked + b + x, names[k], y);
    assert(a + asked + b + x + names[k] + y =~= s);
    assert(names[k] == options[k].model@);
}

proof fn lemma_joined_holds(parts: Seq<Seq<char>>, sep: Seq<char>, k: int)
    requires
        0 <= k < parts.len(),
    ensures
        exists|x: Seq<char>, y: Seq<char>| joined(parts, sep) == #[trigger] (x + parts[k] + y),
    decreases parts.len(),
{
    let none = Seq::<char>::empty();
    if parts.len() == 1 {
        assert(none + parts[0] + none =~= parts[0]);
    } else if k == parts.len() - 1 {
        let x = joined(parts.drop_last(), sep) + sep;
        assert(x + parts[k] + none =~= joined(parts, sep));
    } else {
        lemma_joined_holds(parts.drop_last(), sep, k);
        let front = joined(parts.drop_last(), sep);
        assert(parts.drop_last()[k] == parts[k]);
        let (x, y) = choose|x: Seq<char>, y: Seq<char>| front == #[trigger] (x + parts[k] + y);
        assert(x + parts[k] + (y + sep + parts.last()) =~= joined(parts, sep));
    }
}

/// What a request is charged by is what the provider asks for the first model
/// that it lists under exactly that name.
pub proof fn law_the_listed_price_counts(ms: Seq<ModelDescriptor>, model: Seq<char>, j: int)
    requires
        0 <= j < ms.len(),
        ms[j].id@ == model,
        forall|k: int| 0 <= k < j ==> (#[trigger] ms[k]).id@ != model,
    ensures
        ms[j].price is None ==> listed_price(ms, model) is None,
        ms[j].price matches Some(p) ==> p.micros > 0 ==> listed_price(ms, model) == Some(p.micros),
        ms[j].price matches Some(p) ==> p.micros == 0 ==> listed_price(ms, model) is None,
    decreases ms.len(),
{
    if j > 0 {
        assert(ms[0].id@ != model);
        let rest = ms.drop_first();
        assert forall|k: int| 0 <= k < j - 1 implies (#[trigger] rest[k]).id@ != model by {
            assert(rest[k] == ms[k + 1]);
        }
        law_the_listed_price_counts(rest, model, j - 1);
    }
}

/// A request that is taken up asks what the client asked, of the model that
/// answers, with room for at least 8192 tokens.
pub proof fn law_a_taken_request_asks_the_same(t: TakenUp, request: ChatRequest, db: Db)
    requires
        is_taken_up(t, request, db),
    ensures
        t.payload matches JobPayload::Llm(q) && {
            &&& q@.messages == request.params@.messages
            &&& q@.tools == request.params@.tools
            &&& q@.temperature == request.params@.temperature
            &&& opt(q.model_id) == Some(t.served@)
            &&& q.max_tokens >= 8192 && q.max_tokens >= request.params.max_tokens
            &&& request.params.max_tokens >= 8192 ==> q.max_tokens == request.params.max_tokens
        },
        exists|i: int| 0 <= i < db.peers@.len() && (#[trigger] db.peers@[i]).id@ == t.peer_id@,
{
}

// ---------------------------------------------------------------- answering

/// A result is an answer exactly where it says or calls something besides its
/// reasoning, and its hash, which only the worker of this process may leave
/// out, is that of its text.
pub proof fn law_what_counts_as_an_answer(r: JobResult, local: bool)
    ensures
        fault_of(r, local) is None <==> {
            &&& answer_part(raw_text(r)).len() > 0 || r.tool_calls@.len() > 0
            &&& raw_text(r).len() > 0 || r.tool_calls@.len() > 0
            &&& r.sha256@.len() == 0 ==> local
            &&& r.sha256@.len() > 0 ==> lower(r.sha256@) == lower(actual_hash(r))
        },
        fault_of(r, local) matches Some(e) ==> e is Invalid,
        r.text matches Some(t) ==> raw_text(r) == t@,
        r.text is None ==> raw_text(r).len() == 0,
{
}

/// An answer says what the result says and calls what it calls.
pub proof fn law_an_answer_is_the_result(r: JobResult, measured: TokenUsage)
    ensures
        ({
            let a = answer_of(r, measured);
            &&& a.text == answer_part(raw_text(r))
            &&& a.calls.len() == r.tool_calls@.len()
            &&& forall|i: int|
                0 <= i < a.calls.len() ==> (#[trigger] a.calls[i]).name == r.tool_calls@[i].name@
                    && a.calls[i].arguments == r.tool_calls@[i].arguments@ && a.calls[i].id
                    == r.tool_calls@[i].id@
            &&& r.meta@.get("finish_reason"@) matches Some(Tree::Text(w)) ==> a.finish == Some(w)
            &&& r.meta@.get("finish_reason"@) is None ==> a.finish is None
        }),
{
}

/// Of two reasons why no answer came, the one that the provider gave counts.
pub proof fn law_the_given_reason_counts(why: Seq<char>, end: RunEnd)
    ensures
        outcome_error(Some(why), end) == Trouble::Net(why),
        end matches RunEnd::Gave(e) ==> outcome_error(None, end) == e@ && closing_words(end)
            == e@.words(),
        end matches RunEnd::Crashed(c) ==> (outcome_error(None, end) matches Trouble::Net(s)
            && contains(s, c@)) && contains(closing_words(end), c@),
        end is Finished ==> outcome_error(None, end) == Trouble::Net(closing_words(end)),
{
    if let RunEnd::Crashed(c) = end {
        crate::laws::texts::law_the_rest_follows_the_prefix("provider task failed: "@, c@);
    }
}

// ---------------------------------------------------------------- reasoning

/// A text without reasoning is left as it is but for the white space.
pub proof fn law_plain_words_are_kept(s: Seq<char>)
    requires
        !has_tag(s, "<think>"@),
        !has_tag(s, "<thinking>"@),
    ensures
        answer_part(s) == tidied(s),
        unthought(s) == s,
{
    lemma_nothing_to_take_out(s);
}

/// An answer has no white space around it.
pub proof fn law_an_answer_has_no_space_around(s: Seq<char>)
    ensures
        tidied(s).len() > 0 ==> !is_white(tidied(s)[0]) && !is_white(tidied(s).last()),
        answer_part(s).len() > 0 ==> !is_white(answer_part(s)[0]) && !is_white(
            answer_part(s).last(),
        ),
        shown_part(s).len() > 0 ==> !is_white(shown_part(s)[0]) && !is_white(shown_part(s).last()),
{
    law_trimming_takes_the_space_around(collapsed(lines(s)));
    law_trimming_takes_the_space_around(collapsed(lines(unthought(s))));
    law_trimming_takes_the_space_around(collapsed(lines(settled(unthought(s)))));
}

/// What stands between the first opening tag and the first closing one behind
/// it goes, with both tags, and nothing else does; without a closing one all
/// that follows goes.
pub proof fn law_only_what_is_between_tags_goes(
    s: Seq<char>,
    open: Seq<char>,
    close: Seq<char>,
    i: int,
    j: int,
)
    requires
        open.len() > 0,
        close.len() > 0,
        tag_at(s, open, i),
        forall|k: int| 0 <= k < i ==> !tag_at(s, open, k),
    ensures
        i + open.len() <= j && tag_at(s, close, j) && (forall|k: int|
            i + open.len() <= k < j ==> !tag_at(s, close, k)) ==> peeled(s, open, close) == peeled(
            s.take(i) + s.skip(j + close.len()),
            open,
            close,
        ),
        (forall|k: int| i + open.len() <= k ==> !tag_at(s, close, k)) ==> peeled(s, open, close)
            == s.take(i),
{
    lemma_first_tag(s, open, 0);
    match first_tag(s, open, 0) {
        Some(a) => {
            if a < i {
                assert(tag_at(s, open, a));
            }
            if i < a {
                assert(tag_at(s, open, i));
            }
        },
        None => {
            assert(tag_at(s, open, i));
        },
    }
    lemma_first_tag(s, close, i + open.len() as int);
    match first_tag(s, close, i + open.len() as int) {
        Some(b) => {
            assert(tag_at(s, close, b));
        },
        None => {},
    }
}

/// A tag is known whatever the case of its letters.
pub proof fn law_a_tag_is_known_in_capitals(s: Seq<char>, p: Seq<char>, i: int)
    requires
        0 <= i,
        i + p.len() <= s.len(),
    ensures
        tag_at(s, p, i) <==> lower(s.subrange(i, i + p.len())) == lower(p),
{
    let part = s.subrange(i, i + p.len());
    if tag_at(s, p, i) {
        assert(lower(part) =~= lower(p)) by {
            assert forall|k: int| 0 <= k < p.len() implies lower(part)[k] == lower(p)[k] by {
                assert(crate::text::lower_char(s[i + k]) == crate::text::lower_char(p[k]));
            }
        }
    }
    if lower(part) == lower(p) {
        assert forall|k: int| 0 <= k < p.len() implies #[trigger] crate::text::lower_char(s[i + k])
            == crate::text::lower_char(p[k]) by {
            assert(lower(part)[k] == lower(p)[k]);
        }
    }
}

/// Lines stand one under another; blank ones leave no gap.
pub proof fn law_lines_stand_under_each_other(ls: Seq<Seq<char>>, l: Seq<char>)
    requires
        ls.len() > 0,
        !blank(ls.last()),
    ensures
        !blank(l) ==> collapsed(ls.push(l)) == collapsed(ls) + seq!['\n'] + trim_end(l),
        blank(l) ==> collapsed(ls.push(l)) == collapsed(ls) + seq!['\n'],
        !blank(l) ==> collapsed(ls.push(seq![]).push(l)) == collapsed(ls) + seq!['\n'] + trim_end(
            l,
        ),
        !blank(l) ==> collapsed(seq![l]) == trim_end(l),
        collapsed(ls).len() > 0 && collapsed(ls).last() != '\n',
{
    let out = collapsed(ls);
    let last = ls.last();
    lemma_end_stays(last);
    assert(is_white('\n'));
    assert(out.len() > 0 && out.last() == trim_end(last).last());
    assert(ls.push(l).drop_last() =~= ls);
    assert(ls.push(l)[ls.push(l).len() - 2] == ls.last());
    let gap = ls.push(Seq::<char>::empty());
    assert(gap.drop_last() =~= ls);
    assert(gap[gap.len() - 2] == ls.last());
    law_trimming_takes_the_space_around(Seq::<char>::empty());
    assert(blank(gap.last()));
    assert(collapsed(gap) == out.push('\n'));
    assert(gap.push(l).drop_last() =~= gap);
    assert(out.push('\n') + trim_end(l) =~= out + seq!['\n'] + trim_end(l));
    assert(out.push('\n') =~= out + seq!['\n']);
    assert(seq![l].drop_last() =~= Seq::<Seq<char>>::empty());
    assert(collapsed(Seq::<Seq<char>>::empty()) =~= Seq::<char>::empty());
    assert(Seq::<char>::empty() + trim_end(l) =~= trim_end(l));
}

proof fn lemma_end_stays(s: Seq<char>)
    requires
        !blank(s),
    ensures
        trim_end(s).len() > 0,
        !is_white(trim_end(s).last()),
{
    law_trimming_takes_the_space_around(s);
    assert(!crate::laws::texts::all_white(s));
    crate::laws::texts::lemma_trim_end(s);
    let i = choose|i: int| 0 <= i < s.len() && !is_white(#[trigger] s[i]);
    let n = trim_end(s).len() as int;
    if i >= n {
        assert(s.skip(n)[i - n] == s[i]);
    }
}

/// Only the beginning of a tag at the end is held back; all other words are
/// shown.
pub proof fn law_only_a_beginning_tag_is_held_back(s: Seq<char>)
    ensures
        starts_with(s, settled(s)),
        !s.contains('<') ==> settled(s) == s,
        !s.contains('<') ==> shown_part(s) == answer_part(s),
    decreases s.len(),
{
    lemma_last_open(s);
    let i = last_open(s);
    if 0 <= i < s.len() && may_become_tag(s.skip(i)) {
        law_only_a_beginning_tag_is_held_back(s.take(i));
        let n = settled(s.take(i)).len() as int;
        assert(s.take(n) =~= s.take(i).take(n));
    } else {
        assert(s.take(s.len() as int) =~= s);
    }
    if !s.contains('<') {
        reveal_strlit("<think>");
        reveal_strlit("<thinking>");
        assert("<think>"@[0] == '<' && "<thinking>"@[0] == '<');
        assert("<think>"@.len() == 7 && "<thinking>"@.len() == 10);
        assert forall|k: int| !#[trigger] tag_at(s, "<think>"@, k) by {
            if tag_at(s, "<think>"@, k) {
                assert(crate::text::lower_char(s[k + 0]) == crate::text::lower_char("<think>"@[0]));
                assert(s[k] == '<');
            }
        }
        assert forall|k: int| !#[trigger] tag_at(s, "<thinking>"@, k) by {
            if tag_at(s, "<thinking>"@, k) {
                assert(crate::text::lower_char(s[k + 0]) == crate::text::lower_char(
                    "<thinking>"@[0],
                ));
                assert(s[k] == '<');
            }
        }
        lemma_nothing_to_take_out(s);
    }
}

/// Nothing is left at the end of what is shown that could still become a tag.
pub proof fn law_nothing_shown_can_become_a_tag(s: Seq<char>, i: int)
    requires
        0 <= i < settled(s).len(),
    ensures
        !may_become_tag(settled(s).skip(i)),
    decreases s.len(),
{
    lemma_last_open(s);
    let j = last_open(s);
    if 0 <= j < s.len() && may_become_tag(s.skip(j)) {
        law_nothing_shown_can_become_a_tag(s.take(j), i);
    } else if may_become_tag(s.skip(i)) {
        reveal_strlit("<thinking>");
        let p = s.skip(i);
        assert("<thinking>"@.len() == 10);
        assert("<thinking>"@[0] == '<');
        assert(p[0] == s[i]);
        assert(crate::text::lower_char(p[0]) == crate::text::lower_char("<thinking>"@[0]));
        assert(s[i] == '<');
        lemma_last_open_is_last(s, i);
        if i < j {
            let k = j - i;
            assert(p[k] == s[j]);
            assert(crate::text::lower_char(p[k]) == crate::text::lower_char("<thinking>"@[k]));
            assert("<thinking>"@[1] == 't' && "<thinking>"@[2] == 'h' && "<thinking>"@[3] == 'i'
                && "<thinking>"@[4] == 'n' && "<thinking>"@[5] == 'k' && "<thinking>"@[6] == 'i'
                && "<thinking>"@[7] == 'n' && "<thinking>"@[8] == 'g' && "<thinking>"@[9] == '>');
            assert(k == 1 || k == 2 || k == 3 || k == 4 || k == 5 || k == 6 || k == 7 || k == 8 || k
                == 9);
            assert(s[j] == '<');
        }
    }
}

proof fn lemma_last_open_is_last(s: Seq<char>, i: int)
    requires
        0 <= i < s.len(),
        s[i] == '<',
    ensures
        i <= last_open(s),
    decreases s.len(),
{
    if s.last() != '<' {
        assert(s.drop_last()[i] == '<');
        lemma_last_open_is_last(s.drop_last(), i);
    }
}

proof fn lemma_last_open(s: Seq<char>)
    ensures
        -1 <= last_open(s) < s.len(),
        last_open(s) >= 0 ==> s[last_open(s)] == '<',
    decreases s.len(),
{
    if s.len() > 0 && s.last() != '<' {
        lemma_last_open(s.drop_last());
    }
}

// --------------------------------------------------------------- streaming

/// What is sent of a fresh piece of text holds that text, last, in the shape
/// that the client reads; the numbers of a numbered stream go on.
pub proof fn law_a_fresh_piece_is_sent(v: Live, fresh: Seq<char>)
    ensures
        ({
            let f = v.delta_frames(fresh);
            &&& f.len() > 0
            &&& v.shape == Shape::OpenAi ==> f.len() == 1 && f.last().name is None && f.last().body
                == Body::Json(
                chunk(v.id, v.served, v.created, content_delta(fresh), Tree::Null),
            )
            &&& v.shape == Shape::Anthropic ==> f.last().name == Some(
                block_delta(0, text_delta(fresh)).0,
            ) && f.last().body == Body::Json(block_delta(0, text_delta(fresh)).1)
            &&& v.shape == Shape::Responses ==> f.last().name == Some(
                words_event(v.id, fresh).0,
            ) && f.last().body == Body::Json(
                words_event(v.id, fresh).1.put(
                    "sequence_number"@,
                    Tree::Number((v.seq + f.len()) as u64),
                ),
            )
        }),
{
}

/// A reply goes on until its answer or a failure ends it, and whatever ends it
/// is told with a frame.
pub proof fn law_a_stream_always_says_how_it_ended(v: Live, e: LiveEvent)
    requires
        !v.done,
        !(e is Delta),
    ensures
        v.after(e).done,
        v.frames_for(e).len() > 0,
        e matches LiveEvent::Failed(Some(why)) ==> v.frames_for(e) == v.error_frames(why@),
        e matches LiveEvent::Result(Err(why)) ==> v.frames_for(e) == v.error_frames(why@.words()),
        e matches LiveEvent::Closed(end) ==> v.frames_for(e) == v.error_frames(closing_words(end)),
        v.shape == Shape::OpenAi ==> (e matches LiveEvent::Result(Ok(_)) ==> v.frames_for(
            e,
        ).last().body == Body::Raw("[DONE]"@)),
{

}

/// What went wrong reaches the client.
pub proof fn law_a_failed_stream_says_why(v: Live, message: Seq<char>)
    ensures
        v.error_frames(message).len() == 1,
        v.error_frames(message)[0].body matches Body::Json(t) && {
            &&& v.shape == Shape::Anthropic ==> (t.get("error"@) matches Some(e) && e.get(
                "message"@,
            ) == Some(Tree::Text(message)))
            &&& v.shape == Shape::OpenAi ==> (t.get("error"@) matches Some(e) && e.get("message"@)
                == Some(Tree::Text(message)))
            &&& v.shape == Shape::Responses ==> (t.get("response"@) matches Some(r) && r.get(
                "status"@,
            ) == Some(Tree::Text("failed"@)) && (r.get("error"@) matches Some(e) && e.get(
                "message"@,
            ) == Some(Tree::Text(message))))
        },
{
    broadcast use lemma_one_more_field;

    crate::laws::replies::law_a_refusal_gives_its_reason("overloaded_error"@, message);
    crate::laws::replies::law_a_refusal_gives_its_reason("api_error"@, message);
    reveal_strlit("type");
    reveal_strlit("response");
    reveal_strlit("status");
    reveal_strlit("error");
    reveal_strlit("message");
    reveal_strlit("sequence_number");
    assert("type"@.len() == 4);
    assert("response"@.len() == 8);
    assert("status"@.len() == 6);
    assert("error"@.len() == 5);
    assert("message"@.len() == 7);
    assert("sequence_number"@.len() == 15);
    if v.shape == Shape::Responses {
        let t = Tree::record().with("type"@, Tree::Text("response.failed"@)).with(
            "response"@,
            Tree::record().with("status"@, Tree::Text("failed"@)).with(
                "error"@,
                Tree::record().with("message"@, Tree::Text(message)),
            ),
        );
        let n = Tree::Number((v.seq + 0 + 1) as u64);
        law_put_then_get(t.fields(), "sequence_number"@, n);
        assert(t.put("sequence_number"@, n).get("response"@) == t.get("response"@));
    }
}

/// A stream opens by naming itself and the model that answers.
pub proof fn law_a_stream_opens_with_its_name(v: Live)
    ensures
        ({
            let f = v.opening_frames();
            &&& f.len() > 0
            &&& v.shape == Shape::Anthropic ==> f.len() == 1 && f[0].name == Some(
                "message_start"@,
            ) && (f[0].body matches Body::Json(t) && t.get("type"@) == Some(
                Tree::Text("message_start"@),
            ) && (t.get("message"@) matches Some(m) && m.get("id"@) == Some(Tree::Text(v.id))
                && m.get("model"@) == Some(Tree::Text(v.served)) && m.get("role"@) == Some(
                Tree::Text("assistant"@),
            )))
            &&& v.shape == Shape::OpenAi ==> f.len() == 1 && f[0].name is None && (
            f[0].body matches Body::Json(t) && t.get("id"@) == Some(Tree::Text(v.id)) && t.get(
                "model"@,
            ) == Some(Tree::Text(v.served)) && (t.get("choices"@) matches Some(Tree::List(c))
                && c.len() == 1 && (c[0].get("delta"@) matches Some(d) && d.get("role"@) == Some(
                Tree::Text("assistant"@),
            ))))
            &&& v.shape == Shape::Responses ==> f.len() == 2 && f[0].name == Some(
                "response.created"@,
            ) && f[1].name == Some("response.in_progress"@) && (f[0].body matches Body::Json(t)
                && (t.get("response"@) matches Some(m) && m.get("id"@) == Some(Tree::Text(v.id))
                && m.get("model"@) == Some(Tree::Text(v.served)) && m.get("status"@) == Some(
                Tree::Text("in_progress"@),
            )))
        }),
{
    broadcast use {lemma_one_more_field, lemma_field_set};

    reveal_strlit("type");
    reveal_strlit("message");
    reveal_strlit("id");
    reveal_strlit("model");
    reveal_strlit("role");
    reveal_strlit("content");
    reveal_strlit("stop_reason");
    reveal_strlit("stop_sequence");
    reveal_strlit("usage");
    reveal_strlit("response");
    reveal_strlit("object");
    reveal_strlit("created_at");
    reveal_strlit("created");
    reveal_strlit("status");
    reveal_strlit("error");
    reveal_strlit("output");
    reveal_strlit("sequence_number");
    reveal_strlit("choices");
    reveal_strlit("index");
    reveal_strlit("delta");
    assert("index"@.len() == 5 && "index"@[0] == 'i');
    assert("delta"@.len() == 5 && "delta"@[0] == 'd');
    assert("type"@.len() == 4);
    assert("message"@.len() == 7);
    assert("id"@.len() == 2);
    assert("model"@.len() == 5);
    assert("role"@.len() == 4);
    assert("content"@.len() == 7);
    assert("stop_reason"@.len() == 11);
    assert("stop_sequence"@.len() == 13);
    assert("usage"@.len() == 5);
    assert("response"@.len() == 8);
    assert("object"@.len() == 6);
    assert("created_at"@.len() == 10);
    assert("created"@.len() == 7);
    assert("status"@.len() == 6);
    assert("error"@.len() == 5);
    assert("output"@.len() == 6);
    assert("sequence_number"@.len() == 15);
    assert("choices"@.len() == 7);
    assert("type"@[0] == 't');
    assert("role"@[0] == 'r');
    assert("message"@[0] == 'm');
    assert("content"@[0] == 'c');
    assert("created"@[0] == 'c');
    assert("choices"@[0] == 'c');
    assert("model"@[0] == 'm');
    assert("usage"@[0] == 'u');
    assert("error"@[0] == 'e');
    assert("content"@[1] == 'o');
    assert("created"@[1] == 'r');
    assert("choices"@[1] == 'h');
    assert("object"@[0] == 'o');
    assert("status"@[0] == 's');
    assert("object"@[1] == 'b');
    assert("output"@[1] == 'u');
    assert("output"@[0] == 'o');
}

/// What is asked of a provider is what the client asked, in any shape.
pub proof fn law_every_shape_asks_the_same_way(q: Request)
    ensures
        q.ask().model_id == Some(q.model()),
        q matches Request::Anthropic(r) ==> q.model() == r.model@ && q.streams() == r.stream && (
        r.max_tokens matches Some(n) ==> q.ask().max_tokens == n) && (r.temperature matches Some(t)
            ==> q.ask().temperature == t) && (q.asks_something() <==> any_asks(r.conversation())),
        q matches Request::OpenAi(r) ==> q.model() == r.model@ && q.streams() == r.stream && (
        r.ceiling() matches Some(n) ==> q.ask().max_tokens == n) && (r.temperature matches Some(t)
            ==> q.ask().temperature == t) && (q.asks_something() <==> any_not_system(
            openai_turns(r.messages@),
        )),
        q matches Request::Responses(r) ==> q.model() == r.model@ && q.streams() == r.stream && (
        r.max_output_tokens matches Some(n) ==> q.ask().max_tokens == n) && (
        r.temperature matches Some(t) ==> q.ask().temperature == t) && (q.asks_something()
            <==> any_not_system(r.conversation())),
{
}

/// A reply is told in the shape that the client speaks, with its id and the
/// model that answered.
pub proof fn law_a_reply_names_who_answered(
    shape: Shape,
    id: Seq<char>,
    model: Seq<char>,
    r: Reply,
    created: i64,
)
    ensures
        reply_body(shape, id, model, r, created).get("id"@) == Some(Tree::Text(id)),
        reply_body(shape, id, model, r, created).get("model"@) == Some(Tree::Text(model)),
        shape == Shape::Anthropic ==> reply_body(shape, id, model, r, created).get("type"@) == Some(
            Tree::Text("message"@),
        ),
        shape == Shape::OpenAi ==> reply_body(shape, id, model, r, created).get("object"@) == Some(
            Tree::Text("chat.completion"@),
        ),
        shape == Shape::Responses ==> reply_body(shape, id, model, r, created).get("object"@)
            == Some(Tree::Text("response"@)),
{
    broadcast use lemma_one_more_field;

    reveal_strlit("id");
    reveal_strlit("type");
    reveal_strlit("role");
    reveal_strlit("model");
    reveal_strlit("content");
    reveal_strlit("stop_reason");
    reveal_strlit("stop_sequence");
    reveal_strlit("usage");
    reveal_strlit("object");
    reveal_strlit("created");
    reveal_strlit("created_at");
    reveal_strlit("choices");
    reveal_strlit("status");
    reveal_strlit("error");
    reveal_strlit("incomplete_details");
    reveal_strlit("output");
    reveal_strlit("output_text");
    assert("id"@.len() == 2);
    assert("type"@.len() == 4);
    assert("role"@.len() == 4);
    assert("model"@.len() == 5);
    assert("content"@.len() == 7);
    assert("stop_reason"@.len() == 11);
    assert("stop_sequence"@.len() == 13);
    assert("usage"@.len() == 5);
    assert("object"@.len() == 6);
    assert("created"@.len() == 7);
    assert("created_at"@.len() == 10);
    assert("choices"@.len() == 7);
    assert("status"@.len() == 6);
    assert("error"@.len() == 5);
    assert("incomplete_details"@.len() == 18);
    assert("output"@.len() == 6);
    assert("output_text"@.len() == 11);
    assert("type"@[0] == 't');
    assert("role"@[0] == 'r');
    assert("model"@[0] == 'm');
    assert("usage"@[0] == 'u');
    assert("error"@[0] == 'e');
    assert("content"@[1] == 'o');
    assert("created"@[1] == 'r');
    assert("choices"@[1] == 'h');
    assert("stop_reason"@[0] == 's');
    assert("output_text"@[0] == 'o');
    assert("object"@[0] == 'o');
    assert("status"@[0] == 's');
    assert("object"@[1] == 'b');
    assert("output"@[1] == 'u');
    assert("output"@[0] == 'o');
}

/// A request for a model nobody serves is answered by one on offer, unless that
/// is switched off or there is none; it is refused as not found otherwise.
pub proof fn law_when_another_model_answers(
    r: Result<TakenUp, AppError>,
    options: Seq<ModelOption>,
    asked: Seq<char>,
    substitute: bool,
    preferred: Option<Seq<char>>,
)
    requires
        is_stand_in(r, options, asked, substitute, preferred),
    ensures
        substitute && options.len() > 0 ==> r is Ok,
        !substitute || options.len() == 0 ==> (r matches Err(e) && e@ is NotFound),
        r matches Ok(t) ==> exists|i: int|
            0 <= i < options.len() && (#[trigger] options[i]).model@ == t.served@
                && options[i].peer_id@ == t.peer_id@,
        r matches Ok(t) ==> (preferred matches Some(want) && model_names(options).contains(want)
            ==> t.served@ == preferred.unwrap()),
        r matches Ok(t) ==> (preferred is None ==> t.served@ == options[0].model@ && t.peer_id@
            == options[0].peer_id@),
{
    if let Ok(t) = r {
        let i = choose|i: int|
            #[trigger] is_pick(options, preferred, i) && t.served@ == options[i].model@
                && t.peer_id@ == options[i].peer_id@;
        assert(0 <= i < options.len());
        assert(options[i].model@ == t.served@);
        if preferred is Some && model_names(options).contains(preferred.unwrap()) {
            assert(model_names(options)[i] == options[i].model@);
        }
    }
}

/// The endpoint is reached on this machine, at its port, and nowhere else.
pub proof fn law_the_endpoint_is_on_this_machine(port: u16)
    ensures
        starts_with(loopback_url(port), "http://127.0.0.1:"@),
        parsed(loopback_url(port).skip(17), 10) == Some(port as u64),
{
    reveal_strlit("http://127.0.0.1:");
    assert("http://127.0.0.1:"@.len() == 17);
    crate::laws::texts::law_the_rest_follows_the_prefix(
        "http://127.0.0.1:"@,
        decimal(port as nat),
    );
    crate::laws::texts::law_a_number_is_read_back(port as u64);
}

} // verus!
