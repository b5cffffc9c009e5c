//! The worker inside this process: what it says of a job, and in what order.
use vstd::prelude::*;
use vstd::utf8::encode_utf8;

use crate::json::Tree;
use crate::laws::replies::lemma_one_more_field;
use crate::mock::{
    closing, cut, halved, in_pieces, is_said, last_prompt, mock_text, mock_thinking, model_or,
    not_empty, opening, picture_meta, picture_seed, picture_steps, plays, seed_of, Said, Step,
};
use crate::net::WorkerMessage;
use crate::protocol::{ChatMessage, JobKind, JobResult, JobStatus};
use crate::store::peers::{knows_id, mock_listed};
use crate::store::{Peer, MOCK_ENDPOINT, MOCK_PEER_ID, SOURCE_MANUAL};
use crate::text::{contains, decimal, trimmed};

verus! {

broadcast use vstd::string::group_string_axioms;

/// The words that some steps tell, one after another.
pub open spec fn spoken(steps: Seq<Step>) -> Seq<char>
    decreases steps.len(),
{
    if steps.len() == 0 {
        seq![]
    } else {
        spoken(steps.drop_last()) + match steps.last().message {
            WorkerMessage::JobDelta(d) => d.text@,
            _ => seq![],
        }
    }
}

/// The thoughts that some steps tell, one after another.
pub open spec fn thought(steps: Seq<Step>) -> Seq<char>
    decreases steps.len(),
{
    if steps.len() == 0 {
        seq![]
    } else {
        thought(steps.drop_last()) + match steps.last().message {
            WorkerMessage::JobDelta(d) => d.thinking@,
            _ => seq![],
        }
    }
}

/// Some pieces put together.
pub open spec fn whole(v: Seq<Seq<char>>) -> Seq<char>
    decreases v.len(),
{
    if v.len() == 0 {
        seq![]
    } else {
        whole(v.drop_last()) + v.last()
    }
}

/// The pieces that a run of a text tells, put together, are the thoughts and
/// the text; it begins in the queue, and ends with its result and done.
pub proof fn law_a_run_tells_the_whole_text(
    steps: Seq<Step>,
    thoughts: Seq<Seq<char>>,
    words: Seq<Seq<char>>,
    result: JobResult,
)
    requires
        plays(
            steps,
            opening() + in_pieces(thoughts, true) + in_pieces(words, false) + closing(),
            result,
        ),
    ensures
        spoken(steps) == whole(words),
        thought(steps) == whole(thoughts),
        steps.len() >= 4,
        steps[0].message matches WorkerMessage::JobStatus(s) && s.status == JobStatus::Queued
            && s.job_id == result.job_id && s.progress == 0,
        steps[1].message matches WorkerMessage::JobStatus(s) && s.status == JobStatus::Running
            && s.job_id == result.job_id,
        steps[steps.len() - 2].message == WorkerMessage::JobResult(result),
        steps.last().message matches WorkerMessage::JobStatus(s) && s.status == JobStatus::Done
            && s.job_id == result.job_id && s.error is None,
{
    let a = opening();
    let b = in_pieces(thoughts, true);
    let c = in_pieces(words, false);
    let d = closing();
    let script = a + b + c + d;
    let n = steps.len() as int;
    assert(is_said(steps[0], script[0], result));
    assert(script[0] == a[0] && script[1] == a[1]);
    assert(is_said(steps[1], script[1], result));
    assert(script[n - 2] == d[0] && script[n - 1] == d[1]);
    assert(is_said(steps[n - 2], script[n - 2], result));
    assert(is_said(steps[n - 1], script[n - 1], result));
    let s3 = steps.drop_last();
    let s2 = s3.drop_last();
    lemma_plays_front(steps, script, result);
    lemma_plays_front(s3, script.drop_last(), result);
    assert(script.drop_last().drop_last() =~= a + b + c);
    assert(steps.last() == steps[n - 1] && s3.last() == steps[n - 2]);
    assert(spoken(steps) =~= spoken(s3) && spoken(s3) =~= spoken(s2));
    assert(thought(steps) =~= thought(s3) && thought(s3) =~= thought(s2));
    lemma_words_of(s2, a + b, words, result);
    let s1 = s2.take((a + b).len() as int);
    lemma_thoughts_of(s1, a, thoughts, result);
    let s0 = s1.take(2);
    assert(s0.drop_last().drop_last() =~= Seq::<Step>::empty());
    assert(is_said(s0[0], a[0], result));
    assert(is_said(s0[1], a[1], result));
    reveal_with_fuel(spoken, 3);
    reveal_with_fuel(thought, 3);
    assert(spoken(s0) =~= Seq::<char>::empty());
    assert(thought(s0) =~= Seq::<char>::empty());
    assert(spoken(s2) =~= whole(words));
    assert(thought(s2) =~= whole(thoughts));
}

proof fn lemma_plays_front(steps: Seq<Step>, script: Seq<(Said, u64)>, result: JobResult)
    requires
        plays(steps, script, result),
        steps.len() > 0,
    ensures
        plays(steps.drop_last(), script.drop_last(), result),
        is_said(steps.last(), script.last(), result),
{
    assert forall|i: int| 0 <= i < steps.len() - 1 implies is_said(
        #[trigger] steps.drop_last()[i],
        script.drop_last()[i],
        result,
    ) by {
        assert(is_said(steps[i], script[i], result));
    }
    assert(is_said(steps[steps.len() - 1], script[steps.len() - 1], result));
}

proof fn lemma_words_of(
    steps: Seq<Step>,
    front: Seq<(Said, u64)>,
    words: Seq<Seq<char>>,
    result: JobResult,
)
    requires
        plays(steps, front + in_pieces(words, false), result),
    ensures
        steps.len() >= front.len(),
        plays(steps.take(front.len() as int), front, result),
        spoken(steps) == spoken(steps.take(front.len() as int)) + whole(words),
        thought(steps) == thought(steps.take(front.len() as int)),
    decreases words.len(),
{
    let script = front + in_pieces(words, false);
    let n = front.len() as int;
    if words.len() == 0 {
        assert(steps.take(n) =~= steps);
        assert(script =~= front);
        assert(whole(words) =~= Seq::<char>::empty());
        assert(spoken(steps) + whole(words) =~= spoken(steps));
    } else {
        let rest = words.drop_last();
        let before = in_pieces(rest, false);
        if words.last().len() == 0 {
            lemma_words_of(steps, front, rest, result);
            assert(words.last() =~= Seq::<char>::empty());
            assert(whole(words) =~= whole(rest));
        } else {
            lemma_plays_front(steps, script, result);
            assert(script.drop_last() =~= front + before);
            lemma_words_of(steps.drop_last(), front, rest, result);
            assert(steps.drop_last().take(n) =~= steps.take(n));
            assert(spoken(steps) =~= spoken(steps.take(n)) + whole(words));
            assert(thought(steps) =~= thought(steps.take(n)));
        }
    }
}

proof fn lemma_thoughts_of(
    steps: Seq<Step>,
    front: Seq<(Said, u64)>,
    words: Seq<Seq<char>>,
    result: JobResult,
)
    requires
        plays(steps, front + in_pieces(words, true), result),
    ensures
        steps.len() >= front.len(),
        plays(steps.take(front.len() as int), front, result),
        thought(steps) == thought(steps.take(front.len() as int)) + whole(words),
        spoken(steps) == spoken(steps.take(front.len() as int)),
    decreases words.len(),
{
    let script = front + in_pieces(words, true);
    let n = front.len() as int;
    if words.len() == 0 {
        assert(steps.take(n) =~= steps);
        assert(script =~= front);
        assert(whole(words) =~= Seq::<char>::empty());
        assert(thought(steps) + whole(words) =~= thought(steps));
    } else {
        let rest = words.drop_last();
        let before = in_pieces(rest, true);
        if words.last().len() == 0 {
            lemma_thoughts_of(steps, front, rest, result);
            assert(words.last() =~= Seq::<char>::empty());
            assert(whole(words) =~= whole(rest));
        } else {
            lemma_plays_front(steps, script, result);
            assert(script.drop_last() =~= front + before);
            lemma_thoughts_of(steps.drop_last(), front, rest, result);
            assert(steps.drop_last().take(n) =~= steps.take(n));
            assert(thought(steps) =~= thought(steps.take(n)) + whole(words));
            assert(spoken(steps) =~= spoken(steps.take(n)));
        }
    }
}

/// Two halves, put together, are the whole, and so are those of them that hold
/// anything.
pub proof fn law_halves_make_the_whole(s: Seq<char>, a: Seq<char>, b: Seq<char>)
    requires
        halved(s, a, b),
    ensures
        whole(seq![a, b]) == s,
        whole(not_empty(seq![a, b])) == s,
        2 * encode_utf8(a).len() + 1 >= encode_utf8(s).len(),
{
    let two = seq![a, b];
    let one = seq![a];
    let none = Seq::<Seq<char>>::empty();
    assert(two.drop_last() =~= one);
    assert(one.drop_last() =~= none);
    reveal_with_fuel(whole, 3);
    reveal_with_fuel(not_empty, 3);
    assert(whole(none) =~= Seq::<char>::empty());
    assert(whole(one) =~= a);
    assert(whole(two) =~= a + b);
    if a.len() == 0 {
        assert(a =~= Seq::<char>::empty());
        assert(a + b =~= b);
        assert(not_empty(one) =~= none);
        if b.len() > 0 {
            assert(not_empty(two) =~= seq![b]);
            assert(seq![b].drop_last() =~= none);
            assert(whole(seq![b]) =~= b);
        } else {
            assert(b =~= Seq::<char>::empty());
        }
    } else {
        assert(not_empty(one) =~= one);
        if b.len() > 0 {
            assert(not_empty(two) =~= two);
        } else {
            assert(b =~= Seq::<char>::empty());
            assert(a + b =~= a);
            assert(not_empty(two) =~= one);
        }
    }
}

/// A run of a picture counts up, step by step, and ends with its result and
/// done.
pub proof fn law_a_picture_comes_in_steps(steps: Seq<Step>, result: JobResult, k: int)
    requires
        plays(steps, opening() + picture_steps(6) + closing(), result),
        2 <= k < 7,
    ensures
        steps.len() == 10,
        steps[k].message matches WorkerMessage::JobStatus(a) && a.status == JobStatus::Running
            && a.job_id == result.job_id && (steps[k + 1].message matches WorkerMessage::JobStatus(
            b,
        ) && b.status == JobStatus::Running && a.progress < b.progress),
        steps[4].message matches WorkerMessage::JobStatus(h) && h.progress == 0x3f00_0000u32,
        steps[7].message matches WorkerMessage::JobStatus(l) && l.progress == 0x3f80_0000u32,
        steps[8].message == WorkerMessage::JobResult(result),
        steps[9].message matches WorkerMessage::JobStatus(s) && s.status == JobStatus::Done,
{
    let script = opening() + picture_steps(6) + closing();
    assert(is_said(steps[k], script[k], result));
    assert(is_said(steps[k + 1], script[k + 1], result));
    assert(is_said(steps[4], script[4], result));
    assert(is_said(steps[7], script[7], result));
    assert(is_said(steps[8], script[8], result));
    assert(is_said(steps[9], script[9], result));
}

/// A text that is not too long is told whole; a longer one is cut, and marked.
pub proof fn law_a_long_text_is_cut(s: Seq<char>, max: nat)
    ensures
        s.len() <= max ==> cut(s, max) == s,
        s.len() > max ==> cut(s, max).len() == max + 1 && cut(s, max).take(max as int) == s.take(
            max as int,
        ) && cut(s, max).last() == '…',
{
    reveal_strlit("…");
    assert("…"@.len() == 1 && "…"@[0] == '…');
    if s.len() > max {
        assert(cut(s, max).take(max as int) =~= s.take(max as int));
    }
}

/// What is answered is the last that the user said, whatever was said after it
/// by others.
pub proof fn law_the_last_of_the_user_is_answered(ms: Seq<ChatMessage>, m: ChatMessage)
    ensures
        m.role@ == "user"@ ==> last_prompt(ms.push(m)) == trimmed(m.content@),
        m.role@ != "user"@ ==> last_prompt(ms.push(m)) == last_prompt(ms),
{
    assert(ms.push(m).drop_last() =~= ms);
}

/// The answer holds the prompt, the model and how long it may be.
pub proof fn law_an_answer_tells_what_was_asked(
    prompt: Seq<char>,
    model: Seq<char>,
    max_tokens: u32,
    temperature: Seq<char>,
)
    ensures
        contains(mock_text(prompt, model, max_tokens, temperature), cut(prompt, 240)),
        contains(mock_text(prompt, model, max_tokens, temperature), "\nmodel: "@ + model),
        contains(
            mock_text(prompt, model, max_tokens, temperature),
            "\nmax_tokens: "@ + decimal(max_tokens as nat),
        ),
        contains(mock_text(prompt, model, max_tokens, temperature), temperature),
        contains(mock_thinking(prompt), cut(prompt, 80)),
{
    let p = "[mock worker] no weights were loaded; this response is generated locally.\n\nprompt ("@
        + decimal(prompt.len()) + " chars): "@;
    let q = "\n\nPoint rootmode at a real peer to get real inference. The message shape, the job id and the sha256 below are identical to what a real worker returns."@;
    let c = cut(prompt, 240);
    let m = "\nmodel: "@ + model;
    let t = "\nmax_tokens: "@ + decimal(max_tokens as nat);
    let w = "  temperature: "@;
    let all = mock_text(prompt, model, max_tokens, temperature);
    assert(all =~= p + c + (m + t + w + temperature + q));
    crate::text::lemma_contains_middle(p, c, m + t + w + temperature + q);
    assert(all =~= p + c + m + (t + w + temperature + q));
    crate::text::lemma_contains_middle(p + c, m, t + w + temperature + q);
    assert(all =~= p + c + m + t + (w + temperature + q));
    crate::text::lemma_contains_middle(p + c + m, t, w + temperature + q);
    assert(all =~= p + c + m + t + w + temperature + q);
    crate::text::lemma_contains_middle(p + c + m + t + w, temperature, q);
    crate::text::lemma_contains_middle(
        "The user asked: "@,
        cut(prompt, 80),
        ". I'll answer as the mock worker."@,
    );
}

/// What is told of a picture is its model, its seed and its size.
pub proof fn law_a_picture_tells_its_size(model: Seq<char>, seed: u64, width: u32, height: u32)
    ensures
        ({
            let t = picture_meta(model, seed, width, height);
            &&& t.get("model"@) == Some(Tree::Text(model))
            &&& t.get("seed"@) == Some(Tree::Number(seed))
            &&& t.get("width"@) matches Some(Tree::Number(w)) && w == width
            &&& t.get("height"@) matches Some(Tree::Number(h)) && h == height
            &&& t.get("mock"@) == Some(Tree::Bool(true))
        }),
{
    broadcast use lemma_one_more_field;

    reveal_strlit("model");
    reveal_strlit("seed");
    reveal_strlit("width");
    reveal_strlit("height");
    reveal_strlit("mock");
    assert("model"@.len() == 5);
    assert("seed"@.len() == 4);
    assert("width"@.len() == 5);
    assert("height"@.len() == 6);
    assert("mock"@.len() == 4);
    assert("model"@[0] == 'm');
    assert("width"@[0] == 'w');
    assert("seed"@[0] == 's');
    assert("mock"@[0] == 'm');
}

/// The named model answers where one is named.
pub proof fn law_the_named_model_answers(id: Seq<char>, other: Seq<char>)
    ensures
        model_or(Some(id), other) == id,
        model_or(None, other) == other,
{
}

/// A picture that starts from another is drawn from both; one that starts from
/// its own words twice is drawn from nothing.
pub proof fn law_a_picture_is_drawn_from_what_it_starts_with(prompt: Seq<char>, from: Seq<char>)
    ensures
        picture_seed(prompt, None) == seed_of(prompt),
        picture_seed(prompt, Some(from)) == picture_seed(from, Some(prompt)),
        picture_seed(prompt, Some(prompt)) == 0,
        seed_of(from) == 0 ==> picture_seed(prompt, Some(from)) == seed_of(prompt),
{
    let a = seed_of(prompt);
    let b = seed_of(from);
    assert(a ^ b == b ^ a) by (bit_vector);
    assert(a ^ a == 0) by (bit_vector);
    assert(b == 0 ==> a ^ b == a) by (bit_vector);
}

/// The worker in this process is listed once it is wanted: online, with a text,
/// a picture and a film model; no other peer is touched.
pub proof fn law_the_worker_here_is_listed(was: Seq<Peer>, is: Seq<Peer>, now: i64, i: int)
    requires
        mock_listed(was, is, now),
    ensures
        exists|k: int|
            0 <= k < is.len() && (#[trigger] is[k]).id@ == MOCK_PEER_ID@ && is[k].status@
                == "online"@ && is[k].models@.len() == 3,
        0 <= i < was.len() && was[i].id@ != MOCK_PEER_ID@ ==> i < is.len() && is[i] == was[i],
        0 <= i < was.len() && was[i].id@ == MOCK_PEER_ID@ ==> is.len() == was.len() && is[i].id
            == was[i].id && is[i].endpoint == was[i].endpoint && is[i].models@[0].kind
            == JobKind::Llm && is[i].models@[1].kind == JobKind::Image && is[i].models@[2].kind
            == JobKind::Video,
        !knows_id(was, MOCK_PEER_ID@) ==> is.len() == was.len() + 1 && is.last().endpoint@
            == MOCK_ENDPOINT@ && is.last().id@ == MOCK_PEER_ID@ && is.last().source@
            == SOURCE_MANUAL@ && is.last().added_at == now && is.last().max_concurrent == 2
            && is.last().payout is None,
        exists|k: int|
            0 <= k < is.len() && (#[trigger] is[k]).id@ == MOCK_PEER_ID@ && is[k].models@[0].listed()
                == 2000 && is[k].models@[1].listed() == 2 && is[k].models@[2].listed() == 0,
        knows_id(was, MOCK_PEER_ID@) ==> is.len() == was.len(),
{
    if knows_id(was, MOCK_PEER_ID@) {
        let k = choose|k: int| 0 <= k < was.len() && (#[trigger] was[k]).id@ == MOCK_PEER_ID@;
        assert(is[k].id@ == MOCK_PEER_ID@);
        if 0 <= i < was.len() {
            assert(is[i] == is[i]);
        }
    } else {
        assert(is[is.len() - 1].id@ == MOCK_PEER_ID@);
    }
}

} // verus!
