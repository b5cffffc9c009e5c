//! A job on its way: to whom it goes, what is heard of it, and what is kept.
use vstd::prelude::*;

use crate::jobs::{
    asked_of, asks_for, breaks_invoice, can_run, gave_nothing, reported_total, route_of, speaks,
    with_room, workable, Apply, Attempt, Route,
};
use crate::json::Tree;
use crate::net::{
    endpoint_fault, is_key, key_allowed, meant, socket_fault, Connection, WorkerMessage,
};
use crate::p2p::{key_in, others, others_once};
use crate::pipeline::{is_done, is_queued, is_stirred};
use crate::protocol::{opt, JobKind, JobPayload, JobResult, JobStatus, ModelDescriptor};
use crate::store::{Chat, JobRecord, Peer};
use crate::text::{blank, contains, lower, lowercased, trimmed};

verus! {

broadcast use vstd::string::group_string_axioms;

// ------------------------------------------------------------------ sending

/// A ceiling below 8192 tokens is raised to it, and no other is changed;
/// nothing else of the request is.
pub proof fn law_a_ceiling_is_raised_to_8192(p: JobPayload, n: u32)
    ensures
        n >= 8192 ==> workable(n) == n,
        n < 8192 ==> workable(n) == 8192,
        !(p is Llm) ==> with_room(p) == p,
        p matches JobPayload::Llm(a) ==> with_room(p) matches JobPayload::Llm(b) && b.messages
            == a.messages && b.tools == a.tools && b.model_id == a.model_id && b.model_hash
            == a.model_hash && b.temperature == a.temperature && b.max_tokens == workable(
            a.max_tokens,
        ),
{
}

/// A request handed to another model names that model and asks the same.
pub proof fn law_a_request_is_put_to_another_model(p: JobPayload, model: Seq<char>, r: JobPayload)
    requires
        asked_of(p, model, r),
    ensures
        !(p is Llm) ==> r == p,
        p matches JobPayload::Llm(a) ==> {
            &&& a.model_id is None ==> r == p
            &&& a.model_id is Some ==> (r matches JobPayload::Llm(b) && opt(b.model_id) == Some(
                model,
            ) && b@.messages == a@.messages && b@.tools == a@.tools && b.max_tokens
                == a.max_tokens && b.temperature == a.temperature)
        },
{
}

/// What a peer asks for a model is the price of the first one it lists that
/// answers to the name, and nothing where that is free.
pub proof fn law_the_asked_price_is_the_listed_one(
    ms: Seq<ModelDescriptor>,
    model: Seq<char>,
    j: int,
)
    requires
        0 <= j < ms.len(),
        ms[j].id@ == model || (ms[j].id@.len() <= model.len() && model.take(
            ms[j].id@.len() as int,
        ) == ms[j].id@),
        forall|k: int|
            0 <= k < j ==> (#[trigger] ms[k]).id@ != model && !(ms[k].id@.len() <= model.len()
                && model.take(ms[k].id@.len() as int) == ms[k].id@),
    ensures
        ms[j].price is None ==> asks_for(ms, model) is None,
        ms[j].price matches Some(p) ==> p.micros > 0 ==> asks_for(ms, model) == Some(p.micros),
        ms[j].price matches Some(p) ==> p.micros == 0 ==> asks_for(ms, model) is None,
    decreases ms.len(),
{
    if j > 0 {
        assert(ms[0].id@ != model);
        let rest = ms.drop_first();
        assert forall|k: int| 0 <= k < j - 1 implies (#[trigger] rest[k]).id@ != model && !(
        rest[k].id@.len() <= model.len() && model.take(rest[k].id@.len() as int)
            == rest[k].id@) by {
            assert(rest[k] == ms[k + 1]);
        }
        law_the_asked_price_is_the_listed_one(rest, model, j - 1);
    }
}

/// The worker of this process is reached in the process, an address that
/// begins with a slash by that address, a key over the network, and anything
/// else by a socket.
pub proof fn law_how_a_peer_is_reached(s: Seq<char>)
    ensures
        route_of("mock://local"@) == Route::InProcess,
        route_of("/"@ + s) == Route::Address,
        route_of("p2p://"@ + s) == Route::Network,
        s.len() > 0 && s[0] == 'w' ==> route_of(s) == Route::Socket,
{
    reveal_strlit("mock://local");
    reveal_strlit("/");
    reveal_strlit("p2p://");
    assert("mock://local"@.len() == 12 && "/"@.len() == 1 && "p2p://"@.len() == 6);
    let a = "/"@ + s;
    assert(a[0] == '/' && "mock://local"@[0] == 'm');
    assert(a.take(1) =~= "/"@);
    let b = "p2p://"@ + s;
    assert(b[0] == 'p');
    assert(b.take(6) =~= "p2p://"@);
    assert(b.take(1)[0] == 'p');
    assert("/"@[0] == '/');
    if s.len() > 0 && s[0] == 'w' {
        if s.len() >= 6 {
            assert(s.take(6)[0] == 'w');
            assert("p2p://"@[0] == 'p');
        }
        assert(s.take(1)[0] == 'w');
    }
}

/// A peer runs the kinds of job it says it can, and any where it says nothing.
pub proof fn law_a_peer_runs_what_it_says(caps: Seq<Seq<char>>)
    ensures
        can_run(seq![], JobKind::Llm) && can_run(seq![], JobKind::Image) && can_run(
            seq![],
            JobKind::Video,
        ),
        caps.len() > 0 ==> {
            &&& can_run(caps, JobKind::Llm) <==> caps.contains("llm"@)
            &&& can_run(caps, JobKind::Image) <==> caps.contains("image"@)
            &&& can_run(caps, JobKind::Video) <==> caps.contains("video"@)
        },
{
}

/// A queued job is put down for the peer it goes to, with the request as it is
/// sent; it has not begun.
pub proof fn law_a_queued_job_has_not_begun(
    j: JobRecord,
    id: u128,
    chat: Option<Seq<char>>,
    peer: Peer,
    payload: JobPayload,
    summary: Seq<char>,
    model: Seq<char>,
    now: i64,
)
    requires
        is_queued(j, id, chat, peer, payload, summary, model, now),
    ensures
        j.job_id == id && opt(j.conversation_id) == chat,
        j.peer_id@ == peer.id@ && j.peer_label@ == peer.label@,
        j.status == JobStatus::Queued && j.progress == 0 && j.error is None,
        j.created_at == now && j.updated_at == now,
        j.model@ == model && j.summary@ == summary,
        j.payload matches JobPayload::Llm(p) ==> p.max_tokens >= 8192,
{
}

// ------------------------------------------------------------------ hearing

/// Words reach the user only from a piece of this job that holds some.
pub proof fn law_only_words_of_this_job_are_spoken(job_id: u128, m: WorkerMessage)
    ensures
        !(m is JobDelta) ==> !speaks(job_id, m),
        m matches WorkerMessage::JobDelta(d) ==> (speaks(job_id, m) <==> d.job_id == job_id
            && !d.says_nothing()),
{
}

/// A provider gave nothing where it failed the job or sent an empty answer
/// before a word reached the user; words, a picture or a tool call are
/// something.
pub proof fn law_when_a_provider_gave_nothing(a: Attempt, m: WorkerMessage)
    ensures
        a.spoke || a.terminal ==> gave_nothing(a, m) is None,
        m matches WorkerMessage::JobStatus(s) ==> s.job_id == a.job_id && s.status
            == JobStatus::Failed && !a.spoke && !a.terminal ==> {
            &&& gave_nothing(a, m) is Some
            &&& s.error matches Some(why) ==> gave_nothing(a, m) == Some(why@)
        },
        m matches WorkerMessage::JobStatus(s) ==> s.status != JobStatus::Failed ==> gave_nothing(
            a,
            m,
        ) is None,
        m matches WorkerMessage::JobResult(r) ==> {
            &&& r.tool_calls@.len() > 0 ==> gave_nothing(a, m) is None
            &&& r.kind != JobKind::Llm ==> gave_nothing(a, m) is None
            &&& r.text matches Some(t) ==> !blank(t@) ==> gave_nothing(a, m) is None
            &&& r.job_id == a.job_id && r.kind == JobKind::Llm && r.tool_calls@.len() == 0
                && r.text is None && !a.spoke && !a.terminal ==> gave_nothing(a, m) is Some
        },
        m is JobDelta || m is JobInvoice || m is PeerAnnounce || m is Unknown ==> gave_nothing(
            a,
            m,
        ) is None,
{
}

/// A job ends with its result, or with a status that says so.
pub proof fn law_what_ends_a_job(a: Apply)
    ensures
        a is Result ==> a.ends(),
        a is Ignore || a is Delta ==> !a.ends(),
        a matches Apply::Status { status, progress, error } ==> (a.ends() <==> status
            == JobStatus::Done || status == JobStatus::Failed),
{
}

/// A result that does not have the hash of the paid invoice breaks it; letters
/// in capitals or not are the same.
pub proof fn law_a_result_keeps_to_its_invoice(expected: Seq<char>, claimed: Seq<char>)
    ensures
        expected.len() > 0 ==> (breaks_invoice(Some(expected), claimed) <==> lower(expected)
            != lower(claimed)),
        !breaks_invoice(None, claimed),
        !breaks_invoice(Some(expected), expected),
        !breaks_invoice(Some(seq![]), claimed),
{
}

/// The tokens a reply is filed with are the total the result reports, or else
/// those of the answer.
pub proof fn law_a_reply_counts_its_total(meta: Tree)
    ensures
        meta.get("total_tokens"@) matches Some(Tree::Number(n)) ==> reported_total(meta) == Some(n),
        meta.get("total_tokens"@) is None ==> (meta.get("completion_tokens"@) matches Some(
            Tree::Number(n),
        ) ==> reported_total(meta) == Some(n)),
        meta.get("total_tokens"@) is None && meta.get("completion_tokens"@) is None
            ==> reported_total(meta) is None,
{
}

/// A finished job is done, whole, and every other job is as it was.
pub proof fn law_only_the_finished_job_is_done(
    was: Seq<JobRecord>,
    is: Seq<JobRecord>,
    id: u128,
    now: i64,
    i: int,
)
    requires
        is_done(was, is, id, now),
        0 <= i < was.len(),
    ensures
        is.len() == was.len(),
        was[i].job_id == id ==> is[i].status == JobStatus::Done && is[i].progress == 0x3f80_0000u32
            && is[i].job_id == id && is[i].payload == was[i].payload && is[i].updated_at == now,
        was[i].job_id != id ==> is[i] == was[i],
{
    assert(is[i] == is[i]);
}

/// A chat in which something happened moves up, and no other does.
pub proof fn law_only_the_stirred_chat_moves(
    was: Seq<Chat>,
    is: Seq<Chat>,
    id: Seq<char>,
    now: i64,
    i: int,
)
    requires
        is_stirred(was, is, id, now),
        0 <= i < was.len(),
    ensures
        is.len() == was.len(),
        was[i].id@ == id ==> is[i].updated_at == now && is[i].id == was[i].id && is[i].title
            == was[i].title && is[i].kind == was[i].kind && is[i].created_at == was[i].created_at,
        was[i].id@ != id ==> is[i] == was[i],
{
    assert(is[i] == is[i]);
}

// --------------------------------------------------------------- connection

/// A connection remembers a result of its own job and a reason for its
/// failure, and forgets neither.
pub proof fn law_a_connection_remembers(c: Connection, m: WorkerMessage)
    ensures
        c.after(m).job_id == c.job_id && c.after(m).asked_to_stop == c.asked_to_stop,
        c.got_result ==> c.after(m).got_result,
        c.said_why ==> c.after(m).said_why,
        m matches WorkerMessage::JobResult(r) ==> r.job_id == c.job_id ==> c.after(m).got_result
            && c.after(m).said_why == c.said_why,
        m matches WorkerMessage::JobStatus(s) ==> s.job_id == c.job_id ==> c.after(m).got_result
            == c.got_result && (c.after(m).said_why <==> c.said_why || s.status
            == JobStatus::Failed),
        !(m is JobResult) && !(m is JobStatus) ==> c.after(m) == c,
{
}

/// A message is about the job it names; an announcement is about none.
pub proof fn law_a_message_is_about_its_job(m: WorkerMessage)
    ensures
        m matches WorkerMessage::JobStatus(s) ==> m.job() == Some(s.job_id),
        m matches WorkerMessage::JobResult(r) ==> m.job() == Some(r.job_id),
        m matches WorkerMessage::JobDelta(d) ==> m.job() == Some(d.job_id),
        m matches WorkerMessage::JobInvoice(i) ==> m.job() == Some(i.job_id),
        m is PeerAnnounce || m is Unknown ==> m.job() is None,
{
}

// ---------------------------------------------------------------- addresses

/// A pinned key allows itself, however it is written, and no other; without
/// one any key is allowed.
pub proof fn law_a_pinned_key_allows_only_itself(pinned: Seq<char>, actual: Seq<char>)
    ensures
        key_allowed(None, actual),
        key_allowed(Some(pinned), pinned),
        key_allowed(Some(pinned), actual) ==> lower(pinned) == lower(actual),
        pinned.len() != actual.len() ==> !key_allowed(Some(pinned), actual),
{
    if key_allowed(Some(pinned), actual) {
        assert(lower(pinned).len() == pinned.len());
        assert(lower(actual).len() == actual.len());
    }
}

/// What a user types is understood: an address with a scheme or a slash as it
/// is, a bare key as a peer of the network, anything else as a socket's host.
pub proof fn law_what_is_typed_is_understood(input: Seq<char>)
    ensures
        contains(trimmed(input), "://"@) ==> meant(input) == trimmed(input),
        trimmed(input).len() > 0 && trimmed(input)[0] == '/' ==> meant(input) == trimmed(input),
        is_key(trimmed(input)) && !contains(trimmed(input), "://"@) && trimmed(input)[0] != '/'
            ==> meant(input) == "p2p://"@ + lowercased(trimmed(input)),
        !is_key(trimmed(input)) && !contains(trimmed(input), "://"@) && (trimmed(input).len() == 0
            || trimmed(input)[0] != '/') ==> meant(input) == "ws://"@ + trimmed(input),
{
    reveal_strlit("/");
    let t = trimmed(input);
    assert("/"@.len() == 1 && "/"@[0] == '/');
    if t.len() > 0 {
        assert(t.take(1) =~= seq![t[0]]);
        assert("/"@ =~= seq!['/']);
        if t[0] != '/' {
            assert(t.take(1)[0] == t[0]);
        }
    }
}

/// A socket is one of `ws` or `wss` with a host; nothing else is.
pub proof fn law_what_a_socket_is(s: Seq<char>, scheme: Seq<char>, host: Option<Seq<char>>)
    ensures
        socket_fault(s, Some((scheme, host))) is None <==> (scheme == "ws"@ || scheme == "wss"@)
            && (host matches Some(h) && h.len() > 0),
        socket_fault(s, None) is Some,
{
}

/// A peer of the network is named by a key; an address that begins with a
/// slash is judged as one.
pub proof fn law_what_an_endpoint_is(key: Seq<char>, rest: Seq<char>, address: Option<Seq<char>>)
    ensures
        endpoint_fault("p2p://"@ + key, address) is None <==> is_key(key),
        endpoint_fault("/"@ + rest, address) == address,
        key_in("p2p://"@ + key) == (if is_key(key) {
            Some(key)
        } else {
            None
        }),
{
    reveal_strlit("p2p://");
    reveal_strlit("/");
    let s = "p2p://"@ + key;
    assert("p2p://"@.len() == 6 && "/"@.len() == 1);
    assert(s.take(6) =~= "p2p://"@);
    assert(s.skip(6) =~= key);
    assert(s.take(1)[0] == 'p');
    assert("/"@[0] == '/');
    let a = "/"@ + rest;
    assert(a.take(1) =~= "/"@);
}

// ---------------------------------------------------------------- discovery

/// Whoever is asked was found and is not this client; whoever was found and is
/// not this client is asked; nobody whom the network names is asked twice.
pub proof fn law_everybody_else_is_asked(
    near: Seq<Seq<char>>,
    far: Seq<Seq<char>>,
    me: Seq<char>,
    id: Seq<char>,
)
    ensures
        others_once(others(near, me), far, me).contains(id) <==> id != me && (near.contains(id)
            || far.contains(id)),
        near.len() == 0 ==> others_once(others(near, me), far, me).no_duplicates(),
{
    lemma_others(near, me);
    lemma_others_once(others(near, me), far, me);
    if near.len() == 0 {
        assert(others(near, me).no_duplicates());
    }
}

proof fn lemma_others(found: Seq<Seq<char>>, me: Seq<char>)
    ensures
        forall|id: Seq<char>| #[trigger]
            others(found, me).contains(id) <==> id != me && found.contains(id),
    decreases found.len(),
{
    if found.len() > 0 {
        let front = found.drop_last();
        lemma_others(front, me);
        let rest = others(front, me);
        let all = others(found, me);
        assert forall|id: Seq<char>| #[trigger] all.contains(id) <==> id != me && found.contains(
            id,
        ) by {
            if all.contains(id) {
                let i = choose|i: int| 0 <= i < all.len() && all[i] == id;
                if i < rest.len() {
                    assert(rest[i] == id);
                    assert(rest.contains(id));
                    let j = choose|j: int| 0 <= j < front.len() && front[j] == id;
                    assert(found[j] == id);
                } else {
                    assert(found[found.len() - 1] == id);
                }
            }
            if id != me && found.contains(id) {
                let j = choose|j: int| 0 <= j < found.len() && found[j] == id;
                if j < front.len() {
                    assert(front[j] == id);
                    assert(rest.contains(id));
                    let i = choose|i: int| 0 <= i < rest.len() && rest[i] == id;
                    assert(all[i] == id);
                } else {
                    assert(all[all.len() - 1] == id);
                }
            }
        }
    }
}

proof fn lemma_others_once(known: Seq<Seq<char>>, found: Seq<Seq<char>>, me: Seq<char>)
    ensures
        forall|id: Seq<char>| #[trigger]
            others_once(known, found, me).contains(id) <==> known.contains(id) || (id != me
                && found.contains(id)),
        known.no_duplicates() ==> others_once(known, found, me).no_duplicates(),
    decreases found.len(),
{
    if found.len() > 0 {
        let front = found.drop_last();
        lemma_others_once(known, front, me);
        let rest = others_once(known, front, me);
        let all = others_once(known, found, me);
        assert forall|id: Seq<char>| #[trigger] all.contains(id) <==> known.contains(id) || (id
            != me && found.contains(id)) by {
            if all.contains(id) {
                let i = choose|i: int| 0 <= i < all.len() && all[i] == id;
                if i < rest.len() {
                    assert(rest[i] == id);
                    assert(rest.contains(id));
                    if !known.contains(id) {
                        let j = choose|j: int| 0 <= j < front.len() && front[j] == id;
                        assert(found[j] == id);
                    }
                } else {
                    assert(found[found.len() - 1] == id);
                }
            }
            if known.contains(id) || (id != me && found.contains(id)) {
                if !rest.contains(id) {
                    let j = choose|j: int| 0 <= j < found.len() && found[j] == id;
                    if j < front.len() {
                        assert(front[j] == id);
                    }
                    assert(found.last() == id);
                    assert(all[all.len() - 1] == id);
                } else {
                    let i = choose|i: int| 0 <= i < rest.len() && rest[i] == id;
                    assert(all[i] == id);
                }
            }
        }
        if known.no_duplicates() {
            assert forall|i: int, j: int|
                0 <= i < all.len() && 0 <= j < all.len() && i != j implies all[i] != all[j] by {
                if i < rest.len() && j < rest.len() {
                    assert(rest[i] != rest[j]);
                } else if i < rest.len() {
                    assert(rest.contains(rest[i]));
                } else if j < rest.len() {
                    assert(rest.contains(rest[j]));
                }
            }
        }
    }
}

} // verus!
