//! What the lists show of the rows that are kept, and what is left out.
use vstd::prelude::*;

use crate::protocol::{opt, JobKind};
use crate::results::ResultRecord;
use crate::store::history::{
    all_shown, called, chat_turn, chats_of, files_of, has_file, ids_of, in_chat, is_open, job_turn,
    last_said, not_about, not_in_chat, of_conversation, of_kind, other_chats, previewed,
    result_turn, shows, without_job,
};
use crate::store::laws::{law_a_listing_is_in_order, law_a_listing_loses_no_row};
use crate::store::peers::{alive, is_dead, not_mock, not_removed, or_else, or_kept, peer_turn};
use crate::store::spends::{
    are_bills, billed, billed_cost, billed_tokens, by_someone, covers, deposit_turn, first_cover,
    first_deposit, in_use, is_bill, is_usage_list, latest_turn, model_of, pays, reply_of, resolved,
    said_tokens, scan_start, spend_of, spend_turn, used_more,
};
use crate::store::tables::{kept, lemma_kept_members, listed, listed_up_to, sooner, Turn};
use crate::store::{
    setting_in, Chat, Conversation, Db, JobRecord, Message, ModelUsage, Peer, Settlement,
    SpendEntry, StoredDeposit,
};
use crate::protocol::JobStatus;
use crate::text::{lines, parsed};

verus! {

broadcast use vstd::string::group_string_axioms;

// ------------------------------------------------------------- in general

/// One more row is one more kept, at the end, where it is meant, and none
/// where it is not.
pub proof fn law_a_row_is_kept_where_it_is_meant<T>(rows: Seq<T>, row: T, keep: spec_fn(T) -> bool)
    ensures
        keep(row) ==> kept(rows.push(row), keep) == kept(rows, keep).push(row),
        !keep(row) ==> kept(rows.push(row), keep) == kept(rows, keep),
        kept(Seq::<T>::empty(), keep).len() == 0,
{
    assert(rows.push(row).drop_last() =~= rows);
}

proof fn lemma_cut<T>(rows: Seq<T>, key: spec_fn(T) -> Turn, limit: int, out: Seq<T>)
    requires
        listed_up_to(rows, key, limit, out),
        rows.len() <= usize::MAX,
        0 <= limit,
    ensures
        out.len() == (if limit < rows.len() {
            limit
        } else {
            rows.len() as int
        }),
        forall|i: int| 0 <= i < out.len() ==> rows.contains(#[trigger] out[i]),
        forall|i: int, j: int|
            0 <= i < j < out.len() ==> !sooner(key(#[trigger] out[j]), key(#[trigger] out[i])),
        forall|row: T, i: int| #[trigger]
            rows.contains(row) && !out.contains(row) && 0 <= i < out.len() ==> !sooner(
                key(row),
                key(#[trigger] out[i]),
            ),
{
    let full = choose|full: Seq<T>| #[trigger]
        listed(rows, key, full) && out == (if limit < full.len() {
            full.take(limit)
        } else {
            full
        });
    if full.len() > 0 {
        law_a_listing_loses_no_row(rows, key, full, full[0]);
    } else if rows.len() > 0 {
        law_a_listing_loses_no_row(rows, key, full, rows[0]);
    }
    assert forall|i: int| 0 <= i < out.len() implies rows.contains(#[trigger] out[i]) by {
        law_a_listing_loses_no_row(rows, key, full, out[i]);
        assert(full[i] == out[i]);
        assert(full.contains(out[i]));
    }
    assert forall|i: int, j: int| 0 <= i < j < out.len() implies !sooner(
        key(#[trigger] out[j]),
        key(#[trigger] out[i]),
    ) by {
        law_a_listing_is_in_order(rows, key, full, i, j);
    }
    assert forall|row: T, i: int| #[trigger]
        rows.contains(row) && !out.contains(row) && 0 <= i < out.len() implies !sooner(
        key(row),
        key(#[trigger] out[i]),
    ) by {
        law_a_listing_loses_no_row(rows, key, full, row);
        let m = choose|m: int| 0 <= m < full.len() && full[m] == row;
        if m < out.len() {
            assert(out[m] == row);
        }
        law_a_listing_is_in_order(rows, key, full, i, m);
    }
}

// -------------------------------------------------------------------- chats

/// A list of chats as it is given for a kind and a limit.
pub open spec fn chat_list(
    r: Seq<Conversation>,
    db: Db,
    kind: Option<Seq<char>>,
    limit: int,
) -> bool {
    exists|rows: Seq<Chat>| #[trigger]
        listed_up_to(kept(db.chats@, chats_of(kind)), chat_turn(), limit, rows) && all_shown(
            r,
            rows,
            db.messages@,
        )
}

/// What is listed is a chat of the kind, as it is kept.
pub open spec fn tells_of_a_chat(l: Conversation, db: Db, kind: Option<Seq<char>>) -> bool {
    exists|c: Chat|
        {
            &&& #[trigger] db.chats@.contains(c)
            &&& kind matches Some(k) ==> c.kind@ == k
            &&& l.id@ == c.id@ && l.title@ == c.title@ && l.kind@ == c.kind@
            &&& l.updated_at == c.updated_at && l.created_at == c.created_at
        }
}

/// In the list of chats the time something last happened never rises from one
/// to the next; a chat of the kind that the limit leaves out is no newer than
/// any that is listed; and nothing is listed that is not such a chat.
pub proof fn law_chats_are_listed_newest_first(
    r: Seq<Conversation>,
    db: Db,
    kind: Option<Seq<char>>,
    limit: int,
)
    requires
        chat_list(r, db, kind, limit),
        db.chats@.len() <= usize::MAX,
        0 <= limit,
    ensures
        r.len() <= limit,
        forall|i: int, j: int|
            0 <= i < j < r.len() ==> (#[trigger] r[i]).updated_at >= (#[trigger] r[j]).updated_at,
        forall|c: Chat| #[trigger]
            db.chats@.contains(c) && (kind matches Some(k) ==> c.kind@ == k) ==> {
                ||| exists|i: int| 0 <= i < r.len() && (#[trigger] r[i]).id@ == c.id@
                ||| r.len() == limit && forall|i: int|
                    0 <= i < r.len() ==> (#[trigger] r[i]).updated_at >= c.updated_at
            },
        forall|i: int| 0 <= i < r.len() ==> tells_of_a_chat(#[trigger] r[i], db, kind),
{
    let all = kept(db.chats@, chats_of(kind));
    lemma_kept_members(db.chats@, chats_of(kind));
    let rows = choose|rows: Seq<Chat>| #[trigger]
        listed_up_to(all, chat_turn(), limit, rows) && all_shown(r, rows, db.messages@);
    lemma_cut(all, chat_turn(), limit, rows);
    assert forall|i: int, j: int| 0 <= i < j < r.len() implies (#[trigger] r[i]).updated_at >= (
    #[trigger] r[j]).updated_at by {
        assert(shows(r[i], rows[i], db.messages@) && shows(r[j], rows[j], db.messages@));
        assert(!sooner(chat_turn()(rows[j]), chat_turn()(rows[i])));
    }
    assert forall|c: Chat| #[trigger]
        db.chats@.contains(c) && (kind matches Some(k) ==> c.kind@ == k) implies {
        ||| exists|i: int| 0 <= i < r.len() && (#[trigger] r[i]).id@ == c.id@
        ||| r.len() == limit && forall|i: int|
            0 <= i < r.len() ==> (#[trigger] r[i]).updated_at >= c.updated_at
    } by {
        assert(chats_of(kind)(c));
        assert(all.contains(c));
        if rows.contains(c) {
            let i = choose|i: int| 0 <= i < rows.len() && rows[i] == c;
            assert(shows(r[i], rows[i], db.messages@));
            assert(r[i].id@ == c.id@);
        } else {
            assert(rows.len() == limit) by {
                if rows.len() < limit {
                    let full = choose|full: Seq<Chat>| #[trigger]
                        listed(all, chat_turn(), full) && rows == (if limit < full.len() {
                            full.take(limit)
                        } else {
                            full
                        });
                    law_a_listing_loses_no_row(all, chat_turn(), full, c);
                }
            }
            assert forall|i: int| 0 <= i < r.len() implies (#[trigger] r[i]).updated_at
                >= c.updated_at by {
                assert(shows(r[i], rows[i], db.messages@));
                assert(!sooner(chat_turn()(c), chat_turn()(rows[i])));
            }
        }
    }
    assert forall|i: int| 0 <= i < r.len() implies tells_of_a_chat(#[trigger] r[i], db, kind) by {
        let c = rows[i];
        assert(shows(r[i], rows[i], db.messages@));
        assert(all.contains(c));
        assert(chats_of(kind)(c));
        assert(db.chats@.contains(c));
    }
}

/// A message that is added counts in its own chat, is the last thing said
/// there, and changes no other chat.
pub proof fn law_a_message_shows_in_its_chat(ms: Seq<Message>, m: Message, chat: Seq<char>)
    ensures
        m.conversation_id@ == chat ==> {
            &&& kept(ms.push(m), in_chat(chat)) == kept(ms, in_chat(chat)).push(m)
            &&& last_said(ms.push(m), chat) == m.content@
        },
        m.conversation_id@ != chat ==> {
            &&& kept(ms.push(m), in_chat(chat)) == kept(ms, in_chat(chat))
            &&& last_said(ms.push(m), chat) == last_said(ms, chat)
        },
        last_said(seq![], chat).len() == 0,
{
    reveal_strlit("");
    assert(ms.push(m).drop_last() =~= ms);
}

/// A chat is previewed by the first line of what was last said, at most eighty
/// characters of it.
pub proof fn law_a_preview_is_the_first_line(s: Seq<char>)
    ensures
        previewed(s).len() <= 80,
        lines(s).len() > 0 ==> previewed(s) == lines(s)[0].take(previewed(s).len() as int) && (
        previewed(s).len() == 80 || previewed(s) == lines(s)[0]),
{
    reveal_strlit("");
    if lines(s).len() > 0 {
        let l = lines(s)[0];
        assert(l.take(l.len() as int) =~= l);
    }
}

/// Deleting a chat takes that chat and its messages, and no others.
pub proof fn law_only_the_deleted_chat_goes(
    chats: Seq<Chat>,
    messages: Seq<Message>,
    id: Seq<char>,
    c: Chat,
    m: Message,
)
    ensures
        kept(chats, other_chats(id)).contains(c) <==> chats.contains(c) && c.id@ != id,
        kept(messages, not_in_chat(id)).contains(m) <==> messages.contains(m)
            && m.conversation_id@ != id,
{
    lemma_kept_members(chats, other_chats(id));
    lemma_kept_members(messages, not_in_chat(id));
    assert(kept(chats, other_chats(id)).contains(c) <==> (chats.contains(c) && other_chats(id)(c)));
    assert(kept(messages, not_in_chat(id)).contains(m) <==> (messages.contains(m) && not_in_chat(
        id,
    )(m)));
}

/// Deleting a result takes its job and the messages about it, and no others.
pub proof fn law_only_the_deleted_result_goes(
    jobs: Seq<JobRecord>,
    messages: Seq<Message>,
    id: u128,
    job: Seq<char>,
    j: JobRecord,
    m: Message,
)
    ensures
        kept(jobs, without_job(id)).contains(j) <==> jobs.contains(j) && j.job_id != id,
        kept(messages, not_about(job)).contains(m) <==> messages.contains(m) && opt(m.job_id)
            != Some(job),
{
    lemma_kept_members(jobs, without_job(id));
    lemma_kept_members(messages, not_about(job));
    assert(kept(jobs, without_job(id)).contains(j) <==> (jobs.contains(j) && without_job(id)(j)));
    assert(kept(messages, not_about(job)).contains(m) <==> (messages.contains(m) && not_about(
        job,
    )(m)));
}

// --------------------------------------------------------- jobs and results

/// Jobs are listed newest first, and the limit leaves out only older ones.
pub proof fn law_jobs_are_listed_newest_first(jobs: Seq<JobRecord>, limit: int, out: Seq<JobRecord>)
    requires
        listed_up_to(jobs, job_turn(), limit, out),
        jobs.len() <= usize::MAX,
        0 <= limit,
    ensures
        out.len() <= limit && (out.len() == limit || out.len() == jobs.len()),
        forall|i: int, j: int|
            0 <= i < j < out.len() ==> (#[trigger] out[i]).created_at >= (
            #[trigger] out[j]).created_at,
        forall|j: JobRecord, i: int| #[trigger]
            jobs.contains(j) && !out.contains(j) && 0 <= i < out.len() ==> (
            #[trigger] out[i]).created_at >= j.created_at,
{
    lemma_cut(jobs, job_turn(), limit, out);
    assert forall|i: int, j: int| 0 <= i < j < out.len() implies (#[trigger] out[i]).created_at >= (
    #[trigger] out[j]).created_at by {
        assert(!sooner(job_turn()(out[j]), job_turn()(out[i])));
    }
    assert forall|j: JobRecord, i: int| #[trigger]
        jobs.contains(j) && !out.contains(j) && 0 <= i < out.len() implies (
    #[trigger] out[i]).created_at >= j.created_at by {
        assert(!sooner(job_turn()(j), job_turn()(out[i])));
    }
}

/// Results of a kind are listed newest first, and the limit leaves out only
/// older ones; without a kind all of them are.
pub proof fn law_results_are_listed_newest_first(
    results: Seq<ResultRecord>,
    kind: Option<JobKind>,
    limit: int,
    out: Seq<ResultRecord>,
)
    requires
        listed_up_to(kept(results, of_kind(kind)), result_turn(), limit, out),
        results.len() <= usize::MAX,
        0 <= limit,
    ensures
        out.len() <= limit,
        forall|i: int|
            0 <= i < out.len() ==> results.contains(#[trigger] out[i]) && (kind matches Some(k)
                ==> out[i].kind == k),
        forall|i: int, j: int|
            0 <= i < j < out.len() ==> (#[trigger] out[i]).created_at >= (
            #[trigger] out[j]).created_at,
        forall|r: ResultRecord, i: int| #[trigger]
            results.contains(r) && (kind matches Some(k) ==> r.kind == k) && !out.contains(r) && 0
                <= i < out.len() ==> (#[trigger] out[i]).created_at >= r.created_at,
{
    let all = kept(results, of_kind(kind));
    lemma_kept_members(results, of_kind(kind));
    lemma_cut(all, result_turn(), limit, out);
    assert forall|i: int| 0 <= i < out.len() implies results.contains(#[trigger] out[i]) && (
    kind matches Some(k) ==> out[i].kind == k) by {
        assert(all.contains(out[i]));
        assert(of_kind(kind)(out[i]));
    }
    assert forall|i: int, j: int| 0 <= i < j < out.len() implies (#[trigger] out[i]).created_at >= (
    #[trigger] out[j]).created_at by {
        assert(!sooner(result_turn()(out[j]), result_turn()(out[i])));
    }
    assert forall|r: ResultRecord, i: int| #[trigger]
        results.contains(r) && (kind matches Some(k) ==> r.kind == k) && !out.contains(r) && 0 <= i
            < out.len() implies (#[trigger] out[i]).created_at >= r.created_at by {
        assert(of_kind(kind)(r));
        assert(all.contains(r));
        assert(!sooner(result_turn()(r), result_turn()(out[i])));
    }
}

/// A job is open until it is done or has failed.
pub proof fn law_a_job_is_open_until_it_ends(s: JobStatus)
    ensures
        is_open(s) <==> s != JobStatus::Done && s != JobStatus::Failed,
        is_open(s) <==> !s.terminal(),
{
}

/// Every file that is kept is named, and only those.
pub proof fn law_every_file_is_named(rs: Seq<ResultRecord>, r: ResultRecord)
    ensures
        r.image_path matches Some(p) ==> files_of(kept(rs.push(r), has_file())) == files_of(
            kept(rs, has_file()),
        ).push(p@),
        r.image_path is None ==> files_of(kept(rs.push(r), has_file())) == files_of(
            kept(rs, has_file()),
        ),
{
    law_a_row_is_kept_where_it_is_meant(rs, r, has_file());
    if r.image_path is Some {
        assert(files_of(kept(rs.push(r), has_file())) =~= files_of(kept(rs, has_file())).push(
            r.image_path->0@,
        ));
    }
}

/// The jobs of a chat are those that answer it.
pub proof fn law_a_chat_has_its_jobs(jobs: Seq<JobRecord>, j: JobRecord, chat: Seq<char>)
    ensures
        opt(j.conversation_id) == Some(chat) ==> ids_of(kept(jobs.push(j), of_conversation(chat)))
            == ids_of(kept(jobs, of_conversation(chat))).push(j.job_id),
        opt(j.conversation_id) != Some(chat) ==> ids_of(kept(jobs.push(j), of_conversation(chat)))
            == ids_of(kept(jobs, of_conversation(chat))),
{
    law_a_row_is_kept_where_it_is_meant(jobs, j, of_conversation(chat));
    if opt(j.conversation_id) == Some(chat) {
        assert(ids_of(kept(jobs.push(j), of_conversation(chat))) =~= ids_of(
            kept(jobs, of_conversation(chat)),
        ).push(j.job_id));
    }
}

/// A peer goes by its label; one that is not known by its id.
pub proof fn law_a_peer_goes_by_its_label(peers: Seq<Peer>, p: Peer, id: Seq<char>)
    ensures
        called(peers.push(p), p.id@) == p.label@,
        p.id@ != id ==> called(peers.push(p), id) == called(peers, id),
        called(seq![], id) == id,
{
    assert(peers.push(p).drop_last() =~= peers);
}

// -------------------------------------------------------------------- peers

/// Peers are listed by when they were added, but for the one inside this
/// process, which comes first.
pub proof fn law_peers_are_listed_as_they_were_added(
    peers: Seq<Peer>,
    out: Seq<Peer>,
    i: int,
    j: int,
)
    requires
        listed(peers, peer_turn(), out),
        0 <= i < j < out.len(),
    ensures
        out[j].endpoint@ == "mock://local"@ ==> out[i].endpoint@ == "mock://local"@,
        out[i].endpoint@ != "mock://local"@ ==> out[i].added_at <= out[j].added_at,
{
    law_a_listing_is_in_order(peers, peer_turn(), out, i, j);
}

/// Only a peer that was found on the network is ever forgotten, and only when
/// it is not online and has been silent for long enough, or was never seen.
pub proof fn law_who_is_forgotten(p: Peer, silent_for: u64, now: i64)
    ensures
        is_dead(p, silent_for, now) <==> p.source@ == "discovered"@ && p.status@ != "online"@ && (
        p.last_seen is None || p.last_seen->0 + silent_for < now),
        alive(silent_for, now)(p) <==> !is_dead(p, silent_for, now),
{
}

/// Removing a peer takes that one, unless it is the one inside this process.
pub proof fn law_only_the_removed_peer_goes(peers: Seq<Peer>, id: Seq<char>, p: Peer)
    ensures
        kept(peers, not_removed(id)).contains(p) <==> peers.contains(p) && (p.id@ != id
            || p.endpoint@ == "mock://local"@),
        kept(peers, not_mock()).contains(p) <==> peers.contains(p) && p.endpoint@
            != "mock://local"@,
{
    lemma_kept_members(peers, not_removed(id));
    lemma_kept_members(peers, not_mock());
    assert(kept(peers, not_removed(id)).contains(p) <==> (peers.contains(p) && not_removed(id)(
        p,
    )));
    assert(kept(peers, not_mock()).contains(p) <==> (peers.contains(p) && not_mock()(p)));
}

/// What a probe says takes the place of what was known; what it does not say
/// stays.
pub proof fn law_what_is_said_counts<T>(said: T, known: T, kept_before: Option<T>)
    ensures
        or_else(Some(said), kept_before) == Some(said),
        or_else(None::<T>, kept_before) == kept_before,
        or_kept(Some(said), known) == said,
        or_kept(None::<T>, known) == known,
{
}

// ----------------------------------------------------------------- settings

/// A setting is what was set last, and setting one changes no other.
pub proof fn law_a_setting_is_what_was_set(
    rows: Seq<(String, String)>,
    row: (String, String),
    key: Seq<char>,
)
    ensures
        row.0@ == key ==> setting_in(rows.push(row), key) == Some(row.1@),
        row.0@ != key ==> setting_in(rows.push(row), key) == setting_in(rows, key),
        setting_in(seq![], key) is None,
{
    assert(rows.push(row).drop_last() =~= rows);
}

// -------------------------------------------------------------------- bills

/// The bills as they are listed for a limit.
pub open spec fn bill_list(r: Seq<SpendEntry>, db: Db, limit: int) -> bool {
    exists|rows: Seq<SpendEntry>| #[trigger]
        listed_up_to(kept(db.spends@, billed()).reverse(), spend_turn(), limit, rows) && are_bills(
            r,
            rows,
            db.settlements@,
        )
}

/// What is listed is a bill that was recorded, as it was recorded.
pub open spec fn tells_of_a_bill(l: SpendEntry, db: Db) -> bool {
    exists|s: SpendEntry|
        {
            &&& #[trigger] db.spends@.contains(s)
            &&& !s.abandoned || s.cost_micros > 0
            &&& l.job_id@ == s.job_id@ && l.model@ == s.model@ && opt(l.peer) == opt(s.peer)
            &&& l.tokens == s.tokens && l.cost_micros == s.cost_micros && l.at == s.at
            &&& l.cumulative_micros == s.cumulative_micros && opt(l.payout) == opt(s.payout)
            &&& l.abandoned == s.abandoned
        }
}

/// Bills are listed newest first, with the model, the provider, the tokens and
/// the cost that were recorded. One that ended without a bill is listed only
/// once it cost something; the limit leaves out only older ones.
pub proof fn law_bills_are_listed_as_recorded(r: Seq<SpendEntry>, db: Db, limit: int)
    requires
        bill_list(r, db, limit),
        db.spends@.len() <= usize::MAX,
        0 <= limit,
    ensures
        r.len() <= limit,
        forall|i: int, j: int| 0 <= i < j < r.len() ==> (#[trigger] r[i]).at >= (#[trigger] r[j]).at,
        forall|i: int| 0 <= i < r.len() ==> tells_of_a_bill(#[trigger] r[i], db),
        forall|s: SpendEntry| #[trigger]
            db.spends@.contains(s) && (!s.abandoned || s.cost_micros > 0) ==> {
                ||| exists|i: int| 0 <= i < r.len() && (#[trigger] r[i]).job_id@ == s.job_id@
                ||| forall|i: int| 0 <= i < r.len() ==> (#[trigger] r[i]).at >= s.at
            },
{
    let some = kept(db.spends@, billed());
    let all = some.reverse();
    lemma_kept_members(db.spends@, billed());
    let rows = choose|rows: Seq<SpendEntry>| #[trigger]
        listed_up_to(all, spend_turn(), limit, rows) && are_bills(r, rows, db.settlements@);
    lemma_cut(all, spend_turn(), limit, rows);
    assert forall|i: int, j: int| 0 <= i < j < r.len() implies (#[trigger] r[i]).at >= (
    #[trigger] r[j]).at by {
        assert(is_bill(r[i], rows[i], db.settlements@) && is_bill(r[j], rows[j], db.settlements@));
        assert(!sooner(spend_turn()(rows[j]), spend_turn()(rows[i])));
    }
    assert forall|i: int| 0 <= i < r.len() implies tells_of_a_bill(#[trigger] r[i], db) by {
        let s = rows[i];
        assert(is_bill(r[i], s, db.settlements@));
        assert(all.contains(s));
        let k = choose|k: int| 0 <= k < all.len() && all[k] == s;
        assert(some[some.len() - 1 - k] == s);
        assert(some.contains(s));
        assert(billed()(s));
        assert(db.spends@.contains(s));
    }
    assert forall|s: SpendEntry| #[trigger]
        db.spends@.contains(s) && (!s.abandoned || s.cost_micros > 0) implies {
        ||| exists|i: int| 0 <= i < r.len() && (#[trigger] r[i]).job_id@ == s.job_id@
        ||| forall|i: int| 0 <= i < r.len() ==> (#[trigger] r[i]).at >= s.at
    } by {
        assert(billed()(s));
        assert(some.contains(s));
        let k = choose|k: int| 0 <= k < some.len() && some[k] == s;
        assert(all[some.len() - 1 - k] == s);
        assert(all.contains(s));
        if rows.contains(s) {
            let i = choose|i: int| 0 <= i < rows.len() && rows[i] == s;
            assert(is_bill(r[i], s, db.settlements@));
            assert(r[i].job_id@ == s.job_id@);
        } else {
            assert forall|i: int| 0 <= i < r.len() implies (#[trigger] r[i]).at >= s.at by {
                assert(is_bill(r[i], rows[i], db.settlements@));
                assert(!sooner(spend_turn()(s), spend_turn()(rows[i])));
            }
        }
    }
}

/// A bill names the settlement that collected it: one on its own channel that
/// reaches its ticket, none that reaches less far does, nor one as far in an
/// earlier block. A bill that none reaches names none.
pub proof fn law_a_bill_names_what_collected_it(
    e: SpendEntry,
    s: SpendEntry,
    ts: Seq<Settlement>,
    i: int,
)
    requires
        is_bill(e, s, ts),
        0 <= i < ts.len(),
    ensures
        s.cumulative_micros matches Some(c) ==> opt(s.payout) == Some(ts[i].payout@)
            && ts[i].cumulative >= c ==> e.settle_tx is Some && exists|k: int|
            {
                &&& 0 <= k < ts.len()
                &&& opt(e.settle_tx) == Some((#[trigger] ts[k]).tx_hash@)
                &&& e.settle_block == Some(ts[k].block)
                &&& opt(s.payout) == Some(ts[k].payout@) && ts[k].cumulative >= c
                &&& ts[k].cumulative < ts[i].cumulative || (ts[k].cumulative == ts[i].cumulative
                    && ts[k].block <= ts[i].block)
            },
        s.cumulative_micros is None ==> e.settle_tx is None,
{
    lemma_cover_is_there(ts, s, ts.len() as int);
    crate::store::laws::law_a_bill_points_at_its_first_cover(ts, s, ts.len() as int);
    if s.cumulative_micros is Some && opt(s.payout) == Some(ts[i].payout@) && ts[i].cumulative
        >= s.cumulative_micros->0 {
        assert(covers(ts[i], s));
        match first_cover(ts, s, ts.len() as int) {
            Some(u) => {
                let k = choose|k: int| 0 <= k < ts.len() && ts[k] == u;
                assert(opt(e.settle_tx) == Some(ts[k].tx_hash@));
            },
            None => {},
        }
    }
    if s.cumulative_micros is None {
        match first_cover(ts, s, ts.len() as int) {
            Some(u) => {
                assert(covers(u, s));
            },
            None => {},
        }
    }
}

proof fn lemma_cover_is_there(ts: Seq<Settlement>, s: SpendEntry, n: int)
    requires
        0 <= n <= ts.len(),
    ensures
        first_cover(ts, s, n) matches Some(u) ==> ts.contains(u),
    decreases n,
{
    if n > 0 {
        lemma_cover_is_there(ts, s, n - 1);
        assert(ts.contains(ts[n - 1]));
    }
}

/// A reply that ended without a bill costs its chunk just where its own bond
/// was settled on its own channel.
pub proof fn law_a_kept_chunk_is_the_cost(s: SpendEntry, ts: Seq<Settlement>, chunk: u64, bond: u64)
    requires
        s.abandoned && s.cost_micros == 0,
        s.chunk_micros == Some(chunk),
        s.bond_cumulative == Some(bond),
    ensures
        (exists|i: int|
            0 <= i < ts.len() && opt(s.payout) == Some((#[trigger] ts[i]).payout@)
                && ts[i].cumulative == bond) ==> resolved(s, ts).cost_micros == chunk && resolved(
            s,
            ts,
        ).cumulative_micros == Some(bond),
        (forall|i: int|
            0 <= i < ts.len() ==> !(opt(s.payout) == Some((#[trigger] ts[i]).payout@)
                && ts[i].cumulative == bond)) ==> resolved(s, ts) == s,
{
    if exists|i: int|
        0 <= i < ts.len() && opt(s.payout) == Some((#[trigger] ts[i]).payout@) && ts[i].cumulative
            == bond {
        let i = choose|i: int|
            0 <= i < ts.len() && opt(s.payout) == Some((#[trigger] ts[i]).payout@)
                && ts[i].cumulative == bond;
        assert(pays(ts[i], opt(s.payout)));
    } else if crate::store::spends::chunk_kept(s, ts) {
        let i = choose|i: int|
            0 <= i < ts.len() && pays(#[trigger] ts[i], opt(s.payout)) && s.bond_cumulative == Some(
                ts[i].cumulative,
            );
        assert(opt(s.payout) == Some(ts[i].payout@));
    }
}

// -------------------------------------------------------------------- usage

/// A measured reply adds its tokens to the model it names, and a bill its
/// tokens and its cost to its own; others add nothing.
pub proof fn law_usage_adds_up(ms: Seq<Message>, m: Message, ss: Seq<SpendEntry>, s: SpendEntry, model: Seq<char>)
    ensures
        m.role@ == "assistant"@ && m.tokens is Some && m.tokens->0 > 0 && model_of(m) == model ==> {
            &&& said_tokens(kept(ms.push(m), reply_of(model))) == said_tokens(
                kept(ms, reply_of(model)),
            ) + m.tokens->0
            &&& kept(ms.push(m), reply_of(model)).len() == kept(ms, reply_of(model)).len() + 1
        },
        m.role@ != "assistant"@ || m.tokens is None || m.tokens == Some(0u64) || model_of(m)
            != model ==> kept(ms.push(m), reply_of(model)) == kept(ms, reply_of(model)),
        s.model@ == model ==> {
            &&& billed_cost(kept(ss.push(s), spend_of(model))) == billed_cost(
                kept(ss, spend_of(model)),
            ) + s.cost_micros
            &&& billed_tokens(kept(ss.push(s), spend_of(model))) == billed_tokens(
                kept(ss, spend_of(model)),
            ) + (match s.tokens {
                Some(n) => n as nat,
                None => 0,
            })
            &&& kept(ss.push(s), spend_of(model)).len() == kept(ss, spend_of(model)).len() + 1
        },
        s.model@ != model ==> kept(ss.push(s), spend_of(model)) == kept(ss, spend_of(model)),
        opt(m.model) matches Some(name) ==> name.len() > 0 ==> model_of(m) == name,
        opt(m.model) is None ==> model_of(m) == "unknown"@,
{
    law_a_row_is_kept_where_it_is_meant(ms, m, reply_of(model));
    law_a_row_is_kept_where_it_is_meant(ss, s, spend_of(model));
    let a = kept(ms, reply_of(model));
    let b = kept(ss, spend_of(model));
    assert(a.push(m).drop_last() =~= a);
    assert(b.push(s).drop_last() =~= b);
}

/// A model's row is the larger of what its replies and its bills say, never
/// their sum; its cost is what was billed. The one that used most comes first.
pub proof fn law_usage_is_never_counted_twice(r: Seq<ModelUsage>, db: Db, i: int)
    requires
        is_usage_list(r, db),
        0 <= i < r.len(),
    ensures
        ({
            let said = said_tokens(kept(db.messages@, reply_of(r[i].model@)));
            let paid = billed_tokens(kept(db.spends@, spend_of(r[i].model@)));
            &&& r[i].tokens == said || r[i].tokens == paid
            &&& r[i].tokens >= said && r[i].tokens >= paid
            &&& r[i].cost_micros == billed_cost(kept(db.spends@, spend_of(r[i].model@)))
        }),
        ({
            let said = kept(db.messages@, reply_of(r[i].model@)).len();
            let paid = kept(db.spends@, spend_of(r[i].model@)).len();
            &&& r[i].replies == said || r[i].replies == paid
            &&& r[i].replies >= said && r[i].replies >= paid
            &&& r[i].replies > 0
        }),
        i + 1 < r.len() ==> r[i].tokens >= r[i + 1].tokens,
{
    assert(in_use(db, r[i].model@));
    if i + 1 < r.len() {
        assert(used_more(r[i], r[i + 1]));
    }
}

// ----------------------------------------------------------------- deposits

/// Deposits are listed newest first, of one time the later block first.
pub proof fn law_deposits_are_listed_newest_first(
    ds: Seq<StoredDeposit>,
    out: Seq<StoredDeposit>,
    i: int,
    j: int,
)
    requires
        listed(ds, deposit_turn(), out),
        0 <= i < j < out.len(),
    ensures
        out[i].at >= out[j].at,
        out[i].at == out[j].at ==> out[i].block >= out[j].block,
{
    law_a_listing_is_in_order(ds, deposit_turn(), out, i, j);
}

/// The wallet of a chain is the one that made its latest deposit there.
pub proof fn law_the_latest_deposit_names_the_wallet(
    ds: Seq<StoredDeposit>,
    chain_id: u64,
    rows: Seq<StoredDeposit>,
)
    requires
        listed_up_to(kept(ds, by_someone(chain_id)), latest_turn(), 1, rows),
        ds.len() <= usize::MAX,
    ensures
        rows.len() > 0 ==> {
            &&& ds.contains(rows[0]) && rows[0].chain_id == chain_id && rows[0].client@.len() > 0
            &&& forall|d: StoredDeposit| #[trigger]
                ds.contains(d) && d.chain_id == chain_id && d.client@.len() > 0 ==> d.at
                    <= rows[0].at
        },
        rows.len() == 0 ==> forall|d: StoredDeposit| #[trigger]
            ds.contains(d) ==> !(d.chain_id == chain_id && d.client@.len() > 0),
{
    let all = kept(ds, by_someone(chain_id));
    lemma_kept_members(ds, by_someone(chain_id));
    lemma_cut(all, latest_turn(), 1, rows);
    if rows.len() > 0 {
        assert(all.contains(rows[0]));
        assert(by_someone(chain_id)(rows[0]));
        assert forall|d: StoredDeposit| #[trigger]
            ds.contains(d) && d.chain_id == chain_id && d.client@.len() > 0 implies d.at
            <= rows[0].at by {
            assert(by_someone(chain_id)(d));
            assert(all.contains(d));
            if rows.contains(d) {
                let i = choose|i: int| 0 <= i < rows.len() && rows[i] == d;
                assert(i == 0);
            } else {
                assert(!sooner(latest_turn()(d), latest_turn()(rows[0])));
            }
        }
    } else {
        assert forall|d: StoredDeposit| #[trigger] ds.contains(d) implies !(d.chain_id == chain_id
            && d.client@.len() > 0) by {
            if d.chain_id == chain_id && d.client@.len() > 0 {
                assert(by_someone(chain_id)(d));
                assert(all.contains(d));
            }
        }
    }
}

/// A scan goes on where the last one stopped; the first one begins at the
/// earliest deposit on the chain whose block is known. It never begins below
/// the floor.
pub proof fn law_where_a_scan_begins(db: Db, chain_id: u64, floor: u64, i: int)
    requires
        0 <= i < db.deposits@.len(),
    ensures
        scan_start(db, chain_id, floor) >= floor,
        db.setting("settle_scan_block"@) matches Some(s) ==> parsed(s, 10) matches Some(n) ==> n
            >= floor ==> scan_start(db, chain_id, floor) == n,
        db.setting("settle_scan_block"@) is None && db.deposits@[i].chain_id == chain_id
            && db.deposits@[i].block >= floor && db.deposits@[i].block > 0 ==> scan_start(
            db,
            chain_id,
            floor,
        ) <= db.deposits@[i].block,
{
    lemma_first_deposit(db.deposits@, chain_id, db.deposits@.len() as int);
}

proof fn lemma_first_deposit(ds: Seq<StoredDeposit>, chain_id: u64, n: int)
    requires
        0 <= n <= ds.len(),
    ensures
        forall|i: int|
            0 <= i < n && (#[trigger] ds[i]).block > 0 && ds[i].chain_id == chain_id ==> (
            first_deposit(ds, chain_id, n) matches Some(b) && b <= ds[i].block),
        first_deposit(ds, chain_id, n) matches Some(b) ==> exists|i: int|
            0 <= i < n && (#[trigger] ds[i]).block == b && ds[i].chain_id == chain_id,
    decreases n,
{
    if n > 0 {
        lemma_first_deposit(ds, chain_id, n - 1);
        assert(ds[n - 1].block == ds[n - 1].block);
    }
}

/// Where no scan was made and nobody deposited, a scan begins at the floor.
pub proof fn law_without_deposits_a_scan_begins_at_the_floor(db: Db, chain_id: u64, floor: u64)
    requires
        db.setting("settle_scan_block"@) is None,
        forall|i: int| 0 <= i < db.deposits@.len() ==> (#[trigger] db.deposits@[i]).chain_id != chain_id,
    ensures
        scan_start(db, chain_id, floor) == floor,
{
    lemma_first_deposit(db.deposits@, chain_id, db.deposits@.len() as int);
}

} // verus!
