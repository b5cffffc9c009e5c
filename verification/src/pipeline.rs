//! Jobs over what is kept: queued, answered, failed, handed on.
use vstd::prelude::*;

use crate::codec::{fresh_uuid, uuid_text, write_uuid};
use crate::error::{AppError, Trouble};
use crate::jobs::{
    after_attempt, can_run, check_caps, file_reply, refused_kind, reported_total, with_room,
    with_workable_ceiling, Next, Outcome,
};
use crate::pot::ledger::Ledger;
use crate::pot::payment::{abandon_job, given_up};
use crate::protocol::{opt, JobPayload, JobStatus};
use crate::results::ResultRecord;
use crate::routing::Fallback;
use crate::store::history::{called, knows_job, says, too_big, without_result};
use crate::store::peers::knows_id;
use crate::store::tables::kept;
use crate::store::{
    is_chat, job_ids, peer_ids, Chat, Db, JobRecord, Message, Peer, MOCK_ENDPOINT, MOST_ROWS,
};
use crate::text::{concat, texts};

verus! {

broadcast use vstd::string::group_string_axioms;

/// The bit pattern of one as a single-precision number.
pub const WHOLE: u32 = 0x3f80_0000;

/// A job that waits for its peer.
pub open spec fn is_queued(
    j: JobRecord,
    job_id: u128,
    conversation: Option<Seq<char>>,
    peer: Peer,
    payload: JobPayload,
    summary: Seq<char>,
    model: Seq<char>,
    now: i64,
) -> bool {
    &&& j.job_id == job_id
    &&& opt(j.conversation_id) == conversation
    &&& j.peer_id@ == peer.id@ && j.peer_label@ == peer.label@
    &&& j.payload == with_room(payload) && j.kind == payload.job_kind()
    &&& j.summary@ == summary && j.model@ == model
    &&& j.status == JobStatus::Queued && j.progress == 0 && j.error is None
    &&& j.created_at == now && j.updated_at == now
}

/// Queues a job for a peer under an id of its own. `invalid` is what is wrong
/// with the request itself, if anything; `summary` and `model` are what it is
/// listed under.
pub fn enqueue(
    db: &mut Db,
    job_id: u128,
    peer_id: &str,
    payload: JobPayload,
    invalid: &Option<String>,
    conversation_id: Option<String>,
    summary: &str,
    model: &str,
    now: i64,
) -> (r: Result<(), AppError>)
    requires
        old(db).wf(),
    ensures
        final(db).wf(),
        *final(db) == (Db { jobs: final(db).jobs, ..*old(db) }),
        match r {
            Ok(_) => {
                let j = final(db).jobs@.last();
                &&& *invalid is None
                &&& final(db).jobs@ == old(db).jobs@.push(j)
                &&& exists|i: int|
                    0 <= i < old(db).peers@.len() && {
                        let p = #[trigger] old(db).peers@[i];
                        &&& p.id@ == peer_id@ && can_run(texts(p.caps@), payload.job_kind())
                        &&& is_queued(
                            j,
                            job_id,
                            opt(conversation_id),
                            p,
                            payload,
                            summary@,
                            model@,
                            now,
                        )
                    }
            },
            Err(e) => {
                &&& *final(db) == *old(db)
                &&& match opt(*invalid) {
                    Some(why) => e@ == Trouble::Core(why),
                    None => if !knows_id(old(db).peers@, peer_id@) {
                        e@ == Trouble::NotFound("peer "@ + peer_id@)
                    } else {
                        exists|i: int|
                            0 <= i < old(db).peers@.len() && {
                                let p = #[trigger] old(db).peers@[i];
                                &&& p.id@ == peer_id@
                                &&& if !can_run(texts(p.caps@), payload.job_kind()) {
                                    e@ == refused_kind(p, payload.job_kind())
                                } else if knows_job(old(db).jobs@, job_id) {
                                    e@ == Trouble::Db(
                                        "UNIQUE constraint failed: "@ + "jobs.job_id"@,
                                    )
                                } else {
                                    old(db).jobs@.len() == MOST_ROWS && e@ == Trouble::Db(
                                        "database or disk is full"@,
                                    )
                                }
                            }
                    },
                }
            },
        },
{
    let kind = payload.kind();
    let payload = with_workable_ceiling(payload);
    if let Some(why) = invalid {
        return Err(AppError::Core(why.clone()));
    }
    let peer = match db.get_peer(peer_id) {
        Some(p) => p,
        None => {
            return Err(AppError::NotFound(concat("peer ", peer_id)));
        },
    };
    let ghost at = choose|i: int| 0 <= i < db.peers@.len() && db.peers@[i] == *peer;
    assert(db.peers@[at].id@ == peer_id@);
    match check_caps(peer, kind) {
        Ok(_) => {},
        Err(e) => {
            return Err(e);
        },
    }
    let record = JobRecord {
        job_id,
        conversation_id,
        peer_id: peer.id.clone(),
        peer_label: peer.label.clone(),
        kind,
        payload,
        summary: summary.to_string(),
        model: model.to_string(),
        status: JobStatus::Queued,
        progress: 0,
        error: None,
        created_at: now,
        updated_at: now,
    };
    db.insert_job(record)
}

/// Queues a job for a peer under a fresh id, which it gives back. A job that
/// makes sense, for a known peer that can run it, is queued while there is
/// room, unless the id that was drawn is one already given.
pub fn submit(
    db: &mut Db,
    peer_id: &str,
    payload: JobPayload,
    invalid: &Option<String>,
    conversation_id: Option<String>,
    summary: &str,
    model: &str,
    now: i64,
) -> (r: Result<u128, AppError>)
    requires
        old(db).wf(),
    ensures
        final(db).wf(),
        *final(db) == (Db { jobs: final(db).jobs, ..*old(db) }),
        match r {
            Ok(id) => {
                let j = final(db).jobs@.last();
                &&& *invalid is None
                &&& final(db).jobs@ == old(db).jobs@.push(j)
                &&& exists|i: int|
                    0 <= i < old(db).peers@.len() && {
                        let p = #[trigger] old(db).peers@[i];
                        &&& p.id@ == peer_id@ && can_run(texts(p.caps@), payload.job_kind())
                        &&& is_queued(
                            j,
                            id,
                            opt(conversation_id),
                            p,
                            payload,
                            summary@,
                            model@,
                            now,
                        )
                    }
            },
            Err(e) => {
                &&& *final(db) == *old(db)
                &&& match opt(*invalid) {
                    Some(why) => e@ == Trouble::Core(why),
                    None => if !knows_id(old(db).peers@, peer_id@) {
                        e@ == Trouble::NotFound("peer "@ + peer_id@)
                    } else {
                        exists|i: int|
                            0 <= i < old(db).peers@.len() && {
                                let p = #[trigger] old(db).peers@[i];
                                &&& p.id@ == peer_id@
                                &&& if !can_run(texts(p.caps@), payload.job_kind()) {
                                    e@ == refused_kind(p, payload.job_kind())
                                } else {
                                    ||| old(db).jobs@.len() > 0 && e@ == Trouble::Db(
                                        "UNIQUE constraint failed: "@ + "jobs.job_id"@,
                                    )
                                    ||| old(db).jobs@.len() == MOST_ROWS && e@ == Trouble::Db(
                                        "database or disk is full"@,
                                    )
                                }
                            }
                    },
                }
            },
        },
{
    let id: u128 = fresh_uuid();
    match enqueue(db, id, peer_id, payload, invalid, conversation_id, summary, model, now) {
        Ok(_) => Ok(id),
        Err(e) => Err(e),
    }
}

/// Whether a job runs inside this process. Only such a job may name a file of
/// this machine.
pub fn is_local(db: &Db, job_id: u128) -> (r: bool)
    requires
        db.wf(),
    ensures
        r == exists|i: int, k: int|
            0 <= i < db.jobs@.len() && 0 <= k < db.peers@.len() && (#[trigger] db.jobs@[i]).job_id
                == job_id && (#[trigger] db.peers@[k]).id@ == db.jobs@[i].peer_id@
                && db.peers@[k].endpoint@ == MOCK_ENDPOINT@,
{
    let found = match db.get_job(job_id) {
        Some(l) => l.job,
        None => {
            return false;
        },
    };
    let ghost i = choose|i: int| 0 <= i < db.jobs@.len() && db.jobs@[i] == *found;
    proof {
        assert forall|j: int| 0 <= j < db.jobs@.len() && j != i implies (
        #[trigger] db.jobs@[j]).job_id != job_id by {
            let key = job_ids();
            if j < i {
                assert(key(db.jobs@[j]) != key(db.jobs@[i]));
            } else {
                assert(key(db.jobs@[i]) != key(db.jobs@[j]));
            }
        }
    }
    let peer = match db.get_peer(found.peer_id.as_str()) {
        Some(p) => p,
        None => {
            return false;
        },
    };
    let ghost k = choose|k: int| 0 <= k < db.peers@.len() && db.peers@[k] == *peer;
    proof {
        assert forall|j: int| 0 <= j < db.peers@.len() && j != k implies (
        #[trigger] db.peers@[j]).id@ != found.peer_id@ by {
            let key = peer_ids();
            if j < k {
                assert(key(db.peers@[j]) != key(db.peers@[k]));
            } else {
                assert(key(db.peers@[k]) != key(db.peers@[j]));
            }
        }
        assert(db.jobs@[i].job_id == job_id && db.peers@[k].id@ == db.jobs@[i].peer_id@);
    }
    peer.is_mock()
}

/// Marks a job as failed, for this reason. The bond may already be with the
/// worker, and whether it is kept is for the chain to say: what was locked for
/// the job is abandoned, not forgotten.
pub fn fail(ledger: &mut Ledger, db: &mut Db, job_id: u128, error: &str, now: i64)
    requires
        old(ledger).wf(),
        old(db).wf(),
    ensures
        final(ledger).wf(),
        final(ledger).job(job_id) is None,
        forall|other: u128|
            other != job_id ==> final(ledger).job(other) == #[trigger] old(ledger).job(other),
        final(ledger).tickets@ == old(ledger).tickets@,
        final(db).wf(),
        *final(db) == (Db { jobs: final(db).jobs, spends: final(db).spends, ..*old(db) }),
        given_up(old(db).spends@, final(db).spends@, job_id, old(ledger).job(job_id), now),
        final(db).jobs@.len() == old(db).jobs@.len(),
        forall|i: int|
            0 <= i < final(db).jobs@.len() ==> {
                let (a, b) = (old(db).jobs@[i], #[trigger] final(db).jobs@[i]);
                if a.job_id == job_id {
                    &&& opt(b.error) == Some(error@)
                    &&& b == (JobRecord {
                        status: JobStatus::Failed,
                        progress: 0,
                        error: b.error,
                        updated_at: now,
                        ..a
                    })
                } else {
                    a == b
                }
            },
{
    abandon_job(ledger, db, job_id, now);
    db.update_job_status(job_id, JobStatus::Failed, 0, Some(error.to_string()), now);
}

/// The message a result files for its job.
pub open spec fn is_filed(
    m: Message,
    conversation: Seq<char>,
    j: JobRecord,
    label: Seq<char>,
    record: ResultRecord,
    thinking: Option<Seq<char>>,
    cost: Option<u64>,
    now: i64,
) -> bool {
    says(
        m,
        conversation,
        "assistant"@,
        match opt(record.text) {
            Some(t) => t,
            None => seq![],
        },
        Some(uuid_text(record.job_id)),
        Some(record.sha256@),
        Some(
            match record.meta@.text_at("model"@) {
                Some(t) => t,
                None => j.model@,
            },
        ),
        Some(label),
        reported_total(record.meta@),
        cost,
        thinking,
        now,
    )
}

/// A job has become done, and nothing else has changed.
pub open spec fn is_done(was: Seq<JobRecord>, now_is: Seq<JobRecord>, job_id: u128, now: i64) -> bool {
    &&& now_is.len() == was.len()
    &&& forall|i: int|
        0 <= i < now_is.len() ==> {
            let (a, b) = (was[i], #[trigger] now_is[i]);
            if a.job_id == job_id {
                b == (JobRecord {
                    status: JobStatus::Done,
                    progress: WHOLE,
                    updated_at: now,
                    ..a
                })
            } else {
                a == b
            }
        }
}

/// Something happened in a chat, and nothing in the others.
pub open spec fn is_stirred(was: Seq<Chat>, now_is: Seq<Chat>, id: Seq<char>, now: i64) -> bool {
    &&& now_is.len() == was.len()
    &&& forall|i: int|
        0 <= i < now_is.len() ==> {
            let (a, b) = (was[i], #[trigger] now_is[i]);
            if a.id@ == id {
                b == (Chat { updated_at: now, ..a })
            } else {
                a == b
            }
        }
}

/// Why a reply cannot be filed: a number is too large for a row, there is no
/// room for another message, or its chat is gone.
pub open spec fn cannot_file(
    db: Db,
    conversation: Seq<char>,
    tokens: Option<u64>,
    cost: Option<u64>,
    e: Trouble,
) -> bool {
    if too_big(tokens) || too_big(cost) {
        e == Trouble::Db("out of range integral type conversion attempted"@)
    } else if db.last_message == i64::MAX || db.messages@.len() == MOST_ROWS {
        e == Trouble::Db("database or disk is full"@)
    } else {
        !is_chat(db.chats@, conversation) && e == Trouble::Db("FOREIGN KEY constraint failed"@)
    }
}

/// Keeps the result of a job: the result itself, that the job is done, and,
/// where a chat asked for it, the reply in that chat. `cost` is what the job's
/// invoice billed.
pub fn keep_result(
    db: &mut Db,
    record: ResultRecord,
    thinking: &Option<String>,
    cost: Option<u64>,
    now: i64,
) -> (r: Result<Option<Message>, AppError>)
    requires
        old(db).wf(),
    ensures
        final(db).wf(),
        final(db).peers == old(db).peers && final(db).settings == old(db).settings,
        final(db).spends == old(db).spends && final(db).deposits == old(db).deposits,
        final(db).settlements == old(db).settlements,
        match r {
            Ok(filed) => {
                &&& final(db).results@ == kept(
                    old(db).results@,
                    without_result(record.job_id),
                ).push(record)
                &&& is_done(old(db).jobs@, final(db).jobs@, record.job_id, now)
                &&& !knows_job(old(db).jobs@, record.job_id) ==> filed is None
                &&& forall|i: int|
                    0 <= i < old(db).jobs@.len() && (#[trigger] old(db).jobs@[i]).job_id
                        == record.job_id ==> {
                        let j = old(db).jobs@[i];
                        match (opt(j.conversation_id), filed) {
                            (None, None) => true,
                            (Some(c), Some(m)) => is_filed(
                                m,
                                c,
                                j,
                                called(old(db).peers@, j.peer_id@),
                                record,
                                opt(*thinking),
                                cost,
                                now,
                            ),
                            _ => false,
                        }
                    }
                &&& match filed {
                    None => {
                        &&& final(db).messages == old(db).messages
                        &&& final(db).last_message == old(db).last_message
                        &&& final(db).chats == old(db).chats
                    },
                    Some(m) => {
                        let row = final(db).messages@.last();
                        &&& final(db).messages@ == old(db).messages@.push(row)
                        &&& row.id == m.id && m.id == old(db).last_message + 1
                        &&& final(db).last_message == m.id
                        &&& forall|i: int|
                            0 <= i < old(db).jobs@.len() && (#[trigger] old(db).jobs@[i]).job_id
                                == record.job_id ==> {
                                let j = old(db).jobs@[i];
                                is_filed(
                                    row,
                                    opt(j.conversation_id)->0,
                                    j,
                                    called(old(db).peers@, j.peer_id@),
                                    record,
                                    opt(*thinking),
                                    cost,
                                    now,
                                )
                            }
                        &&& is_stirred(old(db).chats@, final(db).chats@, m.conversation_id@, now)
                    },
                }
            },
            Err(e) => {
                &&& final(db).messages == old(db).messages
                &&& final(db).last_message == old(db).last_message
                &&& final(db).chats == old(db).chats
                &&& {
                    ||| {
                        &&& kept(old(db).results@, without_result(record.job_id)).len()
                            == MOST_ROWS
                        &&& e@ == Trouble::Db("database or disk is full"@)
                        &&& final(db).results@ == old(db).results@
                        &&& final(db).jobs == old(db).jobs
                    }
                    ||| {
                        &&& final(db).results@ == kept(
                            old(db).results@,
                            without_result(record.job_id),
                        ).push(record)
                        &&& is_done(old(db).jobs@, final(db).jobs@, record.job_id, now)
                        &&& exists|i: int|
                            0 <= i < old(db).jobs@.len() && (#[trigger] old(db).jobs@[i]).job_id
                                == record.job_id && (opt(
                                old(db).jobs@[i].conversation_id,
                            ) matches Some(c) && cannot_file(
                                *old(db),
                                c,
                                reported_total(record.meta@),
                                cost,
                                e@,
                            ))
                    }
                }
            },
        },
{
    let id: u128 = record.job_id;
    let ghost before = *db;
    // What the reply says is settled first: keeping a result changes neither
    // the job's chat nor its peer.
    let reply = match db.get_job(id) {
        Some(l) => {
            let ghost i = choose|i: int| 0 <= i < db.jobs@.len() && db.jobs@[i] == *l.job;
            proof {
                assert forall|j: int| 0 <= j < db.jobs@.len() && j != i implies (
                #[trigger] db.jobs@[j]).job_id != id by {
                    let key = job_ids();
                    if j < i {
                        assert(key(db.jobs@[j]) != key(db.jobs@[i]));
                    } else {
                        assert(key(db.jobs@[i]) != key(db.jobs@[j]));
                    }
                }
            }
            file_reply(
                &l.job.conversation_id,
                l.job.model.as_str(),
                l.peer_label.as_str(),
                &record,
                cost,
                thinking,
            )
        },
        None => None,
    };
    match db.insert_result(record) {
        Ok(_) => {},
        Err(e) => {
            return Err(e);
        },
    }
    db.update_job_status(id, JobStatus::Done, WHOLE, None, now);
    match reply {
        None => Ok(None),
        Some(m) => {
            let text_id = write_uuid(id);
            match db.add_message(
                m.conversation_id.as_str(),
                "assistant",
                m.content.as_str(),
                &Some(text_id),
                &Some(m.sha256),
                &Some(m.model),
                &Some(m.peer),
                m.tokens,
                m.cost_micros,
                &m.thinking,
                now,
            ) {
                Ok(m) => Ok(Some(m)),
                Err(e) => Err(e),
            }
        },
    }
}

/// What becomes of a job after a try, with the fallbacks from a place on: it
/// goes to the first one whose peer is still known.
pub fn hand_on(
    db: &Db,
    outcome: Outcome,
    stop_asked: bool,
    fallbacks: &Vec<Fallback>,
    from: usize,
) -> (r: Next)
    requires
        from <= fallbacks@.len(),
    ensures
        match outcome {
            Outcome::Settled => r == Next::Over,
            Outcome::Nothing(why) => {
                let none_left = forall|k: int|
                    from <= k < fallbacks@.len() ==> !knows_id(
                        db.peers@,
                        (#[trigger] fallbacks@[k]).peer_id@,
                    );
                if stop_asked || none_left {
                    r == Next::Fail(why)
                } else {
                    r matches Next::Retry(i) && from <= i < fallbacks@.len() && knows_id(
                        db.peers@,
                        fallbacks@[i as int].peer_id@,
                    ) && forall|k: int|
                        from <= k < i ==> !knows_id(db.peers@, (#[trigger] fallbacks@[k]).peer_id@)
                }
            },
        },
{
    let mut known: Vec<bool> = Vec::new();
    let mut i: usize = from;
    while i < fallbacks.len()
        invariant
            from <= i <= fallbacks@.len(),
            known@.len() == i - from,
            forall|k: int|
                0 <= k < known@.len() ==> #[trigger] known@[k] == knows_id(
                    db.peers@,
                    fallbacks@[from + k].peer_id@,
                ),
        decreases fallbacks@.len() - i,
    {
        let found = db.get_peer(fallbacks[i].peer_id.as_str());
        let here = found.is_some();
        proof {
            if let Some(p) = found {
                let j = choose|j: int| 0 <= j < db.peers@.len() && db.peers@[j] == *p;
                assert(db.peers@[j].id@ == fallbacks@[i as int].peer_id@);
            }
        }
        known.push(here);
        i = i + 1;
    }
    proof {
        assert forall|k: int| from <= k < fallbacks@.len() implies known@[k - from] == knows_id(
            db.peers@,
            (#[trigger] fallbacks@[k]).peer_id@,
        ) by {}
        if known@.contains(true) {
            let k = choose|k: int| 0 <= k < known@.len() && known@[k];
            assert(knows_id(db.peers@, fallbacks@[from + k].peer_id@));
        } else {
            assert forall|k: int| from <= k < fallbacks@.len() implies !knows_id(
                db.peers@,
                (#[trigger] fallbacks@[k]).peer_id@,
            ) by {
                if known@[k - from] {
                    assert(known@.contains(true));
                }
            }
        }
    }
    match after_attempt(outcome, stop_asked, &known) {
        Next::Retry(k) => Next::Retry(from + k),
        other => other,
    }
}

} // verus!
