//! Jobs, their results, and the chats they belong to.
use vstd::prelude::*;

use crate::codec::{fresh_uuid, uuid_text, write_uuid};
use crate::error::{AppError, Trouble};
use crate::protocol::{copy_opt, opt, JobKind, JobPayload, JobStatus};
use crate::results::ResultRecord;
use crate::store::peers::{not_mock, or_else, taken};
use crate::store::tables::{
    chosen, count_of, distinct, keep_only, kept, lemma_kept_all, lemma_kept_distinct,
    lemma_kept_members, lemma_kept_whole, lemma_push_distinct, lemma_same_keys_distinct, list_rows, listed_up_to,
    place_of, plain, Turn,
};
use crate::store::{
    chat_ids, full, is_chat, job_ids, messages_fit, result_ids, Chat, Conversation, Db, JobRecord,
    Message, Peer, MOST_ROWS,
};
use crate::text::{first_chars, lines, lines_of, same, take_chars, texts};

verus! {

broadcast use vstd::string::group_string_axioms;

// --------------------------------------------------------------------- jobs

/// A job with the name its peer goes by now.
#[derive(Debug, PartialEq)]
pub struct ListedJob<'a> {
    pub job: &'a JobRecord,
    pub peer_label: String,
}

/// The jobs of a list.
pub open spec fn jobs_in(v: Seq<ListedJob<'_>>) -> Seq<JobRecord> {
    Seq::new(v.len(), |i: int| *v[i].job)
}

/// What a peer is called: its label, or its id where it is not known.
pub open spec fn called(peers: Seq<Peer>, id: Seq<char>) -> Seq<char>
    decreases peers.len(),
{
    if peers.len() == 0 {
        id
    } else if peers.last().id@ == id {
        peers.last().label@
    } else {
        called(peers.drop_last(), id)
    }
}

pub open spec fn is_open(s: JobStatus) -> bool {
    s == JobStatus::Queued || s == JobStatus::Running
}

pub open spec fn open_jobs() -> spec_fn(JobRecord) -> bool {
    |j: JobRecord| is_open(j.status)
}

/// The newest first.
pub open spec fn job_turn() -> spec_fn(JobRecord) -> Turn {
    |j: JobRecord| ((-j.created_at) as i128, 0i128)
}

pub open spec fn with_job(id: u128) -> spec_fn(JobRecord) -> bool {
    |j: JobRecord| j.job_id == id
}

pub open spec fn without_job(id: u128) -> spec_fn(JobRecord) -> bool {
    |j: JobRecord| j.job_id != id
}

pub open spec fn of_conversation(id: Seq<char>) -> spec_fn(JobRecord) -> bool {
    |j: JobRecord| opt(j.conversation_id) == Some(id)
}

pub open spec fn knows_job(jobs: Seq<JobRecord>, id: u128) -> bool {
    exists|i: int| 0 <= i < jobs.len() && (#[trigger] jobs[i]).job_id == id
}

/// The ids of some jobs.
pub open spec fn ids_of(jobs: Seq<JobRecord>) -> Seq<u128> {
    Seq::new(jobs.len(), |i: int| jobs[i].job_id)
}

fn told(o: &Option<String>, s: &str) -> (r: bool)
    ensures
        r == (opt(*o) == Some(s@)),
{
    match o {
        Some(t) => same(t.as_str(), s),
        None => false,
    }
}

impl Db {
    fn label_of(&self, id: &str) -> (r: String)
        ensures
            r@ == called(self.peers@, id@),
    {
        let mut i: usize = self.peers.len();
        assert(self.peers@.take(i as int) =~= self.peers@);
        while i > 0
            invariant
                i <= self.peers@.len(),
                called(self.peers@, id@) == called(self.peers@.take(i as int), id@),
            decreases i,
        {
            let ghost now = self.peers@.take(i as int);
            i = i - 1;
            assert(now.drop_last() =~= self.peers@.take(i as int));
            assert(now.last() == self.peers@[i as int]);
            if same(self.peers[i].id.as_str(), id) {
                return self.peers[i].label.clone();
            }
        }
        id.to_string()
    }

    fn job_place(&self, job_id: u128) -> (r: usize)
        ensures
            r <= self.jobs@.len(),
            r < self.jobs@.len() ==> self.jobs@[r as int].job_id == job_id,
            r < self.jobs@.len() <==> knows_job(self.jobs@, job_id),
    {
        let r: usize = place_of(
            &self.jobs,
            |j: &JobRecord| -> (b: bool)
                ensures
                    b == with_job(job_id)(*j)
                { j.job_id == job_id },
            Ghost(with_job(job_id)),
        );
        if r < self.jobs.len() {
            assert(with_job(job_id)(self.jobs@[r as int]));
        } else {
            assert forall|i: int| 0 <= i < self.jobs@.len() implies (
            #[trigger] self.jobs@[i]).job_id != job_id by {
                assert(!with_job(job_id)(self.jobs@[i]));
            }
        }
        r
    }

    /// Keeps a job; a job is kept once.
    pub fn insert_job(&mut self, job: JobRecord) -> (r: Result<(), AppError>)
        requires
            old(self).wf(),
        ensures
            final(self).wf(),
            match r {
                Ok(_) => {
                    &&& !knows_job(old(self).jobs@, job.job_id)
                    &&& final(self).jobs@ == old(self).jobs@.push(job)
                    &&& *final(self) == (Db { jobs: final(self).jobs, ..*old(self) })
                },
                Err(e) => {
                    &&& *final(self) == *old(self)
                    &&& if knows_job(old(self).jobs@, job.job_id) {
                        e@ == Trouble::Db("UNIQUE constraint failed: "@ + "jobs.job_id"@)
                    } else {
                        old(self).jobs@.len() == MOST_ROWS && e@ == Trouble::Db(
                            "database or disk is full"@,
                        )
                    }
                },
            },
    {
        if self.job_place(job.job_id) < self.jobs.len() {
            return Err(taken("jobs.job_id"));
        }
        if self.jobs.len() >= MOST_ROWS as usize {
            return Err(full());
        }
        proof {
            lemma_push_distinct(self.jobs@, job, job_ids());
        }
        self.jobs.push(job);
        Ok(())
    }

    /// Records how far a job has come. A reason that was given once stays.
    pub fn update_job_status(
        &mut self,
        job_id: u128,
        status: JobStatus,
        progress: u32,
        error: Option<String>,
        now: i64,
    )
        requires
            old(self).wf(),
        ensures
            final(self).wf(),
            *final(self) == (Db { jobs: final(self).jobs, ..*old(self) }),
            final(self).jobs@.len() == old(self).jobs@.len(),
            forall|i: int|
                0 <= i < final(self).jobs@.len() ==> {
                    let (a, b) = (old(self).jobs@[i], #[trigger] final(self).jobs@[i]);
                    if a.job_id == job_id {
                        b == (JobRecord {
                            status,
                            progress,
                            error: or_else(error, a.error),
                            updated_at: now,
                            ..a
                        })
                    } else {
                        a == b
                    }
                },
    {
        let ghost was = self.jobs@;
        let at: usize = self.job_place(job_id);
        if at < self.jobs.len() {
            proof {
                lemma_only_job(was, job_id, at as int);
            }
            let row = &mut self.jobs[at];
            row.status = status;
            row.progress = progress;
            row.updated_at = now;
            if error.is_some() {
                row.error = error;
            }
            proof {
                lemma_same_keys_distinct(was, self.jobs@, job_ids());
            }
        }
    }

    /// Hands a job that nothing came of to another peer, with the request as it
    /// goes there.
    pub fn reassign_job(&mut self, job_id: u128, peer_id: &str, payload: JobPayload, now: i64)
        requires
            old(self).wf(),
        ensures
            final(self).wf(),
            *final(self) == (Db { jobs: final(self).jobs, ..*old(self) }),
            is_reassigned(old(self).jobs@, final(self).jobs@, job_id, peer_id@, payload, now),
    {
        let ghost was = self.jobs@;
        let at: usize = self.job_place(job_id);
        if at < self.jobs.len() {
            proof {
                lemma_only_job(was, job_id, at as int);
            }
            let row = &mut self.jobs[at];
            row.peer_id = peer_id.to_string();
            row.payload = payload;
            row.updated_at = now;
            proof {
                lemma_same_keys_distinct(was, self.jobs@, job_ids());
            }
        }
    }

    /// Marks the jobs that were under way as failed, and says how many: the
    /// connections that owned them are gone.
    pub fn fail_orphaned_jobs(&mut self, now: i64) -> (r: usize)
        requires
            old(self).wf(),
        ensures
            final(self).wf(),
            *final(self) == (Db { jobs: final(self).jobs, ..*old(self) }),
            r == kept(old(self).jobs@, open_jobs()).len(),
            are_interrupted(old(self).jobs@, final(self).jobs@, now),
    {
        let ghost was = self.jobs@;
        let n: usize = self.count_open();
        let mut i: usize = 0;
        while i < self.jobs.len()
            invariant
                was == old(self).jobs@,
                *self == (Db { jobs: self.jobs, ..*old(self) }),
                i <= self.jobs@.len(),
                self.jobs@.len() == was.len(),
                forall|k: int| i <= k < was.len() ==> #[trigger] self.jobs@[k] == was[k],
                forall|k: int|
                    0 <= k < i ==> {
                        let (a, b) = (was[k], #[trigger] self.jobs@[k]);
                        if is_open(a.status) {
                            &&& opt(b.error) == Some("interrupted (client restarted)"@)
                            &&& b == (JobRecord {
                                status: JobStatus::Failed,
                                error: b.error,
                                updated_at: now,
                                ..a
                            })
                        } else {
                            a == b
                        }
                    },
            decreases self.jobs@.len() - i,
        {
            if self.jobs[i].status == JobStatus::Queued || self.jobs[i].status
                == JobStatus::Running {
                let row = &mut self.jobs[i];
                row.status = JobStatus::Failed;
                row.error = Some("interrupted (client restarted)".to_string());
                row.updated_at = now;
            }
            i = i + 1;
        }
        proof {
            assert forall|k: int| 0 <= k < self.jobs@.len() implies job_ids()(
                #[trigger] self.jobs@[k],
            ) == job_ids()(was[k]) by {}
            lemma_same_keys_distinct(was, self.jobs@, job_ids());
        }
        n
    }

    fn count_open(&self) -> (r: usize)
        ensures
            r == kept(self.jobs@, open_jobs()).len(),
            r <= self.jobs@.len(),
    {
        count_of(
            &self.jobs,
            |j: &JobRecord| -> (b: bool)
                ensures
                    b == open_jobs()(*j)
                { j.status == JobStatus::Queued || j.status == JobStatus::Running },
            Ghost(open_jobs()),
        )
    }

    /// The newest jobs, each with what its peer is called now.
    pub fn list_jobs(&self, limit: u32) -> (r: Vec<ListedJob<'_>>)
        ensures
            listed_up_to(self.jobs@, job_turn(), limit as int, jobs_in(r@)),
            forall|i: int|
                0 <= i < r@.len() ==> (#[trigger] r@[i]).peer_label@ == called(
                    self.peers@,
                    r@[i].job.peer_id@,
                ),
    {
        let all = chosen(&self.jobs, |j: &JobRecord| -> (b: bool) ensures b { true }, Ghost(
            |j: JobRecord| true,
        ));
        proof {
            lemma_kept_all(self.jobs@, |j: JobRecord| true);
        }
        let rows = list_rows(
            &all,
            |j: &JobRecord| -> (t: Turn)
                ensures
                    t == job_turn()(*j)
                { (-(j.created_at as i128), 0) },
            limit as usize,
            Ghost(job_turn()),
        );
        let mut out: Vec<ListedJob<'_>> = Vec::new();
        let mut i: usize = 0;
        while i < rows.len()
            invariant
                i <= rows@.len(),
                out@.len() == i,
                forall|k: int|
                    0 <= k < i ==> *(#[trigger] out@[k]).job == *rows@[k] && out@[k].peer_label@
                        == called(self.peers@, out@[k].job.peer_id@),
            decreases rows@.len() - i,
        {
            let job = rows[i];
            out.push(ListedJob { job, peer_label: self.label_of(job.peer_id.as_str()) });
            i = i + 1;
        }
        assert(jobs_in(out@) =~= plain(rows@));
        out
    }

    pub fn get_job(&self, job_id: u128) -> (r: Option<ListedJob<'_>>)
        ensures
            match r {
                Some(l) => {
                    &&& self.jobs@.contains(*l.job) && l.job.job_id == job_id
                    &&& l.peer_label@ == called(self.peers@, l.job.peer_id@)
                },
                None => !knows_job(self.jobs@, job_id),
            },
    {
        let at: usize = self.job_place(job_id);
        if at < self.jobs.len() {
            let job = &self.jobs[at];
            assert(self.jobs@.contains(*job));
            Some(ListedJob { job, peer_label: self.label_of(job.peer_id.as_str()) })
        } else {
            None
        }
    }

    /// The jobs of a chat.
    pub fn conversation_job_ids(&self, id: &str) -> (r: Vec<u128>)
        ensures
            r@ == ids_of(kept(self.jobs@, of_conversation(id@))),
    {
        let rows = chosen(
            &self.jobs,
            |j: &JobRecord| -> (b: bool)
                ensures
                    b == of_conversation(id@)(*j)
                { told(&j.conversation_id, id) },
            Ghost(of_conversation(id@)),
        );
        let mut out: Vec<u128> = Vec::new();
        let mut i: usize = 0;
        while i < rows.len()
            invariant
                i <= rows@.len(),
                out@.len() == i,
                forall|k: int| 0 <= k < i ==> #[trigger] out@[k] == rows@[k].job_id,
            decreases rows@.len() - i,
        {
            out.push(rows[i].job_id);
            i = i + 1;
        }
        assert(out@ =~= ids_of(plain(rows@)));
        out
    }
}

// ------------------------------------------------------------------ results

pub open spec fn with_result(id: u128) -> spec_fn(ResultRecord) -> bool {
    |r: ResultRecord| r.job_id == id
}

pub open spec fn without_result(id: u128) -> spec_fn(ResultRecord) -> bool {
    |r: ResultRecord| r.job_id != id
}

pub open spec fn of_kind(kind: Option<JobKind>) -> spec_fn(ResultRecord) -> bool {
    |r: ResultRecord| kind matches Some(k) ==> r.kind == k
}

pub open spec fn result_turn() -> spec_fn(ResultRecord) -> Turn {
    |r: ResultRecord| ((-r.created_at) as i128, 0i128)
}

pub open spec fn has_file() -> spec_fn(ResultRecord) -> bool {
    |r: ResultRecord| r.image_path is Some
}

/// The files of some results.
pub open spec fn files_of(rs: Seq<ResultRecord>) -> Seq<Seq<char>> {
    Seq::new(
        rs.len(),
        |i: int|
            match rs[i].image_path {
                Some(p) => p@,
                None => ""@,
            },
    )
}

impl Db {
    /// Keeps a result, in place of one the job had before.
    pub fn insert_result(&mut self, result: ResultRecord) -> (r: Result<(), AppError>)
        requires
            old(self).wf(),
        ensures
            final(self).wf(),
            match r {
                Ok(_) => {
                    &&& final(self).results@ == kept(
                        old(self).results@,
                        without_result(result.job_id),
                    ).push(result)
                    &&& *final(self) == (Db { results: final(self).results, ..*old(self) })
                },
                Err(e) => {
                    &&& kept(old(self).results@, without_result(result.job_id)).len() == MOST_ROWS
                    &&& final(self).results@ == old(self).results@
                    &&& *final(self) == (Db { results: final(self).results, ..*old(self) })
                    &&& e@ == Trouble::Db("database or disk is full"@)
                },
            },
    {
        let ghost was = self.results@;
        let id: u128 = result.job_id;
        keep_only(
            &mut self.results,
            |r: &ResultRecord| -> (b: bool)
                ensures
                    b == without_result(id)(*r)
                { r.job_id != id },
            Ghost(without_result(id)),
        );
        proof {
            lemma_kept_distinct(was, without_result(id), result_ids());
            lemma_kept_members(was, without_result(id));
            if self.results@.len() == MOST_ROWS {
                lemma_kept_whole(was, without_result(id));
            }
        }
        if self.results.len() >= MOST_ROWS as usize {
            return Err(full());
        }
        proof {
            assert forall|i: int| 0 <= i < self.results@.len() implies result_ids()(
                #[trigger] self.results@[i],
            ) != result_ids()(result) by {
                assert(self.results@.contains(self.results@[i]));
            }
            lemma_push_distinct(self.results@, result, result_ids());
        }
        self.results.push(result);
        Ok(())
    }

    pub fn get_result(&self, job_id: u128) -> (r: Option<&ResultRecord>)
        ensures
            match r {
                Some(x) => self.results@.contains(*x) && x.job_id == job_id,
                None => forall|i: int|
                    0 <= i < self.results@.len() ==> (#[trigger] self.results@[i]).job_id != job_id,
            },
    {
        let at: usize = place_of(
            &self.results,
            |r: &ResultRecord| -> (b: bool)
                ensures
                    b == with_result(job_id)(*r)
                { r.job_id == job_id },
            Ghost(with_result(job_id)),
        );
        if at < self.results.len() {
            assert(with_result(job_id)(self.results@[at as int]));
            Some(&self.results[at])
        } else {
            assert forall|i: int| 0 <= i < self.results@.len() implies (
            #[trigger] self.results@[i]).job_id != job_id by {
                assert(!with_result(job_id)(self.results@[i]));
            }
            None
        }
    }

    /// The newest results, of one kind or of all.
    pub fn list_results(&self, kind: Option<JobKind>, limit: u32) -> (r: Vec<&ResultRecord>)
        ensures
            listed_up_to(
                kept(self.results@, of_kind(kind)),
                result_turn(),
                limit as int,
                plain(r@),
            ),
    {
        let rows = chosen(
            &self.results,
            |r: &ResultRecord| -> (b: bool)
                ensures
                    b == of_kind(kind)(*r)
                {
                    match kind {
                        Some(k) => r.kind == k,
                        None => true,
                    }
                },
            Ghost(of_kind(kind)),
        );
        list_rows(
            &rows,
            |r: &ResultRecord| -> (t: Turn)
                ensures
                    t == result_turn()(*r)
                { (-(r.created_at as i128), 0) },
            limit as usize,
            Ghost(result_turn()),
        )
    }

    /// Every file that is kept.
    pub fn all_result_paths(&self) -> (r: Vec<String>)
        ensures
            texts(r@) == files_of(kept(self.results@, has_file())),
    {
        let rows = chosen(
            &self.results,
            |r: &ResultRecord| -> (b: bool)
                ensures
                    b == has_file()(*r)
                { r.image_path.is_some() },
            Ghost(has_file()),
        );
        let mut out: Vec<String> = Vec::new();
        let mut i: usize = 0;
        while i < rows.len()
            invariant
                i <= rows@.len(),
                out@.len() == i,
                forall|k: int|
                    0 <= k < i ==> (#[trigger] out@[k])@ == files_of(plain(rows@))[k],
            decreases rows@.len() - i,
        {
            let file = match &rows[i].image_path {
                Some(p) => p.clone(),
                None => "".to_string(),
            };
            out.push(file);
            i = i + 1;
        }
        assert(texts(out@) =~= files_of(plain(rows@)));
        out
    }

    /// Forgets a result, the messages that carry it, and the job behind it.
    pub fn delete_result(&mut self, job_id: u128)
        requires
            old(self).wf(),
        ensures
            final(self).wf(),
            *final(self) == (Db {
                results: final(self).results,
                messages: final(self).messages,
                jobs: final(self).jobs,
                ..*old(self)
            }),
            final(self).results@ == kept(old(self).results@, without_result(job_id)),
            final(self).messages@ == kept(old(self).messages@, not_about(uuid_text(job_id))),
            final(self).jobs@ == kept(old(self).jobs@, without_job(job_id)),
    {
        let id = write_uuid(job_id);
        let ghost was = *self;
        keep_only(
            &mut self.results,
            |r: &ResultRecord| -> (b: bool)
                ensures
                    b == without_result(job_id)(*r)
                { r.job_id != job_id },
            Ghost(without_result(job_id)),
        );
        keep_only(
            &mut self.messages,
            |m: &Message| -> (b: bool)
                ensures
                    b == not_about(id@)(*m)
                { !told(&m.job_id, id.as_str()) },
            Ghost(not_about(id@)),
        );
        keep_only(
            &mut self.jobs,
            |j: &JobRecord| -> (b: bool)
                ensures
                    b == without_job(job_id)(*j)
                { j.job_id != job_id },
            Ghost(without_job(job_id)),
        );
        proof {
            lemma_kept_distinct(was.results@, without_result(job_id), result_ids());
            lemma_kept_members(was.results@, without_result(job_id));
            lemma_kept_distinct(was.jobs@, without_job(job_id), job_ids());
            lemma_kept_members(was.jobs@, without_job(job_id));
            lemma_kept_members(was.messages@, not_about(id@));
            lemma_messages_kept(was.chats@, was.messages@, was.last_message, not_about(id@));
        }
    }
}

// ------------------------------------------------------------ conversations

pub open spec fn not_about(job: Seq<char>) -> spec_fn(Message) -> bool {
    |m: Message| opt(m.job_id) != Some(job)
}

pub open spec fn in_chat(id: Seq<char>) -> spec_fn(Message) -> bool {
    |m: Message| m.conversation_id@ == id
}

pub open spec fn not_in_chat(id: Seq<char>) -> spec_fn(Message) -> bool {
    |m: Message| m.conversation_id@ != id
}

pub open spec fn other_chats(id: Seq<char>) -> spec_fn(Chat) -> bool {
    |c: Chat| c.id@ != id
}

pub open spec fn chats_of(kind: Option<Seq<char>>) -> spec_fn(Chat) -> bool {
    |c: Chat| kind matches Some(k) ==> c.kind@ == k
}

/// The one something last happened in comes first.
pub open spec fn chat_turn() -> spec_fn(Chat) -> Turn {
    |c: Chat| ((-c.updated_at) as i128, 0i128)
}

/// The last thing said in a chat.
pub open spec fn last_said(messages: Seq<Message>, id: Seq<char>) -> Seq<char>
    decreases messages.len(),
{
    if messages.len() == 0 {
        ""@
    } else if messages.last().conversation_id@ == id {
        messages.last().content@
    } else {
        last_said(messages.drop_last(), id)
    }
}

/// What the list shows of a text: as much of its first line as fits.
pub open spec fn previewed(s: Seq<char>) -> Seq<char> {
    if lines(s).len() == 0 {
        ""@
    } else {
        first_chars(lines(s)[0], 80)
    }
}

/// How a chat is listed.
pub open spec fn shows(c: Conversation, chat: Chat, messages: Seq<Message>) -> bool {
    &&& c.id@ == chat.id@ && c.title@ == chat.title@ && c.kind@ == chat.kind@
    &&& c.created_at == chat.created_at && c.updated_at == chat.updated_at
    &&& c.preview@ == previewed(last_said(messages, chat.id@))
    &&& c.message_count == kept(messages, in_chat(chat.id@)).len()
}

/// How chats are listed.
pub open spec fn all_shown(r: Seq<Conversation>, rows: Seq<Chat>, messages: Seq<Message>) -> bool {
    &&& r.len() == rows.len()
    &&& forall|i: int| 0 <= i < r.len() ==> shows(#[trigger] r[i], rows[i], messages)
}

/// A message that says this.
pub open spec fn says(
    m: Message,
    conversation_id: Seq<char>,
    role: Seq<char>,
    content: Seq<char>,
    job_id: Option<Seq<char>>,
    sha256: Option<Seq<char>>,
    model: Option<Seq<char>>,
    peer: Option<Seq<char>>,
    tokens: Option<u64>,
    cost_micros: Option<u64>,
    thinking: Option<Seq<char>>,
    now: i64,
) -> bool {
    &&& m.conversation_id@ == conversation_id && m.role@ == role && m.content@ == content
    &&& opt(m.job_id) == job_id && opt(m.sha256) == sha256 && opt(m.model) == model
    &&& opt(m.peer) == peer && opt(m.thinking) == thinking
    &&& m.tokens == tokens && m.cost_micros == cost_micros && m.created_at == now
}

/// The chats after one was given another title.
pub open spec fn is_retitled(
    was: Seq<Chat>,
    is: Seq<Chat>,
    id: Seq<char>,
    title: Seq<char>,
    now: i64,
) -> bool {
    &&& is.len() == was.len()
    &&& forall|i: int|
        0 <= i < is.len() ==> {
            let (a, b) = (was[i], #[trigger] is[i]);
            if a.id@ == id {
                b == (Chat { title: b.title, updated_at: now, ..a }) && b.title@ == title
            } else {
                a == b
            }
        }
}

/// The jobs after one was handed to another peer.
pub open spec fn is_reassigned(
    was: Seq<JobRecord>,
    is: Seq<JobRecord>,
    id: u128,
    peer_id: Seq<char>,
    payload: JobPayload,
    now: i64,
) -> bool {
    &&& is.len() == was.len()
    &&& forall|i: int|
        0 <= i < is.len() ==> {
            let (a, b) = (was[i], #[trigger] is[i]);
            if a.job_id == id {
                &&& b.peer_id@ == peer_id
                &&& b == (JobRecord { peer_id: b.peer_id, payload, updated_at: now, ..a })
            } else {
                a == b
            }
        }
}

/// The jobs after a restart: those that were not at their end have failed.
pub open spec fn are_interrupted(was: Seq<JobRecord>, is: Seq<JobRecord>, now: i64) -> bool {
    &&& is.len() == was.len()
    &&& forall|i: int|
        0 <= i < is.len() ==> {
            let (a, b) = (was[i], #[trigger] is[i]);
            if is_open(a.status) {
                &&& opt(b.error) == Some("interrupted (client restarted)"@)
                &&& b == (JobRecord {
                    status: JobStatus::Failed,
                    error: b.error,
                    updated_at: now,
                    ..a
                })
            } else {
                a == b
            }
        }
}

/// The messages after the reply to a job was given its cost.
pub open spec fn is_priced(
    was: Seq<Message>,
    is: Seq<Message>,
    job: Seq<char>,
    cost_micros: u64,
) -> bool {
    &&& is.len() == was.len()
    &&& forall|i: int|
        0 <= i < is.len() ==> {
            let (a, b) = (was[i], #[trigger] is[i]);
            if opt(a.job_id) == Some(job) && a.role@ == "assistant"@ {
                b == (Message { cost_micros: Some(cost_micros), ..a })
            } else {
                a == b
            }
        }
}

/// A number that a row cannot hold.
pub open spec fn too_big(n: Option<u64>) -> bool {
    n matches Some(x) && x > i64::MAX
}

pub(crate) fn is_too_big(n: Option<u64>) -> (r: bool)
    ensures
        r == too_big(n),
{
    match n {
        Some(x) => x > i64::MAX as u64,
        None => false,
    }
}

pub(crate) fn out_of_range() -> (r: AppError)
    ensures
        r@ == Trouble::Db("out of range integral type conversion attempted"@),
{
    AppError::Db("out of range integral type conversion attempted".to_string())
}

/// The messages that stay fit as before.
proof fn lemma_messages_kept(
    chats: Seq<Chat>,
    messages: Seq<Message>,
    last: i64,
    keep: spec_fn(Message) -> bool,
)
    requires
        messages_fit(chats, messages, last),
    ensures
        messages_fit(chats, kept(messages, keep), last),
    decreases messages.len(),
{
    if messages.len() > 0 {
        let before = messages.drop_last();
        assert forall|i: int| 0 <= i < before.len() implies {
            &&& (#[trigger] before[i]).id <= last
            &&& is_chat(chats, before[i].conversation_id@)
        } by {
            assert(before[i] == messages[i]);
        }
        lemma_messages_kept(chats, before, last, keep);
        lemma_kept_members(before, keep);
        let k = kept(before, keep);
        assert forall|i: int| 0 <= i < k.len() implies (#[trigger] k[i]).id
            < messages.last().id by {
            assert(k.contains(k[i]));
            let j = choose|j: int| 0 <= j < before.len() && before[j] == k[i];
            assert(messages[j] == k[i]);
            assert(messages[j].id < messages[messages.len() - 1].id);
        }
        assert(messages[messages.len() - 1] == messages.last());
    }
}

impl Db {
    fn chat_place(&self, id: &str) -> (r: usize)
        ensures
            r <= self.chats@.len(),
            r < self.chats@.len() ==> self.chats@[r as int].id@ == id@,
            r < self.chats@.len() <==> is_chat(self.chats@, id@),
    {
        let mut i: usize = 0;
        while i < self.chats.len()
            invariant
                i <= self.chats@.len(),
                forall|k: int| 0 <= k < i ==> (#[trigger] self.chats@[k]).id@ != id@,
            decreases self.chats@.len() - i,
        {
            if same(self.chats[i].id.as_str(), id) {
                return i;
            }
            i = i + 1;
        }
        i
    }

    /// Opens a chat under an id of its own.
    pub fn insert_conversation(&mut self, id: &str, title: &str, kind: &str, now: i64) -> (r:
        Result<Conversation, AppError>)
        requires
            old(self).wf(),
        ensures
            final(self).wf(),
            *final(self) == (Db { chats: final(self).chats, ..*old(self) }),
            match r {
                Ok(c) => {
                    let row = final(self).chats@.last();
                    &&& !is_chat(old(self).chats@, id@)
                    &&& final(self).chats@ == old(self).chats@.push(row)
                    &&& row.id@ == id@ && row.title@ == title@ && row.kind@ == kind@
                    &&& row.created_at == now && row.updated_at == now
                    &&& c.id@ == id@ && c.title@ == title@ && c.kind@ == kind@
                    &&& c.created_at == now && c.updated_at == now
                    &&& c.preview@ == ""@ && c.message_count == 0
                },
                Err(e) => {
                    &&& *final(self) == *old(self)
                    &&& if is_chat(old(self).chats@, id@) {
                        e@ == Trouble::Db("UNIQUE constraint failed: "@ + "conversations.id"@)
                    } else {
                        old(self).chats@.len() == MOST_ROWS && e@ == Trouble::Db(
                            "database or disk is full"@,
                        )
                    }
                },
            },
    {
        if self.chat_place(id) < self.chats.len() {
            return Err(taken("conversations.id"));
        }
        if self.chats.len() >= MOST_ROWS as usize {
            return Err(full());
        }
        let row = Chat {
            id: id.to_string(),
            title: title.to_string(),
            kind: kind.to_string(),
            created_at: now,
            updated_at: now,
        };
        let ghost was = self.chats@;
        proof {
            lemma_push_distinct(was, row, chat_ids());
        }
        self.chats.push(row);
        proof {
            lemma_more_chats(was, self.chats@, self.messages@, self.last_message);
        }
        Ok(
            Conversation {
                id: id.to_string(),
                title: title.to_string(),
                kind: kind.to_string(),
                created_at: now,
                updated_at: now,
                preview: "".to_string(),
                message_count: 0,
            },
        )
    }

    /// Opens a chat under a fresh id.
    pub fn create_conversation(&mut self, title: &str, kind: &str, now: i64) -> (r: Result<
        Conversation,
        AppError,
    >)
        requires
            old(self).wf(),
        ensures
            final(self).wf(),
            *final(self) == (Db { chats: final(self).chats, ..*old(self) }),
            match r {
                Ok(c) => {
                    let row = final(self).chats@.last();
                    &&& !is_chat(old(self).chats@, c.id@)
                    &&& final(self).chats@ == old(self).chats@.push(row)
                    &&& row.id@ == c.id@ && row.title@ == title@ && row.kind@ == kind@
                    &&& row.created_at == now && row.updated_at == now
                    &&& c.title@ == title@ && c.kind@ == kind@
                    &&& c.created_at == now && c.updated_at == now
                    &&& c.preview@ == ""@ && c.message_count == 0
                },
                Err(e) => {
                    &&& *final(self) == *old(self)
                    &&& {
                        ||| old(self).chats@.len() > 0 && e@ == Trouble::Db(
                            "UNIQUE constraint failed: "@ + "conversations.id"@,
                        )
                        ||| old(self).chats@.len() == MOST_ROWS && e@ == Trouble::Db(
                            "database or disk is full"@,
                        )
                    }
                },
            },
    {
        let id = write_uuid(fresh_uuid());
        self.insert_conversation(id.as_str(), title, kind, now)
    }

    fn last_words(&self, id: &str) -> (r: String)
        ensures
            r@ == last_said(self.messages@, id@),
    {
        let mut i: usize = self.messages.len();
        assert(self.messages@.take(i as int) =~= self.messages@);
        while i > 0
            invariant
                i <= self.messages@.len(),
                last_said(self.messages@, id@) == last_said(self.messages@.take(i as int), id@),
            decreases i,
        {
            let ghost now = self.messages@.take(i as int);
            i = i - 1;
            assert(now.drop_last() =~= self.messages@.take(i as int));
            assert(now.last() == self.messages@[i as int]);
            if same(self.messages[i].conversation_id.as_str(), id) {
                return self.messages[i].content.clone();
            }
        }
        "".to_string()
    }

    /// The chats, of one kind or of all, the one something last happened in
    /// first.
    pub fn list_conversations(&self, kind: &Option<String>, limit: u32) -> (r: Vec<Conversation>)
        requires
            self.wf(),
        ensures
            exists|rows: Seq<Chat>|
                #[trigger] listed_up_to(
                    kept(self.chats@, chats_of(opt(*kind))),
                    chat_turn(),
                    limit as int,
                    rows,
                ) && all_shown(r@, rows, self.messages@),
    {
        let all = chosen(
            &self.chats,
            |c: &Chat| -> (b: bool)
                ensures
                    b == chats_of(opt(*kind))(*c)
                {
                    match kind {
                        Some(k) => same(c.kind.as_str(), k.as_str()),
                        None => true,
                    }
                },
            Ghost(chats_of(opt(*kind))),
        );
        let rows = list_rows(
            &all,
            |c: &Chat| -> (t: Turn)
                ensures
                    t == chat_turn()(*c)
                { (-(c.updated_at as i128), 0) },
            limit as usize,
            Ghost(chat_turn()),
        );
        let mut out: Vec<Conversation> = Vec::new();
        let mut i: usize = 0;
        while i < rows.len()
            invariant
                self.wf(),
                i <= rows@.len(),
                out@.len() == i,
                forall|k: int|
                    0 <= k < i ==> shows(#[trigger] out@[k], *rows@[k], self.messages@),
            decreases rows@.len() - i,
        {
            let c = rows[i];
            let n: usize = count_of(
                &self.messages,
                |m: &Message| -> (b: bool)
                    ensures
                        b == in_chat(c.id@)(*m)
                    { same(m.conversation_id.as_str(), c.id.as_str()) },
                Ghost(in_chat(c.id@)),
            );
            let said = self.last_words(c.id.as_str());
            let ls = lines_of(said.as_str());
            let preview = if ls.len() > 0 {
                assert(texts(ls@)[0] == ls@[0]@);
                take_chars(ls[0].as_str(), 80)
            } else {
                "".to_string()
            };
            out.push(
                Conversation {
                    id: c.id.clone(),
                    title: c.title.clone(),
                    kind: c.kind.clone(),
                    created_at: c.created_at,
                    updated_at: c.updated_at,
                    preview,
                    message_count: n as u32,
                },
            );
            i = i + 1;
        }
        assert(all_shown(out@, plain(rows@), self.messages@));
        out
    }

    /// Gives a chat a new title.
    pub fn rename_conversation(&mut self, id: &str, title: &str, now: i64)
        requires
            old(self).wf(),
        ensures
            final(self).wf(),
            *final(self) == (Db { chats: final(self).chats, ..*old(self) }),
            is_retitled(old(self).chats@, final(self).chats@, id@, title@, now),
    {
        let ghost was = self.chats@;
        let at: usize = self.chat_place(id);
        if at < self.chats.len() {
            proof {
                lemma_only_chat(was, id@, at as int);
            }
            let row = &mut self.chats[at];
            row.title = title.to_string();
            row.updated_at = now;
            proof {
                lemma_same_keys_distinct(was, self.chats@, chat_ids());
                lemma_same_chats(was, self.chats@, self.messages@, self.last_message);
            }
        }
    }

    /// Deletes a chat and its messages.
    pub fn delete_conversation(&mut self, id: &str)
        requires
            old(self).wf(),
        ensures
            final(self).wf(),
            *final(self) == (Db {
                chats: final(self).chats,
                messages: final(self).messages,
                ..*old(self)
            }),
            final(self).chats@ == kept(old(self).chats@, other_chats(id@)),
            final(self).messages@ == kept(old(self).messages@, not_in_chat(id@)),
    {
        let ghost was = *self;
        keep_only(
            &mut self.messages,
            |m: &Message| -> (b: bool)
                ensures
                    b == not_in_chat(id@)(*m)
                { !same(m.conversation_id.as_str(), id) },
            Ghost(not_in_chat(id@)),
        );
        keep_only(
            &mut self.chats,
            |c: &Chat| -> (b: bool)
                ensures
                    b == other_chats(id@)(*c)
                { !same(c.id.as_str(), id) },
            Ghost(other_chats(id@)),
        );
        proof {
            lemma_kept_distinct(was.chats@, other_chats(id@), chat_ids());
            lemma_kept_members(was.chats@, other_chats(id@));
            lemma_kept_members(was.messages@, not_in_chat(id@));
            lemma_messages_kept(was.chats@, was.messages@, was.last_message, not_in_chat(id@));
            let (cs, ms) = (self.chats@, self.messages@);
            assert forall|i: int| 0 <= i < ms.len() implies is_chat(
                cs,
                (#[trigger] ms[i]).conversation_id@,
            ) by {
                assert(ms.contains(ms[i]));
                assert(not_in_chat(id@)(ms[i]));
                let j = choose|j: int|
                    0 <= j < was.chats@.len() && (#[trigger] was.chats@[j]).id@
                        == ms[i].conversation_id@;
                assert(was.chats@.contains(was.chats@[j]));
                assert(other_chats(id@)(was.chats@[j]));
                assert(cs.contains(was.chats@[j]));
                let k = choose|k: int| 0 <= k < cs.len() && cs[k] == was.chats@[j];
                assert(cs[k].id@ == ms[i].conversation_id@);
            }
        }
    }

    /// Forgets every chat, message, job and result. Peers, settings and money
    /// are no history and stay.
    pub fn clear_history(&mut self)
        requires
            old(self).wf(),
        ensures
            final(self).wf(),
            *final(self) == (Db {
                chats: final(self).chats,
                messages: final(self).messages,
                results: final(self).results,
                jobs: final(self).jobs,
                ..*old(self)
            }),
            final(self).chats@.len() == 0,
            final(self).messages@.len() == 0,
            final(self).results@.len() == 0,
            final(self).jobs@.len() == 0,
    {
        self.messages.clear();
        self.chats.clear();
        self.results.clear();
        self.jobs.clear();
    }

    /// Adds a message to a chat, which something thereby happened in. Numbers
    /// of messages are never given twice.
    pub fn add_message(
        &mut self,
        conversation_id: &str,
        role: &str,
        content: &str,
        job_id: &Option<String>,
        sha256: &Option<String>,
        model: &Option<String>,
        peer: &Option<String>,
        tokens: Option<u64>,
        cost_micros: Option<u64>,
        thinking: &Option<String>,
        now: i64,
    ) -> (r: Result<Message, AppError>)
        requires
            old(self).wf(),
        ensures
            final(self).wf(),
            *final(self) == (Db {
                chats: final(self).chats,
                messages: final(self).messages,
                last_message: final(self).last_message,
                ..*old(self)
            }),
            match r {
                Ok(m) => {
                    let row = final(self).messages@.last();
                    &&& is_chat(old(self).chats@, conversation_id@)
                    &&& final(self).last_message == old(self).last_message + 1
                    &&& final(self).messages@ == old(self).messages@.push(row)
                    &&& m.id == final(self).last_message && row.id == final(self).last_message
                    &&& says(
                        m,
                        conversation_id@,
                        role@,
                        content@,
                        opt(*job_id),
                        opt(*sha256),
                        opt(*model),
                        opt(*peer),
                        tokens,
                        cost_micros,
                        opt(*thinking),
                        now,
                    )
                    &&& says(
                        row,
                        conversation_id@,
                        role@,
                        content@,
                        opt(*job_id),
                        opt(*sha256),
                        opt(*model),
                        opt(*peer),
                        tokens,
                        cost_micros,
                        opt(*thinking),
                        now,
                    )
                    &&& final(self).chats@.len() == old(self).chats@.len()
                    &&& forall|i: int|
                        0 <= i < final(self).chats@.len() ==> {
                            let (a, b) = (old(self).chats@[i], #[trigger] final(self).chats@[i]);
                            if a.id@ == conversation_id@ {
                                b == (Chat { updated_at: now, ..a })
                            } else {
                                a == b
                            }
                        }
                },
                Err(e) => {
                    &&& *final(self) == *old(self)
                    &&& if too_big(tokens) || too_big(cost_micros) {
                        e@ == Trouble::Db("out of range integral type conversion attempted"@)
                    } else if old(self).last_message == i64::MAX || old(self).messages@.len()
                        == MOST_ROWS {
                        e@ == Trouble::Db("database or disk is full"@)
                    } else {
                        !is_chat(old(self).chats@, conversation_id@) && e@ == Trouble::Db(
                            "FOREIGN KEY constraint failed"@,
                        )
                    }
                },
            },
            (too_big(tokens) || too_big(cost_micros)) ==> r is Err,
    {
        if is_too_big(tokens) || is_too_big(cost_micros) {
            return Err(out_of_range());
        }
        if self.last_message == i64::MAX || self.messages.len() >= MOST_ROWS as usize {
            return Err(full());
        }
        let at: usize = self.chat_place(conversation_id);
        if at >= self.chats.len() {
            return Err(AppError::Db("FOREIGN KEY constraint failed".to_string()));
        }
        let ghost was = *self;
        let id: i64 = self.last_message + 1;
        let row = Message {
            id,
            conversation_id: conversation_id.to_string(),
            role: role.to_string(),
            content: content.to_string(),
            job_id: copy_opt(job_id),
            sha256: copy_opt(sha256),
            model: copy_opt(model),
            peer: copy_opt(peer),
            tokens,
            cost_micros,
            thinking: copy_opt(thinking),
            created_at: now,
        };
        self.last_message = id;
        self.messages.push(row);
        proof {
            lemma_only_chat(was.chats@, conversation_id@, at as int);
        }
        let chat = &mut self.chats[at];
        chat.updated_at = now;
        proof {
            lemma_same_keys_distinct(was.chats@, self.chats@, chat_ids());
            lemma_same_chats(was.chats@, self.chats@, was.messages@, was.last_message);
            assert(self.chats@[at as int].id@ == conversation_id@);
        }
        Ok(
            Message {
                id,
                conversation_id: conversation_id.to_string(),
                role: role.to_string(),
                content: content.to_string(),
                job_id: copy_opt(job_id),
                sha256: copy_opt(sha256),
                model: copy_opt(model),
                peer: copy_opt(peer),
                tokens,
                cost_micros,
                thinking: copy_opt(thinking),
                created_at: now,
            },
        )
    }

    /// Records what a job was billed on the reply it produced.
    pub fn set_job_cost(&mut self, job_id: &str, cost_micros: u64) -> (r: Result<(), AppError>)
        requires
            old(self).wf(),
        ensures
            final(self).wf(),
            *final(self) == (Db { messages: final(self).messages, ..*old(self) }),
            match r {
                Ok(_) => {
                    &&& cost_micros <= i64::MAX
                    &&& is_priced(
                        old(self).messages@,
                        final(self).messages@,
                        job_id@,
                        cost_micros,
                    )
                },
                Err(e) => {
                    &&& cost_micros > i64::MAX
                    &&& *final(self) == *old(self)
                    &&& e@ == Trouble::Db("out of range integral type conversion attempted"@)
                },
            },
    {
        if cost_micros > i64::MAX as u64 {
            return Err(out_of_range());
        }
        let ghost was = self.messages@;
        let mut i: usize = 0;
        while i < self.messages.len()
            invariant
                was == old(self).messages@,
                *self == (Db { messages: self.messages, ..*old(self) }),
                i <= self.messages@.len(),
                self.messages@.len() == was.len(),
                forall|k: int| i <= k < was.len() ==> #[trigger] self.messages@[k] == was[k],
                forall|k: int|
                    0 <= k < i ==> {
                        let (a, b) = (was[k], #[trigger] self.messages@[k]);
                        if opt(a.job_id) == Some(job_id@) && a.role@ == "assistant"@ {
                            b == (Message { cost_micros: Some(cost_micros), ..a })
                        } else {
                            a == b
                        }
                    },
            decreases self.messages@.len() - i,
        {
            if told(&self.messages[i].job_id, job_id) && same(
                self.messages[i].role.as_str(),
                "assistant",
            ) {
                let row = &mut self.messages[i];
                row.cost_micros = Some(cost_micros);
            }
            i = i + 1;
        }
        proof {
            let ms = self.messages@;
            assert forall|k: int| 0 <= k < ms.len() implies (#[trigger] ms[k]).id == was[k].id
                && ms[k].conversation_id == was[k].conversation_id by {}
        }
        Ok(())
    }

    /// The messages of a chat, in the order they were said.
    pub fn conversation_messages(&self, conversation_id: &str) -> (r: Vec<&Message>)
        ensures
            plain(r@) == kept(self.messages@, in_chat(conversation_id@)),
    {
        chosen(
            &self.messages,
            |m: &Message| -> (b: bool)
                ensures
                    b == in_chat(conversation_id@)(*m)
                { same(m.conversation_id.as_str(), conversation_id) },
            Ghost(in_chat(conversation_id@)),
        )
    }

    /// How many peers there are besides the one inside this process, how many
    /// jobs are under way, and how many results are kept.
    pub fn counts(&self) -> (r: (u32, u32, u32))
        requires
            self.wf(),
        ensures
            r.0 == kept(self.peers@, not_mock()).len(),
            r.1 == kept(self.jobs@, open_jobs()).len(),
            r.2 == self.results@.len(),
    {
        let peers: usize = count_of(
            &self.peers,
            |p: &Peer| -> (b: bool)
                ensures
                    b == not_mock()(*p)
                { !p.is_mock() },
            Ghost(not_mock()),
        );
        let open: usize = self.count_open();
        (peers as u32, open as u32, self.results.len() as u32)
    }
}

proof fn lemma_only_job(jobs: Seq<JobRecord>, id: u128, at: int)
    requires
        distinct(jobs, job_ids()),
        0 <= at < jobs.len(),
        jobs[at].job_id == id,
    ensures
        forall|i: int| 0 <= i < jobs.len() && i != at ==> (#[trigger] jobs[i]).job_id != id,
{
    assert forall|i: int| 0 <= i < jobs.len() && i != at implies (#[trigger] jobs[i]).job_id
        != id by {
        if i < at {
            assert(job_ids()(jobs[i]) != job_ids()(jobs[at]));
        } else {
            assert(job_ids()(jobs[at]) != job_ids()(jobs[i]));
        }
    }
}

proof fn lemma_only_chat(chats: Seq<Chat>, id: Seq<char>, at: int)
    requires
        distinct(chats, chat_ids()),
        0 <= at < chats.len(),
        chats[at].id@ == id,
    ensures
        forall|i: int| 0 <= i < chats.len() && i != at ==> (#[trigger] chats[i]).id@ != id,
{
    assert forall|i: int| 0 <= i < chats.len() && i != at implies (#[trigger] chats[i]).id@
        != id by {
        if i < at {
            assert(chat_ids()(chats[i]) != chat_ids()(chats[at]));
        } else {
            assert(chat_ids()(chats[at]) != chat_ids()(chats[i]));
        }
    }
}

/// Messages fit chats that keep their ids.
proof fn lemma_same_chats(was: Seq<Chat>, is: Seq<Chat>, messages: Seq<Message>, last: i64)
    requires
        messages_fit(was, messages, last),
        was.len() == is.len(),
        forall|i: int| 0 <= i < is.len() ==> (#[trigger] is[i]).id@ == was[i].id@,
    ensures
        messages_fit(is, messages, last),
        forall|id: Seq<char>| #[trigger] is_chat(was, id) ==> is_chat(is, id),
{
    assert forall|id: Seq<char>| #[trigger] is_chat(was, id) implies is_chat(is, id) by {
        let j = choose|j: int| 0 <= j < was.len() && (#[trigger] was[j]).id@ == id;
        assert(is[j].id@ == id);
    }
}

proof fn lemma_more_chats(was: Seq<Chat>, is: Seq<Chat>, messages: Seq<Message>, last: i64)
    requires
        messages_fit(was, messages, last),
        is.len() > 0 && is == was.push(is.last()),
    ensures
        messages_fit(is, messages, last),
{
    assert forall|id: Seq<char>| #[trigger] is_chat(was, id) implies is_chat(is, id) by {
        let j = choose|j: int| 0 <= j < was.len() && (#[trigger] was[j]).id@ == id;
        assert(is[j].id@ == id);
    }
}

} // verus!
