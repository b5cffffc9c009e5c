//! Taking up what was kept.
use vstd::prelude::*;

use crate::error::{AppError, Trouble};
use crate::results::ResultRecord;
use crate::store::peers::{knows_endpoint, knows_id, mock_listed, not_mock};
use crate::store::tables::{distinct, kept};
use crate::store::{
    chat_ids, deposit_ids, is_chat, job_ids, messages_fit, peer_endpoints, peer_ids, result_ids,
    setting_keys, settle_ids, spend_ids, Chat, Db, JobRecord, Peer, Settlement, SpendEntry,
    StoredDeposit, MOCK_ENDPOINT, MOCK_PEER_ID, MOST_ROWS,
};
use crate::text::same;

verus! {

broadcast use vstd::string::group_string_axioms;

/// The rows have the same key.
spec fn alike_by<T, K>(key: spec_fn(T) -> K) -> spec_fn(T, T) -> bool {
    |a: T, b: T| key(a) == key(b)
}

/// No two rows are alike.
spec fn apart<T>(rows: Seq<T>, alike: spec_fn(T, T) -> bool) -> bool {
    forall|i: int, j: int|
        0 <= i < j < rows.len() ==> !alike(#[trigger] rows[i], #[trigger] rows[j])
}

proof fn lemma_apart<T, K>(rows: Seq<T>, key: spec_fn(T) -> K)
    ensures
        apart(rows, alike_by(key)) == distinct(rows, key),
{
    if apart(rows, alike_by(key)) {
        assert forall|i: int, j: int| 0 <= i < j < rows.len() implies key(#[trigger] rows[i])
            != key(#[trigger] rows[j]) by {
            assert(!alike_by(key)(rows[i], rows[j]));
        }
    }
}

/// Whether no two rows are alike.
fn all_apart<T, F: Fn(&T, &T) -> bool>(
    v: &Vec<T>,
    alike: F,
    Ghost(rel): Ghost<spec_fn(T, T) -> bool>,
) -> (r: bool)
    requires
        forall|a: &T, b: &T| alike.requires((a, b)),
        forall|a: &T, b: &T, x: bool| alike.ensures((a, b), x) ==> x == rel(*a, *b),
    ensures
        r == apart(v@, rel),
{
    let mut j: usize = 0;
    while j < v.len()
        invariant
            forall|a: &T, b: &T| alike.requires((a, b)),
            forall|a: &T, b: &T, x: bool| alike.ensures((a, b), x) ==> x == rel(*a, *b),
            j <= v@.len(),
            forall|a: int, b: int|
                0 <= a < b < j ==> !rel(#[trigger] v@[a], #[trigger] v@[b]),
        decreases v@.len() - j,
    {
        let mut i: usize = 0;
        while i < j
            invariant
                forall|a: &T, b: &T| alike.requires((a, b)),
                forall|a: &T, b: &T, x: bool| alike.ensures((a, b), x) ==> x == rel(*a, *b),
                i <= j < v@.len(),
                forall|a: int| 0 <= a < i ==> !rel(#[trigger] v@[a], v@[j as int]),
            decreases j - i,
        {
            if alike(&v[i], &v[j]) {
                assert(rel(v@[i as int], v@[j as int]));
                return false;
            }
            i = i + 1;
        }
        j = j + 1;
    }
    true
}

impl Db {
    fn knows_chat(&self, id: &str) -> (r: bool)
        ensures
            r == is_chat(self.chats@, id@),
    {
        let mut i: usize = 0;
        while i < self.chats.len()
            invariant
                i <= self.chats@.len(),
                forall|k: int| 0 <= k < i ==> (#[trigger] self.chats@[k]).id@ != id@,
            decreases self.chats@.len() - i,
        {
            if same(self.chats[i].id.as_str(), id) {
                return true;
            }
            i = i + 1;
        }
        false
    }

    fn messages_are_sound(&self) -> (r: bool)
        ensures
            r == messages_fit(self.chats@, self.messages@, self.last_message),
    {
        if self.last_message < 0 {
            return false;
        }
        let ghost ms = self.messages@;
        let mut i: usize = 0;
        while i < self.messages.len()
            invariant
                ms == self.messages@,
                i <= ms.len(),
                forall|k: int|
                    0 <= k < i ==> {
                        &&& (#[trigger] ms[k]).id <= self.last_message
                        &&& is_chat(self.chats@, ms[k].conversation_id@)
                    },
                forall|a: int, b: int|
                    0 <= a < b < i ==> (#[trigger] ms[a]).id < (#[trigger] ms[b]).id,
            decreases ms.len() - i,
        {
            let m = &self.messages[i];
            assert(*m == ms[i as int]);
            if m.id > self.last_message || !self.knows_chat(m.conversation_id.as_str()) {
                return false;
            }
            if i > 0 && self.messages[i - 1].id >= m.id {
                assert(ms[i - 1].id >= ms[i as int].id);
                return false;
            }
            i = i + 1;
        }
        true
    }

    fn rows_fit(&self) -> (r: bool)
        ensures
            r == {
                &&& self.settings@.len() <= MOST_ROWS
                &&& self.peers@.len() <= MOST_ROWS
                &&& self.jobs@.len() <= MOST_ROWS
                &&& self.results@.len() <= MOST_ROWS
                &&& self.chats@.len() <= MOST_ROWS
                &&& self.messages@.len() <= MOST_ROWS
                &&& self.spends@.len() <= MOST_ROWS
                &&& self.settlements@.len() <= MOST_ROWS
                &&& self.deposits@.len() <= MOST_ROWS
            },
    {
        let most: usize = MOST_ROWS as usize;
        self.settings.len() <= most && self.peers.len() <= most && self.jobs.len() <= most
            && self.results.len() <= most && self.chats.len() <= most && self.messages.len() <= most
            && self.spends.len() <= most && self.settlements.len() <= most && self.deposits.len()
            <= most
    }

    fn peers_are_distinct(&self) -> (r: bool)
        ensures
            r == (distinct(self.peers@, peer_ids()) && distinct(self.peers@, peer_endpoints())),
    {
        proof {
            lemma_apart(self.peers@, peer_ids());
            lemma_apart(self.peers@, peer_endpoints());
        }
        all_apart(
            &self.peers,
            |a: &Peer, b: &Peer| -> (r: bool)
                ensures
                    r == alike_by(peer_ids())(*a, *b)
                { same(a.id.as_str(), b.id.as_str()) },
            Ghost(alike_by(peer_ids())),
        ) && all_apart(
            &self.peers,
            |a: &Peer, b: &Peer| -> (r: bool)
                ensures
                    r == alike_by(peer_endpoints())(*a, *b)
                { same(a.endpoint.as_str(), b.endpoint.as_str()) },
            Ghost(alike_by(peer_endpoints())),
        )
    }

    fn history_is_distinct(&self) -> (r: bool)
        ensures
            r == {
                &&& distinct(self.jobs@, job_ids())
                &&& distinct(self.results@, result_ids())
                &&& distinct(self.chats@, chat_ids())
            },
    {
        proof {
            lemma_apart(self.jobs@, job_ids());
            lemma_apart(self.results@, result_ids());
            lemma_apart(self.chats@, chat_ids());
        }
        all_apart(
            &self.jobs,
            |a: &JobRecord, b: &JobRecord| -> (r: bool)
                ensures
                    r == alike_by(job_ids())(*a, *b)
                { a.job_id == b.job_id },
            Ghost(alike_by(job_ids())),
        ) && all_apart(
            &self.results,
            |a: &ResultRecord, b: &ResultRecord| -> (r: bool)
                ensures
                    r == alike_by(result_ids())(*a, *b)
                { a.job_id == b.job_id },
            Ghost(alike_by(result_ids())),
        ) && all_apart(
            &self.chats,
            |a: &Chat, b: &Chat| -> (r: bool)
                ensures
                    r == alike_by(chat_ids())(*a, *b)
                { same(a.id.as_str(), b.id.as_str()) },
            Ghost(alike_by(chat_ids())),
        )
    }

    fn money_is_distinct(&self) -> (r: bool)
        ensures
            r == {
                &&& distinct(self.settings@, setting_keys())
                &&& distinct(self.spends@, spend_ids())
                &&& distinct(self.settlements@, settle_ids())
                &&& distinct(self.deposits@, deposit_ids())
            },
    {
        proof {
            lemma_apart(self.settings@, setting_keys());
            lemma_apart(self.spends@, spend_ids());
            lemma_apart(self.settlements@, settle_ids());
            lemma_apart(self.deposits@, deposit_ids());
        }
        all_apart(
            &self.settings,
            |a: &(String, String), b: &(String, String)| -> (r: bool)
                ensures
                    r == alike_by(setting_keys())(*a, *b)
                { same(a.0.as_str(), b.0.as_str()) },
            Ghost(alike_by(setting_keys())),
        ) && all_apart(
            &self.spends,
            |a: &SpendEntry, b: &SpendEntry| -> (r: bool)
                ensures
                    r == alike_by(spend_ids())(*a, *b)
                { same(a.job_id.as_str(), b.job_id.as_str()) },
            Ghost(alike_by(spend_ids())),
        ) && all_apart(
            &self.settlements,
            |a: &Settlement, b: &Settlement| -> (r: bool)
                ensures
                    r == alike_by(settle_ids())(*a, *b)
                { same(a.tx_hash.as_str(), b.tx_hash.as_str()) },
            Ghost(alike_by(settle_ids())),
        ) && all_apart(
            &self.deposits,
            |a: &StoredDeposit, b: &StoredDeposit| -> (r: bool)
                ensures
                    r == alike_by(deposit_ids())(*a, *b)
                { same(a.tx_hash.as_str(), b.tx_hash.as_str()) },
            Ghost(alike_by(deposit_ids())),
        )
    }

    /// Whether rows that were read are in order.
    pub fn is_sound(&self) -> (r: bool)
        ensures
            r == self.wf(),
    {
        self.rows_fit() && self.peers_are_distinct() && self.history_is_distinct()
            && self.money_is_distinct() && self.messages_are_sound()
    }

    /// Whether the worker inside this process is asked for.
    pub open spec fn wants_mock(self, forced: bool) -> bool {
        forced || self.setting("mock_worker"@) == Some("true"@)
    }

    /// Takes up the rows that were read. The worker inside this process is
    /// listed where it is asked for, and nowhere else: a list that shows a
    /// pretended peer beside real ones misleads.
    pub fn open(read: Db, forced: bool, now: i64) -> (r: Result<Db, AppError>)
        ensures
            match r {
                Ok(db) => {
                    &&& read.wf() && db.wf()
                    &&& db == (Db { peers: db.peers, ..read })
                    &&& if read.wants_mock(forced) {
                        mock_listed(read.peers@, db.peers@, now)
                    } else {
                        db.peers@ == kept(read.peers@, not_mock())
                    }
                },
                Err(e) => if !read.wf() {
                    e@ == Trouble::Db("database disk image is malformed"@)
                } else {
                    &&& read.wants_mock(forced) && !knows_id(read.peers@, MOCK_PEER_ID@)
                    &&& if knows_endpoint(read.peers@, MOCK_ENDPOINT@) {
                        e@ == Trouble::Db("UNIQUE constraint failed: peers.endpoint"@)
                    } else {
                        read.peers@.len() == MOST_ROWS && e@ == Trouble::Db(
                            "database or disk is full"@,
                        )
                    }
                },
            },
    {
        if !read.is_sound() {
            return Err(AppError::Db("database disk image is malformed".to_string()));
        }
        let asked = match read.get_setting("mock_worker") {
            Some(v) => same(v.as_str(), "true"),
            None => false,
        };
        let mut db = read;
        if forced || asked {
            match db.enable_mock_peer(now) {
                Ok(_) => {},
                Err(e) => {
                    return Err(e);
                },
            }
        } else {
            db.remove_mock_peer();
        }
        Ok(db)
    }
}

} // verus!
