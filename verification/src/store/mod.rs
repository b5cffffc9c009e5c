//! What is kept on this machine.
pub mod history;
pub mod laws;
pub mod open;
pub mod peers;
pub mod spends;
pub mod tables;

use vstd::prelude::*;

use crate::error::{AppError, Trouble};
use crate::protocol::{opt, JobKind, JobPayload, JobStatus, ModelDescriptor};
use crate::results::ResultRecord;
use crate::store::tables::{distinct, lemma_push_distinct, lemma_same_keys_distinct};
use crate::text::same;

pub use crate::pot::chain::Settlement;

verus! {

broadcast use vstd::string::group_string_axioms;

/// The endpoint of the worker that runs inside this process.
pub const MOCK_ENDPOINT: &'static str = "mock://local";

pub const MOCK_PEER_ID: &'static str = "mock";

/// The user typed it in.
pub const SOURCE_MANUAL: &'static str = "manual";

/// It was found on the network.
pub const SOURCE_DISCOVERED: &'static str = "discovered";

/// A worker this client knows of.
#[derive(Debug, PartialEq)]
pub struct Peer {
    /// Local, and stable across renames.
    pub id: String,
    pub label: String,
    /// Where the worker says it is; never guessed.
    pub country: Option<String>,
    /// Where the worker asked to be paid.
    pub payout: Option<String>,
    pub endpoint: String,
    /// The key the user pinned, if any.
    pub public_key: Option<String>,
    /// The id the endpoint last announced.
    pub peer_id: Option<String>,
    /// `online`, `offline`, `unknown` or `mismatch`.
    pub status: String,
    pub latency_ms: Option<u32>,
    pub caps: Vec<String>,
    pub models: Vec<ModelDescriptor>,
    pub max_concurrent: u32,
    pub last_seen: Option<i64>,
    pub last_error: Option<String>,
    /// `manual` or `discovered`.
    pub source: String,
    pub added_at: i64,
}

impl Peer {
    pub open spec fn online(self) -> bool {
        self.status@ == "online"@
    }

    pub fn is_online(&self) -> (r: bool)
        ensures
            r == self.online(),
    {
        same(self.status.as_str(), "online")
    }

    pub fn is_mock(&self) -> (r: bool)
        ensures
            r == (self.endpoint@ == MOCK_ENDPOINT@),
    {
        same(self.endpoint.as_str(), MOCK_ENDPOINT)
    }

    pub fn is_discovered(&self) -> (r: bool)
        ensures
            r == (self.source@ == SOURCE_DISCOVERED@),
    {
        same(self.source.as_str(), SOURCE_DISCOVERED)
    }
}

/// A job, as it was handed to a peer. `progress` is the bit pattern of a
/// single-precision number.
#[derive(Debug, PartialEq)]
pub struct JobRecord {
    pub job_id: u128,
    /// The chat it answers, if it came from one.
    pub conversation_id: Option<String>,
    pub peer_id: String,
    pub peer_label: String,
    pub kind: JobKind,
    pub payload: JobPayload,
    pub summary: String,
    pub model: String,
    pub status: JobStatus,
    pub progress: u32,
    pub error: Option<String>,
    pub created_at: i64,
    pub updated_at: i64,
}

/// A chat, as the list shows it.
#[derive(Debug, PartialEq)]
pub struct Conversation {
    pub id: String,
    pub title: String,
    /// `llm` or `image`.
    pub kind: String,
    pub created_at: i64,
    pub updated_at: i64,
    /// The first line of the last message.
    pub preview: String,
    pub message_count: u32,
}

/// A chat, as it is kept.
#[derive(Debug, PartialEq)]
pub struct Chat {
    pub id: String,
    pub title: String,
    pub kind: String,
    pub created_at: i64,
    pub updated_at: i64,
}

#[derive(Debug, PartialEq)]
pub struct Message {
    pub id: i64,
    pub conversation_id: String,
    pub role: String,
    pub content: String,
    pub job_id: Option<String>,
    pub sha256: Option<String>,
    pub model: Option<String>,
    /// Who answered.
    pub peer: Option<String>,
    /// The tokens that were reported, where any were.
    pub tokens: Option<u64>,
    /// What the answer cost. Nothing is unmeasured, not free.
    pub cost_micros: Option<u64>,
    pub thinking: Option<String>,
    pub created_at: i64,
}

/// What a model used on this machine.
#[derive(Debug, PartialEq)]
pub struct ModelUsage {
    pub model: String,
    pub tokens: u64,
    pub replies: u32,
    pub cost_micros: u64,
}

/// A priced job and its bill.
#[derive(Debug, PartialEq)]
pub struct SpendEntry {
    pub job_id: String,
    pub model: String,
    pub peer: Option<String>,
    pub tokens: Option<u64>,
    pub cost_micros: u64,
    pub at: i64,
    /// The ticket the charge rode on, and its channel.
    pub cumulative_micros: Option<u64>,
    pub payout: Option<String>,
    /// It ended without a bill, and the worker may keep the prepaid chunk.
    pub abandoned: bool,
    pub bond_cumulative: Option<u64>,
    pub chunk_micros: Option<u64>,
    /// The transaction that collected the charge, once one has.
    pub settle_tx: Option<String>,
    pub settle_block: Option<u64>,
    pub settle_url: Option<String>,
}

/// A deposit this app saw confirmed.
#[derive(Debug, PartialEq)]
pub struct StoredDeposit {
    pub tx_hash: String,
    pub amount_micros: u64,
    pub max_per_job_micros: u64,
    pub max_per_day_micros: u64,
    pub block: u64,
    pub at: i64,
    pub chain_id: u64,
    pub client: String,
}

// -------------------------------------------------------------------- tables

/// How many rows a table can hold. This is a bound of the tables here, which
/// are held in memory and count their rows in 32 bits; a table that has reached
/// it refuses another row as a full disk would.
pub const MOST_ROWS: u32 = u32::MAX;

/// Everything that is kept, table by table.
#[derive(Debug, PartialEq)]
pub struct Db {
    pub settings: Vec<(String, String)>,
    pub peers: Vec<Peer>,
    pub jobs: Vec<JobRecord>,
    pub results: Vec<ResultRecord>,
    pub chats: Vec<Chat>,
    pub messages: Vec<Message>,
    /// The highest number a message ever had.
    pub last_message: i64,
    pub spends: Vec<SpendEntry>,
    pub settlements: Vec<Settlement>,
    pub deposits: Vec<StoredDeposit>,
}

pub open spec fn setting_keys() -> spec_fn((String, String)) -> Seq<char> {
    |s: (String, String)| s.0@
}

pub open spec fn peer_ids() -> spec_fn(Peer) -> Seq<char> {
    |p: Peer| p.id@
}

pub open spec fn peer_endpoints() -> spec_fn(Peer) -> Seq<char> {
    |p: Peer| p.endpoint@
}

pub open spec fn job_ids() -> spec_fn(JobRecord) -> u128 {
    |j: JobRecord| j.job_id
}

pub open spec fn result_ids() -> spec_fn(ResultRecord) -> u128 {
    |r: ResultRecord| r.job_id
}

pub open spec fn chat_ids() -> spec_fn(Chat) -> Seq<char> {
    |c: Chat| c.id@
}

pub open spec fn spend_ids() -> spec_fn(SpendEntry) -> Seq<char> {
    |s: SpendEntry| s.job_id@
}

pub open spec fn settle_ids() -> spec_fn(Settlement) -> Seq<char> {
    |t: Settlement| t.tx_hash@
}

pub open spec fn deposit_ids() -> spec_fn(StoredDeposit) -> Seq<char> {
    |d: StoredDeposit| d.tx_hash@
}

/// Some chat has this id.
pub open spec fn is_chat(chats: Seq<Chat>, id: Seq<char>) -> bool {
    exists|i: int| 0 <= i < chats.len() && (#[trigger] chats[i]).id@ == id
}

/// The messages of chats that exist, in the order they were numbered.
pub open spec fn messages_fit(chats: Seq<Chat>, messages: Seq<Message>, last: i64) -> bool {
    &&& last >= 0
    &&& forall|i: int|
        0 <= i < messages.len() ==> {
            &&& (#[trigger] messages[i]).id <= last
            &&& is_chat(chats, messages[i].conversation_id@)
        }
    &&& forall|i: int, j: int|
        0 <= i < j < messages.len() ==> (#[trigger] messages[i]).id < (#[trigger] messages[j]).id
}

impl Db {
    pub open spec fn settings_wf(self) -> bool {
        self.settings@.len() <= MOST_ROWS && distinct(self.settings@, setting_keys())
    }

    pub open spec fn peers_wf(self) -> bool {
        &&& self.peers@.len() <= MOST_ROWS
        &&& distinct(self.peers@, peer_ids())
        &&& distinct(self.peers@, peer_endpoints())
    }

    pub open spec fn history_wf(self) -> bool {
        &&& self.jobs@.len() <= MOST_ROWS && distinct(self.jobs@, job_ids())
        &&& self.results@.len() <= MOST_ROWS && distinct(self.results@, result_ids())
        &&& self.chats@.len() <= MOST_ROWS && distinct(self.chats@, chat_ids())
        &&& self.messages@.len() <= MOST_ROWS && messages_fit(
            self.chats@,
            self.messages@,
            self.last_message,
        )
    }

    pub open spec fn money_wf(self) -> bool {
        &&& self.spends@.len() <= MOST_ROWS && distinct(self.spends@, spend_ids())
        &&& self.settlements@.len() <= MOST_ROWS && distinct(self.settlements@, settle_ids())
        &&& self.deposits@.len() <= MOST_ROWS && distinct(self.deposits@, deposit_ids())
    }

    /// Each row is there once, and each message belongs to a chat.
    pub open spec fn wf(self) -> bool {
        &&& self.settings_wf()
        &&& self.peers_wf()
        &&& self.history_wf()
        &&& self.money_wf()
    }

    /// Nothing kept yet.
    pub fn new() -> (r: Db)
        ensures
            r.wf(),
            r.settings@.len() == 0,
            r.peers@.len() == 0,
            r.jobs@.len() == 0,
            r.results@.len() == 0,
            r.chats@.len() == 0,
            r.messages@.len() == 0,
            r.last_message == 0,
            r.spends@.len() == 0,
            r.settlements@.len() == 0,
            r.deposits@.len() == 0,
    {
        Db {
            settings: Vec::new(),
            peers: Vec::new(),
            jobs: Vec::new(),
            results: Vec::new(),
            chats: Vec::new(),
            messages: Vec::new(),
            last_message: 0,
            spends: Vec::new(),
            settlements: Vec::new(),
            deposits: Vec::new(),
        }
    }

    // --------------------------------------------------------------- settings

    /// What a setting is set to.
    pub open spec fn setting(self, key: Seq<char>) -> Option<Seq<char>> {
        setting_in(self.settings@, key)
    }

    pub fn get_setting(&self, key: &str) -> (r: Option<String>)
        ensures
            opt(r) == self.setting(key@),
    {
        let at: usize = self.setting_place(key);
        proof {
            lemma_setting_at(self.settings@, key@, at as int);
        }
        if at < self.settings.len() {
            Some(self.settings[at].1.clone())
        } else {
            None
        }
    }

    /// The place of the last entry for a key, or the number of entries.
    fn setting_place(&self, key: &str) -> (r: usize)
        ensures
            r <= self.settings@.len(),
            r < self.settings@.len() ==> self.settings@[r as int].0@ == key@ && forall|i: int|
                r < i < self.settings@.len() ==> (#[trigger] self.settings@[i]).0@ != key@,
            r == self.settings@.len() ==> forall|i: int|
                0 <= i < self.settings@.len() ==> (#[trigger] self.settings@[i]).0@ != key@,
    {
        let mut i: usize = self.settings.len();
        while i > 0
            invariant
                i <= self.settings@.len(),
                forall|k: int|
                    i <= k < self.settings@.len() ==> (#[trigger] self.settings@[k]).0@ != key@,
            decreases i,
        {
            i = i - 1;
            if same(self.settings[i].0.as_str(), key) {
                return i;
            }
        }
        self.settings.len()
    }

    /// Sets a setting; the others stay as they are.
    pub fn set_setting(&mut self, key: &str, value: &str) -> (r: Result<(), AppError>)
        requires
            old(self).wf(),
        ensures
            final(self).wf(),
            *final(self) == (Db { settings: final(self).settings, ..*old(self) }),
            match r {
                Ok(_) => {
                    &&& final(self).setting(key@) == Some(value@)
                    &&& forall|k: Seq<char>|
                        k != key@ ==> #[trigger] final(self).setting(k) == old(self).setting(k)
                },
                Err(e) => {
                    &&& old(self).setting(key@) is None
                    &&& old(self).settings@.len() == MOST_ROWS
                    &&& e@ == Trouble::Db("database or disk is full"@)
                    &&& *final(self) == *old(self)
                },
            },
    {
        let at: usize = self.setting_place(key);
        let ghost before = self.settings@;
        proof {
            lemma_setting_at(before, key@, at as int);
        }
        let row = (key.to_string(), value.to_string());
        if at < self.settings.len() {
            self.settings.set(at, row);
            proof {
                lemma_same_keys_distinct(before, self.settings@, setting_keys());
                assert forall|k: Seq<char>| k != key@ implies setting_in(self.settings@, k)
                    == setting_in(before, k) by {
                    lemma_setting_set(before, at as int, row, k);
                }
                lemma_setting_at(self.settings@, key@, at as int);
            }
        } else {
            if self.settings.len() >= MOST_ROWS as usize {
                return Err(full());
            }
            self.settings.push(row);
            proof {
                lemma_push_distinct(before, row, setting_keys());
                assert(self.settings@.drop_last() =~= before);
            }
        }
        Ok(())
    }
}

pub open spec fn setting_in(rows: Seq<(String, String)>, key: Seq<char>) -> Option<Seq<char>>
    decreases rows.len(),
{
    if rows.len() == 0 {
        None
    } else if rows.last().0@ == key {
        Some(rows.last().1@)
    } else {
        setting_in(rows.drop_last(), key)
    }
}

proof fn lemma_setting_at(rows: Seq<(String, String)>, key: Seq<char>, at: int)
    requires
        0 <= at <= rows.len(),
        at < rows.len() ==> rows[at].0@ == key && forall|i: int|
            at < i < rows.len() ==> (#[trigger] rows[i]).0@ != key,
        at == rows.len() ==> forall|i: int|
            0 <= i < rows.len() ==> (#[trigger] rows[i]).0@ != key,
    ensures
        setting_in(rows, key) == (if at < rows.len() {
            Some(rows[at].1@)
        } else {
            None
        }),
    decreases rows.len(),
{
    if rows.len() > 0 {
        let before = rows.drop_last();
        if at == rows.len() {
            assert(rows[rows.len() - 1].0@ != key);
            assert forall|i: int| 0 <= i < before.len() implies (#[trigger] before[i]).0@
                != key by {
                assert(before[i] == rows[i]);
            }
            lemma_setting_at(before, key, at - 1);
        } else if at < before.len() {
            assert(rows[rows.len() - 1].0@ != key);
            assert forall|i: int| at < i < before.len() implies (#[trigger] before[i]).0@
                != key by {
                assert(before[i] == rows[i]);
            }
            lemma_setting_at(before, key, at);
        }
    }
}

proof fn lemma_setting_set(
    rows: Seq<(String, String)>,
    at: int,
    row: (String, String),
    key: Seq<char>,
)
    requires
        0 <= at < rows.len(),
        rows[at].0@ == row.0@,
        key != row.0@,
    ensures
        setting_in(rows.update(at, row), key) == setting_in(rows, key),
    decreases rows.len(),
{
    let after = rows.update(at, row);
    if at == rows.len() - 1 {
        assert(after.drop_last() =~= rows.drop_last());
    } else {
        assert(after.drop_last() =~= rows.drop_last().update(at, row));
        lemma_setting_set(rows.drop_last(), at, row, key);
    }
}

/// There is no room for another row.
pub(crate) fn full() -> (r: AppError)
    ensures
        r@ == Trouble::Db("database or disk is full"@),
{
    AppError::Db("database or disk is full".to_string())
}

} // verus!
