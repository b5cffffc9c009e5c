//! What was spent, what was collected, and what was paid in.
use vstd::prelude::*;

use crate::error::{AppError, Trouble};
use crate::order::{in_order, lemma_text_before_total, ordered, ranks, text_before, Key, Rank};
use crate::protocol::{copy_opt, opt};
use crate::store::history::{is_too_big, out_of_range, too_big};
use crate::store::tables::{
    chosen, count_of, keep_only, kept, lemma_kept_all, lemma_kept_distinct, lemma_kept_members,
    lemma_kept_whole, lemma_push_distinct, lemma_same_keys_distinct, list_rows, listed,
    listed_up_to, plain, Turn,
};
use crate::store::{
    deposit_ids, full, settle_ids, spend_ids, Db, Message, ModelUsage, Settlement, SpendEntry,
    StoredDeposit, MOST_ROWS,
};
use crate::text::{lemma_texts_push, lowercased, parse_number, parsed, same, texts, to_lowercase};

verus! {

broadcast use vstd::string::group_string_axioms;

// -------------------------------------------------------------------- bills

pub open spec fn other_spends(job: Seq<char>) -> spec_fn(SpendEntry) -> bool {
    |s: SpendEntry| s.job_id@ != job
}

pub open spec fn other_settles(tx: Seq<char>) -> spec_fn(Settlement) -> bool {
    |t: Settlement| t.tx_hash@ != tx
}

/// Something was deducted for it.
pub open spec fn billed() -> spec_fn(SpendEntry) -> bool {
    |s: SpendEntry| !(s.abandoned && s.cost_micros == 0)
}

pub open spec fn spend_turn() -> spec_fn(SpendEntry) -> Turn {
    |s: SpendEntry| ((-s.at) as i128, 0i128)
}

/// A payout address as it is kept.
pub open spec fn payout_key(p: Option<Seq<char>>) -> Option<Seq<char>> {
    match p {
        Some(x) => Some(lowercased(x)),
        None => None,
    }
}

/// The settlement pays this channel.
pub open spec fn pays(t: Settlement, payout: Option<Seq<char>>) -> bool {
    payout == Some(t.payout@)
}

/// The settlement reaches the ticket of a bill.
pub open spec fn covers(t: Settlement, s: SpendEntry) -> bool {
    pays(t, opt(s.payout)) && (s.cumulative_micros matches Some(c) && t.cumulative >= c)
}

/// A settlement that no other one comes before: none reaches less far, nor
/// as far in an earlier block.
pub open spec fn no_later(a: Settlement, b: Settlement) -> bool {
    a.cumulative < b.cumulative || (a.cumulative == b.cumulative && a.block <= b.block)
}

/// The first settlement that covers a bill, among the first `n`; of equals the
/// one that was recorded first.
pub open spec fn first_cover(ts: Seq<Settlement>, s: SpendEntry, n: int) -> Option<Settlement>
    decreases n,
{
    if n <= 0 {
        None
    } else {
        let t = ts[n - 1];
        match first_cover(ts, s, n - 1) {
            Some(u) if covers(t, s) => if no_later(u, t) {
                Some(u)
            } else {
                Some(t)
            },
            Some(u) => Some(u),
            None => if covers(t, s) {
                Some(t)
            } else {
                None
            },
        }
    }
}

/// How a bill is listed, with the settlement that collected it.
pub open spec fn is_bill(e: SpendEntry, s: SpendEntry, ts: Seq<Settlement>) -> bool {
    &&& e.job_id@ == s.job_id@ && e.model@ == s.model@
    &&& opt(e.peer) == opt(s.peer) && opt(e.payout) == opt(s.payout)
    &&& e.tokens == s.tokens && e.cost_micros == s.cost_micros && e.at == s.at
    &&& e.cumulative_micros == s.cumulative_micros && e.abandoned == s.abandoned
    &&& e.bond_cumulative is None && e.chunk_micros is None && e.settle_url is None
    &&& match first_cover(ts, s, ts.len() as int) {
        Some(t) => opt(e.settle_tx) == Some(t.tx_hash@) && e.settle_block == Some(t.block),
        None => e.settle_tx is None && e.settle_block is None,
    }
}

pub open spec fn are_bills(r: Seq<SpendEntry>, rows: Seq<SpendEntry>, ts: Seq<Settlement>) -> bool {
    &&& r.len() == rows.len()
    &&& forall|i: int| 0 <= i < r.len() ==> is_bill(#[trigger] r[i], rows[i], ts)
}

/// The chain shows that the worker kept the chunk of a reply that ended
/// without a bill: its bond itself was settled.
pub open spec fn chunk_kept(s: SpendEntry, ts: Seq<Settlement>) -> bool {
    &&& s.abandoned && s.cost_micros == 0 && s.chunk_micros is Some
    &&& exists|i: int|
        0 <= i < ts.len() && pays(#[trigger] ts[i], opt(s.payout)) && s.bond_cumulative == Some(
            ts[i].cumulative,
        )
}

pub open spec fn with_chunk_kept(ts: Seq<Settlement>) -> spec_fn(SpendEntry) -> bool {
    |s: SpendEntry| chunk_kept(s, ts)
}

/// A reply whose chunk was kept costs its chunk.
pub open spec fn resolved(s: SpendEntry, ts: Seq<Settlement>) -> SpendEntry {
    if chunk_kept(s, ts) {
        SpendEntry {
            cost_micros: s.chunk_micros->0,
            cumulative_micros: s.bond_cumulative,
            ..s
        }
    } else {
        s
    }
}

fn is_paid(t: &Settlement, payout: &Option<String>) -> (r: bool)
    ensures
        r == pays(*t, opt(*payout)),
{
    match payout {
        Some(p) => same(t.payout.as_str(), p.as_str()),
        None => false,
    }
}

impl Db {
    /// Records a job's bill, in place of one it had before: a job is billed
    /// once.
    pub fn record_spend(&mut self, s: SpendEntry) -> (r: Result<(), AppError>)
        requires
            old(self).wf(),
        ensures
            final(self).wf(),
            *final(self) == (Db { spends: final(self).spends, ..*old(self) }),
            match r {
                Ok(_) => {
                    let row = final(self).spends@.last();
                    &&& !too_big(s.tokens)
                    &&& final(self).spends@ == kept(
                        old(self).spends@,
                        other_spends(s.job_id@),
                    ).push(row)
                    &&& row == (SpendEntry {
                        payout: row.payout,
                        settle_tx: None,
                        settle_block: None,
                        settle_url: None,
                        ..s
                    })
                    &&& opt(row.payout) == payout_key(opt(s.payout))
                },
                Err(e) => {
                    &&& final(self).spends@ == old(self).spends@
                    &&& if too_big(s.tokens) {
                        e@ == Trouble::Db("out of range integral type conversion attempted"@)
                    } else {
                        &&& kept(old(self).spends@, other_spends(s.job_id@)).len() == MOST_ROWS
                        &&& e@ == Trouble::Db("database or disk is full"@)
                    }
                },
            },
    {
        if is_too_big(s.tokens) {
            return Err(out_of_range());
        }
        let ghost was = self.spends@;
        let ghost p = other_spends(s.job_id@);
        let payout = match &s.payout {
            Some(x) => Some(to_lowercase(x.as_str())),
            None => None,
        };
        keep_only(
            &mut self.spends,
            |x: &SpendEntry| -> (b: bool)
                ensures
                    b == other_spends(s.job_id@)(*x)
                { !same(x.job_id.as_str(), s.job_id.as_str()) },
            Ghost(p),
        );
        proof {
            lemma_kept_distinct(was, p, spend_ids());
            lemma_kept_members(was, p);
            if self.spends@.len() == MOST_ROWS {
                lemma_kept_whole(was, p);
            }
        }
        if self.spends.len() >= MOST_ROWS as usize {
            return Err(full());
        }
        let row = SpendEntry { payout, settle_tx: None, settle_block: None, settle_url: None, ..s };
        proof {
            assert forall|i: int| 0 <= i < self.spends@.len() implies spend_ids()(
                #[trigger] self.spends@[i],
            ) != spend_ids()(row) by {
                assert(self.spends@.contains(self.spends@[i]));
                assert(p(self.spends@[i]));
            }
            lemma_push_distinct(self.spends@, row, spend_ids());
        }
        self.spends.push(row);
        Ok(())
    }

    /// Records that the chain shows a settlement; its transaction is recorded
    /// once.
    pub fn record_settlement(&mut self, t: Settlement) -> (r: Result<(), AppError>)
        requires
            old(self).wf(),
        ensures
            final(self).wf(),
            *final(self) == (Db { settlements: final(self).settlements, ..*old(self) }),
            match r {
                Ok(_) => {
                    let row = final(self).settlements@.last();
                    &&& final(self).settlements@ == kept(
                        old(self).settlements@,
                        other_settles(lowercased(t.tx_hash@)),
                    ).push(row)
                    &&& row == (Settlement { tx_hash: row.tx_hash, payout: row.payout, ..t })
                    &&& row.tx_hash@ == lowercased(t.tx_hash@)
                    &&& row.payout@ == lowercased(t.payout@)
                },
                Err(e) => {
                    &&& final(self).settlements@ == old(self).settlements@
                    &&& kept(
                        old(self).settlements@,
                        other_settles(lowercased(t.tx_hash@)),
                    ).len() == MOST_ROWS
                    &&& e@ == Trouble::Db("database or disk is full"@)
                },
            },
    {
        let ghost was = self.settlements@;
        let tx_hash = to_lowercase(t.tx_hash.as_str());
        let payout = to_lowercase(t.payout.as_str());
        let ghost p = other_settles(tx_hash@);
        keep_only(
            &mut self.settlements,
            |x: &Settlement| -> (b: bool)
                ensures
                    b == other_settles(tx_hash@)(*x)
                { !same(x.tx_hash.as_str(), tx_hash.as_str()) },
            Ghost(p),
        );
        proof {
            lemma_kept_distinct(was, p, settle_ids());
            lemma_kept_members(was, p);
            if self.settlements@.len() == MOST_ROWS {
                lemma_kept_whole(was, p);
            }
        }
        if self.settlements.len() >= MOST_ROWS as usize {
            return Err(full());
        }
        let row = Settlement { tx_hash, payout, ..t };
        proof {
            assert forall|i: int| 0 <= i < self.settlements@.len() implies settle_ids()(
                #[trigger] self.settlements@[i],
            ) != settle_ids()(row) by {
                assert(self.settlements@.contains(self.settlements@[i]));
                assert(p(self.settlements@[i]));
            }
            lemma_push_distinct(self.settlements@, row, settle_ids());
        }
        self.settlements.push(row);
        Ok(())
    }

    fn is_chunk_kept(&self, s: &SpendEntry) -> (r: bool)
        ensures
            r == chunk_kept(*s, self.settlements@),
    {
        if !s.abandoned || s.cost_micros != 0 || s.chunk_micros.is_none() {
            return false;
        }
        let bond: u64 = match s.bond_cumulative {
            Some(b) => b,
            None => {
                return false;
            },
        };
        let mut i: usize = 0;
        while i < self.settlements.len()
            invariant
                i <= self.settlements@.len(),
                s.bond_cumulative == Some(bond),
                s.abandoned && s.cost_micros == 0 && s.chunk_micros is Some,
                forall|k: int|
                    0 <= k < i ==> !(pays(#[trigger] self.settlements@[k], opt(s.payout))
                        && self.settlements@[k].cumulative == bond),
            decreases self.settlements@.len() - i,
        {
            let t = &self.settlements[i];
            if is_paid(t, &s.payout) && t.cumulative == bond {
                assert(pays(self.settlements@[i as int], opt(s.payout)));
                return true;
            }
            i = i + 1;
        }
        false
    }

    /// Bills the replies whose chunk the chain shows was kept, and says how
    /// many.
    pub fn resolve_abandoned(&mut self) -> (r: usize)
        requires
            old(self).wf(),
        ensures
            final(self).wf(),
            *final(self) == (Db { spends: final(self).spends, ..*old(self) }),
            r == kept(old(self).spends@, with_chunk_kept(old(self).settlements@)).len(),
            final(self).spends@ == old(self).spends@.map_values(
                |s: SpendEntry| resolved(s, old(self).settlements@),
            ),
    {
        let ghost was = self.spends@;
        let ghost ts = self.settlements@;
        let ghost p = with_chunk_kept(ts);
        let mut n: usize = 0;
        let mut i: usize = 0;
        assert(was.take(0) =~= seq![]);
        while i < self.spends.len()
            invariant
                was == old(self).spends@,
                ts == old(self).settlements@,
                p == with_chunk_kept(ts),
                *self == (Db { spends: self.spends, ..*old(self) }),
                i <= self.spends@.len(),
                self.spends@.len() == was.len(),
                n == kept(was.take(i as int), p).len(),
                n <= i,
                forall|k: int| i <= k < was.len() ==> #[trigger] self.spends@[k] == was[k],
                forall|k: int| 0 <= k < i ==> #[trigger] self.spends@[k] == resolved(was[k], ts),
            decreases self.spends@.len() - i,
        {
            assert(was.take(i as int + 1).drop_last() =~= was.take(i as int));
            assert(was.take(i as int + 1).last() == was[i as int]);
            if self.is_chunk_kept(&self.spends[i]) {
                let chunk: u64 = match self.spends[i].chunk_micros {
                    Some(c) => c,
                    None => 0,
                };
                let row = &mut self.spends[i];
                row.cost_micros = chunk;
                row.cumulative_micros = row.bond_cumulative;
                n = n + 1;
            }
            i = i + 1;
        }
        assert(was.take(i as int) =~= was);
        assert(self.spends@ =~= was.map_values(|s: SpendEntry| resolved(s, ts)));
        proof {
            assert forall|k: int| 0 <= k < self.spends@.len() implies spend_ids()(
                #[trigger] self.spends@[k],
            ) == spend_ids()(was[k]) by {}
            lemma_same_keys_distinct(was, self.spends@, spend_ids());
        }
        n
    }

    fn cover_of(&self, s: &SpendEntry) -> (r: Option<&Settlement>)
        ensures
            (match r {
                Some(t) => Some(*t),
                None => None,
            }) == first_cover(self.settlements@, *s, self.settlements@.len() as int),
    {
        let mut best: Option<&Settlement> = None;
        let mut i: usize = 0;
        while i < self.settlements.len()
            invariant
                i <= self.settlements@.len(),
                (match best {
                    Some(t) => Some(*t),
                    None => None,
                }) == first_cover(self.settlements@, *s, i as int),
            decreases self.settlements@.len() - i,
        {
            let t = &self.settlements[i];
            let reaches = match s.cumulative_micros {
                Some(c) => t.cumulative >= c,
                None => false,
            };
            if reaches && is_paid(t, &s.payout) {
                let better = match best {
                    Some(u) => !(u.cumulative < t.cumulative || (u.cumulative == t.cumulative
                        && u.block <= t.block)),
                    None => true,
                };
                if better {
                    best = Some(t);
                }
            }
            i = i + 1;
        }
        best
    }

    /// The bills, the newest first, each with the settlement that collected
    /// it. What nothing was deducted for is not there.
    pub fn spend_history(&self, limit: u32) -> (r: Vec<SpendEntry>)
        ensures
            exists|rows: Seq<SpendEntry>|
                #[trigger] listed_up_to(
                    kept(self.spends@, billed()).reverse(),
                    spend_turn(),
                    limit as int,
                    rows,
                ) && are_bills(r@, rows, self.settlements@),
    {
        let all = chosen(
            &self.spends,
            |s: &SpendEntry| -> (b: bool)
                ensures
                    b == billed()(*s)
                { !(s.abandoned && s.cost_micros == 0) },
            Ghost(billed()),
        );
        let mut latest: Vec<&SpendEntry> = Vec::new();
        let mut i: usize = all.len();
        while i > 0
            invariant
                i <= all@.len(),
                latest@.len() == all@.len() - i,
                forall|k: int|
                    0 <= k < latest@.len() ==> *(#[trigger] latest@[k]) == *all@[all@.len() - 1
                        - k],
            decreases i,
        {
            i = i - 1;
            latest.push(all[i]);
        }
        assert(plain(latest@) =~= plain(all@).reverse());
        let rows = list_rows(
            &latest,
            |s: &SpendEntry| -> (t: Turn)
                ensures
                    t == spend_turn()(*s)
                { (-(s.at as i128), 0) },
            limit as usize,
            Ghost(spend_turn()),
        );
        let mut out: Vec<SpendEntry> = Vec::new();
        let mut j: usize = 0;
        while j < rows.len()
            invariant
                j <= rows@.len(),
                out@.len() == j,
                forall|k: int|
                    0 <= k < j ==> is_bill(#[trigger] out@[k], *rows@[k], self.settlements@),
            decreases rows@.len() - j,
        {
            let s = rows[j];
            let (settle_tx, settle_block) = match self.cover_of(s) {
                Some(t) => (Some(t.tx_hash.clone()), Some(t.block)),
                None => (None, None),
            };
            out.push(
                SpendEntry {
                    job_id: s.job_id.clone(),
                    model: s.model.clone(),
                    peer: copy_opt(&s.peer),
                    tokens: s.tokens,
                    cost_micros: s.cost_micros,
                    at: s.at,
                    cumulative_micros: s.cumulative_micros,
                    payout: copy_opt(&s.payout),
                    abandoned: s.abandoned,
                    bond_cumulative: None,
                    chunk_micros: None,
                    settle_tx,
                    settle_block,
                    settle_url: None,
                },
            );
            j = j + 1;
        }
        assert(are_bills(out@, plain(rows@), self.settlements@));
        out
    }
}

// ----------------------------------------------------------------- deposits

/// The earliest block of a deposit on a chain, among the first `n`.
pub open spec fn first_deposit(ds: Seq<StoredDeposit>, chain_id: u64, n: int) -> Option<u64>
    decreases n,
{
    if n <= 0 {
        None
    } else {
        let d = ds[n - 1];
        let before = first_deposit(ds, chain_id, n - 1);
        if d.block > 0 && d.chain_id == chain_id && (before matches Some(b) ==> d.block < b) {
            Some(d.block)
        } else {
            before
        }
    }
}

pub open spec fn at_least(n: u64, floor: u64) -> u64 {
    if n < floor {
        floor
    } else {
        n
    }
}

/// Where a scan for settlements starts: where the last one stopped, or else at
/// the first deposit, and never below the floor.
pub open spec fn scan_start(db: Db, chain_id: u64, floor: u64) -> u64 {
    let kept = match db.setting("settle_scan_block"@) {
        Some(s) => parsed(s, 10),
        None => None,
    };
    match kept {
        Some(n) => at_least(n, floor),
        None => match first_deposit(db.deposits@, chain_id, db.deposits@.len() as int) {
            Some(b) => at_least(b, floor),
            None => floor,
        },
    }
}

pub open spec fn deposit_turn() -> spec_fn(StoredDeposit) -> Turn {
    |d: StoredDeposit| ((-d.at) as i128, (-d.block) as i128)
}

pub open spec fn latest_turn() -> spec_fn(StoredDeposit) -> Turn {
    |d: StoredDeposit| ((-d.at) as i128, 0i128)
}

/// It names who paid in, on this chain.
pub open spec fn by_someone(chain_id: u64) -> spec_fn(StoredDeposit) -> bool {
    |d: StoredDeposit| d.client@.len() > 0 && d.chain_id == chain_id
}

impl Db {
    pub fn settlement_scan_from(&self, chain_id: u64, floor: u64) -> (r: u64)
        ensures
            r == scan_start(*self, chain_id, floor),
            r >= floor,
    {
        if let Some(v) = self.get_setting("settle_scan_block") {
            if let Some(n) = parse_number(v.as_str(), 10) {
                return if n < floor {
                    floor
                } else {
                    n
                };
            }
        }
        let mut first: Option<u64> = None;
        let mut i: usize = 0;
        while i < self.deposits.len()
            invariant
                i <= self.deposits@.len(),
                first == first_deposit(self.deposits@, chain_id, i as int),
            decreases self.deposits@.len() - i,
        {
            let d = &self.deposits[i];
            if d.block > 0 && d.chain_id == chain_id {
                first =
                match first {
                    Some(b) => if d.block < b {
                        Some(d.block)
                    } else {
                        Some(b)
                    },
                    None => Some(d.block),
                };
            }
            i = i + 1;
        }
        match first {
            Some(b) => if b < floor {
                floor
            } else {
                b
            },
            None => floor,
        }
    }

    /// Records a deposit; one that is recorded already is brought up to date.
    pub fn record_deposit(&mut self, d: StoredDeposit) -> (r: Result<(), AppError>)
        requires
            old(self).wf(),
        ensures
            final(self).wf(),
            *final(self) == (Db { deposits: final(self).deposits, ..*old(self) }),
            match r {
                Ok(_) => {
                    let (was, is) = (old(self).deposits@, final(self).deposits@);
                    if knows_deposit(was, d.tx_hash@) {
                        &&& is.len() == was.len()
                        &&& forall|i: int|
                            0 <= i < is.len() ==> #[trigger] is[i] == (if was[i].tx_hash@
                                == d.tx_hash@ {
                                d
                            } else {
                                was[i]
                            })
                    } else {
                        is == was.push(d)
                    }
                },
                Err(e) => {
                    &&& !knows_deposit(old(self).deposits@, d.tx_hash@)
                    &&& old(self).deposits@.len() == MOST_ROWS
                    &&& *final(self) == *old(self)
                    &&& e@ == Trouble::Db("database or disk is full"@)
                },
            },
    {
        let ghost was = self.deposits@;
        let mut at: usize = 0;
        while at < self.deposits.len() && !same(
            self.deposits[at].tx_hash.as_str(),
            d.tx_hash.as_str(),
        )
            invariant
                was == self.deposits@,
                at <= was.len(),
                forall|k: int| 0 <= k < at ==> (#[trigger] was[k]).tx_hash@ != d.tx_hash@,
            decreases was.len() - at,
        {
            at = at + 1;
        }
        if at < self.deposits.len() {
            proof {
                assert(was[at as int].tx_hash@ == d.tx_hash@);
                assert forall|i: int| 0 <= i < was.len() && i != at implies (
                #[trigger] was[i]).tx_hash@ != d.tx_hash@ by {
                    if i > at {
                        assert(deposit_ids()(was[at as int]) != deposit_ids()(was[i]));
                    }
                }
            }
            self.deposits.set(at, d);
            proof {
                lemma_same_keys_distinct(was, self.deposits@, deposit_ids());
            }
            return Ok(());
        }
        if self.deposits.len() >= MOST_ROWS as usize {
            return Err(full());
        }
        proof {
            lemma_push_distinct(was, d, deposit_ids());
        }
        self.deposits.push(d);
        Ok(())
    }

    /// The deposits, the newest first.
    pub fn list_deposits(&self) -> (r: Vec<&StoredDeposit>)
        ensures
            listed(self.deposits@, deposit_turn(), plain(r@)),
    {
        let all = chosen(&self.deposits, |d: &StoredDeposit| -> (b: bool) ensures b { true }, Ghost(
            |d: StoredDeposit| true,
        ));
        proof {
            lemma_kept_all(self.deposits@, |d: StoredDeposit| true);
        }
        let r = list_rows(
            &all,
            |d: &StoredDeposit| -> (t: Turn)
                ensures
                    t == deposit_turn()(*d)
                { (-(d.at as i128), -(d.block as i128)) },
            all.len(),
            Ghost(deposit_turn()),
        );
        proof {
            let full = choose|f: Seq<StoredDeposit>| #[trigger]
                listed(self.deposits@, deposit_turn(), f) && plain(r@) == (if all@.len()
                    < f.len() {
                    f.take(all@.len() as int)
                } else {
                    f
                });
            assert(plain(all@).len() == all@.len());
            assert(full.len() == self.deposits@.len());
        }
        r
    }

    /// Who paid in last on a chain.
    pub fn last_deposit_client(&self, chain_id: u64) -> (r: Option<String>)
        ensures
            exists|rows: Seq<StoredDeposit>|
                #[trigger] listed_up_to(
                    kept(self.deposits@, by_someone(chain_id)),
                    latest_turn(),
                    1,
                    rows,
                ) && opt(r) == (if rows.len() > 0 {
                    Some(rows[0].client@)
                } else {
                    None
                }),
    {
        let all = chosen(
            &self.deposits,
            |d: &StoredDeposit| -> (b: bool)
                ensures
                    b == by_someone(chain_id)(*d)
                { !d.client.as_str().is_empty() && d.chain_id == chain_id },
            Ghost(by_someone(chain_id)),
        );
        let rows = list_rows(
            &all,
            |d: &StoredDeposit| -> (t: Turn)
                ensures
                    t == latest_turn()(*d)
                { (-(d.at as i128), 0) },
            1,
            Ghost(latest_turn()),
        );
        assert(plain(rows@).len() == rows@.len());
        if rows.len() > 0 {
            assert(plain(rows@)[0] == *rows@[0]);
            Some(rows[0].client.clone())
        } else {
            None
        }
    }
}

pub open spec fn knows_deposit(ds: Seq<StoredDeposit>, tx: Seq<char>) -> bool {
    exists|i: int| 0 <= i < ds.len() && (#[trigger] ds[i]).tx_hash@ == tx
}

// -------------------------------------------------------------------- usage

/// A reply whose tokens were measured.
pub open spec fn measured(m: Message) -> bool {
    m.role@ == "assistant"@ && (m.tokens matches Some(n) && n > 0)
}

/// The model a message names.
pub open spec fn model_of(m: Message) -> Seq<char> {
    match opt(m.model) {
        Some(s) if s.len() > 0 => s,
        _ => "unknown"@,
    }
}

pub open spec fn reply_of(model: Seq<char>) -> spec_fn(Message) -> bool {
    |m: Message| measured(m) && model_of(m) == model
}

pub open spec fn spend_of(model: Seq<char>) -> spec_fn(SpendEntry) -> bool {
    |s: SpendEntry| s.model@ == model
}

pub open spec fn or_nothing(n: Option<u64>) -> nat {
    match n {
        Some(x) => x as nat,
        None => 0,
    }
}

/// The tokens of some messages.
pub open spec fn said_tokens(ms: Seq<Message>) -> nat
    decreases ms.len(),
{
    if ms.len() == 0 {
        0
    } else {
        said_tokens(ms.drop_last()) + or_nothing(ms.last().tokens)
    }
}

/// The tokens of some bills.
pub open spec fn billed_tokens(ss: Seq<SpendEntry>) -> nat
    decreases ss.len(),
{
    if ss.len() == 0 {
        0
    } else {
        billed_tokens(ss.drop_last()) + or_nothing(ss.last().tokens)
    }
}

/// The cost of some bills.
pub open spec fn billed_cost(ss: Seq<SpendEntry>) -> nat
    decreases ss.len(),
{
    if ss.len() == 0 {
        0
    } else {
        billed_cost(ss.drop_last()) + ss.last().cost_micros as nat
    }
}

pub open spec fn larger(a: nat, b: nat) -> nat {
    if a < b {
        b
    } else {
        a
    }
}

/// The tokens a model used. A reply from a chat is in both places, so they
/// are not added up.
pub open spec fn tokens_used(db: Db, model: Seq<char>) -> nat {
    larger(
        said_tokens(kept(db.messages@, reply_of(model))),
        billed_tokens(kept(db.spends@, spend_of(model))),
    )
}

pub open spec fn replies_of(db: Db, model: Seq<char>) -> nat {
    larger(
        kept(db.messages@, reply_of(model)).len(),
        kept(db.spends@, spend_of(model)).len(),
    )
}

pub open spec fn cost_of(db: Db, model: Seq<char>) -> nat {
    billed_cost(kept(db.spends@, spend_of(model)))
}

/// What a model used.
pub open spec fn is_usage(u: ModelUsage, db: Db) -> bool {
    &&& u.tokens == tokens_used(db, u.model@)
    &&& u.replies == replies_of(db, u.model@)
    &&& u.cost_micros == cost_of(db, u.model@)
}

/// More than a row can hold.
pub open spec fn overflows(db: Db, model: Seq<char>) -> bool {
    tokens_used(db, model) > i64::MAX || cost_of(db, model) > i64::MAX
}

/// The one that used more comes first; of equals the one whose name does.
pub open spec fn used_more(a: ModelUsage, b: ModelUsage) -> bool {
    a.tokens > b.tokens || (a.tokens == b.tokens && text_before(a.model@, b.model@))
}

/// The models in use.
pub open spec fn in_use(db: Db, model: Seq<char>) -> bool {
    replies_of(db, model) > 0
}

pub open spec fn lists_model(r: Seq<ModelUsage>, model: Seq<char>) -> bool {
    exists|i: int| 0 <= i < r.len() && (#[trigger] r[i]).model@ == model
}

/// A row for each model in use, and for no other, in order.
pub open spec fn is_usage_list(r: Seq<ModelUsage>, db: Db) -> bool {
    &&& forall|i: int|
        0 <= i < r.len() ==> in_use(db, (#[trigger] r[i]).model@) && is_usage(r[i], db)
    &&& forall|i: int, j: int|
        0 <= i < j < r.len() ==> used_more(#[trigger] r[i], #[trigger] r[j])
    &&& forall|model: Seq<char>| #[trigger] in_use(db, model) ==> lists_model(r, model)
}

/// A message or a bill names this model.
pub open spec fn names_model(db: Db, model: Seq<char>) -> bool {
    ||| exists|i: int|
        0 <= i < db.messages@.len() && reply_of(model)(#[trigger] db.messages@[i])
    ||| exists|i: int| 0 <= i < db.spends@.len() && spend_of(model)(#[trigger] db.spends@[i])
}

/// Some rows are kept just where one is to be kept.
proof fn lemma_kept_some<T>(rows: Seq<T>, keep: spec_fn(T) -> bool)
    ensures
        kept(rows, keep).len() > 0 <==> exists|i: int| 0 <= i < rows.len() && keep(#[trigger] rows[i]),
{
    lemma_kept_members(rows, keep);
    let k = kept(rows, keep);
    if k.len() > 0 {
        assert(k.contains(k[0]));
        let i = choose|i: int| 0 <= i < rows.len() && rows[i] == k[0];
        assert(keep(rows[i]));
    }
    if exists|i: int| 0 <= i < rows.len() && keep(#[trigger] rows[i]) {
        let i = choose|i: int| 0 <= i < rows.len() && keep(#[trigger] rows[i]);
        assert(rows.contains(rows[i]));
        assert(k.contains(rows[i]));
    }
}

proof fn lemma_in_use(db: Db, model: Seq<char>)
    ensures
        in_use(db, model) <==> names_model(db, model),
{
    lemma_kept_some(db.messages@, reply_of(model));
    lemma_kept_some(db.spends@, spend_of(model));
}

fn add_name(names: &mut Vec<String>, model: &str)
    requires
        texts(old(names)@).no_duplicates(),
    ensures
        texts(final(names)@).no_duplicates(),
        texts(final(names)@) == with_name(texts(old(names)@), model@),
{
    let mut i: usize = 0;
    while i < names.len()
        invariant
            i <= names@.len(),
            names@ == old(names)@,
            forall|k: int| 0 <= k < i ==> (#[trigger] names@[k])@ != model@,
            texts(old(names)@).no_duplicates(),
        decreases names@.len() - i,
    {
        if same(names[i].as_str(), model) {
            assert(texts(names@)[i as int] == model@);
            return;
        }
        i = i + 1;
    }
    let s = model.to_string();
    proof {
        lemma_texts_push(names@, s);
        assert(!texts(names@).contains(model@));
    }
    names.push(s);
}

/// A list of names with one more, where it is not there yet.
pub open spec fn with_name(names: Seq<Seq<char>>, model: Seq<char>) -> Seq<Seq<char>> {
    if names.contains(model) {
        names
    } else {
        names.push(model)
    }
}

proof fn lemma_with_name(names: Seq<Seq<char>>, model: Seq<char>)
    ensures
        with_name(names, model).contains(model),
        forall|m: Seq<char>| #[trigger] names.contains(m) ==> with_name(names, model).contains(m),
        forall|m: Seq<char>| #[trigger]
            with_name(names, model).contains(m) ==> m == model || names.contains(m),
{
    if !names.contains(model) {
        let more = names.push(model);
        assert(more[names.len() as int] == model);
        assert forall|m: Seq<char>| #[trigger] names.contains(m) implies more.contains(m) by {
            let i = choose|i: int| 0 <= i < names.len() && names[i] == m;
            assert(more[i] == m);
        }
        assert forall|m: Seq<char>| #[trigger] more.contains(m) implies m == model
            || names.contains(m) by {
            let i = choose|i: int| 0 <= i < more.len() && more[i] == m;
            if i < names.len() {
                assert(names[i] == m);
            }
        }
    }
}

impl Db {
    /// The models in use, each once.
    fn models_used(&self) -> (r: Vec<String>)
        ensures
            texts(r@).no_duplicates(),
            forall|m: Seq<char>| #[trigger] texts(r@).contains(m) <==> in_use(*self, m),
    {
        let mut names: Vec<String> = Vec::new();
        let mut i: usize = 0;
        while i < self.messages.len()
            invariant
                i <= self.messages@.len(),
                texts(names@).no_duplicates(),
                forall|m: Seq<char>| #[trigger]
                    texts(names@).contains(m) ==> names_model(*self, m),
                forall|k: int|
                    0 <= k < i && measured(#[trigger] self.messages@[k]) ==> texts(
                        names@,
                    ).contains(model_of(self.messages@[k])),
            decreases self.messages@.len() - i,
        {
            let m = &self.messages[i];
            let counted = match m.tokens {
                Some(n) => n > 0,
                None => false,
            };
            if counted && same(m.role.as_str(), "assistant") {
                let model = model_name(m);
                proof {
                    lemma_with_name(texts(names@), model@);
                    assert(reply_of(model@)(self.messages@[i as int]));
                }
                add_name(&mut names, model.as_str());
            }
            i = i + 1;
        }
        let mut j: usize = 0;
        while j < self.spends.len()
            invariant
                j <= self.spends@.len(),
                texts(names@).no_duplicates(),
                forall|m: Seq<char>| #[trigger]
                    texts(names@).contains(m) ==> names_model(*self, m),
                forall|k: int|
                    0 <= k < self.messages@.len() && measured(#[trigger] self.messages@[k])
                        ==> texts(names@).contains(model_of(self.messages@[k])),
                forall|k: int|
                    0 <= k < j ==> texts(names@).contains((#[trigger] self.spends@[k]).model@),
            decreases self.spends@.len() - j,
        {
            let s = &self.spends[j];
            proof {
                lemma_with_name(texts(names@), s.model@);
                assert(spend_of(s.model@)(self.spends@[j as int]));
            }
            add_name(&mut names, s.model.as_str());
            j = j + 1;
        }
        proof {
            assert forall|m: Seq<char>| #[trigger] texts(names@).contains(m) <==> in_use(
                *self,
                m,
            ) by {
                lemma_in_use(*self, m);
            }
        }
        names
    }

    fn tokens_said(&self, model: &str) -> (r: u128)
        requires
            self.wf(),
        ensures
            r == said_tokens(kept(self.messages@, reply_of(model@))),
    {
        let rows = chosen(
            &self.messages,
            |m: &Message| -> (b: bool)
                ensures
                    b == reply_of(model@)(*m)
                {
                    let counted = match m.tokens {
                        Some(n) => n > 0,
                        None => false,
                    };
                    counted && same(m.role.as_str(), "assistant") && same(
                        model_name(m).as_str(),
                        model,
                    )
                },
            Ghost(reply_of(model@)),
        );
        proof {
            lemma_kept_members(self.messages@, reply_of(model@));
            assert(plain(rows@).len() == rows@.len());
        }
        let mut sum: u128 = 0;
        let mut i: usize = 0;
        while i < rows.len()
            invariant
                i <= rows@.len() <= MOST_ROWS,
                sum == said_tokens(plain(rows@).take(i as int)),
                sum <= i * (u64::MAX as int),
            decreases rows@.len() - i,
        {
            let ghost now = plain(rows@).take(i as int + 1);
            assert(now.drop_last() =~= plain(rows@).take(i as int));
            assert(now.last() == *rows@[i as int]);
            let n: u64 = match rows[i].tokens {
                Some(n) => n,
                None => 0,
            };
            sum = sum + n as u128;
            i = i + 1;
        }
        assert(plain(rows@).take(i as int) =~= plain(rows@));
        sum
    }

    fn bills_of(&self, model: &str) -> (r: Vec<&SpendEntry>)
        requires
            self.wf(),
        ensures
            plain(r@) == kept(self.spends@, spend_of(model@)),
            r@.len() <= MOST_ROWS,
            r@.len() == plain(r@).len(),
    {
        proof {
            lemma_kept_members(self.spends@, spend_of(model@));
        }
        chosen(
            &self.spends,
            |s: &SpendEntry| -> (b: bool)
                ensures
                    b == spend_of(model@)(*s)
                { same(s.model.as_str(), model) },
            Ghost(spend_of(model@)),
        )
    }

    /// What a model used, unless it is more than a row can hold.
    fn usage_of(&self, model: &str) -> (r: Option<ModelUsage>)
        requires
            self.wf(),
        ensures
            match r {
                Some(u) => u.model@ == model@ && is_usage(u, *self) && !overflows(*self, model@),
                None => overflows(*self, model@),
            },
    {
        let said: u128 = self.tokens_said(model);
        let replies: usize = count_of(
            &self.messages,
            |m: &Message| -> (b: bool)
                ensures
                    b == reply_of(model@)(*m)
                {
                    let counted = match m.tokens {
                        Some(n) => n > 0,
                        None => false,
                    };
                    counted && same(m.role.as_str(), "assistant") && same(
                        model_name(m).as_str(),
                        model,
                    )
                },
            Ghost(reply_of(model@)),
        );
        let bills = self.bills_of(model);
        let mut tokens: u128 = 0;
        let mut cost: u128 = 0;
        let mut i: usize = 0;
        while i < bills.len()
            invariant
                i <= bills@.len() <= MOST_ROWS,
                tokens == billed_tokens(plain(bills@).take(i as int)),
                cost == billed_cost(plain(bills@).take(i as int)),
                tokens <= i * (u64::MAX as int),
                cost <= i * (u64::MAX as int),
            decreases bills@.len() - i,
        {
            let ghost now = plain(bills@).take(i as int + 1);
            assert(now.drop_last() =~= plain(bills@).take(i as int));
            assert(now.last() == *bills@[i as int]);
            let n: u64 = match bills[i].tokens {
                Some(n) => n,
                None => 0,
            };
            tokens = tokens + n as u128;
            cost = cost + bills[i].cost_micros as u128;
            i = i + 1;
        }
        assert(plain(bills@).take(i as int) =~= plain(bills@));
        let used: u128 = if said < tokens {
            tokens
        } else {
            said
        };
        if used > i64::MAX as u128 || cost > i64::MAX as u128 {
            return None;
        }
        let most: usize = if replies < bills.len() {
            bills.len()
        } else {
            replies
        };
        Some(
            ModelUsage {
                model: model.to_string(),
                tokens: used as u64,
                replies: most as u32,
                cost_micros: cost as u64,
            },
        )
    }

    /// What each model used, the one that used most first.
    pub fn token_usage(&self) -> (r: Result<Vec<ModelUsage>, AppError>)
        requires
            self.wf(),
        ensures
            match r {
                Ok(v) => {
                    &&& is_usage_list(v@, *self)
                    &&& forall|m: Seq<char>| #[trigger] in_use(*self, m) ==> !overflows(*self, m)
                },
                Err(e) => {
                    &&& exists|m: Seq<char>| #[trigger] in_use(*self, m) && overflows(*self, m)
                    &&& e@ == Trouble::Db("integer overflow"@)
                },
            },
    {
        let names = self.models_used();
        let mut rows: Vec<ModelUsage> = Vec::new();
        let mut keys: Vec<Key> = Vec::new();
        let mut i: usize = 0;
        while i < names.len()
            invariant
                self.wf(),
                i <= names@.len(),
                rows@.len() == i,
                keys@.len() == i,
                forall|m: Seq<char>| #[trigger] texts(names@).contains(m) <==> in_use(*self, m),
                forall|k: int|
                    0 <= k < i ==> {
                        &&& (#[trigger] rows@[k]).model@ == names@[k]@
                        &&& is_usage(rows@[k], *self)
                        &&& !overflows(*self, names@[k]@)
                    },
                forall|k: int|
                    0 <= k < i ==> (#[trigger] keys@[k])@ == (Rank {
                        price: (u64::MAX - rows@[k].tokens) as u64,
                        model: names@[k]@,
                        label: ""@,
                        draw: 0,
                    }),
            decreases names@.len() - i,
        {
            assert(texts(names@)[i as int] == names@[i as int]@);
            assert(texts(names@).contains(names@[i as int]@));
            match self.usage_of(names[i].as_str()) {
                Some(u) => {
                    keys.push(
                        Key {
                            price: u64::MAX - u.tokens,
                            model: names[i].clone(),
                            label: "".to_string(),
                            draw: 0,
                        },
                    );
                    let ghost before = rows@;
                    rows.push(u);
                    assert forall|k: int| 0 <= k < i + 1 implies {
                        &&& (#[trigger] rows@[k]).model@ == names@[k]@
                        &&& is_usage(rows@[k], *self)
                        &&& !overflows(*self, names@[k]@)
                    } by {
                        if k < i {
                            assert(rows@[k] == before[k]);
                        }
                    }
                },
                None => {
                    return Err(AppError::Db("integer overflow".to_string()));
                },
            }
            i = i + 1;
        }
        let p = ordered(&keys);
        let mut out: Vec<ModelUsage> = Vec::new();
        let mut j: usize = 0;
        while j < p.len()
            invariant
                j <= p@.len(),
                in_order(ranks(keys@), p@),
                keys@.len() == rows@.len() == names@.len(),
                out@.len() == j,
                forall|k: int|
                    0 <= k < j ==> {
                        let u = rows@[p@[k] as int];
                        &&& (#[trigger] out@[k]).model@ == u.model@
                        &&& out@[k].tokens == u.tokens
                        &&& out@[k].replies == u.replies
                        &&& out@[k].cost_micros == u.cost_micros
                    },
            decreases p@.len() - j,
        {
            assert(p@[j as int] < rows@.len());
            let u = &rows[p[j]];
            out.push(
                ModelUsage {
                    model: u.model.clone(),
                    tokens: u.tokens,
                    replies: u.replies,
                    cost_micros: u.cost_micros,
                },
            );
            j = j + 1;
        }
        proof {
            let rs = ranks(keys@);
            assert forall|i: int| 0 <= i < out@.len() implies in_use(
                *self,
                (#[trigger] out@[i]).model@,
            ) && is_usage(out@[i], *self) by {
                let k = p@[i] as int;
                assert(rows@[k].model@ == names@[k]@);
                assert(texts(names@)[k] == names@[k]@);
                assert(texts(names@).contains(names@[k]@));
            }
            assert forall|i: int, j: int| 0 <= i < j < out@.len() implies used_more(
                #[trigger] out@[i],
                #[trigger] out@[j],
            ) by {
                let (a, b) = (p@[i] as int, p@[j] as int);
                assert(p@[i] != p@[j]);
                assert(!rs[b].before(rs[a]));
                assert(rs[a] == keys@[a]@ && rs[b] == keys@[b]@);
                assert(texts(names@)[a] != texts(names@)[b]);
                assert(rows@[a].model@ == names@[a]@ && rows@[b].model@ == names@[b]@);
                lemma_text_before_total(names@[a]@, names@[b]@);
            }
            assert forall|m: Seq<char>| #[trigger] in_use(*self, m) implies lists_model(out@, m)
                && !overflows(*self, m) by {
                assert(texts(names@).contains(m));
                let k = choose|k: int| 0 <= k < names@.len() && texts(names@)[k] == m;
                assert(rows@[k].model@ == names@[k]@);
                assert(p@.contains(k as usize));
                let i = choose|i: int| 0 <= i < p@.len() && p@[i] == k as usize;
                assert(out@[i].model@ == m);
            }
        }
        Ok(out)
    }
}

fn model_name(m: &Message) -> (r: String)
    ensures
        r@ == model_of(*m),
{
    match &m.model {
        Some(s) => if s.as_str().is_empty() {
            "unknown".to_string()
        } else {
            s.clone()
        },
        None => "unknown".to_string(),
    }
}

} // verus!
