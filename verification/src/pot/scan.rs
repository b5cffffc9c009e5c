//! Reading the chain's events.
use vstd::prelude::*;

use crate::codec::{hex_encode, hexed};
use crate::error::{AppError, Trouble};
use crate::json::{trees, Json, Tree};
use crate::pot::chain::{
    address_word, block_text, deposit_in, parse_deposit_log, parse_settled_log, settled_in,
    slice_end, slices, word_address, DepositLog, Settled, Settlement,
};
use crate::store::spends::{other_settles, scan_start};
use crate::store::tables::{kept, lemma_kept_all, lemma_kept_members};
use crate::store::{Db, MOST_ROWS};
use crate::text::{concat, decimal, decimal_of, hex_number, lowercased};

verus! {

broadcast use vstd::string::group_string_axioms;

/// The question for events: whose, from which block to which, on what.
pub open spec fn logs_question(
    pot: Seq<char>,
    from: Seq<char>,
    to: Seq<char>,
    topics: Tree,
) -> Tree {
    Tree::just(
        Tree::record().with("address"@, Tree::Text(pot)).with("fromBlock"@, Tree::Text(from)).with(
            "toBlock"@,
            Tree::Text(to),
        ).with("topics"@, topics),
    )
}

fn logs_query(pot: &str, from: &str, to: &str, topics: Json) -> (r: Json)
    ensures
        r@ == logs_question(pot@, from@, to@, topics@),
{
    Json::just(
        Json::record().with("address", Json::text(pot)).with("fromBlock", Json::text(from)).with(
            "toBlock",
            Json::text(to),
        ).with("topics", topics),
    )
}

/// The question for every deposit there ever was. `topic` is the hash of the
/// event's signature.
pub fn deposits_query(pot: &str, topic: &Vec<u8>) -> (r: Json)
    ensures
        r@ == logs_question(
            pot@,
            "0x0"@,
            "latest"@,
            Tree::just(Tree::Text("0x"@ + hexed(topic@))),
        ),
{
    let topics = Json::just(Json::text(concat("0x", hex_encode(topic.as_slice()).as_str()).as_str()));
    logs_query(pot, "0x0", "latest", topics)
}

/// The deposits among some events.
pub open spec fn deposits_in(logs: Seq<Tree>) -> Seq<(Seq<char>, Seq<char>)>
    decreases logs.len(),
{
    if logs.len() == 0 {
        seq![]
    } else {
        let before = deposits_in(logs.drop_last());
        match deposit_in(logs.last()) {
            Some(d) => before.push(d),
            None => before,
        }
    }
}

/// What deposits say.
pub open spec fn said(ds: Seq<DepositLog>) -> Seq<(Seq<char>, Seq<char>)> {
    Seq::new(ds.len(), |i: int| (ds[i].client@, ds[i].app_key@))
}

/// The deposits in an answer; what is not one is passed over.
pub fn deposited_logs(answer: &Json) -> (r: Vec<DepositLog>)
    ensures
        said(r@) == deposits_in(answer@.items()),
{
    let mut out: Vec<DepositLog> = Vec::new();
    assert(said(out@) =~= seq![]);
    match answer.as_list() {
        Some(logs) => {
            let ghost all = trees(logs@);
            let mut i: usize = 0;
            assert(all.take(0) =~= seq![]);
            while i < logs.len()
                invariant
                    i <= logs@.len(),
                    all == trees(logs@),
                    said(out@) == deposits_in(all.take(i as int)),
                decreases logs@.len() - i,
            {
                let ghost now = all.take(i as int + 1);
                assert(now.drop_last() =~= all.take(i as int));
                assert(now.last() == logs@[i as int]@);
                let ghost before = out@;
                if let Some(d) = parse_deposit_log(&logs[i]) {
                    out.push(d);
                    assert(said(out@) =~= said(before).push((d.client@, d.app_key@)));
                }
                i = i + 1;
            }
            assert(all.take(i as int) =~= all);
        },
        None => {},
    }
    out
}

// -------------------------------------------------------------- settlements

/// What settlements say.
pub open spec fn settles(ts: Seq<Settlement>) -> Seq<Settled> {
    Seq::new(ts.len(), |i: int| ts[i]@)
}

pub open spec fn not_tx(tx: Seq<char>) -> spec_fn(Settled) -> bool {
    |t: Settled| t.tx_hash != tx
}

/// The settlements with one more, which takes the place of an entry for the
/// same transaction.
pub open spec fn with_settled(ts: Seq<Settled>, t: Settled) -> Seq<Settled> {
    kept(ts, not_tx(lowercased(t.tx_hash))).push(
        Settled { tx_hash: lowercased(t.tx_hash), payout: lowercased(t.payout), ..t },
    )
}

/// The settlements with those among some events.
pub open spec fn with_events(ts: Seq<Settled>, logs: Seq<Tree>) -> Seq<Settled>
    decreases logs.len(),
{
    if logs.len() == 0 {
        ts
    } else {
        let before = with_events(ts, logs.drop_last());
        match settled_in(logs.last()) {
            Some(t) => with_settled(before, t),
            None => before,
        }
    }
}

/// There is no room for the settlement in the event at `k`, once those before
/// it are taken over.
pub open spec fn no_room_at(ts: Seq<Settled>, logs: Seq<Tree>, k: int) -> bool {
    &&& 0 <= k < logs.len()
    &&& settled_in(logs[k]) matches Some(t) && kept(
        with_events(ts, logs.take(k)),
        not_tx(lowercased(t.tx_hash)),
    ).len() == MOST_ROWS
}

/// How many of some events are settlements.
pub open spec fn settled_count(logs: Seq<Tree>) -> nat
    decreases logs.len(),
{
    if logs.len() == 0 {
        0
    } else {
        settled_count(logs.drop_last()) + if settled_in(logs.last()) is Some {
            1nat
        } else {
            0nat
        }
    }
}

proof fn lemma_kept_settles(rows: Seq<Settlement>, tx: Seq<char>)
    ensures
        settles(kept(rows, other_settles(tx))) == kept(settles(rows), not_tx(tx)),
    decreases rows.len(),
{
    if rows.len() > 0 {
        lemma_kept_settles(rows.drop_last(), tx);
        let k = kept(rows.drop_last(), other_settles(tx));
        assert(settles(rows).drop_last() =~= settles(rows.drop_last()));
        assert(settles(rows).last() == rows.last()@);
        if other_settles(tx)(rows.last()) {
            assert(settles(k.push(rows.last())) =~= settles(k).push(rows.last()@));
        }
    } else {
        assert(settles(kept(rows, other_settles(tx))) =~= seq![]);
        assert(settles(rows) =~= seq![]);
    }
}

/// A walk over the blocks that have not been looked at.
#[derive(Debug, Clone, Copy, PartialEq, Eq, Structural)]
pub struct Scan {
    pub from: u64,
    pub head: u64,
}

impl Scan {
    /// Whether there is anything left to look at.
    pub open spec fn goes_on(self) -> bool {
        self.from <= self.head && self.head < u64::MAX
    }

    /// The last block of the slice that is next.
    pub open spec fn to(self) -> u64 {
        slices(self.from as nat, self.head as nat)[0].1
    }

    /// Where to start, when there are blocks to look at at all.
    pub fn begin(db: &Db, chain_id: u64, deploy_block: u64, head: u64) -> (r: Option<Scan>)
        requires
            head < u64::MAX,
        ensures
            r matches Some(s) ==> s.goes_on(),
            ({
                let from = scan_start(*db, chain_id, deploy_block);
                r == (if head == 0 || from > head {
                    None
                } else {
                    Some(Scan { from, head })
                })
            }),
    {
        let from: u64 = db.settlement_scan_from(chain_id, deploy_block);
        if head == 0 || from > head {
            None
        } else {
            Some(Scan { from, head })
        }
    }

    pub fn is_over(&self) -> (r: bool)
        ensures
            r == !self.goes_on(),
    {
        self.from > self.head || self.head == u64::MAX
    }

    /// The question for this client's settlements in the next slice. `topic`
    /// is the hash of the event's signature.
    pub fn query(&self, pot: &str, topic: &Vec<u8>, client: &str) -> (r: Result<Json, AppError>)
        requires
            self.goes_on(),
        ensures
            match r {
                Ok(q) => {
                    &&& address_word(client@) is Ok
                    &&& q@ == logs_question(
                        pot@,
                        "0x"@ + hex_number(self.from as nat),
                        "0x"@ + hex_number(self.to() as nat),
                        Tree::List(
                            seq![
                                Tree::Text("0x"@ + hexed(topic@)),
                                Tree::Text("0x"@ + hexed(address_word(client@)->Ok_0)),
                            ],
                        ),
                    )
                },
                Err(e) => address_word(client@) is Err && e@ == Trouble::Invalid(
                    address_word(client@)->Err_0,
                ),
            },
    {
        let word = match word_address(client) {
            Ok(w) => w,
            Err(e) => {
                return Err(e);
            },
        };
        let to: u64 = slice_end(self.from, self.head);
        let topics = Json::empty().and(
            Json::text(concat("0x", hex_encode(topic.as_slice()).as_str()).as_str()),
        ).and(Json::text(concat("0x", hex_encode(word.as_slice()).as_str()).as_str()));
        assert(topics@->List_0 =~= seq![
            Tree::Text("0x"@ + hexed(topic@)),
            Tree::Text("0x"@ + hexed(address_word(client@)->Ok_0)),
        ]);
        Ok(
            logs_query(
                pot,
                block_text(self.from).as_str(),
                block_text(to).as_str(),
                topics,
            ),
        )
    }

    /// Takes the settlements of the slice over and moves on to the next one,
    /// so that a walk that breaks off goes on from here. Says how many there
    /// were. Where there is no room the walk stays where it is, with what came
    /// before taken over.
    pub fn take(&mut self, db: &mut Db, answer: &Json) -> (r: Result<usize, AppError>)
        requires
            old(db).wf(),
            old(self).goes_on(),
        ensures
            final(db).wf(),
            *final(db) == (Db {
                settlements: final(db).settlements,
                settings: final(db).settings,
                ..*old(db)
            }),
            match r {
                Ok(n) => {
                    &&& n == settled_count(answer@.items())
                    &&& settles(final(db).settlements@) == with_events(
                        settles(old(db).settlements@),
                        answer@.items(),
                    )
                    &&& final(db).setting("settle_scan_block"@) == Some(
                        decimal((old(self).to() + 1) as nat),
                    )
                    &&& forall|k: Seq<char>|
                        k != "settle_scan_block"@ ==> #[trigger] final(db).setting(k) == old(
                            db,
                        ).setting(k)
                    &&& *final(self) == (Scan { from: (old(self).to() + 1) as u64, ..*old(self) })
                },
                Err(e) => {
                    let was = settles(old(db).settlements@);
                    let logs = answer@.items();
                    &&& e@ == Trouble::Db("database or disk is full"@)
                    &&& *final(self) == *old(self)
                    &&& final(db).settings == old(db).settings
                    &&& {
                        ||| exists|k: int|
                            #[trigger] no_room_at(was, logs, k) && settles(
                                final(db).settlements@,
                            ) == with_events(was, logs.take(k))
                        ||| {
                            &&& old(db).setting("settle_scan_block"@) is None
                            &&& old(db).settings@.len() == MOST_ROWS
                            &&& settles(final(db).settlements@) == with_events(was, logs)
                        }
                    }
                },
            },
    {
        let to: u64 = slice_end(self.from, self.head);
        let mut n: usize = 0;
        let ghost was = settles(db.settlements@);
        match answer.as_list() {
            Some(logs) => {
                let ghost all = trees(logs@);
                let mut i: usize = 0;
                assert(all.take(0) =~= seq![]);
                while i < logs.len()
                    invariant
                        db.wf(),
                        *db == (Db { settlements: db.settlements, ..*old(db) }),
                        i <= logs@.len(),
                        n <= i,
                        all == trees(logs@),
                        all == answer@.items(),
                        was == settles(old(db).settlements@),
                        *self == *old(self),
                        n == settled_count(all.take(i as int)),
                        settles(db.settlements@) == with_events(was, all.take(i as int)),
                    decreases logs@.len() - i,
                {
                    let ghost now = all.take(i as int + 1);
                    assert(now.drop_last() =~= all.take(i as int));
                    assert(now.last() == logs@[i as int]@);
                    if let Some(t) = parse_settled_log(&logs[i]) {
                        let ghost rows = db.settlements@;
                        proof {
                            lemma_kept_settles(rows, lowercased(t.tx_hash@));
                        }
                        match db.record_settlement(t) {
                            Ok(_) => {},
                            Err(e) => {
                                proof {
                                    assert(settles(kept(rows, other_settles(lowercased(t.tx_hash@)))).len()
                                        == MOST_ROWS);
                                    assert(all == answer@.items());
                                    assert(no_room_at(was, all, i as int));
                                }
                                return Err(e);
                            },
                        }
                        proof {
                            let row = db.settlements@.last();
                            let k = kept(rows, other_settles(lowercased(t.tx_hash@)));
                            assert(settles(k.push(row)) =~= settles(k).push(row@));
                        }
                        n = n + 1;
                    }
                    i = i + 1;
                }
                assert(all.take(i as int) =~= all);
            },
            None => {},
        }
        match db.set_setting("settle_scan_block", decimal_of(to + 1).as_str()) {
            Ok(_) => {},
            Err(e) => {
                return Err(e);
            },
        }
        self.from = to + 1;
        Ok(n)
    }
}

/// However often an event is read, its settlement is there once.
pub proof fn law_reading_an_event_again_adds_nothing(ts: Seq<Settled>, t: Settled)
    ensures
        with_settled(with_settled(ts, t), t) == with_settled(ts, t),
{
    let tx = lowercased(t.tx_hash);
    let k = kept(ts, not_tx(tx));
    let row = Settled { tx_hash: tx, payout: lowercased(t.payout), ..t };
    assert(k.push(row).drop_last() =~= k);
    lemma_kept_members(ts, not_tx(tx));
    assert forall|i: int| 0 <= i < k.len() implies not_tx(tx)(#[trigger] k[i]) by {
        assert(k.contains(k[i]));
    }
    lemma_kept_all(k, not_tx(tx));
}

} // verus!
