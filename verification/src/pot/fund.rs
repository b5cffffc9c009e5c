//! What the wallet page is answered.
use vstd::prelude::*;

use crate::error::Trouble;
use crate::pot::ledger::{public_tickets, publics, Ledger, PendingPublic};
use crate::pot::wallet::{save_deposit, DepositBody, FundAuth};
use crate::store::spends::knows_deposit;
use crate::store::{Db, MOST_ROWS};
use crate::text::{blank, trimmed};

verus! {

broadcast use vstd::string::group_string_axioms;

/// What the wallet page can ask for.
#[derive(Debug, PartialEq)]
pub enum FundRequest {
    /// The page itself.
    Page,
    /// The tickets not yet on the chain.
    Pending,
    /// To settle them.
    Flush,
    /// To note a deposit.
    Deposit(DepositBody),
}

#[derive(Debug, PartialEq)]
pub enum FundBody {
    Page,
    Tickets(Vec<PendingPublic>),
    Text(String),
}

#[derive(Debug, PartialEq)]
pub struct FundReply {
    pub code: u16,
    pub body: FundBody,
}

/// The request carries the token of this launch.
pub open spec fn may_ask(auth: FundAuth, token: Seq<char>) -> bool {
    auth.t@.len() > 0 && auth.t@ == token
}

/// A reply in words.
pub open spec fn is_text(r: FundReply, code: u16, words: Seq<char>) -> bool {
    r.code == code && (r.body matches FundBody::Text(s) && s@ == words)
}

/// Why a deposit is not noted, if it is not.
pub open spec fn deposit_fault(db: Db, body: DepositBody) -> Option<Trouble> {
    if blank(body.tx_hash@) {
        Some(Trouble::Invalid("missing tx hash"@))
    } else if !knows_deposit(db.deposits@, trimmed(body.tx_hash@)) && db.deposits@.len()
        == MOST_ROWS {
        Some(Trouble::Db("database or disk is full"@))
    } else {
        None
    }
}

fn text_reply(code: u16, words: &str) -> (r: FundReply)
    ensures
        is_text(r, code, words@),
{
    FundReply { code, body: FundBody::Text(words.to_string()) }
}

/// Answers a request of the wallet page. Without the token nothing is told and
/// nothing changes. Workers post the settles, so a flush finds none to send.
pub fn fund_reply(
    request: FundRequest,
    auth: &FundAuth,
    token: &str,
    ledger: &Ledger,
    db: &mut Db,
    now: i64,
) -> (r: FundReply)
    requires
        old(db).wf(),
    ensures
        final(db).wf(),
        *final(db) == (Db { deposits: final(db).deposits, ..*old(db) }),
        !may_ask(*auth, token@) ==> is_text(r, 403, "forbidden"@) && *final(db) == *old(db),
        may_ask(*auth, token@) ==> match request {
            FundRequest::Page => {
                r.code == 200 && r.body is Page && *final(db) == *old(db)
            },
            FundRequest::Pending => {
                &&& r.code == 200
                &&& r.body matches FundBody::Tickets(v) && publics(v@) == public_tickets(
                    ledger.tickets@,
                )
                &&& *final(db) == *old(db)
            },
            FundRequest::Flush => is_text(r, 200, "0"@) && *final(db) == *old(db),
            FundRequest::Deposit(body) => match deposit_fault(*old(db), body) {
                Some(why) => is_text(r, 500, why.words()) && *final(db) == *old(db),
                None => {
                    &&& is_text(r, 204, ""@)
                    &&& knows_deposit(final(db).deposits@, trimmed(body.tx_hash@))
                    &&& forall|i: int|
                        0 <= i < final(db).deposits@.len() ==> {
                            let d = #[trigger] final(db).deposits@[i];
                            if d.tx_hash@ == trimmed(body.tx_hash@) {
                                &&& d.amount_micros == body.amount_micros
                                &&& d.max_per_job_micros == body.max_per_job_micros
                                &&& d.max_per_day_micros == body.max_per_day_micros
                                &&& d.block == body.block && d.at == now
                                &&& d.chain_id == body.chain_id && d.client@ == body.client@
                            } else {
                                i < old(db).deposits@.len() && d == old(db).deposits@[i]
                            }
                        }
                    &&& final(db).deposits@.len() == old(db).deposits@.len() + (if knows_deposit(
                        old(db).deposits@,
                        trimmed(body.tx_hash@),
                    ) {
                        0int
                    } else {
                        1int
                    })
                },
            },
        },
{
    if !auth.ok(token) {
        return text_reply(403, "forbidden");
    }
    match request {
        FundRequest::Page => FundReply { code: 200, body: FundBody::Page },
        FundRequest::Pending => FundReply {
            code: 200,
            body: FundBody::Tickets(ledger.pending_public()),
        },
        FundRequest::Flush => text_reply(200, "0"),
        FundRequest::Deposit(body) => {
            let d = match save_deposit(body, now) {
                Ok(d) => d,
                Err(e) => {
                    return text_reply(500, e.message().as_str());
                },
            };
            let ghost before = db.deposits@;
            match db.record_deposit(d) {
                Ok(_) => {
                    proof {
                        let after = db.deposits@;
                        if knows_deposit(before, d.tx_hash@) {
                            let i = choose|i: int|
                                0 <= i < before.len() && (#[trigger] before[i]).tx_hash@
                                    == d.tx_hash@;
                            assert(after[i].tx_hash@ == d.tx_hash@);
                        } else {
                            assert(after[before.len() as int].tx_hash@ == d.tx_hash@);
                        }
                    }
                    text_reply(204, "")
                },
                Err(e) => text_reply(500, e.message().as_str()),
            }
        },
    }
}

} // verus!
