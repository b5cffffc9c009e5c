//! The wallet: which chain, whose pot, what is in it, and whether it covers a
//! job.
use vstd::prelude::*;

use crate::codec::{hex_complaint, hex_decode, unhexed};
use crate::error::{AppError, Trouble};
use crate::pot::chain::{explorer_link, explorer_tx, Account, DepositLog};
use crate::pot::ledger::{
    cap_of, job_limit, key_of, owed, plus, sat_add, worst_case, worst_case_micros, LatestTicket,
    Ledger, SpendTicket,
};
use crate::protocol::{copy_opt, opt, JobKind};
use crate::store::tables::plain;
use crate::store::{Peer, StoredDeposit};
use crate::text::{
    blank, chars_of, concat, concat3, decimal, decimal_of, is_blank, lemma_texts_push, lower,
    lowercased, same, same_ignoring_case, texts, to_lowercase, trim, trim_start_matches, trimmed,
    without_leading,
};

verus! {

broadcast use vstd::string::group_string_axioms;

/// The port the wallet page is served on.
pub const FUND_PORT: u16 = 17331;

/// The local test chain's id.
pub const LOCAL_CHAIN: u64 = 31337;

// ------------------------------------------------------------------ config

/// Where the pot is.
#[derive(Debug, PartialEq)]
pub struct ChainConfig {
    pub rpc: String,
    pub chain_id: u64,
    pub usdc: String,
    pub pot: String,
    pub fee_vault: String,
    pub worker: String,
    pub client: String,
    /// The block the pot was deployed at; no event is older.
    pub deploy_block: u64,
}

/// A configuration that names a pot, and not the local test chain unless that
/// was asked for.
pub open spec fn is_usable(cfg: ChainConfig, local: bool) -> bool {
    !blank(cfg.pot@) && (cfg.chain_id != LOCAL_CHAIN || local)
}

pub fn usable(cfg: ChainConfig, local: bool) -> (r: Option<ChainConfig>)
    ensures
        r == (if is_usable(cfg, local) {
            Some(cfg)
        } else {
            None
        }),
{
    if is_blank(cfg.pot.as_str()) {
        return None;
    }
    if cfg.chain_id == LOCAL_CHAIN && !local {
        return None;
    }
    Some(cfg)
}

/// Whether a chain on this machine is asked for, given what the variable that
/// says so is set to.
pub fn use_local_chain(set: &Option<String>) -> (r: bool)
    ensures
        r == (opt(*set) == Some("1"@) || opt(*set) == Some("true"@) || opt(*set) == Some("TRUE"@)),
{
    match set {
        Some(v) => same(v.as_str(), "1") || same(v.as_str(), "true") || same(v.as_str(), "TRUE"),
        None => false,
    }
}

/// The first of the configurations found that is usable.
pub fn first_usable(found: Vec<ChainConfig>, local: bool) -> (r: Option<ChainConfig>)
    ensures
        match r {
            Some(c) => exists|i: int|
                {
                    &&& 0 <= i < found@.len()
                    &&& #[trigger] found@[i] == c
                    &&& is_usable(c, local)
                    &&& forall|k: int| 0 <= k < i ==> !is_usable(#[trigger] found@[k], local)
                },
            None => forall|k: int|
                0 <= k < found@.len() ==> !is_usable(#[trigger] found@[k], local),
        },
{
    let ghost all = found@;
    let total: usize = found.len();
    let mut rest = found;
    let mut n: usize = 0;
    while rest.len() > 0
        invariant
            all == found@,
            n + rest@.len() == total,
            total == all.len(),
            rest@ == all.skip(n as int),
            forall|k: int| 0 <= k < n ==> !is_usable(#[trigger] all[k], local),
        decreases rest@.len(),
    {
        let ghost before = rest@;
        let c = rest.remove(0);
        assert(c == all[n as int]);
        assert(rest@ =~= all.skip(n as int + 1));
        if let Some(good) = usable(c, local) {
            return Some(good);
        }
        n = n + 1;
    }
    None
}

// --------------------------------------------------------------- addresses

/// Nothing but the digit zero.
pub open spec fn only_zeros(hex: Seq<char>) -> bool {
    forall|i: int| 0 <= i < hex.len() ==> #[trigger] hex[i] == '0'
}

fn all_zeros(hex: &str) -> (r: bool)
    ensures
        r == only_zeros(hex@),
{
    let v = chars_of(hex);
    let mut i: usize = 0;
    while i < v.len()
        invariant
            i <= v@.len(),
            v@ == hex@,
            forall|k: int| 0 <= k < i ==> #[trigger] v@[k] == '0',
        decreases v@.len() - i,
    {
        if v[i] != '0' {
            return false;
        }
        i = i + 1;
    }
    true
}

/// No address, or the zero address.
pub open spec fn names_nobody(addr: Seq<char>) -> bool {
    only_zeros(without_leading(trimmed(addr), "0x"@))
}

pub fn is_zero_addr(addr: &str) -> (r: bool)
    ensures
        r == names_nobody(addr@),
{
    all_zeros(trim_start_matches(trim(addr).as_str(), "0x").as_str())
}

/// The address a priced job locks against: the worker's own, and a worker
/// that names none cannot be paid.
pub fn named_payout(raw: &Option<String>) -> (r: Result<String, AppError>)
    ensures
        ({
            let s = match opt(*raw) {
                Some(s) => trimmed(s),
                None => trimmed(""@),
            };
            match r {
                Ok(a) => a@ == s && !only_zeros(without_leading(s, "0x"@)),
                Err(e) => only_zeros(without_leading(s, "0x"@)) && e@ == Trouble::Invalid(
                    "this provider did not name a payout address"@,
                ),
            }
        }),
{
    let s = match raw {
        Some(s) => trim(s.as_str()),
        None => trim(""),
    };
    let hex = trim_start_matches(s.as_str(), "0x");
    if all_zeros(hex.as_str()) {
        return Err(AppError::Invalid("this provider did not name a payout address".to_string()));
    }
    Ok(s)
}

/// The secret key a key file holds: 32 bytes in hex.
pub fn key_from_hex(text: &str) -> (r: Result<Vec<u8>, AppError>)
    ensures
        match r {
            Ok(k) => unhexed(trimmed(text@)) == Some(k@) && k@.len() == 32,
            Err(e) => match unhexed(trimmed(text@)) {
                None => e@ == Trouble::Invalid(hex_complaint(trimmed(text@))),
                Some(b) => b.len() != 32 && e@ == Trouble::Invalid(
                    "pot app key is the wrong length"@,
                ),
            },
        },
{
    match hex_decode(trim(text).as_str()) {
        Err(why) => Err(AppError::Invalid(why)),
        Ok(bytes) => {
            if bytes.len() != 32 {
                Err(AppError::Invalid("pot app key is the wrong length".to_string()))
            } else {
                Ok(bytes)
            }
        },
    }
}

/// The wallet that deposited for an app key: the newest of its deposits.
pub fn find_client(logs: &Vec<DepositLog>, app_key: &str) -> (r: Option<String>)
    ensures
        ({
            let want = lower(lowercased(without_leading(app_key@, "0x"@)));
            match r {
                Some(c) => exists|i: int|
                    {
                        &&& 0 <= i < logs@.len()
                        &&& (#[trigger] logs@[i]).client@ == c@
                        &&& lower(without_leading(logs@[i].app_key@, "0x"@)) == want
                        &&& forall|k: int|
                            i < k < logs@.len() ==> lower(
                                without_leading((#[trigger] logs@[k]).app_key@, "0x"@),
                            ) != want
                    },
                None => forall|k: int|
                    0 <= k < logs@.len() ==> lower(
                        without_leading((#[trigger] logs@[k]).app_key@, "0x"@),
                    ) != want,
            }
        }),
{
    let want = to_lowercase(trim_start_matches(app_key, "0x").as_str());
    let mut i: usize = logs.len();
    while i > 0
        invariant
            i <= logs@.len(),
            want@ == lowercased(without_leading(app_key@, "0x"@)),
            forall|k: int|
                i <= k < logs@.len() ==> lower(
                    without_leading((#[trigger] logs@[k]).app_key@, "0x"@),
                ) != lower(want@),
        decreases i,
    {
        i = i - 1;
        let key = trim_start_matches(logs[i].app_key.as_str(), "0x");
        if same_ignoring_case(key.as_str(), want.as_str()) {
            return Some(logs[i].client.clone());
        }
    }
    None
}

// ------------------------------------------------------------------ status

/// What the wallet screen shows.
#[derive(Debug, PartialEq)]
pub struct PotStatus {
    pub configured: bool,
    pub reachable: bool,
    pub client: Option<String>,
    pub app_key: String,
    pub balance_micros: u64,
    pub max_per_job_micros: u64,
    pub max_per_day_micros: u64,
    pub spent_today_micros: u64,
    pub reserved_micros: u64,
    pub rpc: String,
    pub pot: String,
    pub usdc: String,
    pub chain_id: u64,
}

/// The status of a wallet with no chain to be on.
pub fn unconfigured(app_key: String) -> (r: PotStatus)
    ensures
        !r.configured && !r.reachable && r.client is None,
        r.app_key@ == app_key@,
        r.balance_micros == 0 && r.max_per_job_micros == 0 && r.max_per_day_micros == 0,
        r.spent_today_micros == 0 && r.reserved_micros == 0 && r.chain_id == 0,
        r.rpc@.len() == 0 && r.pot@.len() == 0 && r.usdc@.len() == 0,
{
    PotStatus {
        configured: false,
        reachable: false,
        client: None,
        app_key,
        balance_micros: 0,
        max_per_job_micros: 0,
        max_per_day_micros: 0,
        spent_today_micros: 0,
        reserved_micros: 0,
        rpc: String::new(),
        pot: String::new(),
        usdc: String::new(),
        chain_id: 0,
    }
}

/// The wallet to show: the one the last deposit came from, or the one known
/// from the last reading; where neither is known the chain has to be searched.
pub open spec fn known_client(deposited: Option<Seq<char>>, last: Option<Seq<char>>) -> Option<
    Seq<char>,
> {
    match deposited {
        Some(c) if !blank(c) => Some(c),
        _ => last,
    }
}

pub fn remembered_client(deposited: &Option<String>, last: &Option<PotStatus>) -> (r: Option<
    String,
>)
    ensures
        opt(r) == known_client(
            opt(*deposited),
            match *last {
                Some(s) => opt(s.client),
                None => None,
            },
        ),
{
    if let Some(c) = deposited {
        if !is_blank(c.as_str()) {
            return Some(c.clone());
        }
    }
    match last {
        Some(s) => copy_opt(&s.client),
        None => None,
    }
}

/// The last reading, where it was of the same wallet.
pub open spec fn same_wallet(last: Option<PotStatus>, client: Option<Seq<char>>) -> Option<
    PotStatus,
> {
    match last {
        Some(s) if opt(s.client) == client => Some(s),
        _ => None,
    }
}

/// What an account shows: what was read, or where the read failed what was
/// last read of the same wallet. A balance never drops to nothing because a
/// node did not answer.
pub open spec fn shown_account(
    client: Option<Seq<char>>,
    read: Option<Account>,
    last: Option<PotStatus>,
) -> Account {
    let nothing = Account { balance: 0, max_per_job: 0, max_per_day: 0, spent_today: 0 };
    match (client, read) {
        (None, _) => nothing,
        (Some(_), Some(a)) => a,
        (Some(_), None) => match same_wallet(last, client) {
            Some(s) => Account {
                balance: s.balance_micros,
                max_per_job: s.max_per_job_micros,
                max_per_day: s.max_per_day_micros,
                spent_today: s.spent_today_micros,
            },
            None => nothing,
        },
    }
}

/// What is shown as locked, by the same rule.
pub open spec fn shown_locked(
    client: Option<Seq<char>>,
    read: Option<u64>,
    last: Option<PotStatus>,
) -> u64 {
    match (client, read) {
        (None, _) => 0,
        (Some(_), Some(n)) => n,
        (Some(_), None) => match same_wallet(last, client) {
            Some(s) => s.reserved_micros,
            None => 0,
        },
    }
}

fn opt_same(a: &Option<String>, b: &Option<String>) -> (r: bool)
    ensures
        r == (opt(*a) == opt(*b)),
{
    match (a, b) {
        (Some(x), Some(y)) => same(x.as_str(), y.as_str()),
        (None, None) => true,
        _ => false,
    }
}

/// The wallet's status from what could be read. `read` is the account and
/// `locked` the total locked, where the chain gave them.
pub fn status(
    cfg: ChainConfig,
    app_key: String,
    reachable: bool,
    client: Option<String>,
    read: Option<Account>,
    locked: Option<u64>,
    last: &Option<PotStatus>,
) -> (r: PotStatus)
    ensures
        ({
            let a = shown_account(opt(client), read, *last);
            &&& r.configured
            &&& r.reachable == reachable
            &&& opt(r.client) == opt(client)
            &&& r.app_key@ == app_key@
            &&& r.balance_micros == a.balance
            &&& r.max_per_job_micros == a.max_per_job
            &&& r.max_per_day_micros == a.max_per_day
            &&& r.spent_today_micros == a.spent_today
            &&& r.reserved_micros == shown_locked(opt(client), locked, *last)
            &&& r.rpc@ == cfg.rpc@
            &&& r.pot@ == cfg.pot@
            &&& r.usdc@ == cfg.usdc@
            &&& r.chain_id == cfg.chain_id
        }),
{
    let mut a = Account { balance: 0, max_per_job: 0, max_per_day: 0, spent_today: 0 };
    let mut reserved: u64 = 0;
    if client.is_some() {
        match read {
            Some(x) => {
                a = x;
            },
            None => {
                if let Some(s) = last {
                    if opt_same(&s.client, &client) {
                        a = Account {
                            balance: s.balance_micros,
                            max_per_job: s.max_per_job_micros,
                            max_per_day: s.max_per_day_micros,
                            spent_today: s.spent_today_micros,
                        };
                    }
                }
            },
        }
        match locked {
            Some(n) => {
                reserved = n;
            },
            None => {
                if let Some(s) = last {
                    if opt_same(&s.client, &client) {
                        reserved = s.reserved_micros;
                    }
                }
            },
        }
    }
    PotStatus {
        configured: true,
        reachable,
        client,
        app_key,
        balance_micros: a.balance,
        max_per_job_micros: a.max_per_job,
        max_per_day_micros: a.max_per_day,
        spent_today_micros: a.spent_today,
        reserved_micros: reserved,
        rpc: cfg.rpc,
        pot: cfg.pot,
        usdc: cfg.usdc,
        chain_id: cfg.chain_id,
    }
}

/// Whether a reading is kept as the last good one: the chain answered, and so
/// did every read that was made of it. Without a wallet none is made.
pub fn worth_keeping(
    reachable: bool,
    client: &Option<String>,
    read: &Option<Account>,
    locked: &Option<u64>,
) -> (r: bool)
    ensures
        r == (reachable && (*client is None || (*read is Some && *locked is Some))),
{
    reachable && (client.is_none() || (read.is_some() && locked.is_some()))
}

/// A failed read shows the numbers of the last good one of the same wallet,
/// not zeroes: the balance, the two limits, what was spent today, and what is
/// locked.
pub proof fn law_failed_reads_keep_the_balance(last: PotStatus, client: Seq<char>)
    requires
        opt(last.client) == Some(client),
    ensures
        shown_account(Some(client), None, Some(last)) == (Account {
            balance: last.balance_micros,
            max_per_job: last.max_per_job_micros,
            max_per_day: last.max_per_day_micros,
            spent_today: last.spent_today_micros,
        }),
        shown_locked(Some(client), None, Some(last)) == last.reserved_micros,
{
}

/// What is locked in all, or nothing where any one read failed: a partial sum
/// would under-report it.
pub open spec fn sum_of(reads: Seq<Option<u64>>) -> Option<u64>
    decreases reads.len(),
{
    if reads.len() == 0 {
        Some(0u64)
    } else {
        match (sum_of(reads.drop_last()), reads.last()) {
            (Some(a), Some(b)) => Some(sat_add(a, b)),
            _ => None,
        }
    }
}

pub fn sum_locked(reads: &Vec<Option<u64>>) -> (r: Option<u64>)
    ensures
        r == sum_of(reads@),
{
    let mut total: Option<u64> = Some(0);
    let mut i: usize = 0;
    while i < reads.len()
        invariant
            i <= reads@.len(),
            total == sum_of(reads@.take(i as int)),
        decreases reads@.len() - i,
    {
        let ghost now = reads@.take(i as int + 1);
        assert(now.drop_last() =~= reads@.take(i as int));
        total = match (total, reads[i]) {
            (Some(a), Some(b)) => Some(plus(a, b)),
            _ => None,
        };
        i = i + 1;
    }
    assert(reads@.take(i as int) =~= reads@);
    total
}

/// An address that may hold a lock: the fee vault, the chain's own worker, a
/// known peer's payout, or one a ticket was signed for.
pub open spec fn may_hold_lock(
    a: Seq<char>,
    cfg: ChainConfig,
    peers: Seq<Peer>,
    tickets: Seq<(String, LatestTicket)>,
) -> bool {
    ||| !names_nobody(cfg.fee_vault@) && a == lowercased(cfg.fee_vault@)
    ||| !names_nobody(cfg.worker@) && a == lowercased(cfg.worker@)
    ||| exists|i: int| 0 <= i < peers.len() && pays_to(#[trigger] peers[i], a)
    ||| exists|i: int| 0 <= i < tickets.len() && a == "0x"@ + (#[trigger] tickets[i]).0@
}

/// A peer asked to be paid at this address.
pub open spec fn pays_to(p: Peer, a: Seq<char>) -> bool {
    match opt(p.payout) {
        Some(raw) => !names_nobody(raw) && a == lowercased(trimmed(raw)),
        None => false,
    }
}

fn add_once(out: &mut Vec<String>, a: String)
    requires
        texts(old(out)@).no_duplicates(),
    ensures
        texts(final(out)@).no_duplicates(),
        forall|x: Seq<char>|
            #[trigger] texts(final(out)@).contains(x) <==> texts(old(out)@).contains(x) || x == a@,
{
    let ghost before = out@;
    let mut i: usize = 0;
    while i < out.len()
        invariant
            i <= out@.len(),
            out@ == before,
            texts(before).no_duplicates(),
            forall|k: int| 0 <= k < i ==> (#[trigger] out@[k])@ != a@,
        decreases out@.len() - i,
    {
        if same(out[i].as_str(), a.as_str()) {
            assert(texts(out@)[i as int] == a@);
            return;
        }
        i = i + 1;
    }
    out.push(a);
    proof {
        lemma_texts_push(before, a);
        let old_texts = texts(before);
        let new_texts = texts(out@);
        assert forall|x: Seq<char>| #[trigger] new_texts.contains(x) <==> old_texts.contains(x) || x
            == a@ by {
            if old_texts.contains(x) {
                let k = choose|k: int| 0 <= k < old_texts.len() && old_texts[k] == x;
                assert(new_texts[k] == x);
            }
            if x == a@ {
                assert(new_texts[before.len() as int] == x);
            }
            if new_texts.contains(x) && x != a@ {
                let k = choose|k: int| 0 <= k < new_texts.len() && new_texts[k] == x;
                assert(old_texts[k] == x);
            }
        }
        assert forall|i: int, j: int|
            0 <= i < new_texts.len() && 0 <= j < new_texts.len() && i != j implies new_texts[i]
            != new_texts[j] by {
            if i < before.len() {
                assert(before[i]@ != a@);
            }
            if j < before.len() {
                assert(before[j]@ != a@);
            }
            if i < before.len() && j < before.len() {
                assert(old_texts[i] != old_texts[j]);
            }
        }
    }
}

/// Every address that may hold a lock, each once.
pub fn lock_addresses(cfg: &ChainConfig, peers: &Vec<Peer>, ledger: &Ledger) -> (r: Vec<String>)
    ensures
        texts(r@).no_duplicates(),
        forall|a: Seq<char>|
            #[trigger] texts(r@).contains(a) <==> may_hold_lock(
                a,
                *cfg,
                peers@,
                ledger.tickets@,
            ),
{
    let mut out: Vec<String> = Vec::new();
    assert(texts(out@) =~= seq![]);
    if !is_zero_addr(cfg.fee_vault.as_str()) {
        add_once(&mut out, to_lowercase(cfg.fee_vault.as_str()));
    }
    if !is_zero_addr(cfg.worker.as_str()) {
        add_once(&mut out, to_lowercase(cfg.worker.as_str()));
    }
    let mut i: usize = 0;
    while i < peers.len()
        invariant
            i <= peers@.len(),
            texts(out@).no_duplicates(),
            forall|a: Seq<char>|
                #[trigger] texts(out@).contains(a) <==> may_hold_lock(
                    a,
                    *cfg,
                    peers@.take(i as int),
                    seq![],
                ),
        decreases peers@.len() - i,
    {
        let ghost seen = peers@.take(i as int);
        let ghost now = peers@.take(i as int + 1);
        let ghost p = peers@[i as int];
        let ghost before = texts(out@);
        proof {
            reveal_strlit("");
            assert(trimmed(""@) =~= seq![]);
            assert(without_leading(seq![], "0x"@) =~= seq![]);
        }
        if let Ok(a) = named_payout(&peers[i].payout) {
            add_once(&mut out, to_lowercase(a.as_str()));
        }
        proof {
            assert(now[i as int] == p);
            assert forall|a: Seq<char>| #[trigger] texts(out@).contains(a) <==> may_hold_lock(
                a,
                *cfg,
                now,
                seq![],
            ) by {
                assert(before.contains(a) <==> may_hold_lock(a, *cfg, seen, seq![]));
                if exists|k: int| 0 <= k < seen.len() && pays_to(#[trigger] seen[k], a) {
                    let k = choose|k: int| 0 <= k < seen.len() && pays_to(#[trigger] seen[k], a);
                    assert(pays_to(now[k], a));
                }
                if exists|k: int| 0 <= k < now.len() && pays_to(#[trigger] now[k], a) {
                    let k = choose|k: int| 0 <= k < now.len() && pays_to(#[trigger] now[k], a);
                    if k < i {
                        assert(pays_to(seen[k], a));
                    }
                }
            }
        }
        i = i + 1;
    }
    assert(peers@.take(i as int) =~= peers@);
    let mut j: usize = 0;
    assert(ledger.tickets@.take(0) =~= seq![]);
    while j < ledger.tickets.len()
        invariant
            j <= ledger.tickets@.len(),
            texts(out@).no_duplicates(),
            forall|a: Seq<char>|
                #[trigger] texts(out@).contains(a) <==> may_hold_lock(
                    a,
                    *cfg,
                    peers@,
                    ledger.tickets@.take(j as int),
                ),
        decreases ledger.tickets@.len() - j,
    {
        let ghost seen = ledger.tickets@.take(j as int);
        let ghost now = ledger.tickets@.take(j as int + 1);
        let ghost before = texts(out@);
        add_once(&mut out, concat("0x", ledger.tickets[j].0.as_str()));
        proof {
            assert forall|a: Seq<char>| #[trigger] texts(out@).contains(a) <==> may_hold_lock(
                a,
                *cfg,
                peers@,
                now,
            ) by {
                assert(before.contains(a) <==> may_hold_lock(a, *cfg, peers@, seen));
                assert(now[j as int] == ledger.tickets@[j as int]);
                if exists|k: int| 0 <= k < seen.len() && a == "0x"@ + (#[trigger] seen[k]).0@ {
                    let k = choose|k: int|
                        0 <= k < seen.len() && a == "0x"@ + (#[trigger] seen[k]).0@;
                    assert(a == "0x"@ + now[k].0@);
                }
                if exists|k: int| 0 <= k < now.len() && a == "0x"@ + (#[trigger] now[k]).0@ {
                    let k = choose|k: int|
                        0 <= k < now.len() && a == "0x"@ + (#[trigger] now[k]).0@;
                    if k < j {
                        assert(a == "0x"@ + seen[k].0@);
                    }
                }
            }
        }
        j = j + 1;
    }
    assert(ledger.tickets@.take(j as int) =~= ledger.tickets@);
    out
}


// ------------------------------------------------------------------- check

/// Whether a job can be afforded, and if not, why and what to do.
#[derive(Debug, PartialEq)]
pub struct PotCheck {
    pub ready: bool,
    pub needs_fund: bool,
    pub reason: String,
    /// `ok`, `cap`, `empty` or `chain`.
    pub kind: String,
    pub cap_micros: u64,
}

/// What a check says.
pub struct Verdict {
    pub ready: bool,
    pub needs_fund: bool,
    pub reason: Seq<char>,
    pub kind: Seq<char>,
    pub cap: u64,
}

impl View for PotCheck {
    type V = Verdict;

    open spec fn view(&self) -> Verdict {
        Verdict {
            ready: self.ready,
            needs_fund: self.needs_fund,
            reason: self.reason@,
            kind: self.kind@,
            cap: self.cap_micros,
        }
    }
}

/// The pot's answer to a priced job that could cost `worst`. The texts are the
/// limit, the free balance and the worst case in dollars.
pub open spec fn verdict(
    st: PotStatus,
    worst: u64,
    cap_text: Seq<char>,
    free_text: Seq<char>,
    worst_text: Seq<char>,
) -> Verdict {
    let cap = cap_of(st.max_per_job_micros);
    if !st.configured || !st.reachable {
        Verdict {
            ready: false,
            needs_fund: true,
            reason: "Can't reach Base. Check the network, then deposit USDC in MetaMask."@,
            kind: "chain"@,
            cap,
        }
    } else if st.client is None || st.balance_micros == 0 {
        Verdict {
            ready: false,
            needs_fund: true,
            reason: "This provider charges. Fund your pot once to continue."@,
            kind: "empty"@,
            cap,
        }
    } else if worst > cap {
        Verdict {
            ready: false,
            needs_fund: false,
            reason: "This reply could cost more than your $"@ + cap_text
                + " limit for a single job. Raise that limit in your pot."@,
            kind: "cap"@,
            cap,
        }
    } else if worst > sat_add(st.balance_micros, st.reserved_micros) {
        Verdict {
            ready: false,
            needs_fund: true,
            reason: "Your pot does not cover this job. You have $"@ + free_text
                + " free; this reply could cost up to $"@ + worst_text + "."@,
            kind: "empty"@,
            cap,
        }
    } else {
        Verdict { ready: true, needs_fund: false, reason: seq![], kind: "ok"@, cap }
    }
}

/// The answer to a job that costs nothing.
pub open spec fn free_verdict() -> Verdict {
    Verdict { ready: true, needs_fund: false, reason: seq![], kind: "ok"@, cap: 0 }
}

/// A job that costs nothing needs no pot.
pub fn check_free() -> (r: PotCheck)
    ensures
        r@ == free_verdict(),
{
    PotCheck {
        ready: true,
        needs_fund: false,
        reason: String::new(),
        kind: "ok".to_string(),
        cap_micros: 0,
    }
}

/// Whether the pot covers a job at a price in millionths. The texts are the
/// limit, the free balance and the worst case in dollars.
pub fn check(
    st: &PotStatus,
    price: u64,
    unpriced: bool,
    kind: JobKind,
    min_tokens: u32,
    cap_text: &str,
    free_text: &str,
    worst_text: &str,
) -> (r: PotCheck)
    ensures
        r@ == (if unpriced || price == 0 {
            free_verdict()
        } else {
            verdict(
                *st,
                worst_case(price, kind, min_tokens as u64),
                cap_text@,
                free_text@,
                worst_text@,
            )
        }),
{
    if unpriced || price == 0 {
        return check_free();
    }
    let cap: u64 = job_limit(st.max_per_job_micros);
    if !st.configured || !st.reachable {
        return PotCheck {
            ready: false,
            needs_fund: true,
            reason: "Can't reach Base. Check the network, then deposit USDC in MetaMask.".to_string(),
            kind: "chain".to_string(),
            cap_micros: cap,
        };
    }
    if st.client.is_none() || st.balance_micros == 0 {
        return PotCheck {
            ready: false,
            needs_fund: true,
            reason: "This provider charges. Fund your pot once to continue.".to_string(),
            kind: "empty".to_string(),
            cap_micros: cap,
        };
    }
    let worst: u64 = worst_case_micros(price, kind, min_tokens);
    if worst > cap {
        return PotCheck {
            ready: false,
            needs_fund: false,
            reason: concat3(
                "This reply could cost more than your $",
                cap_text,
                " limit for a single job. Raise that limit in your pot.",
            ),
            kind: "cap".to_string(),
            cap_micros: cap,
        };
    }
    if worst > plus(st.balance_micros, st.reserved_micros) {
        let mut reason = concat3(
            "Your pot does not cover this job. You have $",
            free_text,
            " free; this reply could cost up to $",
        );
        reason.append(worst_text);
        reason.append(".");
        return PotCheck {
            ready: false,
            needs_fund: true,
            reason,
            kind: "empty".to_string(),
            cap_micros: cap,
        };
    }
    PotCheck {
        ready: true,
        needs_fund: false,
        reason: String::new(),
        kind: "ok".to_string(),
        cap_micros: cap,
    }
}

/// A pot that is ready covers the worst case, within the limit for a job.
pub proof fn law_ready_means_covered(
    st: PotStatus,
    worst: u64,
    cap_text: Seq<char>,
    free_text: Seq<char>,
    worst_text: Seq<char>,
)
    requires
        verdict(st, worst, cap_text, free_text, worst_text).ready,
    ensures
        st.configured && st.reachable && st.client is Some && st.balance_micros > 0,
        worst <= cap_of(st.max_per_job_micros),
        worst <= st.balance_micros + st.reserved_micros,
{
}

// ---------------------------------------------------------------- deposits

/// A deposit as the wallet screen lists it.
#[derive(Debug, PartialEq)]
pub struct Deposit {
    pub tx_hash: String,
    pub amount_micros: u64,
    pub max_per_job_micros: u64,
    pub max_per_day_micros: u64,
    pub block: u64,
    /// Seconds since 1970, zero when unknown.
    pub at: i64,
    /// Where to look at it, on chains that have such a place.
    pub url: Option<String>,
}

/// What a listed deposit says.
pub struct Listed {
    pub tx_hash: Seq<char>,
    pub amount: u64,
    pub max_per_job: u64,
    pub max_per_day: u64,
    pub block: u64,
    pub at: i64,
    pub url: Option<Seq<char>>,
}

impl View for Deposit {
    type V = Listed;

    open spec fn view(&self) -> Listed {
        Listed {
            tx_hash: self.tx_hash@,
            amount: self.amount_micros,
            max_per_job: self.max_per_job_micros,
            max_per_day: self.max_per_day_micros,
            block: self.block,
            at: self.at,
            url: opt(self.url),
        }
    }
}

pub open spec fn listed_deposits(v: Seq<Deposit>) -> Seq<Listed> {
    Seq::new(v.len(), |i: int| v[i]@)
}

/// A deposit on this chain, or on one that was not written down.
pub open spec fn on_chain(d: StoredDeposit, chain_id: u64) -> bool {
    chain_id == 0 || d.chain_id == 0 || d.chain_id == chain_id
}

pub open spec fn listing_of(d: StoredDeposit, chain_id: u64) -> Listed {
    Listed {
        tx_hash: d.tx_hash@,
        amount: d.amount_micros,
        max_per_job: d.max_per_job_micros,
        max_per_day: d.max_per_day_micros,
        block: d.block,
        at: d.at,
        url: explorer_link(
            if d.chain_id != 0 {
                d.chain_id
            } else {
                chain_id
            },
            d.tx_hash@,
        ),
    }
}

pub open spec fn deposits_on(all: Seq<StoredDeposit>, chain_id: u64) -> Seq<Listed>
    decreases all.len(),
{
    if all.len() == 0 {
        seq![]
    } else {
        let rest = deposits_on(all.drop_last(), chain_id);
        if on_chain(all.last(), chain_id) {
            rest.push(listing_of(all.last(), chain_id))
        } else {
            rest
        }
    }
}

/// The deposits to list, in the order they come in. `chain_id` is zero when
/// no chain is configured.
pub fn deposits(rows: &Vec<&StoredDeposit>, chain_id: u64) -> (r: Vec<Deposit>)
    ensures
        listed_deposits(r@) == deposits_on(plain(rows@), chain_id),
{
    let ghost all = plain(rows@);
    let mut out: Vec<Deposit> = Vec::new();
    let mut i: usize = 0;
    assert(listed_deposits(out@) =~= deposits_on(all.take(0), chain_id));
    while i < rows.len()
        invariant
            i <= rows@.len(),
            all == plain(rows@),
            listed_deposits(out@) == deposits_on(all.take(i as int), chain_id),
        decreases rows@.len() - i,
    {
        let ghost now = all.take(i as int + 1);
        assert(now.drop_last() =~= all.take(i as int));
        let d = rows[i];
        assert(now.last() == *d);
        if chain_id == 0 || d.chain_id == 0 || d.chain_id == chain_id {
            let id: u64 = if d.chain_id != 0 {
                d.chain_id
            } else {
                chain_id
            };
            let shown = Deposit {
                tx_hash: d.tx_hash.clone(),
                amount_micros: d.amount_micros,
                max_per_job_micros: d.max_per_job_micros,
                max_per_day_micros: d.max_per_day_micros,
                block: d.block,
                at: d.at,
                url: explorer_tx(id, d.tx_hash.as_str()),
            };
            let ghost before = out@;
            out.push(shown);
            assert(listed_deposits(out@) =~= listed_deposits(before).push(shown@));
        }
        i = i + 1;
    }
    assert(all.take(i as int) =~= all);
    out
}

/// A deposit as the wallet page reports it.
#[derive(Debug, PartialEq)]
pub struct DepositBody {
    pub tx_hash: String,
    pub amount_micros: u64,
    pub max_per_job_micros: u64,
    pub max_per_day_micros: u64,
    pub block: u64,
    pub chain_id: u64,
    pub client: String,
}

/// What to keep of a reported deposit; one without a transaction is refused.
pub fn save_deposit(body: DepositBody, now: i64) -> (r: Result<StoredDeposit, AppError>)
    ensures
        match r {
            Ok(d) => {
                &&& !blank(body.tx_hash@)
                &&& d.tx_hash@ == trimmed(body.tx_hash@)
                &&& d.amount_micros == body.amount_micros
                &&& d.max_per_job_micros == body.max_per_job_micros
                &&& d.max_per_day_micros == body.max_per_day_micros
                &&& d.block == body.block
                &&& d.at == now
                &&& d.chain_id == body.chain_id
                &&& d.client@ == body.client@
            },
            Err(e) => blank(body.tx_hash@) && e@ == Trouble::Invalid("missing tx hash"@),
        },
{
    let tx_hash = trim(body.tx_hash.as_str());
    if tx_hash.as_str().is_empty() {
        return Err(AppError::Invalid("missing tx hash".to_string()));
    }
    Ok(
        StoredDeposit {
            tx_hash,
            amount_micros: body.amount_micros,
            max_per_job_micros: body.max_per_job_micros,
            max_per_day_micros: body.max_per_day_micros,
            block: body.block,
            at: now,
            chain_id: body.chain_id,
            client: body.client,
        },
    )
}

// ------------------------------------------------------------- saved tickets

/// A ticket as it is kept on disk.
#[derive(Debug, PartialEq)]
pub struct DiskTicket {
    pub ticket: SpendTicket,
    pub sig: String,
    pub on_chain_paid: u64,
}

/// The signature a kept ticket carries, when it is one: 65 bytes in hex.
pub open spec fn kept_signature(sig: Seq<char>) -> Option<Seq<u8>> {
    match unhexed(without_leading(sig, "0x"@)) {
        Some(b) if b.len() == 65 => Some(b),
        _ => None,
    }
}

/// Takes a kept ticket back into the book. One whose signature does not read
/// is left out.
pub fn restore(ledger: &mut Ledger, row: DiskTicket)
    requires
        old(ledger).wf(),
    ensures
        final(ledger).wf(),
        final(ledger).jobs@ == old(ledger).jobs@,
        match kept_signature(row.sig@) {
            Some(b) => {
                &&& final(ledger).ticket(row.ticket.worker_payout@) matches Some(t) && t.ticket
                    == row.ticket && t.sig@ == b && t.on_chain_paid == row.on_chain_paid
                &&& forall|other: Seq<char>|
                    key_of(other) != key_of(row.ticket.worker_payout@) ==> final(ledger).ticket(
                        other,
                    ) == #[trigger] old(ledger).ticket(other)
            },
            None => final(ledger).tickets@ == old(ledger).tickets@,
        },
{
    let sig = match hex_decode(trim_start_matches(row.sig.as_str(), "0x").as_str()) {
        Ok(b) => b,
        Err(_) => {
            return;
        },
    };
    if sig.len() != 65 {
        return;
    }
    let worker = row.ticket.worker_payout.clone();
    ledger.keep_ticket(
        worker.as_str(),
        LatestTicket { ticket: row.ticket, sig, on_chain_paid: row.on_chain_paid },
    );
}

/// The last kept ticket for a worker that reads.
pub open spec fn kept_for(rows: Seq<DiskTicket>, worker: Seq<char>) -> Option<DiskTicket>
    decreases rows.len(),
{
    if rows.len() == 0 {
        None
    } else {
        let d = rows.last();
        if kept_signature(d.sig@) is Some && key_of(d.ticket.worker_payout@) == key_of(worker) {
            Some(d)
        } else {
            kept_for(rows.drop_last(), worker)
        }
    }
}

/// A ticket in the book is the one that was kept.
pub open spec fn is_kept(t: Option<LatestTicket>, d: Option<DiskTicket>) -> bool {
    match (t, d) {
        (Some(t), Some(d)) => {
            &&& t.ticket == d.ticket
            &&& Some(t.sig@) == kept_signature(d.sig@)
            &&& t.on_chain_paid == d.on_chain_paid
        },
        (None, None) => true,
        _ => false,
    }
}

/// Starts from the tickets kept on disk: the book, and whether something in
/// it has yet to reach the chain.
pub fn boot(rows: Vec<DiskTicket>) -> (r: (Ledger, bool))
    ensures
        r.0.wf(),
        r.0.jobs@.len() == 0,
        forall|w: Seq<char>| is_kept(#[trigger] r.0.ticket(w), kept_for(rows@, w)),
        r.1 == exists|i: int|
            0 <= i < r.0.tickets@.len() && owed(
                #[trigger] r.0.tickets@[i].1,
            ),
{
    let ghost all = rows@;
    let total: usize = rows.len();
    let mut ledger = Ledger::new();
    let mut rest = rows;
    let mut n: usize = 0;
    while rest.len() > 0
        invariant
            ledger.wf(),
            ledger.jobs@.len() == 0,
            all == rows@,
            n + rest@.len() == total,
            total == all.len(),
            rest@ == all.skip(n as int),
            forall|w: Seq<char>|
                is_kept(#[trigger] ledger.ticket(w), kept_for(all.take(n as int), w)),
        decreases rest@.len(),
    {
        let ghost seen = all.take(n as int);
        let ghost now = all.take(n as int + 1);
        let ghost before = ledger;
        let row = rest.remove(0);
        assert(row == all[n as int]);
        assert(rest@ =~= all.skip(n as int + 1));
        restore(&mut ledger, row);
        proof {
            assert(now.last() == row);
            assert(now.drop_last() =~= seen);
            assert forall|w: Seq<char>| is_kept(#[trigger] ledger.ticket(w), kept_for(now, w)) by {
                assert(is_kept(before.ticket(w), kept_for(seen, w)));
                if key_of(w) == key_of(row.ticket.worker_payout@) {
                    assert(ledger.ticket(w) == ledger.ticket(row.ticket.worker_payout@));
                }
            }
        }
        n = n + 1;
    }
    assert(all.take(n as int) =~= all);
    let pending = ledger.has_pending();
    (ledger, pending)
}

// -------------------------------------------------------------- wallet page

/// Colons and slashes written out.
pub open spec fn url_part(s: Seq<char>) -> Seq<char>
    decreases s.len(),
{
    if s.len() == 0 {
        seq![]
    } else {
        let rest = url_part(s.drop_last());
        if s.last() == ':' {
            rest + "%3A"@
        } else if s.last() == '/' {
            rest + "%2F"@
        } else {
            rest.push(s.last())
        }
    }
}

pub fn urlencoding_lite(s: &str) -> (r: String)
    ensures
        r@ == url_part(s@),
{
    let v = chars_of(s);
    let mut r = String::new();
    let mut i: usize = 0;
    assert(r@ =~= url_part(v@.take(0)));
    while i < v.len()
        invariant
            i <= v@.len(),
            r@ == url_part(v@.take(i as int)),
        decreases v@.len() - i,
    {
        let ghost now = v@.take(i as int + 1);
        assert(now.drop_last() =~= v@.take(i as int));
        if v[i] == ':' {
            r.append("%3A");
        } else if v[i] == '/' {
            r.append("%2F");
        } else {
            r.push(v[i]);
        }
        i = i + 1;
    }
    assert(v@.take(i as int) =~= v@);
    r
}

/// The wallet page's address, with the token that opens it.
pub open spec fn fund_link(cfg: ChainConfig, token: Seq<char>, app_key: Seq<char>) -> Seq<char> {
    "http://127.0.0.1:"@ + decimal(FUND_PORT as nat) + "/?t="@ + token + "&rpc="@ + url_part(
        cfg.rpc@,
    ) + "&pot="@ + cfg.pot@ + "&usdc="@ + cfg.usdc@ + "&appKey="@ + app_key + "&chainId="@
        + decimal(cfg.chain_id as nat) + "&worker="@ + cfg.worker@
}

pub fn fund_url(cfg: &Option<ChainConfig>, token: &str, app_key: &str) -> (r: Result<
    String,
    AppError,
>)
    ensures
        match r {
            Ok(u) => *cfg matches Some(c) && u@ == fund_link(c, token@, app_key@),
            Err(e) => *cfg is None && e@ == Trouble::Invalid(
                "settlement is not configured on this build"@,
            ),
        },
{
    match cfg {
        None => Err(
            AppError::Invalid("settlement is not configured on this build".to_string()),
        ),
        Some(c) => {
            let mut u = concat3("http://127.0.0.1:", decimal_of(FUND_PORT as u64).as_str(), "/?t=");
            u.append(token);
            u.append("&rpc=");
            u.append(urlencoding_lite(c.rpc.as_str()).as_str());
            u.append("&pot=");
            u.append(c.pot.as_str());
            u.append("&usdc=");
            u.append(c.usdc.as_str());
            u.append("&appKey=");
            u.append(app_key);
            u.append("&chainId=");
            u.append(decimal_of(c.chain_id).as_str());
            u.append("&worker=");
            u.append(c.worker.as_str());
            Ok(u)
        },
    }
}

/// What a request to the wallet page carries.
#[derive(Debug, PartialEq)]
pub struct FundAuth {
    pub t: String,
}

impl FundAuth {
    /// Whether it carries the token of this launch.
    pub fn ok(&self, token: &str) -> (r: bool)
        ensures
            r == (self.t@.len() > 0 && self.t@ == token@),
    {
        !self.t.as_str().is_empty() && same(self.t.as_str(), token)
    }
}

} // verus!
