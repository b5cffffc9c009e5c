//! Reading what the chain answers, and writing what it is asked.
use vstd::prelude::*;

use crate::codec::{hex_complaint, hex_decode, hex_encode, hexed, unhexed};
use crate::error::{AppError, Trouble};
use crate::json::{json_written, print, Json, Tree};
use crate::pot::ledger::{ChannelSnap, SpendTicket};
use crate::protocol::opt;
use crate::text::{
    byte_len, byte_piece, bytes_in, concat, contains, has_prefix, has_text, hex_number,
    hex_number_of, parse_number, parsed, piece, starts_with, texts, trim_start_matches,
    without_leading,
};

verus! {

broadcast use vstd::string::group_string_axioms;

// ------------------------------------------------------------------- words

/// A number in a hex word; zero when it does not fit or is none.
pub open spec fn word_value(word: Seq<char>) -> u64 {
    match parsed(without_leading(word, "0"@), 16) {
        Some(n) => n,
        None => 0,
    }
}

pub fn read_u64(word: &str) -> (r: u64)
    ensures
        r == word_value(word@),
{
    match parse_number(trim_start_matches(word, "0").as_str(), 16) {
        Some(n) => n,
        None => 0,
    }
}

/// The n-th word of an answer, 64 bytes each; zero where a character stands
/// across its edge.
pub open spec fn word_at(hex: Seq<char>, n: int) -> u64 {
    match piece(hex, 64 * n, 64 * n + 64) {
        Some(word) => word_value(word),
        None => 0,
    }
}

fn read_word(hex: &str, n: usize) -> (r: u64)
    requires
        n < 100,
    ensures
        r == word_at(hex@, n as int),
{
    match byte_piece(hex, 64 * n, 64 * n + 64) {
        Some(word) => read_u64(word.as_str()),
        None => 0,
    }
}

/// The digits of an answer.
pub open spec fn digits_of(answer: Option<Seq<char>>) -> Seq<char> {
    match answer {
        Some(s) => without_leading(s, "0x"@),
        None => without_leading("0x"@, "0x"@),
    }
}

fn answer_digits(answer: &Json) -> (r: String)
    ensures
        r@ == digits_of(answer@.text()),
{
    match answer.as_text() {
        Some(s) => trim_start_matches(s.as_str(), "0x"),
        None => trim_start_matches("0x", "0x"),
    }
}

/// An account on the pot: what is free, the limits, what was spent today.
#[derive(Debug, Clone, Copy, PartialEq, Eq, Structural)]
pub struct Account {
    pub balance: u64,
    pub max_per_job: u64,
    pub max_per_day: u64,
    pub spent_today: u64,
}

pub open spec fn account_in(answer: Tree) -> Account {
    let hex = digits_of(answer.text());
    if byte_len(hex) < 256 {
        Account { balance: 0, max_per_job: 0, max_per_day: 0, spent_today: 0 }
    } else {
        Account {
            balance: word_at(hex, 0),
            max_per_job: word_at(hex, 1),
            max_per_day: word_at(hex, 2),
            spent_today: word_at(hex, 3),
        }
    }
}

/// Reads an account from the chain's answer; a short one is an empty account.
pub fn account(answer: &Json) -> (r: Account)
    ensures
        r == account_in(answer@),
{
    let hex = answer_digits(answer);
    if bytes_in(hex.as_str()) < 256 {
        return Account { balance: 0, max_per_job: 0, max_per_day: 0, spent_today: 0 };
    }
    Account {
        balance: read_word(hex.as_str(), 0),
        max_per_job: read_word(hex.as_str(), 1),
        max_per_day: read_word(hex.as_str(), 2),
        spent_today: read_word(hex.as_str(), 3),
    }
}

pub open spec fn channel_in(answer: Tree) -> ChannelSnap {
    let hex = digits_of(answer.text());
    if byte_len(hex) < 384 {
        ChannelSnap { reserved: 0, paid: 0, earned: 0, max_per_job: 0 }
    } else {
        ChannelSnap {
            reserved: word_at(hex, 0),
            paid: word_at(hex, 1),
            earned: word_at(hex, 5),
            max_per_job: if byte_len(hex) >= 448 {
                word_at(hex, 6)
            } else {
                0
            },
        }
    }
}

/// Reads a channel from the chain's answer; a short one is no channel.
pub fn channel(answer: &Json) -> (r: ChannelSnap)
    ensures
        r == channel_in(answer@),
{
    let hex = answer_digits(answer);
    if bytes_in(hex.as_str()) < 384 {
        return ChannelSnap::default();
    }
    ChannelSnap {
        reserved: read_word(hex.as_str(), 0),
        paid: read_word(hex.as_str(), 1),
        earned: read_word(hex.as_str(), 5),
        max_per_job: if bytes_in(hex.as_str()) >= 448 {
            read_word(hex.as_str(), 6)
        } else {
            0
        },
    }
}

/// Reads what is locked from the chain's answer.
pub fn locked(answer: &Json) -> (r: u64)
    ensures
        r == (if byte_len(digits_of(answer@.text())) < 64 {
            0
        } else {
            word_at(digits_of(answer@.text()), 0)
        }),
{
    let hex = answer_digits(answer);
    if bytes_in(hex.as_str()) < 64 {
        return 0;
    }
    read_word(hex.as_str(), 0)
}

/// The height the chain says it has; zero when it says none.
pub fn head_block(answer: &Json) -> (r: u64)
    ensures
        r == (match parsed(
            match answer@.text() {
                Some(s) => without_leading(s, "0x"@),
                None => without_leading("0x0"@, "0x"@),
            },
            16,
        ) {
            Some(n) => n,
            None => 0,
        }),
{
    let digits = match answer.as_text() {
        Some(s) => trim_start_matches(s.as_str(), "0x"),
        None => trim_start_matches("0x0", "0x"),
    };
    match parse_number(digits.as_str(), 16) {
        Some(n) => n,
        None => 0,
    }
}

// ------------------------------------------------------------------ writing

/// A run of zero bytes.
pub open spec fn zeros(n: nat) -> Seq<u8> {
    Seq::new(n, |i: int| 0u8)
}

/// An address as a word, or what is wrong with it.
pub open spec fn address_word(addr: Seq<char>) -> Result<Seq<u8>, Seq<char>> {
    let raw = without_leading(addr, "0x"@);
    match unhexed(raw) {
        None => Err(hex_complaint(raw)),
        Some(b) => if b.len() == 20 {
            Ok(zeros(12) + b)
        } else {
            Err("not an address: "@ + addr)
        },
    }
}

pub fn word_address(addr: &str) -> (r: Result<Vec<u8>, AppError>)
    ensures
        match r {
            Ok(v) => address_word(addr@) == Ok::<Seq<u8>, Seq<char>>(v@) && v@.len() == 32,
            Err(e) => address_word(addr@) is Err && e@ == Trouble::Invalid(
                address_word(addr@)->Err_0,
            ),
        },
{
    let raw = trim_start_matches(addr, "0x");
    let mut bytes = match hex_decode(raw.as_str()) {
        Ok(b) => b,
        Err(why) => {
            return Err(AppError::Invalid(why));
        },
    };
    if bytes.len() != 20 {
        return Err(AppError::Invalid(concat("not an address: ", addr)));
    }
    let mut word: Vec<u8> = Vec::new();
    while word.len() < 12
        invariant
            word@.len() <= 12,
            word@ == zeros(word@.len()),
        decreases 12 - word@.len(),
    {
        let ghost before = word@;
        word.push(0);
        assert(word@ =~= zeros(word@.len()));
    }
    word.append(&mut bytes);
    Ok(word)
}

/// The eight bytes of a number, most significant first.
pub open spec fn be_bytes(v: u64) -> Seq<u8> {
    seq![
        (v / 0x100000000000000) as u8,
        (v / 0x1000000000000 % 256) as u8,
        (v / 0x10000000000 % 256) as u8,
        (v / 0x100000000 % 256) as u8,
        (v / 0x1000000 % 256) as u8,
        (v / 0x10000 % 256) as u8,
        (v / 0x100 % 256) as u8,
        (v % 256) as u8,
    ]
}

pub fn push_be(out: &mut Vec<u8>, v: u64)
    ensures
        final(out)@ == old(out)@ + be_bytes(v),
{
    let ghost before = out@;
    out.push((v / 0x100000000000000) as u8);
    out.push((v / 0x1000000000000 % 256) as u8);
    out.push((v / 0x10000000000 % 256) as u8);
    out.push((v / 0x100000000 % 256) as u8);
    out.push((v / 0x1000000 % 256) as u8);
    out.push((v / 0x10000 % 256) as u8);
    out.push((v / 0x100 % 256) as u8);
    out.push((v % 256) as u8);
    assert(out@ =~= before + be_bytes(v));
}

/// A number as a word.
pub open spec fn number_word(v: u64) -> Seq<u8> {
    zeros(24) + be_bytes(v)
}

fn push_zeros(out: &mut Vec<u8>, n: usize)
    ensures
        final(out)@ == old(out)@ + zeros(n as nat),
{
    let ghost before = out@;
    let mut i: usize = 0;
    assert(before + zeros(0) =~= before);
    while i < n
        invariant
            i <= n,
            out@ == before + zeros(i as nat),
        decreases n - i,
    {
        out.push(0);
        assert(before + zeros(i as nat + 1) =~= (before + zeros(i as nat)).push(0u8));
        i = i + 1;
    }
}

pub fn word_u256(v: u64) -> (r: Vec<u8>)
    ensures
        r@ == number_word(v),
        r@.len() == 32,
{
    let mut w: Vec<u8> = Vec::new();
    push_zeros(&mut w, 24);
    push_be(&mut w, v);
    assert(w@ =~= number_word(v));
    w
}

/// How many zero bytes fill up a word.
pub open spec fn filling(n: int) -> nat {
    ((32 - n % 32) % 32) as nat
}

/// The bytes of a call that carries a signature: the selector, both
/// addresses, the amount, the deadline, and the signature at the end.
pub open spec fn app_call(
    selector: Seq<u8>,
    client: Seq<u8>,
    worker: Seq<u8>,
    amount: u64,
    deadline: u64,
    sig: Seq<u8>,
) -> Seq<u8> {
    selector + client + worker + number_word(amount) + number_word(deadline) + number_word(160)
        + number_word(sig.len() as u64) + sig + zeros(filling(sig.len() as int))
}

fn push_all(out: &mut Vec<u8>, more: &Vec<u8>)
    ensures
        final(out)@ == old(out)@ + more@,
{
    let ghost before = out@;
    let mut i: usize = 0;
    assert(before + more@.take(0) =~= before);
    while i < more.len()
        invariant
            i <= more@.len(),
            out@ == before + more@.take(i as int),
        decreases more@.len() - i,
    {
        out.push(more[i]);
        assert(before + more@.take(i as int + 1) =~= (before + more@.take(i as int)).push(
            more@[i as int],
        ));
        i = i + 1;
    }
    assert(more@.take(i as int) =~= more@);
}

/// Encodes a call that carries a signature; an address that is none refuses
/// the whole call.
pub fn encode_app_call(
    selector: &Vec<u8>,
    client: &str,
    worker: &str,
    amount: u64,
    deadline: u64,
    sig: &Vec<u8>,
) -> (r: Result<Vec<u8>, AppError>)
    ensures
        match r {
            Ok(v) => {
                &&& address_word(client@) is Ok && address_word(worker@) is Ok
                &&& v@ == app_call(
                    selector@,
                    address_word(client@)->Ok_0,
                    address_word(worker@)->Ok_0,
                    amount,
                    deadline,
                    sig@,
                )
            },
            Err(e) => {
                &&& address_word(client@) is Err || address_word(worker@) is Err
                &&& e@ == Trouble::Invalid(
                    if address_word(client@) is Err {
                        address_word(client@)->Err_0
                    } else {
                        address_word(worker@)->Err_0
                    },
                )
            },
        },
{
    let c = match word_address(client) {
        Ok(w) => w,
        Err(e) => {
            return Err(e);
        },
    };
    let w = match word_address(worker) {
        Ok(w) => w,
        Err(e) => {
            return Err(e);
        },
    };
    let mut out: Vec<u8> = Vec::new();
    push_all(&mut out, selector);
    assert(out@ =~= selector@);
    push_all(&mut out, &c);
    push_all(&mut out, &w);
    push_all(&mut out, &word_u256(amount));
    push_all(&mut out, &word_u256(deadline));
    push_all(&mut out, &word_u256(160));
    push_all(&mut out, &word_u256(sig.len() as u64));
    push_all(&mut out, sig);
    let over: usize = sig.len() % 32;
    push_zeros(&mut out, (32 - over) % 32);
    Ok(out)
}

/// Encodes the settling of a ticket, given the selector of `settle`.
pub fn encode_settle(selector: &Vec<u8>, ticket: &SpendTicket, sig: &Vec<u8>) -> (r: Result<
    Vec<u8>,
    AppError,
>)
    ensures
        match r {
            Ok(v) => {
                &&& address_word(ticket.client@) is Ok && address_word(ticket.worker_payout@) is Ok
                &&& v@ == app_call(
                    selector@,
                    address_word(ticket.client@)->Ok_0,
                    address_word(ticket.worker_payout@)->Ok_0,
                    ticket.cumulative,
                    ticket.deadline,
                    sig@,
                )
            },
            Err(e) => match address_word(ticket.client@) {
                Err(why) => e@ == Trouble::Invalid(why),
                Ok(_) => address_word(ticket.worker_payout@) matches Err(why) && e@
                    == Trouble::Invalid(why),
            },
        },
{
    encode_app_call(
        selector,
        ticket.client.as_str(),
        ticket.worker_payout.as_str(),
        ticket.cumulative,
        ticket.deadline,
        sig,
    )
}

proof fn lemma_filling(n: int)
    requires
        n >= 0,
    ensures
        (n + filling(n)) % 32 == 0,
{
}

/// A call's data is whole words after its selector.
pub proof fn law_calls_are_whole_words(
    selector: Seq<u8>,
    client: Seq<u8>,
    worker: Seq<u8>,
    amount: u64,
    deadline: u64,
    sig: Seq<u8>,
)
    requires
        selector.len() == 4,
        client.len() == 32,
        worker.len() == 32,
    ensures
        (app_call(selector, client, worker, amount, deadline, sig).len() - 4) % 32 == 0,
{
    let n = sig.len() as int;
    let whole: int = n + filling(n);
    lemma_filling(n);
    assert(number_word(amount).len() == 32);
    assert(number_word(deadline).len() == 32);
    assert(number_word(160).len() == 32);
    assert(number_word(n as u64).len() == 32);
    assert(app_call(selector, client, worker, amount, deadline, sig).len() == 4 + 192 + whole);
    assert((192 + whole) % 32 == 0) by (nonlinear_arith)
        requires
            whole % 32 == 0,
    ;
}

/// The call of a reader that takes one address.
pub fn encode_account_call(selector: &Vec<u8>, client: &str) -> (r: Result<Vec<u8>, AppError>)
    ensures
        match r {
            Ok(v) => address_word(client@) matches Ok(w) && v@ == selector@ + w,
            Err(e) => address_word(client@) matches Err(why) && e@ == Trouble::Invalid(why),
        },
{
    let mut word = match word_address(client) {
        Ok(w) => w,
        Err(e) => {
            return Err(e);
        },
    };
    let mut data: Vec<u8> = Vec::new();
    data.extend_from_slice(selector.as_slice());
    assert(data@ =~= selector@);
    data.append(&mut word);
    Ok(data)
}

/// The call of a reader that takes a client and a worker.
pub fn encode_channel_call(selector: &Vec<u8>, client: &str, worker: &str) -> (r: Result<
    Vec<u8>,
    AppError,
>)
    ensures
        match r {
            Ok(v) => (address_word(client@), address_word(worker@)) matches (Ok(a), Ok(b)) && v@
                == selector@ + a + b,
            Err(e) => match address_word(client@) {
                Err(why) => e@ == Trouble::Invalid(why),
                Ok(_) => address_word(worker@) matches Err(why) && e@ == Trouble::Invalid(why),
            },
        },
{
    let mut data = match encode_account_call(selector, client) {
        Ok(d) => d,
        Err(e) => {
            return Err(e);
        },
    };
    let mut word = match word_address(worker) {
        Ok(w) => w,
        Err(e) => {
            return Err(e);
        },
    };
    data.append(&mut word);
    Ok(data)
}

/// What a node is asked to read: a call to the pot, as things stand.
pub fn call_params(pot: &str, data: &Vec<u8>) -> (r: Json)
    ensures
        r@ == Tree::List(
            seq![
                Tree::record().with("to"@, Tree::Text(pot@)).with(
                    "data"@,
                    Tree::Text("0x"@ + hexed(data@)),
                ),
                Tree::Text("latest"@),
            ],
        ),
{
    let call = Json::record().with("to", Json::text(pot)).with(
        "data",
        Json::text(concat("0x", hex_encode(data.as_slice()).as_str()).as_str()),
    );
    let r = Json::empty().and(call).and(Json::text("latest"));
    assert(r@->List_0 =~= seq![call@, Tree::Text("latest"@)]);
    r
}

// -------------------------------------------------------------------- logs

/// Who deposited, and for which app key.
#[derive(Debug, PartialEq)]
pub struct DepositLog {
    pub client: String,
    pub app_key: String,
}

/// The n-th text of a list under a field.
pub open spec fn nth_text(log: Tree, field: Seq<char>, n: int) -> Option<Seq<char>> {
    match log.get(field) {
        Some(Tree::List(items)) if n < items.len() => items[n].text(),
        _ => None,
    }
}

fn nth_text_of(log: &Json, field: &str, n: usize) -> (r: Option<String>)
    ensures
        opt(r) == nth_text(log@, field@, n as int),
{
    match log.get(field) {
        Some(list) => match list.as_list() {
            Some(items) => {
                if n < items.len() {
                    match items[n].as_text() {
                        Some(s) => Some(s.clone()),
                        None => None,
                    }
                } else {
                    None
                }
            },
            None => None,
        },
        None => None,
    }
}

/// The address a text ends with: its last 40 bytes, which must not begin
/// inside a character.
pub open spec fn address_tail(hex: Seq<char>) -> Option<Seq<char>> {
    match piece(hex, byte_len(hex) - 40, byte_len(hex) as int) {
        Some(digits) => Some("0x"@ + digits),
        None => None,
    }
}

fn tail_of(hex: &str) -> (r: Option<String>)
    ensures
        opt(r) == address_tail(hex@),
{
    let n: usize = bytes_in(hex);
    if n < 40 {
        return None;
    }
    match byte_piece(hex, n - 40, n) {
        Some(digits) => Some(concat("0x", digits.as_str())),
        None => None,
    }
}

/// A deposit event, when it is one: the client is indexed, the app key is the
/// fourth word of the data.
pub open spec fn deposit_in(log: Tree) -> Option<(Seq<char>, Seq<char>)> {
    match (log.text_at("data"@), nth_text(log, "topics"@, 1)) {
        (Some(d), Some(t)) => match (
            address_tail(without_leading(t, "0x"@)),
            piece(without_leading(d, "0x"@), 192, 256),
        ) {
            (Some(client), Some(word)) => match address_tail(word) {
                Some(app_key) => Some((client, app_key)),
                None => None,
            },
            _ => None,
        },
        _ => None,
    }
}

pub fn parse_deposit_log(log: &Json) -> (r: Option<DepositLog>)
    ensures
        (match r {
            Some(d) => Some((d.client@, d.app_key@)),
            None => None,
        }) == deposit_in(log@),
{
    match (log.text_at("data"), nth_text_of(log, "topics", 1)) {
        (Some(d), Some(t)) => {
            let data = trim_start_matches(d.as_str(), "0x");
            let hex = trim_start_matches(t.as_str(), "0x");
            match (tail_of(hex.as_str()), byte_piece(data.as_str(), 192, 256)) {
                (Some(client), Some(word)) => match tail_of(word.as_str()) {
                    Some(app_key) => Some(DepositLog { client, app_key }),
                    None => None,
                },
                _ => None,
            }
        },
        _ => None,
    }
}

/// A worker was paid on the chain.
#[derive(Debug, PartialEq)]
pub struct Settlement {
    pub tx_hash: String,
    pub payout: String,
    pub cumulative: u64,
    pub block: u64,
    pub paid_to_worker: u64,
    pub fee: u64,
}

/// What a settlement says.
pub struct Settled {
    pub tx_hash: Seq<char>,
    pub payout: Seq<char>,
    pub cumulative: u64,
    pub block: u64,
    pub paid_to_worker: u64,
    pub fee: u64,
}

impl View for Settlement {
    type V = Settled;

    open spec fn view(&self) -> Settled {
        Settled {
            tx_hash: self.tx_hash@,
            payout: self.payout@,
            cumulative: self.cumulative,
            block: self.block,
            paid_to_worker: self.paid_to_worker,
            fee: self.fee,
        }
    }
}

/// A settlement event, when it is one.
pub open spec fn settled_in(log: Tree) -> Option<Settled> {
    match (
        nth_text(log, "topics"@, 2),
        log.text_at("data"@),
        log.text_at("blockNumber"@),
        log.text_at("transactionHash"@),
    ) {
        (Some(t), Some(d), Some(b), Some(tx_hash)) => {
            let worker = without_leading(t, "0x"@);
            let data = without_leading(d, "0x"@);
            match (parsed(without_leading(b, "0x"@), 16), address_tail(worker)) {
                (Some(block), Some(payout)) if byte_len(data) >= 192 => Some(
                    Settled {
                        tx_hash,
                        payout,
                        cumulative: word_at(data, 0),
                        block,
                        paid_to_worker: word_at(data, 1),
                        fee: word_at(data, 2),
                    },
                ),
                _ => None,
            }
        },
        _ => None,
    }
}

pub fn parse_settled_log(log: &Json) -> (r: Option<Settlement>)
    ensures
        (match r {
            Some(s) => Some(s@),
            None => None,
        }) == settled_in(log@),
{
    match (
        nth_text_of(log, "topics", 2),
        log.text_at("data"),
        log.text_at("blockNumber"),
        log.text_at("transactionHash"),
    ) {
        (Some(t), Some(d), Some(b), Some(tx)) => {
            let worker = trim_start_matches(t.as_str(), "0x");
            let data = trim_start_matches(d.as_str(), "0x");
            if bytes_in(data.as_str()) < 192 {
                return None;
            }
            match (
                parse_number(trim_start_matches(b.as_str(), "0x").as_str(), 16),
                tail_of(worker.as_str()),
            ) {
                (Some(block), Some(payout)) => Some(
                    Settlement {
                        tx_hash: tx.clone(),
                        payout,
                        cumulative: read_word(data.as_str(), 0),
                        block,
                        paid_to_worker: read_word(data.as_str(), 1),
                        fee: read_word(data.as_str(), 2),
                    },
                ),
                _ => None,
            }
        },
        _ => None,
    }
}

// ------------------------------------------------------------------- scans

/// How many blocks one request for events may span.
pub const SPAN: u64 = 9_000;

/// The slices a range of blocks is read in.
pub open spec fn slices(from: nat, head: nat) -> Seq<(u64, u64)>
    decreases head + 1 - from,
{
    if from > head {
        seq![]
    } else {
        let to: nat = if from + SPAN - 1 < head {
            (from + SPAN - 1) as nat
        } else {
            head
        };
        seq![(from as u64, to as u64)] + slices(to + 1, head)
    }
}

/// The last block of the slice that begins at `from`.
pub fn slice_end(from: u64, head: u64) -> (to: u64)
    requires
        from <= head,
    ensures
        from <= to <= head,
        slices(from as nat, head as nat) == seq![(from, to)] + slices(to as nat + 1, head as nat),
{
    if head - from < SPAN - 1 {
        head
    } else {
        from + (SPAN - 1)
    }
}

/// The slices of a range hold each of its blocks, and no slice is too wide.
pub proof fn law_slices_cover_the_range(from: nat, head: nat, block: nat)
    requires
        from <= block <= head <= u64::MAX,
    ensures
        exists|i: int|
            0 <= i < slices(from, head).len() && (#[trigger] slices(from, head)[i]).0 <= block
                <= slices(from, head)[i].1,
        forall|i: int|
            0 <= i < slices(from, head).len() ==> (#[trigger] slices(from, head)[i]).1
                - slices(from, head)[i].0 < SPAN,
    decreases head + 1 - from,
{
    let to: nat = if from + SPAN - 1 < head {
        (from + SPAN - 1) as nat
    } else {
        head
    };
    let all = slices(from, head);
    let rest = slices(to + 1, head);
    if to < head {
        let inner = if block > to {
            block
        } else {
            to + 1
        };
        law_slices_cover_the_range(to + 1, head, inner);
    }
    assert(all[0] == (from as u64, to as u64));
    assert forall|i: int| 0 <= i < all.len() implies (#[trigger] all[i]).1 - all[i].0 < SPAN by {
        if i > 0 {
            assert(all[i] == rest[i - 1]);
        }
    }
    if block <= to {
        assert(all[0].0 <= block <= all[0].1);
    } else {
        let i = choose|i: int|
            0 <= i < rest.len() && (#[trigger] rest[i]).0 <= block <= rest[i].1;
        assert(all[i + 1] == rest[i]);
    }
}

/// A block number as the chain wants it.
pub fn block_text(n: u64) -> (r: String)
    ensures
        r@ == "0x"@ + hex_number(n as nat),
{
    concat("0x", hex_number_of(n).as_str())
}

// ----------------------------------------------------------------- explorer

/// Where a transaction can be looked at, on the chains that have such a
/// place.
pub open spec fn explorer_link(chain_id: u64, hash: Seq<char>) -> Option<Seq<char>> {
    let full = if starts_with(hash, "0x"@) || starts_with(hash, "0X"@) {
        hash
    } else {
        "0x"@ + hash
    };
    if chain_id == 8453 {
        Some("https://basescan.org/tx/"@ + full)
    } else if chain_id == 84532 {
        Some("https://sepolia.basescan.org/tx/"@ + full)
    } else {
        None
    }
}

pub fn explorer_tx(chain_id: u64, hash: &str) -> (r: Option<String>)
    ensures
        opt(r) == explorer_link(chain_id, hash@),
{
    let full = if has_prefix(hash, "0x") || has_prefix(hash, "0X") {
        hash.to_string()
    } else {
        concat("0x", hash)
    };
    if chain_id == 8453 {
        Some(concat("https://basescan.org/tx/", full.as_str()))
    } else if chain_id == 84532 {
        Some(concat("https://sepolia.basescan.org/tx/", full.as_str()))
    } else {
        None
    }
}

// ---------------------------------------------------------------- requests

/// The body of a call to a node.
pub fn rpc_body(method: &str, params: Json) -> (r: Json)
    ensures
        r@ == Tree::record().with("jsonrpc"@, Tree::Text("2.0"@)).with(
            "id"@,
            Tree::Number(1),
        ).with("method"@, Tree::Text(method@)).with("params"@, params@),
{
    Json::record().with("jsonrpc", Json::text("2.0")).with("id", Json::Number(1)).with(
        "method",
        Json::text(method),
    ).with("params", params)
}

/// What a node answered: its result, or the error it names.
pub fn rpc_result(answer: &Json) -> (r: Result<Json, AppError>)
    ensures
        match r {
            Ok(j) => answer@.get("error"@) is None && j@ == (match answer@.get("result"@) {
                Some(t) => t,
                None => Tree::Null,
            }),
            Err(e) => answer@.get("error"@) is Some && e@ == Trouble::Net(
                json_written(answer@.get("error"@)->0),
            ),
        },
{
    if let Some(err) = answer.get("error") {
        return Err(AppError::Net(print(err)));
    }
    match answer.get("result") {
        Some(v) => Ok(v.copy()),
        None => Ok(Json::Null),
    }
}

/// The nodes to ask in turn: the configured one, and only for the well-known
/// main network some public ones after it. A custom chain is never answered
/// for by another network.
pub fn rpc_candidates(url: &str) -> (r: Vec<String>)
    ensures
        texts(r@) == (if contains(url@, "base.org"@) {
            seq![
                url@,
                "https://base-rpc.publicnode.com"@,
                "https://1rpc.io/base"@,
                "https://base.drpc.org"@,
            ]
        } else {
            seq![url@]
        }),
{
    let mut out: Vec<String> = Vec::new();
    out.push(url.to_string());
    if has_text(url, "base.org") {
        out.push("https://base-rpc.publicnode.com".to_string());
        out.push("https://1rpc.io/base".to_string());
        out.push("https://base.drpc.org".to_string());
    }
    assert(texts(out@) =~= (if contains(url@, "base.org"@) {
        seq![
            url@,
            "https://base-rpc.publicnode.com"@,
            "https://1rpc.io/base"@,
            "https://base.drpc.org"@,
        ]
    } else {
        seq![url@]
    }));
    out
}

} // verus!
