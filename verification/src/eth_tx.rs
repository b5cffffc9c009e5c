//! Signed calls to a chain: the transaction's encoding and its signature.
use k256::ecdsa::signature::hazmat::PrehashSigner;
use vstd::prelude::*;

use crate::codec::{hex_complaint, hex_decode, hex_encode, hexed, unhexed};
use crate::error::{AppError, Trouble};
use crate::text::{
    concat, concat3, contains, fault_text, fault_words, first_fault, has_text, lowercased, parsed,
    read_number, to_lowercase, trim, trim_start_matches, trimmed, without_leading,
};

verus! {

broadcast use vstd::string::group_string_axioms;

// --------------------------------------------------------------- signatures

/// What `k256` signs a digest with under a key: the 64 bytes of the signature
/// and the recovery id, or nothing where the key or the digest is no good.
pub uninterp spec fn ecdsa_signed(key: Seq<u8>, digest: Seq<u8>) -> Option<(Seq<u8>, u8)>;

/// The words in which `k256` refuses to sign.
pub uninterp spec fn ecdsa_complaint(key: Seq<u8>, digest: Seq<u8>) -> Seq<char>;

/// `k256::ecdsa::SigningKey::from_slice` and then `sign_prehash`, which is
/// deterministic: a signature of 64 bytes and a recovery id of three at most,
/// or a refusal in words of its own.
#[verifier::external_body]
fn sign_prehash(key: &[u8], digest: &[u8]) -> (r: Result<(Vec<u8>, u8), String>)
    requires
        key@.len() == 32,
        digest@.len() == 32,
    ensures
        match r {
            Ok(s) => ecdsa_signed(key@, digest@) == Some((s.0@, s.1)) && s.0@.len() == 64 && s.1 <= 3,
            Err(e) => ecdsa_signed(key@, digest@) is None && e@ == ecdsa_complaint(key@, digest@),
        },
{
    let key = k256::ecdsa::SigningKey::from_slice(key).map_err(|e| e.to_string())?;
    let signed: Result<(k256::ecdsa::Signature, k256::ecdsa::RecoveryId), _> = key.sign_prehash(digest);
    let (sig, id) = signed.map_err(|e| e.to_string())?;
    Ok((sig.to_bytes().to_vec(), id.to_byte()))
}

/// A signature as a contract checks it: 65 bytes, the last telling the two
/// possible keys apart.
pub open spec fn ticket_signature(key: Seq<u8>, digest: Seq<u8>) -> Option<Seq<u8>> {
    match ecdsa_signed(key, digest) {
        Some((s, id)) => Some(s.push((id + 27) as u8)),
        None => None,
    }
}

/// Puts the two parts of a signature together.
pub fn joined_signature(sig: Vec<u8>, id: u8) -> (r: Vec<u8>)
    requires
        id <= 3,
    ensures
        r@ == sig@.push((id + 27) as u8),
{
    let mut r = sig;
    r.push(id + 27);
    r
}

/// Signs the digest of a ticket.
pub fn sign_ticket(key: &Vec<u8>, digest: &Vec<u8>) -> (r: Result<Vec<u8>, AppError>)
    requires
        key@.len() == 32,
        digest@.len() == 32,
    ensures
        match r {
            Ok(s) => ticket_signature(key@, digest@) == Some(s@) && s@.len() == 65,
            Err(e) => ticket_signature(key@, digest@) is None && e@ == Trouble::Invalid(
                ecdsa_complaint(key@, digest@),
            ),
        },
{
    match sign_prehash(key.as_slice(), digest.as_slice()) {
        Ok((sig, id)) => Ok(joined_signature(sig, id)),
        Err(why) => Err(AppError::Invalid(why)),
    }
}

// --------------------------------------------------------------------- RLP

/// A number in as few bytes as it takes, most significant first; none for
/// zero.
pub open spec fn big_endian(n: nat) -> Seq<u8>
    decreases n,
{
    if n == 0 {
        seq![]
    } else {
        big_endian(n / 256).push((n % 256) as u8)
    }
}

/// The number that bytes write, most significant first.
pub open spec fn be_value(b: Seq<u8>) -> nat
    decreases b.len(),
{
    if b.len() == 0 {
        0
    } else {
        be_value(b.drop_last()) * 256 + b.last() as nat
    }
}

proof fn lemma_big_endian(n: nat)
    ensures
        be_value(big_endian(n)) == n,
        n > 0 ==> big_endian(n).len() > 0 && big_endian(n)[0] != 0,
    decreases n,
{
    if n > 0 {
        lemma_big_endian(n / 256);
        let b = big_endian(n);
        assert(b.drop_last() =~= big_endian(n / 256));
        if n / 256 > 0 {
            assert(b[0] == big_endian(n / 256)[0]);
        }
    }
}

pub(crate) proof fn lemma_big_endian_len(n: nat, k: nat)
    requires
        n < vstd::arithmetic::power::pow(256, k),
    ensures
        big_endian(n).len() <= k,
    decreases k,
{
    broadcast use vstd::arithmetic::power::lemma_pow0;

    if n > 0 && k > 0 {
        let p = vstd::arithmetic::power::pow(256, (k - 1) as nat);
        assert(vstd::arithmetic::power::pow(256, k) == 256 * p) by {
            reveal(vstd::arithmetic::power::pow);
        }
        assert(n / 256 < p) by (nonlinear_arith)
            requires
                n < 256 * p,
        ;
        lemma_big_endian_len(n / 256, (k - 1) as nat);
    }
}

fn be_bytes_of(n: u64) -> (r: Vec<u8>)
    ensures
        r@ == big_endian(n as nat),
    decreases n,
{
    if n == 0 {
        let r: Vec<u8> = Vec::new();
        assert(r@ =~= big_endian(0));
        r
    } else {
        let mut r = be_bytes_of(n / 256);
        r.push((n % 256) as u8);
        r
    }
}

/// A number's bytes; zero is one zero byte.
pub fn u64_be(n: u64) -> (r: Vec<u8>)
    ensures
        r@ == (if n == 0 {
            seq![0u8]
        } else {
            big_endian(n as nat)
        }),
        1 <= r@.len() <= 8,
{
    if n == 0 {
        let mut r: Vec<u8> = Vec::new();
        r.push(0);
        assert(r@ =~= seq![0u8]);
        return r;
    }
    proof {
        assert(vstd::arithmetic::power::pow(256, 8) == 0x1_0000_0000_0000_0000) by {
            reveal_with_fuel(vstd::arithmetic::power::pow, 9);
        }
        lemma_big_endian_len(n as nat, 8);
        lemma_big_endian(n as nat);
    }
    be_bytes_of(n)
}

/// Bytes behind their length: one byte of it up to 55, its own length before
/// it beyond.
pub open spec fn wrapped(short: u8, long: u8, b: Seq<u8>) -> Seq<u8> {
    if b.len() <= 55 {
        seq![(short + b.len()) as u8] + b
    } else {
        let n = big_endian(b.len());
        seq![(long + n.len()) as u8] + n + b
    }
}

/// A byte string; a small byte stands for itself.
pub open spec fn rlp_string(b: Seq<u8>) -> Seq<u8> {
    if b.len() == 1 && b[0] < 0x80 {
        b
    } else {
        wrapped(0x80, 0xb7, b)
    }
}

/// A number: its bytes, none for zero.
pub open spec fn rlp_number(n: u64) -> Seq<u8> {
    rlp_string(big_endian(n as nat))
}

/// Items laid end to end.
pub open spec fn flat(items: Seq<Seq<u8>>) -> Seq<u8>
    decreases items.len(),
{
    if items.len() == 0 {
        seq![]
    } else {
        flat(items.drop_last()) + items.last()
    }
}

pub open spec fn rlp_items(items: Seq<Seq<u8>>) -> Seq<u8> {
    wrapped(0xc0, 0xf7, flat(items))
}

pub open spec fn bytes_of(v: Seq<Vec<u8>>) -> Seq<Seq<u8>> {
    Seq::new(v.len(), |i: int| v[i]@)
}

fn push_all(out: &mut Vec<u8>, more: &Vec<u8>)
    ensures
        final(out)@ == old(out)@ + more@,
{
    let ghost before = out@;
    let mut i: usize = 0;
    assert(before + more@.take(0) =~= before);
    while i < more.len()
        invariant
            i <= more@.len(),
            out@ == before + more@.take(i as int),
        decreases more@.len() - i,
    {
        out.push(more[i]);
        assert(before + more@.take(i as int + 1) =~= (before + more@.take(i as int)).push(
            more@[i as int],
        ));
        i = i + 1;
    }
    assert(more@.take(i as int) =~= more@);
}

pub fn rlp_wrap(short: u8, long: u8, b: &Vec<u8>) -> (r: Vec<u8>)
    requires
        short <= 0xc0,
        long <= 0xf7,
    ensures
        r@ == wrapped(short, long, b@),
{
    let n: usize = b.len();
    let mut out: Vec<u8> = Vec::new();
    if n <= 55 {
        out.push(short + n as u8);
        push_all(&mut out, b);
        assert(out@ =~= wrapped(short, long, b@));
    } else {
        let len = u64_be(n as u64);
        out.push(long + len.len() as u8);
        push_all(&mut out, &len);
        push_all(&mut out, b);
        assert(out@ =~= wrapped(short, long, b@));
    }
    out
}

pub fn rlp_bytes(b: &Vec<u8>) -> (r: Vec<u8>)
    ensures
        r@ == rlp_string(b@),
{
    if b.len() == 1 && b[0] < 0x80 {
        let mut one: Vec<u8> = Vec::new();
        one.push(b[0]);
        assert(one@ =~= b@);
        return one;
    }
    rlp_wrap(0x80, 0xb7, b)
}

pub fn rlp_u64(n: u64) -> (r: Vec<u8>)
    ensures
        r@ == rlp_number(n),
{
    rlp_bytes(&be_bytes_of(n))
}

pub fn rlp_list(items: &Vec<Vec<u8>>) -> (r: Vec<u8>)
    ensures
        r@ == rlp_items(bytes_of(items@)),
{
    let mut payload: Vec<u8> = Vec::new();
    let ghost all = bytes_of(items@);
    let mut i: usize = 0;
    assert(payload@ =~= flat(all.take(0)));
    while i < items.len()
        invariant
            i <= items@.len(),
            all == bytes_of(items@),
            payload@ == flat(all.take(i as int)),
        decreases items@.len() - i,
    {
        let ghost now = all.take(i as int + 1);
        assert(now.drop_last() =~= all.take(i as int));
        push_all(&mut payload, &items[i]);
        i = i + 1;
    }
    assert(all.take(i as int) =~= all);
    rlp_wrap(0xc0, 0xf7, &payload)
}

/// Without the zero bytes it starts with.
pub open spec fn stripped_zeros(b: Seq<u8>) -> Seq<u8>
    decreases b.len(),
{
    if b.len() > 0 && b[0] == 0 {
        stripped_zeros(b.drop_first())
    } else {
        b
    }
}

pub fn strip_zeros(b: &Vec<u8>) -> (r: Vec<u8>)
    ensures
        r@ == stripped_zeros(b@),
{
    let n: usize = b.len();
    let mut i: usize = 0;
    assert(b@.skip(0) =~= b@);
    while i < n && b[i] == 0
        invariant
            i <= n,
            n == b@.len(),
            stripped_zeros(b@) == stripped_zeros(b@.skip(i as int)),
        decreases n - i,
    {
        assert(b@.skip(i as int).drop_first() =~= b@.skip(i as int + 1));
        i = i + 1;
    }
    let mut out: Vec<u8> = Vec::new();
    let mut j: usize = i;
    assert(out@ =~= b@.subrange(i as int, i as int));
    while j < n
        invariant
            i <= j <= n,
            n == b@.len(),
            out@ == b@.subrange(i as int, j as int),
        decreases n - j,
    {
        out.push(b[j]);
        assert(b@.subrange(i as int, j as int + 1) =~= b@.subrange(i as int, j as int).push(
            b@[j as int],
        ));
        j = j + 1;
    }
    assert(out@ =~= b@.skip(i as int));
    out
}

/// Reading a wrapped string back: its bytes, when the lengths agree.
pub open spec fn unwrapped(short: u8, long: u8, e: Seq<u8>) -> Option<Seq<u8>> {
    if e.len() == 0 {
        None
    } else if short <= e[0] <= short + 55 && e.len() - 1 == e[0] - short {
        Some(e.skip(1))
    } else if long < e[0] && 1 + (e[0] - long) <= e.len() && be_value(
        e.subrange(1, 1 + (e[0] - long)),
    ) == e.len() - 1 - (e[0] - long) {
        Some(e.skip(1 + (e[0] - long)))
    } else {
        None
    }
}

/// What was wrapped can be read back: the encoding loses nothing.
pub proof fn law_wrapping_can_be_read_back(short: u8, long: u8, b: Seq<u8>)
    requires
        long == short + 55,
        long <= 0xf7,
        b.len() <= u64::MAX,
    ensures
        unwrapped(short, long, wrapped(short, long, b)) == Some(b),
{
    let e = wrapped(short, long, b);
    if b.len() <= 55 {
        assert(e.skip(1) =~= b);
    } else {
        let n = big_endian(b.len());
        assert(vstd::arithmetic::power::pow(256, 8) == 0x1_0000_0000_0000_0000) by {
            reveal_with_fuel(vstd::arithmetic::power::pow, 9);
        }
        lemma_big_endian_len(b.len(), 8);
        lemma_big_endian(b.len());
        assert(e[0] == (long + n.len()) as u8);
        assert(e.subrange(1, 1 + n.len() as int) =~= n);
        assert(e.skip(1 + n.len() as int) =~= b);
    }
}

/// A number is written without leading zeroes, and its bytes write it.
pub proof fn law_numbers_are_written_shortest(n: u64)
    ensures
        be_value(big_endian(n as nat)) == n,
        n > 0 ==> big_endian(n as nat)[0] != 0,
        n == 0 ==> rlp_number(n) == seq![0x80u8],
{
    lemma_big_endian(n as nat);
    if n == 0 {
        assert(rlp_number(n) =~= seq![0x80u8]);
    }
}

// ------------------------------------------------------------- transactions

/// A transaction of the old kind, replay-protected by its chain id.
#[derive(Debug, PartialEq)]
pub struct LegacyTx {
    pub nonce: u64,
    pub gas_price: u64,
    pub gas: u64,
    pub to: Vec<u8>,
    pub value: u64,
    pub data: Vec<u8>,
    pub chain_id: u64,
}

impl LegacyTx {
    /// The first six items of every encoding.
    pub open spec fn body(self) -> Seq<Seq<u8>> {
        seq![
            rlp_number(self.nonce),
            rlp_number(self.gas_price),
            rlp_number(self.gas),
            rlp_string(self.to@),
            rlp_number(self.value),
            rlp_string(self.data@),
        ]
    }

    /// What is hashed and signed.
    pub open spec fn unsigned(self) -> Seq<u8> {
        rlp_items(self.body().push(rlp_number(self.chain_id)).push(rlp_number(0)).push(rlp_number(0)))
    }

    /// What is sent.
    pub open spec fn signed(self, v: u64, r: Seq<u8>, s: Seq<u8>) -> Seq<u8> {
        rlp_items(
            self.body().push(rlp_number(v)).push(rlp_string(stripped_zeros(r))).push(
                rlp_string(stripped_zeros(s)),
            ),
        )
    }
}

fn body_items(tx: &LegacyTx) -> (r: Vec<Vec<u8>>)
    ensures
        bytes_of(r@) == tx.body(),
{
    let mut items: Vec<Vec<u8>> = Vec::new();
    items.push(rlp_u64(tx.nonce));
    items.push(rlp_u64(tx.gas_price));
    items.push(rlp_u64(tx.gas));
    items.push(rlp_bytes(&tx.to));
    items.push(rlp_u64(tx.value));
    items.push(rlp_bytes(&tx.data));
    assert(bytes_of(items@) =~= tx.body());
    items
}

/// The encoding that is hashed and signed.
pub fn unsigned_rlp(tx: &LegacyTx) -> (r: Vec<u8>)
    ensures
        r@ == tx.unsigned(),
{
    let mut items = body_items(tx);
    let ghost before = items@;
    items.push(rlp_u64(tx.chain_id));
    items.push(rlp_u64(0));
    items.push(rlp_u64(0));
    assert(bytes_of(items@) =~= bytes_of(before).push(rlp_number(tx.chain_id)).push(
        rlp_number(0),
    ).push(rlp_number(0)));
    rlp_list(&items)
}

/// The encoding that is sent.
pub fn signed_rlp(tx: &LegacyTx, v: u64, r: &Vec<u8>, s: &Vec<u8>) -> (out: Vec<u8>)
    ensures
        out@ == tx.signed(v, r@, s@),
{
    let mut items = body_items(tx);
    let ghost before = items@;
    items.push(rlp_u64(v));
    items.push(rlp_bytes(&strip_zeros(r)));
    items.push(rlp_bytes(&strip_zeros(s)));
    assert(bytes_of(items@) =~= bytes_of(before).push(rlp_number(v)).push(
        rlp_string(stripped_zeros(r@)),
    ).push(rlp_string(stripped_zeros(s@))));
    rlp_list(&items)
}

/// The mark of a signature that is good on one chain only.
pub open spec fn replay_mark(chain_id: u64, id: u8) -> int {
    chain_id * 2 + 35 + id
}

/// Signs a transaction, given the hash of its unsigned encoding.
pub fn sign_legacy(key: &Vec<u8>, tx: &LegacyTx, digest: &Vec<u8>) -> (r: Result<Vec<u8>, AppError>)
    requires
        key@.len() == 32,
        digest@.len() == 32,
        tx.chain_id * 2 + 38 <= u64::MAX,
    ensures
        match r {
            Ok(raw) => ecdsa_signed(key@, digest@) matches Some(s) && raw@ == tx.signed(
                replay_mark(tx.chain_id, s.1) as u64,
                s.0.take(32),
                s.0.skip(32),
            ),
            Err(e) => ecdsa_signed(key@, digest@) is None && e@ == Trouble::Invalid(
                ecdsa_complaint(key@, digest@),
            ),
        },
{
    match sign_prehash(key.as_slice(), digest.as_slice()) {
        Err(why) => Err(AppError::Invalid(why)),
        Ok((sig, id)) => {
            let v: u64 = tx.chain_id * 2 + 35 + id as u64;
            let (first, second) = halves(&sig);
            Ok(signed_rlp(tx, v, &first, &second))
        },
    }
}

fn halves(sig: &Vec<u8>) -> (r: (Vec<u8>, Vec<u8>))
    requires
        sig@.len() == 64,
    ensures
        r.0@ == sig@.take(32),
        r.1@ == sig@.skip(32),
{
    let mut a: Vec<u8> = Vec::new();
    let mut b: Vec<u8> = Vec::new();
    let mut i: usize = 0;
    while i < 32
        invariant
            i <= 32,
            sig@.len() == 64,
            a@ == sig@.take(i as int),
            b@ == sig@.subrange(32, 32 + i as int),
        decreases 32 - i,
    {
        a.push(sig[i]);
        b.push(sig[32 + i]);
        assert(sig@.take(i as int + 1) =~= sig@.take(i as int).push(sig@[i as int]));
        assert(sig@.subrange(32, 33 + i as int) =~= sig@.subrange(32, 32 + i as int).push(
            sig@[32 + i as int],
        ));
        i = i + 1;
    }
    assert(b@ =~= sig@.skip(32));
    (a, b)
}

/// An address: twenty bytes in hex.
pub fn parse_address(addr: &str) -> (r: Result<Vec<u8>, AppError>)
    ensures
        ({
            let raw = without_leading(addr@, "0x"@);
            match r {
                Ok(b) => unhexed(raw) == Some(b@) && b@.len() == 20,
                Err(e) => match unhexed(raw) {
                    None => e@ == Trouble::Invalid(hex_complaint(raw)),
                    Some(b) => b.len() != 20 && e@ == Trouble::Invalid(
                        "not an address: "@ + addr@,
                    ),
                },
            }
        }),
{
    match hex_decode(trim_start_matches(addr, "0x").as_str()) {
        Err(why) => Err(AppError::Invalid(why)),
        Ok(bytes) => {
            if bytes.len() != 20 {
                Err(AppError::Invalid(concat("not an address: ", addr)))
            } else {
                Ok(bytes)
            }
        },
    }
}

/// A quantity as a node writes it; nothing at all is zero.
pub fn parse_u64_hex(s: &str) -> (r: Result<u64, AppError>)
    ensures
        ({
            let h = without_leading(trimmed(s@), "0x"@);
            match r {
                Ok(n) => if h.len() == 0 {
                    n == 0
                } else {
                    parsed(h, 16) == Some(n)
                },
                Err(e) => h.len() > 0 && parsed(h, 16) is None && e@ == Trouble::Net(
                    "bad hex quantity "@ + s@ + ": "@ + fault_words(first_fault(h, 16)),
                ),
            }
        }),
{
    let h = trim_start_matches(trim(s).as_str(), "0x");
    if h.as_str().is_empty() {
        return Ok(0);
    }
    match read_number(h.as_str(), 16) {
        Ok(n) => Ok(n),
        Err(f) => {
            let mut text = concat3("bad hex quantity ", s, ": ");
            text.append(fault_text(f));
            Err(AppError::Net(text))
        },
    }
}

/// How much gas a call may use.
pub const CALL_GAS: u64 = 500_000;

/// The transaction for a call, from what the node said of the account. A
/// node that names no gas price cannot be used.
pub fn call_tx(
    nonce: u64,
    gas_price: u64,
    chain_id: u64,
    to: &str,
    data: Vec<u8>,
) -> (r: Result<LegacyTx, AppError>)
    ensures
        match r {
            Ok(tx) => {
                &&& gas_price > 0
                &&& tx.nonce == nonce && tx.gas_price == gas_price && tx.gas == CALL_GAS
                &&& unhexed(without_leading(to@, "0x"@)) == Some(tx.to@) && tx.to@.len() == 20
                &&& tx.value == 0 && tx.data@ == data@ && tx.chain_id == chain_id
            },
            Err(e) => if gas_price == 0 {
                e@ == Trouble::Net("eth_gasPrice returned 0"@)
            } else {
                match unhexed(without_leading(to@, "0x"@)) {
                    None => e@ == Trouble::Invalid(hex_complaint(without_leading(to@, "0x"@))),
                    Some(b) => b.len() != 20 && e@ == Trouble::Invalid("not an address: "@ + to@),
                }
            },
        },
{
    if gas_price == 0 {
        return Err(AppError::Net("eth_gasPrice returned 0".to_string()));
    }
    match parse_address(to) {
        Err(e) => Err(e),
        Ok(bytes) => Ok(
            LegacyTx { nonce, gas_price, gas: CALL_GAS, to: bytes, value: 0, data, chain_id },
        ),
    }
}

/// A raw transaction as it is handed to a node.
pub fn raw_text(raw: &Vec<u8>) -> (r: String)
    ensures
        r@ == "0x"@ + hexed(raw@),
{
    concat("0x", hex_encode(raw.as_slice()).as_str())
}

/// Why sending failed, in words a person can act on where there are any.
pub fn send_error(e: AppError, from: &str) -> (r: AppError)
    ensures
        r@ == (if contains(lowercased(e@.words()), "insufficient funds"@) {
            Trouble::Invalid(
                "the app key "@ + from@
                    + " needs a little ETH on this chain to submit the lock"@,
            )
        } else {
            e@
        }),
{
    let text = to_lowercase(e.message().as_str());
    if has_text(text.as_str(), "insufficient funds") {
        AppError::Invalid(
            concat3(
                "the app key ",
                from,
                " needs a little ETH on this chain to submit the lock",
            ),
        )
    } else {
        e
    }
}

} // verus!
