//! Hashes and the ways bytes are written as text.
use base64::Engine;
use sha2::Digest;
use vstd::arithmetic::power::pow;
use vstd::prelude::*;
use vstd::string::StringSliceAdditionalSpecFns;

use crate::text::{all_digits, digit};

verus! {

broadcast use vstd::string::group_string_axioms;

// --------------------------------------------------------------------- hex

/// The lower-case hex digit of a number below sixteen.
pub open spec fn hex_digit(n: int) -> char {
    if n < 10 {
        (('0' as u32 + n) as u8) as char
    } else {
        (('a' as u32 + n - 10) as u8) as char
    }
}

/// Two lower-case digits for each byte.
pub open spec fn hexed(bytes: Seq<u8>) -> Seq<char> {
    Seq::new(
        2 * bytes.len(),
        |i: int|
            if i % 2 == 0 {
                hex_digit(bytes[i / 2] as int / 16)
            } else {
                hex_digit(bytes[i / 2] as int % 16)
            },
    )
}

/// The bytes that pairs of hex digits write, in either case.
pub open spec fn unhexed(s: Seq<char>) -> Option<Seq<u8>> {
    if s.len() % 2 == 0 && all_digits(s, 16) {
        Some(
            Seq::new(
                s.len() / 2,
                |i: int| (16 * digit(s[2 * i]) + digit(s[2 * i + 1])) as u8,
            ),
        )
    } else {
        None
    }
}

/// What `hex::decode` says of a text that is not hex.
pub uninterp spec fn hex_complaint(s: Seq<char>) -> Seq<char>;

/// `hex::encode` writes each byte as two lower-case hex digits.
#[verifier::external_body]
pub(crate) fn hex_encode(bytes: &[u8]) -> (r: String)
    ensures
        r@ == hexed(bytes@),
{
    hex::encode(bytes)
}

/// `hex::decode` reads pairs of hex digits of either case. It fails on an odd
/// number of digits and on anything that is no digit, with words of its own.
#[verifier::external_body]
pub(crate) fn hex_decode(s: &str) -> (r: Result<Vec<u8>, String>)
    ensures
        match r {
            Ok(v) => unhexed(s@) == Some(v@),
            Err(e) => unhexed(s@) is None && e@ == hex_complaint(s@),
        },
{
    hex::decode(s).map_err(|e| e.to_string())
}

proof fn lemma_hex_digit(n: int)
    requires
        0 <= n < 16,
    ensures
        digit(hex_digit(n)) == n,
{
}

/// Hex written is hex read.
pub proof fn law_hex_round_trip(bytes: Seq<u8>)
    ensures
        unhexed(hexed(bytes)) == Some(bytes),
{
    let s = hexed(bytes);
    assert forall|i: int| 0 <= i < s.len() implies digit(#[trigger] s[i]) < 16 by {
        lemma_hex_digit(bytes[i / 2] as int / 16);
        lemma_hex_digit(bytes[i / 2] as int % 16);
    }
    let back = unhexed(s)->0;
    assert(back =~= bytes) by {
        assert forall|i: int| 0 <= i < bytes.len() implies back[i] == bytes[i] by {
            let b = bytes[i] as int;
            lemma_hex_digit(b / 16);
            lemma_hex_digit(b % 16);
            assert(s[2 * i] == hex_digit(b / 16));
            assert(s[2 * i + 1] == hex_digit(b % 16));
        }
    }
}

// ------------------------------------------------------------------ hashes

/// The SHA-256 digest of some bytes.
pub uninterp spec fn sha256_digest(bytes: Seq<u8>) -> Seq<u8>;

/// `sha2::Sha256::digest` gives the SHA-256 digest, which is 32 bytes long.
#[verifier::external_body]
pub(crate) fn sha256(bytes: &[u8]) -> (r: Vec<u8>)
    ensures
        r@ == sha256_digest(bytes@),
        r@.len() == 32,
{
    sha2::Sha256::digest(bytes).to_vec()
}

/// The SHA-256 of some bytes in lower-case hex.
pub open spec fn sha256_text(bytes: Seq<u8>) -> Seq<char> {
    hexed(sha256_digest(bytes))
}

/// The SHA-256 of some bytes in lower-case hex.
pub fn sha256_hex(bytes: &[u8]) -> (r: String)
    ensures
        r@ == sha256_text(bytes@),
        r@.len() == 64,
{
    hex_encode(sha256(bytes).as_slice())
}

/// The SHA-256 of a text, as UTF-8.
pub fn sha256_of_text(s: &str) -> (r: String)
    ensures
        r@ == sha256_text(s.spec_bytes()),
        r@.len() == 64,
{
    sha256_hex(s.as_bytes())
}

// ------------------------------------------------------------------ base64

/// The standard padded base64 of some bytes.
pub uninterp spec fn base64_written(bytes: Seq<u8>) -> Seq<char>;

/// The bytes a text is the standard padded base64 of, when it is.
pub uninterp spec fn base64_read(s: Seq<char>) -> Option<Seq<u8>>;

/// What `base64` says of a text that is not base64.
pub uninterp spec fn base64_complaint(s: Seq<char>) -> Seq<char>;

/// The standard engine of `base64` encodes; decoding what it wrote gives the
/// bytes back.
#[verifier::external_body]
pub(crate) fn base64_encode(bytes: &[u8]) -> (r: String)
    ensures
        r@ == base64_written(bytes@),
        base64_read(r@) == Some(bytes@),
{
    base64::engine::general_purpose::STANDARD.encode(bytes)
}

/// The standard engine of `base64` decodes, or refuses in words of its own.
#[verifier::external_body]
pub(crate) fn base64_decode(s: &str) -> (r: Result<Vec<u8>, String>)
    ensures
        match r {
            Ok(v) => base64_read(s@) == Some(v@),
            Err(e) => base64_read(s@) is None && e@ == base64_complaint(s@),
        },
{
    base64::engine::general_purpose::STANDARD.decode(s).map_err(|e| e.to_string())
}

// ------------------------------------------------------------------ chance

/// Twenty-four bytes from `rand`'s thread generator; nothing is known of them
/// but their number.
#[verifier::external_body]
pub(crate) fn random_secret() -> (r: Vec<u8>)
    ensures
        r@.len() == 24,
{
    rand::random::<[u8; 24]>().to_vec()
}

// ---------------------------------------------------------------------- ids

/// The number of the id a text writes, when `uuid` can read it.
pub uninterp spec fn uuid_number(s: Seq<char>) -> Option<u128>;

/// An id in words: its 32 hex digits, in lower case, in five groups.
pub open spec fn uuid_text(n: u128) -> Seq<char> {
    let d = Seq::new(32, |i: int| hex_digit((n as int / pow(16, (31 - i) as nat)) % 16));
    d.subrange(0, 8) + "-"@ + d.subrange(8, 12) + "-"@ + d.subrange(12, 16) + "-"@ + d.subrange(
        16,
        20,
    ) + "-"@ + d.subrange(20, 32)
}

/// `uuid::Uuid::parse_str` and the number the id stands for.
#[verifier::external_body]
pub(crate) fn parse_uuid(s: &str) -> (r: Option<u128>)
    ensures
        r == uuid_number(s@),
{
    uuid::Uuid::parse_str(s).ok().map(|u| u.as_u128())
}

/// `uuid::Uuid` writes an id with hyphens, in lower case; what it writes it
/// reads back.
#[verifier::external_body]
pub(crate) fn write_uuid(n: u128) -> (r: String)
    ensures
        r@ == uuid_text(n),
        uuid_number(r@) == Some(n),
{
    uuid::Uuid::from_u128(n).to_string()
}

/// `uuid::Uuid::new_v4` draws an id. Nothing is stated of which one: it is
/// drawn at random.
#[verifier::external_body]
pub(crate) fn fresh_uuid() -> (r: u128) {
    uuid::Uuid::new_v4().as_u128()
}

} // verus!
