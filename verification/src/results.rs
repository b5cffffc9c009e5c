//! Holding a result to its hash, and naming what is kept of it.
//!
//! A peer's claim of what its bytes hash to is never taken on trust, and a
//! path in a result is only ever read when the worker runs in this process.
use vstd::prelude::*;
use vstd::string::StringSliceAdditionalSpecFns;
use vstd::utf8::encode_utf8;

use crate::codec::{
    base64_complaint, base64_decode, base64_read, sha256_hex, sha256_of_text, sha256_text,
};
use crate::error::{AppError, Trouble};
use crate::json::Json;
use crate::protocol::{opt, JobKind, JobResult};
use crate::text::{
    concat, concat3, contains, first_chars, has_prefix, has_text, lemma_contains_middle, lower,
    same_ignoring_case, starts_with, take_chars, trim, trimmed,
};

verus! {

broadcast use vstd::string::group_string_axioms;

/// The largest file that is read for a local worker.
pub const MAX_LOCAL_READ: u64 = 67_108_864;

/// A result as it is kept.
#[derive(Debug, PartialEq)]
pub struct ResultRecord {
    pub job_id: u128,
    pub kind: JobKind,
    pub sha256: String,
    pub text: Option<String>,
    pub image_path: Option<String>,
    pub meta: Json,
    pub created_at: i64,
}

/// What is wrong with a claimed hash, if anything. A worker on this machine
/// may claim none; a remote one has to commit to one.
pub open spec fn hash_fault(actual: Seq<char>, claimed: Seq<char>, local: bool) -> Option<Seq<char>> {
    if claimed.len() == 0 {
        if local {
            None
        } else {
            Some("result has no content hash; a remote peer must commit to one"@)
        }
    } else if lower(actual) == lower(claimed) {
        None
    } else {
        Some(
            "hash mismatch: peer claimed "@ + claimed + ", bytes hash to "@ + actual,
        )
    }
}

pub fn verify(actual: &str, claimed: &str, local: bool) -> (r: Result<(), AppError>)
    ensures
        match r {
            Ok(_) => hash_fault(actual@, claimed@, local) is None,
            Err(e) => match hash_fault(actual@, claimed@, local) {
                Some(why) => e@ == Trouble::Invalid(why),
                None => false,
            },
        },
{
    if claimed.is_empty() {
        return if local {
            Ok(())
        } else {
            Err(
                AppError::Invalid(
                    "result has no content hash; a remote peer must commit to one".to_string(),
                ),
            )
        };
    }
    if same_ignoring_case(actual, claimed) {
        Ok(())
    } else {
        let mut text = concat3("hash mismatch: peer claimed ", claimed, ", bytes hash to ");
        text.append(actual);
        Err(AppError::Invalid(text))
    }
}

/// A remote result passes only when it names the hash of its bytes.
pub proof fn law_remote_results_carry_their_hash(actual: Seq<char>, claimed: Seq<char>)
    ensures
        hash_fault(actual, claimed, false) is None <==> claimed.len() > 0 && lower(actual) == lower(
            claimed,
        ),
{
}

/// Shaped like a path: from the root, or behind a drive letter.
pub open spec fn path_shaped(s: Seq<char>) -> bool {
    let bytes = encode_utf8(s);
    starts_with(s, "/"@) || (bytes.len() > 2 && bytes[1] == 58 && contains(s, "\\"@))
}

pub fn looks_like_path(s: &str) -> (r: bool)
    ensures
        r == path_shaped(s@),
{
    if has_prefix(s, "/") {
        return true;
    }
    let bytes = s.as_bytes();
    bytes.len() > 2 && bytes[1] == 58 && has_text(s, "\\")
}

/// Where the bytes of a picture come from.
#[derive(Debug, PartialEq)]
pub enum ImageSource {
    /// They are here.
    Bytes(Vec<u8>),
    /// They are in this file.
    File(String),
}

/// Where the bytes of a payload come from. Only a worker on this machine may
/// name a file; anything else has to be base64.
pub fn decode_image_payload(payload: &str, local: bool) -> (r: Result<ImageSource, AppError>)
    ensures
        match r {
            Ok(ImageSource::File(p)) => local && path_shaped(payload@) && p@ == payload@,
            Ok(ImageSource::Bytes(b)) => {
                &&& !(local && path_shaped(payload@))
                &&& base64_read(trimmed(payload@)) == Some(b@)
            },
            Err(e) => {
                &&& !(local && path_shaped(payload@))
                &&& base64_read(trimmed(payload@)) is None
                &&& e@ == Trouble::Invalid(
                    "image is not valid base64: "@ + base64_complaint(trimmed(payload@)),
                )
            },
        },
{
    if local && looks_like_path(payload) {
        return Ok(ImageSource::File(payload.to_string()));
    }
    match base64_decode(trim(payload).as_str()) {
        Ok(b) => Ok(ImageSource::Bytes(b)),
        Err(why) => Err(AppError::Invalid(concat("image is not valid base64: ", why.as_str()))),
    }
}

/// Whether a named file may be read: its path is absolute and it is not too
/// large, as far as its size is known.
pub fn check_local_file(absolute: bool, size: Option<u64>) -> (r: Result<(), AppError>)
    ensures
        match r {
            Ok(_) => absolute && (size matches Some(n) ==> n <= MAX_LOCAL_READ),
            Err(e) => if !absolute {
                e@ == Trouble::Invalid("image path must be absolute"@)
            } else {
                &&& size matches Some(n) && n > MAX_LOCAL_READ
                &&& e@ == Trouble::Invalid("image file is too large"@)
            },
        },
{
    if !absolute {
        return Err(AppError::Invalid("image path must be absolute".to_string()));
    }
    if let Some(n) = size {
        if n > MAX_LOCAL_READ {
            return Err(AppError::Invalid("image file is too large".to_string()));
        }
    }
    Ok(())
}

/// How a file that could not be read is told.
pub fn unreadable_file(path: &str, reason: &str) -> (r: AppError)
    ensures
        r@ == Trouble::Invalid("cannot read image at "@ + path@ + ": "@ + reason@),
{
    let mut text = concat3("cannot read image at ", path, ": ");
    text.append(reason);
    AppError::Invalid(text)
}

/// What the payload of a picture or film is called.
pub open spec fn payload_word(kind: JobKind) -> Seq<char> {
    if kind == JobKind::Video {
        "video"@
    } else {
        "image"@
    }
}

/// Where the bytes of a picture or a film come from, when the result has any.
pub fn image_source(result: &JobResult, local: bool) -> (r: Result<ImageSource, AppError>)
    ensures
        match opt(result.image_path_or_b64) {
            None => r matches Err(e) && e@ == Trouble::Invalid(
                payload_word(result.kind) + " result has no "@ + payload_word(result.kind)
                    + " data"@,
            ),
            Some(payload) => match r {
                Ok(ImageSource::File(p)) => local && path_shaped(payload) && p@ == payload,
                Ok(ImageSource::Bytes(b)) => {
                    &&& !(local && path_shaped(payload))
                    &&& base64_read(trimmed(payload)) == Some(b@)
                },
                Err(e) => {
                    &&& !(local && path_shaped(payload))
                    &&& base64_read(trimmed(payload)) is None
                    &&& e@ == Trouble::Invalid(
                        "image is not valid base64: "@ + base64_complaint(trimmed(payload)),
                    )
                },
            },
        },
{
    match &result.image_path_or_b64 {
        None => {
            let what = if result.kind == JobKind::Video {
                "video"
            } else {
                "image"
            };
            let mut text = concat3(what, " result has no ", what);
            text.append(" data");
            Err(AppError::Invalid(text))
        },
        Some(payload) => decode_image_payload(payload.as_str(), local),
    }
}

/// The text of a result, held to its hash.
pub fn materialize_text(result: &JobResult, local: bool, now: i64) -> (r: Result<
    ResultRecord,
    AppError,
>)
    ensures
        match opt(result.text) {
            None => r matches Err(e) && e@ == Trouble::Invalid("llm result has no text"@),
            Some(t) => {
                let actual = sha256_text(encode_utf8(t));
                match r {
                    Ok(rec) => {
                        &&& hash_fault(actual, result.sha256@, local) is None
                        &&& rec.job_id == result.job_id
                        &&& rec.kind == JobKind::Llm
                        &&& rec.sha256@ == actual
                        &&& opt(rec.text) == Some(t)
                        &&& rec.image_path is None
                        &&& rec.meta@ == result.meta@
                        &&& rec.created_at == now
                    },
                    Err(e) => match hash_fault(actual, result.sha256@, local) {
                        Some(why) => e@ == Trouble::Invalid(why),
                        None => false,
                    },
                }
            },
        },
{
    let text = match &result.text {
        Some(t) => t.clone(),
        None => {
            return Err(AppError::Invalid("llm result has no text".to_string()));
        },
    };
    let actual = sha256_of_text(text.as_str());
    match verify(actual.as_str(), result.sha256.as_str(), local) {
        Err(e) => Err(e),
        Ok(_) => Ok(
            ResultRecord {
                job_id: result.job_id,
                kind: JobKind::Llm,
                sha256: actual,
                text: Some(text),
                image_path: None,
                meta: result.meta.copy(),
                created_at: now,
            },
        ),
    }
}

// ----------------------------------------------------------------- file names

/// The bytes a file begins with.
pub open spec fn begins(bytes: Seq<u8>, at: int, mark: Seq<u8>) -> bool {
    at + mark.len() <= bytes.len() && bytes.subrange(at, at + mark.len()) == mark
}

/// The name a file's first bytes give its kind.
pub open spec fn ext_of(bytes: Seq<u8>) -> Seq<char> {
    if begins(bytes, 0, seq![0x89u8, 0x50, 0x4e, 0x47, 0x0d, 0x0a, 0x1a, 0x0a]) {
        "png"@
    } else if begins(bytes, 0, seq![0xffu8, 0xd8, 0xff]) {
        "jpg"@
    } else if begins(bytes, 0, seq![0x52u8, 0x49, 0x46, 0x46]) && begins(
        bytes,
        8,
        seq![0x57u8, 0x45, 0x42, 0x50],
    ) {
        "webp"@
    } else if begins(bytes, 0, seq![0x47u8, 0x49, 0x46, 0x38, 0x37, 0x61]) || begins(
        bytes,
        0,
        seq![0x47u8, 0x49, 0x46, 0x38, 0x39, 0x61],
    ) {
        "gif"@
    } else if begins(bytes, 4, seq![0x66u8, 0x74, 0x79, 0x70]) {
        "mp4"@
    } else if begins(bytes, 0, seq![0x1au8, 0x45, 0xdf, 0xa3]) {
        "webm"@
    } else {
        "bin"@
    }
}

fn has_mark(bytes: &Vec<u8>, at: usize, mark: &Vec<u8>) -> (r: bool)
    requires
        at <= 8,
        mark@.len() <= 8,
    ensures
        r == begins(bytes@, at as int, mark@),
{
    if bytes.len() < at + mark.len() {
        return false;
    }
    let mut i: usize = 0;
    while i < mark.len()
        invariant
            at <= 8,
            mark@.len() <= 8,
            at + mark@.len() <= bytes@.len(),
            i <= mark@.len(),
            forall|k: int| 0 <= k < i ==> bytes@[at + k] == #[trigger] mark@[k],
        decreases mark@.len() - i,
    {
        if bytes[at + i] != mark[i] {
            assert(bytes@.subrange(at as int, at + mark@.len())[i as int] != mark@[i as int]);
            return false;
        }
        i = i + 1;
    }
    assert(bytes@.subrange(at as int, at + mark@.len()) =~= mark@);
    true
}

pub fn detect_ext(bytes: &Vec<u8>) -> (r: &'static str)
    ensures
        r@ == ext_of(bytes@),
{
    if has_mark(bytes, 0, &vec![0x89u8, 0x50, 0x4e, 0x47, 0x0d, 0x0a, 0x1a, 0x0a]) {
        "png"
    } else if has_mark(bytes, 0, &vec![0xffu8, 0xd8, 0xff]) {
        "jpg"
    } else if has_mark(bytes, 0, &vec![0x52u8, 0x49, 0x46, 0x46]) && has_mark(
        bytes,
        8,
        &vec![0x57u8, 0x45, 0x42, 0x50],
    ) {
        "webp"
    } else if has_mark(bytes, 0, &vec![0x47u8, 0x49, 0x46, 0x38, 0x37, 0x61]) || has_mark(
        bytes,
        0,
        &vec![0x47u8, 0x49, 0x46, 0x38, 0x39, 0x61],
    ) {
        "gif"
    } else if has_mark(bytes, 4, &vec![0x66u8, 0x74, 0x79, 0x70]) {
        "mp4"
    } else if has_mark(bytes, 0, &vec![0x1au8, 0x45, 0xdf, 0xa3]) {
        "webm"
    } else {
        "bin"
    }
}

/// The file a picture or a film is kept in: named by its hash and its kind.
pub open spec fn file_name(bytes: Seq<u8>) -> Seq<char> {
    "rootmode-"@ + first_chars(sha256_text(bytes), 16) + "."@ + ext_of(bytes)
}

/// A picture or a film that may be kept: under which name, with which hash.
#[derive(Debug, PartialEq)]
pub struct Keep {
    pub name: String,
    pub sha256: String,
}

/// Holds the bytes of a picture or a film to the hash the result claims.
pub fn check_image(result: &JobResult, bytes: &Vec<u8>, local: bool) -> (r: Result<Keep, AppError>)
    ensures
        ({
            let actual = sha256_text(bytes@);
            match r {
                Ok(k) => {
                    &&& hash_fault(actual, result.sha256@, local) is None
                    &&& k.sha256@ == actual
                    &&& k.name@ == file_name(bytes@)
                },
                Err(e) => match hash_fault(actual, result.sha256@, local) {
                    Some(why) => e@ == Trouble::Invalid(why),
                    None => false,
                },
            }
        }),
{
    let actual = sha256_hex(bytes.as_slice());
    match verify(actual.as_str(), result.sha256.as_str(), local) {
        Err(e) => Err(e),
        Ok(_) => {
            let mut name = concat3("rootmode-", take_chars(actual.as_str(), 16).as_str(), ".");
            name.append(detect_ext(bytes));
            Ok(Keep { name, sha256: actual })
        },
    }
}

/// The record of a picture or a film that was kept at a path.
pub fn image_record(result: &JobResult, sha256: String, path: String, now: i64) -> (r: ResultRecord)
    ensures
        r.job_id == result.job_id,
        r.kind == result.kind,
        r.sha256@ == sha256@,
        r.text is None,
        opt(r.image_path) == Some(path@),
        r.meta@ == result.meta@,
        r.created_at == now,
{
    ResultRecord {
        job_id: result.job_id,
        kind: result.kind,
        sha256,
        text: None,
        image_path: Some(path),
        meta: result.meta.copy(),
        created_at: now,
    }
}

/// The name a file is kept under shows the start of the hash of its bytes.
pub proof fn law_files_are_named_by_hash(bytes: Seq<u8>)
    ensures
        contains(file_name(bytes), first_chars(sha256_text(bytes), 16)),
{
    let mark = first_chars(sha256_text(bytes), 16);
    lemma_contains_middle("rootmode-"@, mark, "."@ + ext_of(bytes));
    assert("rootmode-"@ + mark + ("."@ + ext_of(bytes)) =~= file_name(bytes));
}

} // verus!
