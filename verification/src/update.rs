//! Whether there is a newer version.
use vstd::prelude::*;

use crate::protocol::opt;
use crate::text::{parse_number, parsed, split, split_char, texts, trim, trim_start_matches, trimmed, without_leading};

verus! {

broadcast use vstd::string::group_string_axioms;

/// This version.
pub const CURRENT: &'static str = "0.1.5";

/// Who is asked first.
pub const SITE: &'static str = "https://rootmode.ai/version";

/// Who is asked where the first does not answer. It learns nothing of this
/// install.
pub const GITHUB: &'static str = "https://api.github.com/repos/rootmodeai/rootmode/releases/latest";

/// Where a new version is to be had where nobody says.
pub const DOWNLOAD: &'static str = "https://rootmode.ai/download";

pub const SETTING_SKIPPED: &'static str = "skipped_update";

/// What this install says of itself: an id it made up, and its platform.
#[derive(Debug, PartialEq)]
pub struct Hello {
    pub install: String,
    pub os: String,
    pub arch: String,
}

/// What there is to know of updates.
#[derive(Debug, PartialEq)]
pub struct UpdateInfo {
    pub current: String,
    pub latest: Option<String>,
    pub available: bool,
    pub url: String,
}

/// An answer to the question for the newest version.
#[derive(Debug, PartialEq)]
pub struct VersionBody {
    pub version: String,
    pub tag: String,
    pub tag_name: String,
    pub url: String,
}

/// A version without the `v` people put in front.
pub open spec fn bare(s: Seq<char>) -> Seq<char> {
    without_leading(trimmed(s), "v"@)
}

/// A version's three numbers. The third may be missing or be no number, and
/// is then zero; anything after it is ignored.
pub open spec fn version_of(s: Seq<char>) -> Option<(u64, u64, u64)> {
    let parts = split(bare(s), '.');
    if parts.len() < 2 {
        None
    } else {
        match (parsed(parts[0], 10), parsed(parts[1], 10)) {
            (Some(major), Some(minor)) => Some(
                (
                    major,
                    minor,
                    if parts.len() > 2 {
                        match parsed(parts[2], 10) {
                            Some(n) => n,
                            None => 0,
                        }
                    } else {
                        0
                    },
                ),
            ),
            _ => None,
        }
    }
}

/// The first number decides, then the second, then the third.
pub open spec fn later(a: (u64, u64, u64), b: (u64, u64, u64)) -> bool {
    a.0 > b.0 || (a.0 == b.0 && (a.1 > b.1 || (a.1 == b.1 && a.2 > b.2)))
}

/// Whether the second version is later than the first; what is no version is
/// never later.
pub open spec fn is_newer(current: Seq<char>, latest: Seq<char>) -> bool {
    match (version_of(current), version_of(latest)) {
        (Some(c), Some(l)) => later(l, c),
        _ => false,
    }
}

pub fn parse(s: &str) -> (r: Option<(u64, u64, u64)>)
    ensures
        r == version_of(s@),
{
    let t = trim_start_matches(trim(s).as_str(), "v");
    let parts = split_char(t.as_str(), '.');
    assert(texts(parts@).len() == parts@.len());
    if parts.len() < 2 {
        return None;
    }
    assert(texts(parts@)[0] == parts@[0]@);
    assert(texts(parts@)[1] == parts@[1]@);
    let major = match parse_number(parts[0].as_str(), 10) {
        Some(n) => n,
        None => {
            return None;
        },
    };
    let minor = match parse_number(parts[1].as_str(), 10) {
        Some(n) => n,
        None => {
            return None;
        },
    };
    let mut patch: u64 = 0;
    if parts.len() > 2 {
        assert(texts(parts@)[2] == parts@[2]@);
        if let Some(n) = parse_number(parts[2].as_str(), 10) {
            patch = n;
        }
    }
    Some((major, minor, patch))
}

pub fn newer(current: &str, latest: &str) -> (r: bool)
    ensures
        r == is_newer(current@, latest@),
{
    match (parse(current), parse(latest)) {
        (Some(c), Some(l)) => l.0 > c.0 || (l.0 == c.0 && (l.1 > c.1 || (l.1 == c.1 && l.2 > c.2))),
        _ => false,
    }
}

/// The version an answer names: `version` where it is given, else `tag`, else
/// `tag_name`.
pub open spec fn named_version(body: VersionBody) -> Option<Seq<char>> {
    let raw = if body.version@.len() > 0 {
        body.version@
    } else if body.tag@.len() > 0 {
        body.tag@
    } else {
        body.tag_name@
    };
    if bare(raw).len() > 0 {
        Some(bare(raw))
    } else {
        None
    }
}

pub fn tag_to_version(body: &VersionBody) -> (r: Option<String>)
    ensures
        opt(r) == named_version(*body),
{
    let raw = if !body.version.as_str().is_empty() {
        body.version.as_str()
    } else if !body.tag.as_str().is_empty() {
        body.tag.as_str()
    } else {
        body.tag_name.as_str()
    };
    let v = trim_start_matches(trim(raw).as_str(), "v");
    if v.as_str().is_empty() {
        None
    } else {
        Some(v)
    }
}

/// What there is to know of updates, given the answer.
pub fn update_info(body: &VersionBody) -> (r: UpdateInfo)
    ensures
        r.current@ == CURRENT@,
        opt(r.latest) == named_version(*body),
        r.available == (match named_version(*body) {
            Some(v) => is_newer(CURRENT@, v),
            None => false,
        }),
        r.url@ == (if body.url@.len() > 0 {
            body.url@
        } else {
            DOWNLOAD@
        }),
{
    let latest = tag_to_version(body);
    let available = match &latest {
        Some(v) => newer(CURRENT, v.as_str()),
        None => false,
    };
    let url = if body.url.as_str().is_empty() {
        DOWNLOAD.to_string()
    } else {
        body.url.clone()
    };
    UpdateInfo { current: CURRENT.to_string(), latest, available, url }
}

/// No version is newer than itself, and of two versions at most one is newer
/// than the other.
pub proof fn law_newer_is_an_order(a: Seq<char>, b: Seq<char>)
    ensures
        !is_newer(a, a),
        !(is_newer(a, b) && is_newer(b, a)),
{
}

/// What is newer than something newer is newer.
pub proof fn law_newer_is_transitive(a: Seq<char>, b: Seq<char>, c: Seq<char>)
    requires
        is_newer(a, b),
        is_newer(b, c),
    ensures
        is_newer(a, c),
{
}

} // verus!
