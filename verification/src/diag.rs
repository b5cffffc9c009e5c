//! What a run writes down of itself.
use vstd::prelude::*;

use crate::protocol::{copy_opt, opt};
use crate::text::{
    concat, concat3, chars_of, lines, lines_of, strip_prefix, stripped, text_of, texts,
};

verus! {

broadcast use vstd::string::group_string_axioms;

pub const LOG_FILE: &'static str = "rootmode.log";

/// The log of the run before this one.
pub const PREVIOUS_LOG_FILE: &'static str = "rootmode.log.1";

/// What the app's data is filed under.
pub const IDENTIFIER: &'static str = "ai.rootmode.desktop";

/// Where this run writes its log, given what it opened.
pub fn log_path(opened: &Option<String>) -> (r: Option<String>)
    ensures
        opt(r) == opt(*opened),
{
    copy_opt(opened)
}

/// How many milliseconds have passed since logging began; none before it did.
pub fn uptime_ms(started: Option<u128>, now: u128) -> (r: u128)
    ensures
        r == (match started {
            Some(t) if t <= now => (now - t) as u128,
            _ => 0,
        }),
{
    match started {
        Some(t) => if t <= now {
            now - t
        } else {
            0
        },
        None => 0,
    }
}

/// Without the quotes around it.
pub open spec fn unquoted_start(s: Seq<char>) -> Seq<char>
    decreases s.len(),
{
    if s.len() > 0 && s[0] == '"' {
        unquoted_start(s.drop_first())
    } else {
        s
    }
}

pub open spec fn unquoted_end(s: Seq<char>) -> Seq<char>
    decreases s.len(),
{
    if s.len() > 0 && s.last() == '"' {
        unquoted_end(s.drop_last())
    } else {
        s
    }
}

fn unquote(s: &str) -> (r: String)
    ensures
        r@ == unquoted_end(unquoted_start(s@)),
{
    let v = chars_of(s);
    let n: usize = v.len();
    let mut a: usize = 0;
    assert(v@.skip(0) =~= v@);
    while a < n && v[a] == '"'
        invariant
            a <= n,
            n == v@.len(),
            unquoted_start(v@) == unquoted_start(v@.skip(a as int)),
        decreases n - a,
    {
        assert(v@.skip(a as int).drop_first() =~= v@.skip(a as int + 1));
        a = a + 1;
    }
    let mut b: usize = n;
    assert(v@.skip(a as int) =~= v@.subrange(a as int, n as int));
    while b > a && v[b - 1] == '"'
        invariant
            a <= b <= n,
            n == v@.len(),
            unquoted_end(v@.skip(a as int)) == unquoted_end(v@.subrange(a as int, b as int)),
        decreases b,
    {
        assert(v@.subrange(a as int, b as int).drop_last() =~= v@.subrange(
            a as int,
            b as int - 1,
        ));
        b = b - 1;
    }
    text_of(&v, a, b)
}

/// The name a Linux distribution gives itself, in the first line that does.
pub open spec fn pretty_name(ls: Seq<Seq<char>>) -> Option<Seq<char>>
    decreases ls.len(),
{
    if ls.len() == 0 {
        None
    } else {
        match stripped(ls[0], "PRETTY_NAME="@) {
            Some(v) => Some(unquoted_end(unquoted_start(v))),
            None => pretty_name(ls.drop_first()),
        }
    }
}

fn find_pretty_name(os_release: &str) -> (r: Option<String>)
    ensures
        opt(r) == pretty_name(lines(os_release@)),
{
    let all = lines_of(os_release);
    let ghost ls = lines(os_release@);
    let mut i: usize = 0;
    assert(ls.skip(0) =~= ls);
    while i < all.len()
        invariant
            i <= all@.len(),
            texts(all@) == ls,
            ls == lines(os_release@),
            pretty_name(ls) == pretty_name(ls.skip(i as int)),
        decreases all@.len() - i,
    {
        assert(ls.skip(i as int)[0] == all@[i as int]@);
        if let Some(v) = strip_prefix(all[i].as_str(), "PRETTY_NAME=") {
            return Some(unquote(v.as_str()));
        }
        assert(ls.skip(i as int).drop_first() =~= ls.skip(i as int + 1));
        i = i + 1;
    }
    None
}

/// The system in words: what the distribution calls itself, and its kernel.
pub fn os_release(file: &Option<String>, kernel: &str) -> (r: String)
    ensures
        r@ == (match opt(*file) {
            Some(s) => match pretty_name(lines(s)) {
                Some(n) => n,
                None => "Linux (no /etc/os-release)"@,
            },
            None => "Linux (no /etc/os-release)"@,
        }) + ", kernel "@ + kernel@,
{
    let found = match file {
        Some(s) => find_pretty_name(s.as_str()),
        None => None,
    };
    let pretty = match found {
        Some(n) => n,
        None => "Linux (no /etc/os-release)".to_string(),
    };
    concat3(pretty.as_str(), ", kernel ", kernel)
}

/// A setting of the environment as it is written down; an unset one too.
pub fn knob(name: &str, value: &Option<String>) -> (r: String)
    ensures
        r@ == (match opt(*value) {
            Some(v) => name@ + "="@ + v,
            None => name@ + "=<unset>"@,
        }),
{
    match value {
        Some(v) => concat3(name, "=", v.as_str()),
        None => concat(name, "=<unset>"),
    }
}

/// What a version of macOS is called.
pub fn macos_release(version: &str, build: &str) -> (r: String)
    ensures
        r@ == (if version@.len() == 0 {
            "macOS (version unknown)"@
        } else {
            "macOS "@ + version@ + " ("@ + build@ + ")"@
        }),
{
    if version.is_empty() {
        return "macOS (version unknown)".to_string();
    }
    let mut r = concat3("macOS ", version, " (");
    r.append(build);
    r.append(")");
    r
}

} // verus!
