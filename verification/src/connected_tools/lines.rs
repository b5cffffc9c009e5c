//! Settings kept line by line: every line that is not ours stays as it is.
use vstd::prelude::*;

use crate::protocol::{copy_texts, opt};
use crate::text::{
    blank, chars_of, concat, concat3, has_prefix, is_blank, is_white, join, joined,
    lemma_texts_push, lemma_trim_is_part, lines, lines_of, same, starts_with, texts, trim, trim_end, trim_left,
    trim_start, trimmed,
};

verus! {

broadcast use vstd::string::group_string_axioms;

/// The name this app's provider goes by.
pub const PROVIDER_KEY: &'static str = "rootmode";

/// The variable a tool that takes no key in its settings reads it from.
pub const CODEX_ENV_VAR: &'static str = "ROOTMODE_GATEWAY_TOKEN";

// ------------------------------------------------------------------ finding

/// The first line between two places that starts with `p`, white space aside;
/// the second place when there is none.
pub open spec fn first_starting(ls: Seq<Seq<char>>, p: Seq<char>, i: int, limit: int) -> int
    decreases limit - i,
{
    if i >= limit {
        limit
    } else if starts_with(trim_start(ls[i]), p) {
        i
    } else {
        first_starting(ls, p, i + 1, limit)
    }
}

pub proof fn lemma_first_starting(ls: Seq<Seq<char>>, p: Seq<char>, i: int, limit: int)
    requires
        0 <= i <= limit <= ls.len(),
    ensures
        ({
            let k = first_starting(ls, p, i, limit);
            &&& i <= k <= limit
            &&& k < limit ==> starts_with(trim_start(ls[k]), p)
            &&& forall|j: int| i <= j < k ==> !starts_with(trim_start(#[trigger] ls[j]), p)
        }),
    decreases limit - i,
{
    if i < limit && !starts_with(trim_start(ls[i]), p) {
        lemma_first_starting(ls, p, i + 1, limit);
    }
}

/// The place that is the first is found.
pub proof fn lemma_first_starting_is(
    ls: Seq<Seq<char>>,
    p: Seq<char>,
    i: int,
    limit: int,
    k: int,
)
    requires
        0 <= i <= k <= limit <= ls.len(),
        k < limit ==> starts_with(trim_start(ls[k]), p),
        forall|j: int| i <= j < k ==> !starts_with(trim_start(#[trigger] ls[j]), p),
    ensures
        first_starting(ls, p, i, limit) == k,
{
    lemma_first_starting(ls, p, i, limit);
    let f = first_starting(ls, p, i, limit);
    if f < k {
        assert(starts_with(trim_start(ls[f]), p));
    }
    if k < f {
        assert(!starts_with(trim_start(ls[k]), p));
    }
}

fn find_starting(ls: &Vec<String>, p: &str, from: usize, limit: usize) -> (r: usize)
    requires
        from <= limit <= ls@.len(),
    ensures
        from <= r <= limit,
        r == first_starting(texts(ls@), p@, from as int, limit as int),
{
    let mut i: usize = from;
    while i < limit
        invariant
            from <= i <= limit <= ls@.len(),
            first_starting(texts(ls@), p@, from as int, limit as int) == first_starting(
                texts(ls@),
                p@,
                i as int,
                limit as int,
            ),
        decreases limit - i,
    {
        if has_prefix(trim_left(ls[i].as_str()).as_str(), p) {
            return i;
        }
        i = i + 1;
    }
    limit
}

/// The lines with one replaced.
fn replaced(ls: &Vec<String>, i: usize, line: String) -> (r: Vec<String>)
    requires
        i < ls@.len(),
    ensures
        texts(r@) == texts(ls@).update(i as int, line@),
{
    let mut out = copy_texts(ls);
    let ghost before = out@;
    assert(texts(before).len() == before.len());
    assert(texts(ls@).len() == ls@.len());
    out.set(i, line);
    assert(texts(out@) =~= texts(before).update(i as int, line@));
    out
}

/// The lines between two places.
fn part(ls: &Vec<String>, from: usize, to: usize) -> (r: Vec<String>)
    requires
        from <= to <= ls@.len(),
    ensures
        texts(r@) == texts(ls@).subrange(from as int, to as int),
{
    let mut out: Vec<String> = Vec::new();
    let mut i: usize = from;
    assert(texts(out@) =~= texts(ls@).subrange(from as int, from as int));
    while i < to
        invariant
            from <= i <= to <= ls@.len(),
            texts(out@) == texts(ls@).subrange(from as int, i as int),
        decreases to - i,
    {
        let line = ls[i].clone();
        proof {
            lemma_texts_push(out@, line);
            assert(texts(ls@).subrange(from as int, i as int + 1) =~= texts(ls@).subrange(
                from as int,
                i as int,
            ).push(line@));
        }
        out.push(line);
        i = i + 1;
    }
    out
}

fn followed(first: Vec<String>, rest: Vec<String>) -> (r: Vec<String>)
    ensures
        texts(r@) == texts(first@) + texts(rest@),
{
    let mut out = first;
    let mut rest = rest;
    let ghost a = out@;
    let ghost b = rest@;
    out.append(&mut rest);
    assert(texts(out@) =~= texts(a) + texts(b));
    out
}

fn push_line(out: &mut Vec<String>, line: String)
    ensures
        texts(final(out)@) == texts(old(out)@).push(line@),
{
    proof {
        lemma_texts_push(out@, line);
    }
    out.push(line);
}

/// The lines of a file; none where there is no file.
pub open spec fn file_lines(existing: Option<Seq<char>>) -> Seq<Seq<char>> {
    match existing {
        Some(s) => lines(s),
        None => seq![],
    }
}

pub fn codex_lines(existing: &Option<String>) -> (r: Vec<String>)
    ensures
        texts(r@) == file_lines(opt(*existing)),
{
    match existing {
        Some(s) => lines_of(s.as_str()),
        None => {
            let r: Vec<String> = Vec::new();
            assert(texts(r@) =~= seq![]);
            r
        },
    }
}

/// Lines as a file, each ended.
pub open spec fn file_text(ls: Seq<Seq<char>>) -> Seq<char> {
    joined(ls, "\n"@) + "\n"@
}

fn file_of(ls: &Vec<String>) -> (r: String)
    ensures
        r@ == file_text(texts(ls@)),
{
    concat(join(ls, "\n").as_str(), "\n")
}

// --------------------------------------------------------------------- TOML

/// A character as it stands inside a quoted TOML text.
pub open spec fn toml_char(c: char) -> Seq<char> {
    if c == '\\' {
        seq!['\\', '\\']
    } else if c == '"' {
        seq!['\\', '"']
    } else {
        seq![c]
    }
}

pub open spec fn toml_escaped(s: Seq<char>) -> Seq<char>
    decreases s.len(),
{
    if s.len() == 0 {
        seq![]
    } else {
        toml_escaped(s.drop_last()) + toml_char(s.last())
    }
}

/// A quoted TOML text.
pub open spec fn toml_quoted(s: Seq<char>) -> Seq<char> {
    "\""@ + toml_escaped(s) + "\""@
}

pub fn toml_string(value: &str) -> (r: String)
    ensures
        r@ == toml_quoted(value@),
{
    let v = chars_of(value);
    let mut body = String::new();
    let mut i: usize = 0;
    assert(body@ =~= toml_escaped(v@.take(0)));
    while i < v.len()
        invariant
            i <= v@.len(),
            body@ == toml_escaped(v@.take(i as int)),
        decreases v@.len() - i,
    {
        let ghost now = v@.take(i as int + 1);
        let ghost before = body@;
        assert(now.drop_last() =~= v@.take(i as int));
        if v[i] == '\\' || v[i] == '"' {
            body.push('\\');
        }
        body.push(v[i]);
        assert(body@ =~= before + toml_char(v@[i as int]));
        i = i + 1;
    }
    assert(v@.take(i as int) =~= v@);
    concat3("\"", body.as_str(), "\"")
}

/// Reading what is inside a quoted TOML text: a backslash stands for the
/// character after it.
pub open spec fn toml_read(s: Seq<char>) -> Seq<char>
    decreases s.len(),
{
    if s.len() == 0 {
        seq![]
    } else if s[0] == '\\' && s.len() > 1 {
        seq![s[1]] + toml_read(s.skip(2))
    } else {
        seq![s[0]] + toml_read(s.drop_first())
    }
}

/// What is quoted reads back as what it was.
pub proof fn law_toml_quoting_reads_back(s: Seq<char>)
    ensures
        toml_read(toml_escaped(s)) == s,
    decreases s.len(),
{
    if s.len() > 0 {
        law_toml_quoting_reads_back(s.drop_last());
        lemma_toml_read_more(toml_escaped(s.drop_last()), s.drop_last(), s.last());
        assert(s.drop_last().push(s.last()) =~= s);
    } else {
        assert(toml_read(toml_escaped(s)) =~= s);
    }
}

/// No backslash is left without the character it stands for.
spec fn paired(s: Seq<char>) -> bool
    decreases s.len(),
{
    if s.len() == 0 {
        true
    } else if s[0] == '\\' {
        s.len() > 1 && paired(s.skip(2))
    } else {
        paired(s.drop_first())
    }
}

proof fn lemma_paired_more(e: Seq<char>, c: char)
    requires
        paired(e),
    ensures
        paired(e + toml_char(c)),
        toml_read(e + toml_char(c)) == toml_read(e).push(c),
    decreases e.len(),
{
    let t = toml_char(c);
    let all = e + t;
    let none = Seq::<char>::empty();
    assert(toml_read(none) =~= none);
    assert(paired(none));
    if e.len() == 0 {
        assert(all =~= t);
        if c == '\\' || c == '"' {
            assert(t.skip(2) =~= none);
            assert(toml_read(t) =~= seq![c]);
        } else {
            assert(t.drop_first() =~= none);
            assert(toml_read(t) =~= seq![c]);
        }
        assert(toml_read(e).push(c) =~= seq![c]);
    } else if e[0] == '\\' {
        lemma_paired_more(e.skip(2), c);
        assert(all.skip(2) =~= e.skip(2) + t);
        assert(toml_read(all) =~= toml_read(e).push(c));
    } else {
        lemma_paired_more(e.drop_first(), c);
        assert(all.drop_first() =~= e.drop_first() + t);
        assert(toml_read(all) =~= toml_read(e).push(c));
    }
}

proof fn lemma_escaped_paired(s: Seq<char>)
    ensures
        paired(toml_escaped(s)),
    decreases s.len(),
{
    if s.len() > 0 {
        lemma_escaped_paired(s.drop_last());
        lemma_paired_more(toml_escaped(s.drop_last()), s.last());
    }
}

proof fn lemma_toml_read_more(e: Seq<char>, s: Seq<char>, c: char)
    requires
        e == toml_escaped(s),
        toml_read(e) == s,
    ensures
        toml_read(e + toml_char(c)) == s.push(c),
{
    lemma_escaped_paired(s);
    lemma_paired_more(e, c);
}

/// Where the first table begins; before it stand the top-level keys.
pub open spec fn first_table(ls: Seq<Seq<char>>) -> int {
    first_starting(ls, "["@, 0, ls.len() as int)
}

pub fn first_table_index(ls: &Vec<String>) -> (r: usize)
    ensures
        r == first_table(texts(ls@)),
        r <= ls@.len(),
{
    find_starting(ls, "[", 0, ls.len())
}

/// The line that begins this app's provider.
pub open spec fn provider_header() -> Seq<char> {
    "[model_providers."@ + PROVIDER_KEY@ + "]"@
}

pub fn is_provider_header(line: &str) -> (r: bool)
    ensures
        r == (trimmed(line@) == provider_header()),
{
    let header = concat3("[model_providers.", PROVIDER_KEY, "]");
    same(trim(line).as_str(), header.as_str())
}

/// The first line at or after `i` that begins this app's provider; the number
/// of lines when there is none.
pub open spec fn header_from(ls: Seq<Seq<char>>, i: int) -> int
    decreases ls.len() - i,
{
    if i >= ls.len() {
        ls.len() as int
    } else if trimmed(ls[i]) == provider_header() {
        i
    } else {
        header_from(ls, i + 1)
    }
}

pub proof fn lemma_header_from(ls: Seq<Seq<char>>, i: int)
    requires
        0 <= i <= ls.len(),
    ensures
        ({
            let k = header_from(ls, i);
            &&& i <= k <= ls.len()
            &&& k < ls.len() ==> trimmed(ls[k]) == provider_header()
            &&& forall|j: int| i <= j < k ==> trimmed(#[trigger] ls[j]) != provider_header()
        }),
    decreases ls.len() - i,
{
    if i < ls.len() && trimmed(ls[i]) != provider_header() {
        lemma_header_from(ls, i + 1);
    }
}

/// The lines without this app's provider: from its header up to the next
/// table.
pub open spec fn without_provider(ls: Seq<Seq<char>>) -> Seq<Seq<char>> {
    let start = header_from(ls, 0);
    if start >= ls.len() {
        ls
    } else {
        let end = first_starting(ls, "["@, start + 1, ls.len() as int);
        ls.take(start) + ls.skip(end)
    }
}

pub fn remove_provider_table(ls: &Vec<String>) -> (r: Vec<String>)
    ensures
        texts(r@) == without_provider(texts(ls@)),
{
    let ghost all = texts(ls@);
    let n: usize = ls.len();
    let mut start: usize = 0;
    while start < n && !is_provider_header(ls[start].as_str())
        invariant
            start <= n,
            n == ls@.len(),
            all == texts(ls@),
            header_from(all, 0) == header_from(all, start as int),
        decreases n - start,
    {
        start = start + 1;
    }
    if start == n {
        return copy_texts(ls);
    }
    let end: usize = find_starting(ls, "[", start + 1, n);
    assert(all.subrange(0, start as int) =~= all.take(start as int));
    assert(all.subrange(end as int, n as int) =~= all.skip(end as int));
    followed(part(ls, 0, start), part(ls, end, n))
}

/// A top-level key set: in its place, or before the first table.
pub open spec fn top_set(ls: Seq<Seq<char>>, key: Seq<char>, line: Seq<char>) -> Seq<Seq<char>> {
    let limit = first_table(ls);
    let i = first_starting(ls, key + " "@, 0, limit);
    if i < limit {
        ls.update(i, line)
    } else {
        ls.take(limit).push(line) + ls.skip(limit)
    }
}

pub fn set_top_level(ls: &Vec<String>, key: &str, assignment: String) -> (r: Vec<String>)
    ensures
        texts(r@) == top_set(texts(ls@), key@, assignment@),
{
    let ghost all = texts(ls@);
    let n: usize = ls.len();
    let limit: usize = first_table_index(ls);
    let i: usize = find_starting(ls, concat(key, " ").as_str(), 0, limit);
    if i < limit {
        return replaced(ls, i, assignment);
    }
    let mut first = part(ls, 0, limit);
    assert(all.subrange(0, limit as int) =~= all.take(limit as int));
    assert(all.subrange(limit as int, n as int) =~= all.skip(limit as int));
    push_line(&mut first, assignment);
    followed(first, part(ls, limit, n))
}

/// A top-level key taken out.
pub open spec fn top_removed(ls: Seq<Seq<char>>, key: Seq<char>) -> Seq<Seq<char>> {
    let limit = first_table(ls);
    let i = first_starting(ls, key + " "@, 0, limit);
    if i < limit {
        ls.take(i) + ls.skip(i + 1)
    } else {
        ls
    }
}

pub fn remove_top_level(ls: &Vec<String>, key: &str) -> (r: Vec<String>)
    ensures
        texts(r@) == top_removed(texts(ls@), key@),
{
    let ghost all = texts(ls@);
    let n: usize = ls.len();
    let limit: usize = first_table_index(ls);
    let i: usize = find_starting(ls, concat(key, " ").as_str(), 0, limit);
    if i < limit {
        assert(all.subrange(0, i as int) =~= all.take(i as int));
        assert(all.subrange(i as int + 1, n as int) =~= all.skip(i as int + 1));
        followed(part(ls, 0, i), part(ls, i + 1, n))
    } else {
        copy_texts(ls)
    }
}

/// Without the blank lines at the end.
pub open spec fn without_blank_end(ls: Seq<Seq<char>>) -> Seq<Seq<char>>
    decreases ls.len(),
{
    if ls.len() > 0 && blank(ls.last()) {
        without_blank_end(ls.drop_last())
    } else {
        ls
    }
}

fn drop_blank_end(ls: Vec<String>) -> (r: Vec<String>)
    ensures
        texts(r@) == without_blank_end(texts(ls@)),
{
    let mut out = ls;
    while out.len() > 0 && is_blank(out[out.len() - 1].as_str())
        invariant
            without_blank_end(texts(ls@)) == without_blank_end(texts(out@)),
        decreases out@.len(),
    {
        assert(texts(out@).last() == out@.last()@);
        let ghost before = out@;
        let gone = out.pop();
        assert(texts(before).drop_last() =~= texts(out@));
    }
    if out.len() > 0 {
        assert(texts(out@).last() == out@.last()@);
    }
    out
}

/// The lines of this app's provider.
pub open spec fn provider_table(base_url: Seq<char>) -> Seq<Seq<char>> {
    seq![
        provider_header(),
        "name = "@ + toml_quoted("rootmode"@),
        "base_url = "@ + toml_quoted(base_url + "/v1"@),
        "wire_api = \"responses\""@,
        "env_key = "@ + toml_quoted(CODEX_ENV_VAR@),
    ]
}

/// Codex's settings pointed at the endpoint.
pub open spec fn codex_connected(ls: Seq<Seq<char>>, base_url: Seq<char>, model: Seq<char>) -> Seq<
    Seq<char>,
> {
    let cleared = without_provider(ls);
    let provided = top_set(
        cleared,
        "model_provider"@,
        provider_line(),
    );
    let modelled = top_set(provided, "model"@, "model = "@ + toml_quoted(model));
    without_blank_end(modelled).push(""@) + provider_table(base_url)
}

pub fn connect_codex(existing: &Option<String>, base_url: &str, model: &str) -> (r: String)
    ensures
        r@ == file_text(codex_connected(file_lines(opt(*existing)), base_url@, model@)),
{
    let mut ls = remove_provider_table(&codex_lines(existing));
    ls = set_top_level(
        &ls,
        "model_provider",
        concat("model_provider = ", toml_string(PROVIDER_KEY).as_str()),
    );
    ls = set_top_level(&ls, "model", concat("model = ", toml_string(model).as_str()));
    let mut out = drop_blank_end(ls);
    push_line(&mut out, "".to_string());
    let ghost front = texts(out@);
    push_line(&mut out, concat3("[model_providers.", PROVIDER_KEY, "]"));
    push_line(&mut out, concat("name = ", toml_string("rootmode").as_str()));
    push_line(
        &mut out,
        concat("base_url = ", toml_string(concat(base_url, "/v1").as_str()).as_str()),
    );
    push_line(&mut out, "wire_api = \"responses\"".to_string());
    push_line(&mut out, concat("env_key = ", toml_string(CODEX_ENV_VAR).as_str()));
    assert(texts(out@) =~= front + provider_table(base_url@));
    file_of(&out)
}

/// The line that makes this app's provider the one in use.
pub open spec fn provider_line() -> Seq<char> {
    "model_provider = "@ + toml_quoted(PROVIDER_KEY@)
}

/// Whether the settings still use this app's provider.
pub open spec fn uses_provider(ls: Seq<Seq<char>>) -> bool {
    let limit = first_table(ls);
    let i = first_starting(ls, "model_provider"@ + " "@, 0, limit);
    i < limit && ls[i] == provider_line()
}

/// Codex's settings with what connecting added taken out: the provider's
/// table and, while the settings still use it, the two lines that chose it and
/// its model. Lines that choose another provider are somebody else's.
pub open spec fn codex_disconnected(ls: Seq<Seq<char>>) -> Seq<Seq<char>> {
    let rest = without_provider(ls);
    if uses_provider(rest) {
        top_removed(top_removed(rest, "model_provider"@), "model"@)
    } else {
        rest
    }
}

pub fn disconnect_codex(existing: &str) -> (r: String)
    ensures
        r@ == file_text(codex_disconnected(lines(existing@))),
{
    let ls = remove_provider_table(&lines_of(existing));
    let limit: usize = first_table_index(&ls);
    let i: usize = find_starting(&ls, concat("model_provider", " ").as_str(), 0, limit);
    let ours = concat("model_provider = ", toml_string(PROVIDER_KEY).as_str());
    if i < limit && same(ls[i].as_str(), ours.as_str()) {
        file_of(&remove_top_level(&remove_top_level(&ls, "model_provider"), "model"))
    } else {
        file_of(&ls)
    }
}

/// The lines that say something.
pub open spec fn said(ls: Seq<Seq<char>>) -> Seq<Seq<char>>
    decreases ls.len(),
{
    if ls.len() == 0 {
        seq![]
    } else if blank(ls.last()) {
        said(ls.drop_last())
    } else {
        said(ls.drop_last()).push(ls.last())
    }
}

proof fn lemma_said_add(a: Seq<Seq<char>>, b: Seq<Seq<char>>)
    ensures
        said(a + b) == said(a) + said(b),
    decreases b.len(),
{
    if b.len() == 0 {
        assert(a + b =~= a);
        assert(said(a) + said(b) =~= said(a));
    } else {
        assert((a + b).drop_last() =~= a + b.drop_last());
        lemma_said_add(a, b.drop_last());
        assert(said(a + b) =~= said(a) + said(b));
    }
}

proof fn lemma_blank_end(ls: Seq<Seq<char>>)
    ensures
        said(without_blank_end(ls)) == said(ls),
        without_blank_end(ls).len() <= ls.len(),
        without_blank_end(ls) == ls.take(without_blank_end(ls).len() as int),
        forall|i: int|
            0 <= i < ls.len() && !blank(#[trigger] ls[i]) ==> i < without_blank_end(ls).len(),
    decreases ls.len(),
{
    if ls.len() > 0 && blank(ls.last()) {
        let front = ls.drop_last();
        lemma_blank_end(front);
        let n = without_blank_end(front).len() as int;
        assert(front.take(n) =~= ls.take(n));
        assert forall|i: int| 0 <= i < ls.len() && !blank(#[trigger] ls[i]) implies i < n by {
            if i < front.len() {
                assert(front[i] == ls[i]);
            }
        }
    } else {
        assert(ls.take(ls.len() as int) =~= ls);
    }
}

/// The two lines that connecting writes at the top of the file.
proof fn lemma_top_lines(model: Seq<char>)
    ensures
        ({
            let m = "model = "@ + toml_quoted(model);
            &&& starts_with(trim_start(provider_line()), "model_provider"@ + " "@)
            &&& !starts_with(trim_start(provider_line()), "model"@ + " "@)
            &&& !starts_with(trim_start(provider_line()), "["@)
            &&& trimmed(provider_line()) != provider_header()
            &&& starts_with(trim_start(m), "model"@ + " "@)
            &&& !starts_with(trim_start(m), "model_provider"@ + " "@)
            &&& !starts_with(trim_start(m), "["@)
            &&& trimmed(m) != provider_header()
            &&& !blank(m) && !blank(provider_line())
        }),
{
    reveal_strlit("model_provider = ");
    reveal_strlit("model_provider");
    reveal_strlit("model = ");
    reveal_strlit("model");
    reveal_strlit(" ");
    reveal_strlit("[");
    reveal_strlit("[model_providers.");
    let p = provider_line();
    let m = "model = "@ + toml_quoted(model);
    assert(!is_white('m'));
    assert(p[0] == 'm' && m[0] == 'm');
    assert(trim_start(p) == p);
    assert(trim_start(m) == m);
    assert(p.take(15) =~= "model_provider"@ + " "@);
    assert(m.take(6) =~= "model"@ + " "@);
    assert(p.take(6)[5] == '_');
    assert(("model"@ + " "@)[5] == ' ');
    assert(("model_provider"@ + " "@)[5] == '_');
    if m.len() >= 15 {
        assert(m.take(15)[5] == ' ');
    }
    assert(p.take(1)[0] == 'm');
    assert(m.take(1)[0] == 'm');
    reveal_strlit("\"");
    assert(!is_white('"'));
    assert(p.last() == '"' && m.last() == '"');
    assert(trimmed(p) == p && trimmed(m) == m);
    assert(provider_header()[0] == '[');
}

/// What connecting makes of a file that chose neither a provider nor a model.
proof fn lemma_codex_connected(ls: Seq<Seq<char>>, base_url: Seq<char>, model: Seq<char>) -> (b2: Seq<
    Seq<char>,
>)
    requires
        header_from(ls, 0) == ls.len(),
        first_starting(ls, "model_provider"@ + " "@, 0, first_table(ls)) == first_table(ls),
        first_starting(ls, "model"@ + " "@, 0, first_table(ls)) == first_table(ls),
    ensures
        0 <= first_table(ls) <= ls.len(),
        without_provider(codex_connected(ls, base_url, model)) == ls.take(first_table(ls)).push(
            provider_line(),
        ).push("model = "@ + toml_quoted(model)) + b2.push(""@),
        said(b2) == said(ls.skip(first_table(ls))),
{
    let kp = "model_provider"@ + " "@;
    let km = "model"@ + " "@;
    let n = first_table(ls);
    let p = provider_line();
    let m = "model = "@ + toml_quoted(model);
    lemma_top_lines(model);
    lemma_first_starting(ls, "["@, 0, ls.len() as int);
    lemma_first_starting(ls, kp, 0, n);
    lemma_first_starting(ls, km, 0, n);
    lemma_header_from(ls, 0);
    let a = ls.take(n);
    let b = ls.skip(n);
    let provided = a.push(p) + b;
    assert forall|j: int| 0 <= j < n + 1 implies !starts_with(trim_start(#[trigger] provided[j]), "["@)
        && !starts_with(trim_start(provided[j]), km) by {
        if j < n {
            assert(provided[j] == ls[j]);
        }
    }
    if n < ls.len() {
        assert(provided[n + 1] == ls[n]);
    }
    lemma_first_starting_is(provided, "["@, 0, provided.len() as int, n + 1);
    lemma_first_starting_is(provided, km, 0, n + 1, n + 1);
    let modelled = a.push(p).push(m) + b;
    assert(provided.take(n + 1).push(m) + provided.skip(n + 1) =~= modelled);
    lemma_blank_end(modelled);
    let w = without_blank_end(modelled);
    assert(modelled[n + 1] == m);
    let b2 = b.take(w.len() - n - 2);
    assert(w =~= a.push(p).push(m) + b2);
    let r = w.push(""@);
    let table = provider_table(base_url);
    reveal_strlit("");
    reveal_strlit("[");
    lemma_header_from(r, 0);
    assert forall|j: int| 0 <= j < r.len() implies trimmed(#[trigger] r[j]) != provider_header() by {
        if j < n {
            assert(r[j] == ls[j]);
        } else if j == r.len() - 1 {
            reveal_strlit("[model_providers.");
            lemma_trim_is_part(""@);
        } else if j > n + 1 {
            assert(r[j] == ls[j - 2]);
        }
    }
    assert(header_from(r, 0) == r.len());
    lemma_table_lines(base_url);
    law_provider_table_comes_out(r, table);
    assert(r =~= a.push(p).push(m) + b2.push(""@));
    let top = a.push(p).push(m);
    lemma_said_add(top, b);
    lemma_said_add(top, b2);
    assert(said(b) =~= said(b2)) by {
        let x = said(top) + said(b);
        let y = said(top) + said(b2);
        assert(x.skip(said(top).len() as int) =~= said(b));
        assert(y.skip(said(top).len() as int) =~= said(b2));
    }
    b2
}

/// The two lines come out again.
proof fn lemma_top_lines_come_out(a: Seq<Seq<char>>, model: Seq<char>, rest: Seq<Seq<char>>)
    requires
        forall|j: int|
            0 <= j < a.len() ==> !starts_with(trim_start(#[trigger] a[j]), "["@) && !starts_with(
                trim_start(a[j]),
                "model_provider"@ + " "@,
            ) && !starts_with(trim_start(a[j]), "model"@ + " "@),
    ensures
        ({
            let r = a.push(provider_line()).push("model = "@ + toml_quoted(model)) + rest;
            uses_provider(r) && top_removed(top_removed(r, "model_provider"@), "model"@) == a + rest
        }),
{
    let kp = "model_provider"@ + " "@;
    let km = "model"@ + " "@;
    let n = a.len() as int;
    let p = provider_line();
    let m = "model = "@ + toml_quoted(model);
    lemma_top_lines(model);
    let r = a.push(p).push(m) + rest;
    lemma_first_starting(r, "["@, 0, r.len() as int);
    let limit = first_table(r);
    assert forall|j: int| 0 <= j < n + 2 implies !starts_with(trim_start(#[trigger] r[j]), "["@) by {
        if j < n {
            assert(r[j] == a[j]);
        }
    }
    assert(limit >= n + 2);
    assert forall|j: int| 0 <= j < n implies !starts_with(trim_start(#[trigger] r[j]), kp) by {
        assert(r[j] == a[j]);
    }
    assert(r[n] == p);
    lemma_first_starting_is(r, kp, 0, limit, n);
    let r1 = r.take(n) + r.skip(n + 1);
    assert(r1 =~= a.push(m) + rest);
    lemma_first_starting(r1, "["@, 0, r1.len() as int);
    let limit1 = first_table(r1);
    assert forall|j: int| 0 <= j < n + 1 implies !starts_with(trim_start(#[trigger] r1[j]), "["@) by {
        if j < n {
            assert(r1[j] == a[j]);
        }
    }
    assert(limit1 >= n + 1);
    assert forall|j: int| 0 <= j < n implies !starts_with(trim_start(#[trigger] r1[j]), km) by {
        assert(r1[j] == a[j]);
    }
    assert(r1[n] == m);
    lemma_first_starting_is(r1, km, 0, limit1, n);
    assert(r1.take(n) + r1.skip(n + 1) =~= a + rest);
}

/// Disconnecting takes back what connecting added: a file that chose neither
/// a provider nor a model has the lines it had, in their order.
pub proof fn law_codex_disconnect_undoes_connect(
    ls: Seq<Seq<char>>,
    base_url: Seq<char>,
    model: Seq<char>,
)
    requires
        header_from(ls, 0) == ls.len(),
        first_starting(ls, "model_provider"@ + " "@, 0, first_table(ls)) == first_table(ls),
        first_starting(ls, "model"@ + " "@, 0, first_table(ls)) == first_table(ls),
    ensures
        said(codex_disconnected(codex_connected(ls, base_url, model))) == said(ls),
{
    let n = first_table(ls);
    let a = ls.take(n);
    let b2 = lemma_codex_connected(ls, base_url, model);
    lemma_first_starting(ls, "["@, 0, ls.len() as int);
    lemma_first_starting(ls, "model_provider"@ + " "@, 0, n);
    lemma_first_starting(ls, "model"@ + " "@, 0, n);
    assert forall|j: int| 0 <= j < a.len() implies !starts_with(trim_start(#[trigger] a[j]), "["@)
        && !starts_with(trim_start(a[j]), "model_provider"@ + " "@) && !starts_with(
        trim_start(a[j]),
        "model"@ + " "@,
    ) by {
        assert(a[j] == ls[j]);
    }
    lemma_top_lines_come_out(a, model, b2.push(""@));
    lemma_said_add(a, b2.push(""@));
    lemma_said_add(a, ls.skip(n));
    assert(b2.push(""@).drop_last() =~= b2);
    reveal_strlit("");
    assert(blank(""@));
    assert(a + ls.skip(n) =~= ls);
}

/// The table that connecting writes is one table.
proof fn lemma_table_lines(base_url: Seq<char>)
    ensures
        ({
            let t = provider_table(base_url);
            &&& t.len() > 0 && trimmed(t[0]) == provider_header()
            &&& forall|i: int| 1 <= i < t.len() ==> !starts_with(trim_start(#[trigger] t[i]), "["@)
        }),
{
    reveal_strlit("[model_providers.");
    reveal_strlit("rootmode");
    reveal_strlit("]");
    reveal_strlit("[");
    reveal_strlit("name = ");
    reveal_strlit("base_url = ");
    reveal_strlit("wire_api = \"responses\"");
    reveal_strlit("env_key = ");
    let t = provider_table(base_url);
    let h = provider_header();
    assert(!is_white('[') && !is_white(']'));
    assert(h[0] == '[' && h.last() == ']');
    assert(trim_start(h) == h);
    assert(trim_end(h) == h);
    assert(t[1][0] == 'n' && t[2][0] == 'b' && t[3][0] == 'w' && t[4][0] == 'e');
    assert forall|i: int| 1 <= i < t.len() implies !starts_with(trim_start(#[trigger] t[i]), "["@) by {
        assert(!is_white(t[i][0]));
        assert(trim_start(t[i]) == t[i]);
        assert(t[i].take(1)[0] == t[i][0]);
    }
}

/// A key that is set is the one found, in the top level of the file, and no
/// line after the first table moves out of its table.
pub proof fn law_set_key_is_found(ls: Seq<Seq<char>>, key: Seq<char>, line: Seq<char>)
    requires
        starts_with(trim_start(line), key + " "@),
        !starts_with(trim_start(line), "["@),
    ensures
        ({
            let after = top_set(ls, key, line);
            let limit = first_table(after);
            let i = first_starting(after, key + " "@, 0, limit);
            &&& 0 <= i < limit
            &&& after[i] == line
            &&& after.skip(limit) == ls.skip(first_table(ls))
        }),
{
    let limit = first_table(ls);
    lemma_first_starting(ls, "["@, 0, ls.len() as int);
    let i = first_starting(ls, key + " "@, 0, limit);
    lemma_first_starting(ls, key + " "@, 0, limit);
    let after = top_set(ls, key, line);
    if i < limit {
        assert forall|j: int| 0 <= j < limit implies !starts_with(
            trim_start(#[trigger] after[j]),
            "["@,
        ) by {
            if j != i {
                assert(after[j] == ls[j]);
            }
        }
        if limit < ls.len() {
            assert(after[limit] == ls[limit]);
        }
        lemma_first_starting_is(after, "["@, 0, after.len() as int, limit);
        assert forall|j: int| 0 <= j < i implies !starts_with(
            trim_start(#[trigger] after[j]),
            key + " "@,
        ) by {
            assert(after[j] == ls[j]);
        }
        lemma_first_starting_is(after, key + " "@, 0, limit, i);
        assert(after.skip(limit) =~= ls.skip(limit));
    } else {
        assert forall|j: int| 0 <= j < limit + 1 implies !starts_with(
            trim_start(#[trigger] after[j]),
            "["@,
        ) by {
            if j < limit {
                assert(after[j] == ls[j]);
            }
        }
        if limit < ls.len() {
            assert(after[limit + 1] == ls[limit]);
        }
        lemma_first_starting_is(after, "["@, 0, after.len() as int, limit + 1);
        assert forall|j: int| 0 <= j < limit implies !starts_with(
            trim_start(#[trigger] after[j]),
            key + " "@,
        ) by {
            assert(after[j] == ls[j]);
        }
        assert(after[limit] == line);
        lemma_first_starting_is(after, key + " "@, 0, limit + 1, limit);
        assert(after.skip(limit + 1) =~= ls.skip(limit));
    }
}

/// Taking out the provider table that stands at the end leaves exactly the
/// lines that were there before it.
pub proof fn law_provider_table_comes_out(ls: Seq<Seq<char>>, table: Seq<Seq<char>>)
    requires
        header_from(ls, 0) == ls.len(),
        table.len() > 0,
        trimmed(table[0]) == provider_header(),
        forall|i: int|
            1 <= i < table.len() ==> !starts_with(trim_start(#[trigger] table[i]), "["@),
    ensures
        without_provider(ls + table) == ls,
{
    let all = ls + table;
    let n = ls.len() as int;
    lemma_header_from(ls, 0);
    lemma_header_from(all, 0);
    let start = header_from(all, 0);
    assert(all[n] == table[0]);
    if start < n {
        assert(all[start] == ls[start]);
    }
    assert(start == n);
    let m = all.len() as int;
    assert forall|j: int| n + 1 <= j < m implies !starts_with(trim_start(#[trigger] all[j]), "["@) by {
        assert(all[j] == table[j - n]);
    }
    lemma_first_starting_is(all, "["@, n + 1, m, m);
    assert(all.take(n) + all.skip(m) =~= ls);
}

// --------------------------------------------------------------------- YAML

/// A key set: in its place, or at the end.
pub open spec fn yaml_set(ls: Seq<Seq<char>>, key: Seq<char>, value: Seq<char>) -> Seq<Seq<char>> {
    let i = first_starting(ls, key + ":"@, 0, ls.len() as int);
    let line = key + ": "@ + value;
    if i < ls.len() {
        ls.update(i, line)
    } else {
        ls.push(line)
    }
}

pub fn goose_set(ls: &Vec<String>, key: &str, value: &str) -> (r: Vec<String>)
    ensures
        texts(r@) == yaml_set(texts(ls@), key@, value@),
{
    let assignment = concat3(key, ": ", value);
    let i: usize = find_starting(ls, concat(key, ":").as_str(), 0, ls.len());
    if i < ls.len() {
        replaced(ls, i, assignment)
    } else {
        let mut out = copy_texts(ls);
        push_line(&mut out, assignment);
        out
    }
}

/// Every line of a key taken out.
pub open spec fn yaml_removed(ls: Seq<Seq<char>>, key: Seq<char>) -> Seq<Seq<char>>
    decreases ls.len(),
{
    if ls.len() == 0 {
        seq![]
    } else {
        let rest = yaml_removed(ls.drop_last(), key);
        if starts_with(trim_start(ls.last()), key + ":"@) {
            rest
        } else {
            rest.push(ls.last())
        }
    }
}

pub fn goose_remove(ls: &Vec<String>, key: &str) -> (r: Vec<String>)
    ensures
        texts(r@) == yaml_removed(texts(ls@), key@),
{
    let ghost all = texts(ls@);
    let p = concat(key, ":");
    let mut out: Vec<String> = Vec::new();
    let mut i: usize = 0;
    assert(texts(out@) =~= yaml_removed(all.take(0), key@));
    while i < ls.len()
        invariant
            i <= ls@.len(),
            all == texts(ls@),
            p@ == key@ + ":"@,
            texts(out@) == yaml_removed(all.take(i as int), key@),
        decreases ls@.len() - i,
    {
        let ghost now = all.take(i as int + 1);
        assert(now.drop_last() =~= all.take(i as int));
        if !has_prefix(trim_left(ls[i].as_str()).as_str(), p.as_str()) {
            push_line(&mut out, ls[i].clone());
        }
        i = i + 1;
    }
    assert(all.take(i as int) =~= all);
    out
}

/// Goose's settings pointed at the endpoint.
pub open spec fn goose_connected(
    ls: Seq<Seq<char>>,
    base_url: Seq<char>,
    token: Seq<char>,
    model: Seq<char>,
) -> Seq<Seq<char>> {
    yaml_set(
        yaml_set(
            yaml_set(yaml_set(ls, "GOOSE_PROVIDER"@, "openai"@), "GOOSE_MODEL"@, model),
            "OPENAI_HOST"@,
            base_url,
        ),
        "OPENAI_API_KEY"@,
        token,
    )
}

pub fn connect_goose(existing: &Option<String>, base_url: &str, token: &str, model: &str) -> (r:
    String)
    ensures
        r@ == file_text(goose_connected(file_lines(opt(*existing)), base_url@, token@, model@)),
{
    let mut ls = codex_lines(existing);
    ls = goose_set(&ls, "GOOSE_PROVIDER", "openai");
    ls = goose_set(&ls, "GOOSE_MODEL", model);
    ls = goose_set(&ls, "OPENAI_HOST", base_url);
    ls = goose_set(&ls, "OPENAI_API_KEY", token);
    file_of(&ls)
}

/// Goose's settings without what a connect added.
pub open spec fn goose_disconnected(ls: Seq<Seq<char>>) -> Seq<Seq<char>> {
    yaml_removed(
        yaml_removed(
            yaml_removed(yaml_removed(ls, "GOOSE_PROVIDER"@), "GOOSE_MODEL"@),
            "OPENAI_HOST"@,
        ),
        "OPENAI_API_KEY"@,
    )
}

pub fn disconnect_goose(existing: &str) -> (r: String)
    ensures
        r@ == file_text(goose_disconnected(lines(existing@))),
{
    let mut ls = lines_of(existing);
    ls = goose_remove(&ls, "GOOSE_PROVIDER");
    ls = goose_remove(&ls, "GOOSE_MODEL");
    ls = goose_remove(&ls, "OPENAI_HOST");
    ls = goose_remove(&ls, "OPENAI_API_KEY");
    file_of(&ls)
}

/// A removed key is gone, and every other line is kept, in order.
pub proof fn law_yaml_remove_is_exact(ls: Seq<Seq<char>>, key: Seq<char>)
    ensures
        forall|i: int|
            0 <= i < yaml_removed(ls, key).len() ==> !starts_with(
                trim_start(#[trigger] yaml_removed(ls, key)[i]),
                key + ":"@,
            ),
        forall|i: int|
            0 <= i < ls.len() && !starts_with(trim_start(#[trigger] ls[i]), key + ":"@)
                ==> yaml_removed(ls, key).contains(ls[i]),
    decreases ls.len(),
{
    if ls.len() > 0 {
        let front = ls.drop_last();
        law_yaml_remove_is_exact(front, key);
        let rest = yaml_removed(front, key);
        let all = yaml_removed(ls, key);
        assert forall|i: int| 0 <= i < all.len() implies !starts_with(
            trim_start(#[trigger] all[i]),
            key + ":"@,
        ) by {
            if i < rest.len() {
                assert(all[i] == rest[i]);
            }
        }
        assert forall|i: int|
            0 <= i < ls.len() && !starts_with(trim_start(#[trigger] ls[i]), key + ":"@) implies
            all.contains(ls[i]) by {
            if i < front.len() {
                assert(front[i] == ls[i]);
                assert(rest.contains(front[i]));
                let k = choose|k: int| 0 <= k < rest.len() && rest[k] == front[i];
                assert(all[k] == ls[i]);
            } else {
                assert(all[rest.len() as int] == ls[i]);
            }
        }
    }
}

/// A key that is set is the one found.
pub proof fn law_yaml_set_is_found(ls: Seq<Seq<char>>, key: Seq<char>, value: Seq<char>)
    requires
        key.len() > 0,
        !is_white(key[0]),
    ensures
        ({
            let after = yaml_set(ls, key, value);
            let i = first_starting(after, key + ":"@, 0, after.len() as int);
            &&& 0 <= i < after.len()
            &&& after[i] == key + ": "@ + value
        }),
{
    let n = ls.len() as int;
    let i = first_starting(ls, key + ":"@, 0, n);
    lemma_first_starting(ls, key + ":"@, 0, n);
    let after = yaml_set(ls, key, value);
    let line = key + ": "@ + value;
    reveal_strlit(":");
    reveal_strlit(": ");
    assert(line[0] == key[0]);
    assert(trim_start(line) == line);
    assert(line.take((key + ":"@).len() as int) =~= key + ":"@);
    assert forall|j: int| 0 <= j < i implies !starts_with(
        trim_start(#[trigger] after[j]),
        key + ":"@,
    ) by {
        assert(after[j] == ls[j]);
    }
    assert(after[i] == line);
    lemma_first_starting_is(after, key + ":"@, 0, after.len() as int, i);
}

/// No line sets this key.
pub open spec fn lacks_key(ls: Seq<Seq<char>>, key: Seq<char>) -> bool {
    forall|i: int| 0 <= i < ls.len() ==> !starts_with(trim_start(#[trigger] ls[i]), key + ":"@)
}

pub proof fn lemma_yaml_set_new(ls: Seq<Seq<char>>, key: Seq<char>, value: Seq<char>)
    requires
        lacks_key(ls, key),
    ensures
        yaml_set(ls, key, value) == ls.push(key + ": "@ + value),
{
    lemma_first_starting_is(ls, key + ":"@, 0, ls.len() as int, ls.len() as int);
}

proof fn lemma_yaml_remove_none(ls: Seq<Seq<char>>, key: Seq<char>)
    requires
        lacks_key(ls, key),
    ensures
        yaml_removed(ls, key) == ls,
    decreases ls.len(),
{
    if ls.len() > 0 {
        let front = ls.drop_last();
        assert forall|i: int| 0 <= i < front.len() implies !starts_with(
            trim_start(#[trigger] front[i]),
            key + ":"@,
        ) by {
            assert(front[i] == ls[i]);
        }
        lemma_yaml_remove_none(front, key);
        assert(ls[ls.len() - 1] == ls.last());
        assert(front.push(ls.last()) =~= ls);
    } else {
        assert(yaml_removed(ls, key) =~= ls);
    }
}

/// A line sets its own key, and no other that is not how it begins.
proof fn lemma_yaml_line(key: Seq<char>, value: Seq<char>, other: Seq<char>, at: int)
    requires
        key.len() > 0,
        !is_white(key[0]),
        0 <= at < key.len(),
        at < other.len(),
        key[at] != other[at],
    ensures
        starts_with(trim_start(key + ": "@ + value), key + ":"@),
        !starts_with(trim_start(key + ": "@ + value), other + ":"@),
{
    reveal_strlit(":");
    reveal_strlit(": ");
    let line = key + ": "@ + value;
    assert(line[0] == key[0]);
    assert(trim_start(line) == line);
    assert(line.take((key + ":"@).len() as int) =~= key + ":"@);
    let p = other + ":"@;
    if starts_with(line, p) {
        assert(line.take(p.len() as int)[at] == p[at]);
        assert(line[at] == key[at]);
    }
}

/// A key set and taken out again, with the lines in between kept.
pub proof fn lemma_yaml_push(ls: Seq<Seq<char>>, key: Seq<char>, value: Seq<char>, other: Seq<char>, at: int)
    requires
        key.len() > 0,
        !is_white(key[0]),
        0 <= at < key.len(),
        at < other.len(),
        key[at] != other[at],
    ensures
        lacks_key(ls, other) ==> lacks_key(ls.push(key + ": "@ + value), other),
        yaml_removed(ls.push(key + ": "@ + value), other) == yaml_removed(ls, other).push(
            key + ": "@ + value,
        ),
        yaml_removed(ls.push(key + ": "@ + value), key) == yaml_removed(ls, key),
{
    let line = key + ": "@ + value;
    lemma_yaml_line(key, value, other, at);
    let all = ls.push(line);
    assert(all.drop_last() =~= ls);
    if lacks_key(ls, other) {
        assert forall|i: int| 0 <= i < all.len() implies !starts_with(
            trim_start(#[trigger] all[i]),
            other + ":"@,
        ) by {
            if i < ls.len() {
                assert(all[i] == ls[i]);
            }
        }
    }
}

/// Disconnecting takes back what connecting added: a file that set none of the
/// keys has exactly the lines it had.
pub proof fn law_goose_disconnect_undoes_connect(
    ls: Seq<Seq<char>>,
    base_url: Seq<char>,
    token: Seq<char>,
    model: Seq<char>,
)
    requires
        lacks_key(ls, "GOOSE_PROVIDER"@),
        lacks_key(ls, "GOOSE_MODEL"@),
        lacks_key(ls, "OPENAI_HOST"@),
        lacks_key(ls, "OPENAI_API_KEY"@),
    ensures
        goose_disconnected(goose_connected(ls, base_url, token, model)) == ls,
{
    let (p, m, h, k) = ("GOOSE_PROVIDER"@, "GOOSE_MODEL"@, "OPENAI_HOST"@, "OPENAI_API_KEY"@);
    reveal_strlit("GOOSE_PROVIDER");
    reveal_strlit("GOOSE_MODEL");
    reveal_strlit("OPENAI_HOST");
    reveal_strlit("OPENAI_API_KEY");
    assert(!is_white('G') && !is_white('O'));
    let l1 = p + ": "@ + "openai"@;
    let l2 = m + ": "@ + model;
    let l3 = h + ": "@ + base_url;
    let l4 = k + ": "@ + token;
    let s1 = ls.push(l1);
    let s2 = s1.push(l2);
    let s3 = s2.push(l3);
    let s4 = s3.push(l4);
    // Each key is new when it is set.
    lemma_yaml_set_new(ls, p, "openai"@);
    lemma_yaml_push(ls, p, "openai"@, m, 6);
    lemma_yaml_push(ls, p, "openai"@, h, 0);
    lemma_yaml_push(ls, p, "openai"@, k, 0);
    lemma_yaml_set_new(s1, m, model);
    lemma_yaml_push(s1, m, model, h, 0);
    lemma_yaml_push(s1, m, model, k, 0);
    lemma_yaml_set_new(s2, h, base_url);
    lemma_yaml_push(s2, h, base_url, k, 7);
    lemma_yaml_set_new(s3, k, token);
    // And each is taken out without the others.
    lemma_yaml_push(s3, k, token, p, 0);
    lemma_yaml_push(s2, h, base_url, p, 0);
    lemma_yaml_push(s1, m, model, p, 6);
    lemma_yaml_remove_none(ls, p);
    let r1 = ls.push(l2).push(l3).push(l4);
    assert(yaml_removed(s4, p) == r1);
    lemma_yaml_push(ls.push(l2).push(l3), k, token, m, 0);
    lemma_yaml_push(ls.push(l2), h, base_url, m, 0);
    lemma_yaml_push(ls, m, model, h, 0);
    lemma_yaml_remove_none(ls, m);
    let r2 = ls.push(l3).push(l4);
    assert(yaml_removed(r1, m) == r2);
    lemma_yaml_push(ls.push(l3), k, token, h, 7);
    lemma_yaml_push(ls, h, base_url, k, 7);
    lemma_yaml_remove_none(ls, h);
    assert(yaml_removed(r2, h) == ls.push(l4));
    lemma_yaml_push(ls, k, token, h, 7);
    lemma_yaml_remove_none(ls, k);
}

} // verus!
