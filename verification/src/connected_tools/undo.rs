//! What a disconnect gives back of a file that is kept line by line, from the
//! text that stood there before the connect to the text that stands there
//! after the disconnect.
use vstd::prelude::*;

use crate::connected_tools::lines::{
    codex_connected, codex_disconnected, file_lines, file_text, first_starting, first_table,
    goose_connected, goose_disconnected, header_from, lacks_key, law_codex_disconnect_undoes_connect,
    law_goose_disconnect_undoes_connect, lemma_first_starting, lemma_header_from,
    lemma_yaml_set_new, lemma_yaml_push, provider_header, provider_line, provider_table, said,
    toml_escaped, toml_quoted, top_removed, top_set, without_blank_end,
    without_provider, CODEX_ENV_VAR, PROVIDER_KEY,
};
use crate::text::{
    blank, index_of, is_white, joined, lemma_index_of, lemma_index_of_unique, lines, starts_with,
    trim_end, trim_start, trimmed, without_cr,
};

verus! {

broadcast use vstd::string::group_string_axioms;

// ------------------------------------------------------------ reading again

/// Nothing in the line is a line break.
pub open spec fn unbroken(l: Seq<char>) -> bool {
    forall|i: int| 0 <= i < l.len() ==> #[trigger] l[i] != '\n'
}

pub open spec fn all_unbroken(ls: Seq<Seq<char>>) -> bool {
    forall|i: int| 0 <= i < ls.len() ==> unbroken(#[trigger] ls[i])
}

/// The line does not end in a carriage return.
pub open spec fn plain_end(l: Seq<char>) -> bool {
    l.len() == 0 || l.last() != '\r'
}

pub open spec fn all_plain(ls: Seq<Seq<char>>) -> bool {
    forall|i: int| 0 <= i < ls.len() ==> plain_end(#[trigger] ls[i])
}

/// Lines as they are read again from the file they were written to: a carriage
/// return at the end of a line counts as a part of the line break.
pub open spec fn reread(ls: Seq<Seq<char>>) -> Seq<Seq<char>> {
    Seq::new(ls.len(), |i: int| without_cr(ls[i]))
}

/// The first line of a file, and the file of the others.
proof fn lemma_file_front(ls: Seq<Seq<char>>)
    requires
        ls.len() > 1,
    ensures
        file_text(ls) == ls[0] + "\n"@ + file_text(ls.drop_first()),
    decreases ls.len(),
{
    let front = ls.drop_last();
    let rest = ls.drop_first();
    if ls.len() == 2 {
        assert(front.len() == 1 && rest.len() == 1);
        assert(joined(front, "\n"@) == ls[0]);
        assert(joined(rest, "\n"@) == ls[1]);
        assert(file_text(ls) =~= ls[0] + "\n"@ + file_text(rest));
    } else {
        lemma_file_front(front);
        assert(front.drop_first() =~= rest.drop_last());
        assert(rest.last() == ls.last());
        assert(file_text(rest) =~= file_text(rest.drop_last()) + ls.last() + "\n"@);
        assert(file_text(ls) =~= file_text(front) + ls.last() + "\n"@);
        assert(file_text(ls) =~= ls[0] + "\n"@ + file_text(rest));
    }
}

/// A line and what follows it.
proof fn lemma_lines_front(l: Seq<char>, rest: Seq<char>)
    requires
        unbroken(l),
    ensures
        lines(l + "\n"@ + rest) == seq![without_cr(l)] + lines(rest),
{
    reveal_strlit("\n");
    let s = l + "\n"@ + rest;
    let k = l.len() as int;
    assert forall|i: int| 0 <= i < k implies s[i] != '\n' by {
        assert(s[i] == l[i]);
    }
    assert(s[k] == '\n');
    lemma_index_of_unique(s, '\n', k);
    assert(s.take(k) =~= l);
    assert(s.skip(k + 1) =~= rest);
}

/// A file that lines were written to is read as those lines.
pub proof fn law_a_file_reads_back(ls: Seq<Seq<char>>)
    requires
        ls.len() > 0,
        all_unbroken(ls),
    ensures
        lines(file_text(ls)) == reread(ls),
        all_plain(ls) ==> lines(file_text(ls)) == ls,
    decreases ls.len(),
{
    if ls.len() == 1 {
        let none = Seq::<char>::empty();
        assert(file_text(ls) =~= ls[0] + "\n"@ + none);
        lemma_lines_front(ls[0], none);
        assert(lines(none) =~= seq![]);
        assert(lines(file_text(ls)) =~= reread(ls));
    } else {
        let rest = ls.drop_first();
        assert(all_unbroken(rest)) by {
            assert forall|i: int| 0 <= i < rest.len() implies unbroken(#[trigger] rest[i]) by {
                assert(rest[i] == ls[i + 1]);
            }
        }
        lemma_file_front(ls);
        lemma_lines_front(ls[0], file_text(rest));
        law_a_file_reads_back(rest);
        assert(seq![without_cr(ls[0])] + reread(rest) =~= reread(ls));
    }
    if all_plain(ls) {
        lemma_plain(ls);
    }
}

proof fn lemma_plain(ls: Seq<Seq<char>>)
    requires
        all_plain(ls),
    ensures
        reread(ls) == ls,
{
    assert forall|i: int| 0 <= i < ls.len() implies without_cr(#[trigger] ls[i]) == ls[i] by {
        assert(plain_end(ls[i]));
    }
    assert(reread(ls) =~= ls);
}

/// No line of a text holds a line break.
pub proof fn lemma_lines_unbroken(s: Seq<char>)
    ensures
        all_unbroken(lines(s)),
    decreases s.len(),
{
    let k = index_of(s, '\n');
    lemma_index_of(s, '\n');
    let ls = lines(s);
    if s.len() == 0 {
    } else if k < s.len() {
        let rest = lines(s.skip(k + 1));
        lemma_lines_unbroken(s.skip(k + 1));
        assert(ls == seq![without_cr(s.take(k))] + rest);
        assert forall|i: int| 0 <= i < ls.len() implies unbroken(#[trigger] ls[i]) by {
            if i == 0 {
                let l = without_cr(s.take(k));
                assert forall|j: int| 0 <= j < l.len() implies #[trigger] l[j] != '\n' by {
                    assert(l[j] == s[j]);
                }
            } else {
                assert(ls[i] == rest[i - 1]);
            }
        }
    } else {
        assert(ls == seq![s]);
        assert(unbroken(s));
    }
}

proof fn lemma_file_lines_unbroken(existing: Option<Seq<char>>)
    ensures
        all_unbroken(file_lines(existing)),
{
    match existing {
        Some(s) => {
            lemma_lines_unbroken(s);
        },
        None => {},
    }
}

// --------------------------------------------------- a carriage return aside

spec fn no_return(p: Seq<char>) -> bool {
    p.len() > 0 && forall|i: int| 0 <= i < p.len() ==> #[trigger] p[i] != '\r'
}

proof fn lemma_trim_start_return(x: Seq<char>)
    ensures
        trim_start(x.push('\r')) == (if trim_start(x).len() == 0 {
            Seq::<char>::empty()
        } else {
            trim_start(x).push('\r')
        }),
    decreases x.len(),
{
    let l = x.push('\r');
    assert(is_white('\r'));
    if x.len() == 0 {
        assert(l.drop_first() =~= Seq::<char>::empty());
        assert(trim_start(l) == trim_start(l.drop_first()));
    } else if is_white(x[0]) {
        lemma_trim_start_return(x.drop_first());
        assert(l[0] == x[0]);
        assert(l.drop_first() =~= x.drop_first().push('\r'));
    } else {
        assert(l[0] == x[0]);
    }
}

/// A carriage return at its end changes nothing of how a line is understood.
proof fn lemma_return_aside(l: Seq<char>)
    ensures
        trimmed(without_cr(l)) == trimmed(l),
        blank(without_cr(l)) == blank(l),
        forall|p: Seq<char>| #[trigger]
            starts_with(trim_start(without_cr(l)), p) && no_return(p) ==> starts_with(
                trim_start(l),
                p,
            ),
        forall|p: Seq<char>| #[trigger]
            starts_with(trim_start(l), p) && no_return(p) ==> starts_with(
                trim_start(without_cr(l)),
                p,
            ),
{
    if l.len() > 0 && l.last() == '\r' {
        let x = l.drop_last();
        assert(l =~= x.push('\r'));
        lemma_trim_start_return(x);
        assert(is_white('\r'));
        let t = trim_start(x);
        if t.len() > 0 {
            assert(t.push('\r').drop_last() =~= t);
            assert(trim_end(t.push('\r')) == trim_end(t));
        }
        assert forall|p: Seq<char>| #[trigger]
            starts_with(trim_start(x), p) && no_return(p) implies starts_with(
            trim_start(l),
            p,
        ) by {
            assert(t.push('\r').take(p.len() as int) =~= t.take(p.len() as int));
        }
        assert forall|p: Seq<char>| #[trigger]
            starts_with(trim_start(l), p) && no_return(p) implies starts_with(
            trim_start(x),
            p,
        ) by {
            let u = t.push('\r');
            assert(trim_start(l) == u);
            if p.len() == u.len() {
                assert(u.take(p.len() as int)[p.len() - 1] == '\r');
                assert(p[p.len() - 1] != '\r');
            }
            assert(t.take(p.len() as int) =~= u.take(p.len() as int));
        }
    }
}

proof fn lemma_first_aside(ls: Seq<Seq<char>>, p: Seq<char>, i: int, limit: int)
    requires
        0 <= i,
        limit <= ls.len(),
        no_return(p),
    ensures
        first_starting(reread(ls), p, i, limit) == first_starting(ls, p, i, limit),
    decreases limit - i,
{
    if i < limit {
        lemma_return_aside(ls[i]);
        lemma_first_aside(ls, p, i + 1, limit);
    }
}

proof fn lemma_header_aside(ls: Seq<Seq<char>>, i: int)
    requires
        0 <= i,
    ensures
        header_from(reread(ls), i) == header_from(ls, i),
    decreases ls.len() - i,
{
    if i < ls.len() {
        lemma_return_aside(ls[i]);
        lemma_header_aside(ls, i + 1);
    }
}

proof fn lemma_prefixes()
    ensures
        no_return("["@),
        no_return("model_provider"@ + " "@),
        no_return("model"@ + " "@),
{
    reveal_strlit("[");
    reveal_strlit("model_provider");
    reveal_strlit("model");
    reveal_strlit(" ");
    let p = "model_provider"@ + " "@;
    let m = "model"@ + " "@;
    assert(p.len() == 15 && m.len() == 6);
}

proof fn lemma_provider_aside(ls: Seq<Seq<char>>)
    ensures
        without_provider(reread(ls)) == reread(without_provider(ls)),
{
    lemma_prefixes();
    lemma_header_aside(ls, 0);
    lemma_header_from(ls, 0);
    let start = header_from(ls, 0);
    if start < ls.len() {
        lemma_first_aside(ls, "["@, start + 1, ls.len() as int);
        lemma_first_starting(ls, "["@, start + 1, ls.len() as int);
        let end = first_starting(ls, "["@, start + 1, ls.len() as int);
        assert(reread(ls).take(start) + reread(ls).skip(end) =~= reread(
            ls.take(start) + ls.skip(end),
        ));
    }
}

proof fn lemma_set_aside(ls: Seq<Seq<char>>, key: Seq<char>, line: Seq<char>)
    requires
        no_return(key + " "@),
        plain_end(line),
    ensures
        top_set(reread(ls), key, line) == reread(top_set(ls, key, line)),
{
    lemma_prefixes();
    lemma_first_aside(ls, "["@, 0, ls.len() as int);
    lemma_first_starting(ls, "["@, 0, ls.len() as int);
    let limit = first_table(ls);
    assert(reread(ls).len() == ls.len());
    assert(first_table(reread(ls)) == limit);
    lemma_first_aside(ls, key + " "@, 0, limit);
    lemma_first_starting(ls, key + " "@, 0, limit);
    let i = first_starting(ls, key + " "@, 0, limit);
    if i < limit {
        assert(reread(ls).update(i, line) =~= reread(ls.update(i, line)));
    } else {
        assert(reread(ls).take(limit).push(line) + reread(ls).skip(limit) =~= reread(
            ls.take(limit).push(line) + ls.skip(limit),
        ));
    }
}

proof fn lemma_blank_end_aside(ls: Seq<Seq<char>>)
    ensures
        without_blank_end(reread(ls)) == reread(without_blank_end(ls)),
    decreases ls.len(),
{
    if ls.len() > 0 {
        lemma_return_aside(ls.last());
        assert(reread(ls).last() == without_cr(ls.last()));
        if blank(ls.last()) {
            assert(reread(ls).drop_last() =~= reread(ls.drop_last()));
            lemma_blank_end_aside(ls.drop_last());
        }
    }
}

// ------------------------------------------------------------ codex's lines

proof fn lemma_escaped_unbroken(s: Seq<char>)
    requires
        unbroken(s),
    ensures
        unbroken(toml_escaped(s)),
    decreases s.len(),
{
    if s.len() > 0 {
        let front = s.drop_last();
        assert forall|i: int| 0 <= i < front.len() implies #[trigger] front[i] != '\n' by {
            assert(front[i] == s[i]);
        }
        lemma_escaped_unbroken(front);
        let c = s.last();
        assert(s[s.len() - 1] != '\n');
        let e = toml_escaped(s);
        let f = toml_escaped(front);
        assert forall|i: int| 0 <= i < e.len() implies #[trigger] e[i] != '\n' by {
            if i < f.len() {
                assert(e[i] == f[i]);
            }
        }
    }
}

/// A key and a quoted text make one line.
proof fn lemma_assignment(head: Seq<char>, value: Seq<char>)
    requires
        unbroken(head),
        unbroken(value),
    ensures
        unbroken(head + toml_quoted(value)),
        plain_end(head + toml_quoted(value)),
{
    reveal_strlit("\"");
    lemma_escaped_unbroken(value);
    let e = toml_escaped(value);
    let l = head + toml_quoted(value);
    assert forall|i: int| 0 <= i < l.len() implies #[trigger] l[i] != '\n' by {
        if i < head.len() {
            assert(l[i] == head[i]);
        } else if head.len() < i < l.len() - 1 {
            assert(l[i] == e[i - head.len() - 1]);
        }
    }
    assert(l.last() == '"');
}

/// What connecting writes is whole lines.
proof fn lemma_added_lines(base_url: Seq<char>, model: Seq<char>)
    requires
        unbroken(base_url),
        unbroken(model),
    ensures
        unbroken(provider_line()) && plain_end(provider_line()),
        unbroken("model = "@ + toml_quoted(model)) && plain_end("model = "@ + toml_quoted(model)),
        all_unbroken(provider_table(base_url)),
        all_plain(provider_table(base_url)),
        unbroken(""@) && plain_end(""@),
{
    reveal_strlit("");
    reveal_strlit("model_provider = ");
    reveal_strlit("model = ");
    reveal_strlit("name = ");
    reveal_strlit("base_url = ");
    reveal_strlit("env_key = ");
    reveal_strlit("rootmode");
    reveal_strlit("ROOTMODE_GATEWAY_TOKEN");
    reveal_strlit("/v1");
    reveal_strlit("wire_api = \"responses\"");
    reveal_strlit("[model_providers.");
    reveal_strlit("]");
    lemma_assignment("model_provider = "@, PROVIDER_KEY@);
    lemma_assignment("model = "@, model);
    lemma_assignment("name = "@, "rootmode"@);
    let at = base_url + "/v1"@;
    assert forall|i: int| 0 <= i < at.len() implies #[trigger] at[i] != '\n' by {
        if i < base_url.len() {
            assert(at[i] == base_url[i]);
        }
    }
    lemma_assignment("base_url = "@, at);
    lemma_assignment("env_key = "@, CODEX_ENV_VAR@);
    let h = provider_header();
    assert(unbroken(h));
    assert(h.last() == ']');
    let t = provider_table(base_url);
    assert(unbroken(t[3]) && plain_end(t[3]));
}

proof fn lemma_codex_aside(ls: Seq<Seq<char>>, base_url: Seq<char>, model: Seq<char>)
    requires
        unbroken(base_url),
        unbroken(model),
    ensures
        codex_connected(reread(ls), base_url, model) == reread(
            codex_connected(ls, base_url, model),
        ),
{
    lemma_prefixes();
    lemma_added_lines(base_url, model);
    let line = "model = "@ + toml_quoted(model);
    let cleared = without_provider(ls);
    let provided = top_set(cleared, "model_provider"@, provider_line());
    let modelled = top_set(provided, "model"@, line);
    lemma_provider_aside(ls);
    lemma_set_aside(cleared, "model_provider"@, provider_line());
    lemma_set_aside(provided, "model"@, line);
    lemma_blank_end_aside(modelled);
    let w = without_blank_end(modelled);
    let t = provider_table(base_url);
    lemma_plain(t);
    assert(reread(w).push(""@) + t =~= reread(w.push(""@) + t)) by {
        assert forall|i: int| 0 <= i < t.len() implies without_cr(#[trigger] t[i]) == t[i] by {
            assert(plain_end(t[i]));
        }
    }
}

/// Connecting leaves every line whole.
proof fn lemma_connected_unbroken(ls: Seq<Seq<char>>, base_url: Seq<char>, model: Seq<char>)
    requires
        all_unbroken(ls),
        unbroken(base_url),
        unbroken(model),
    ensures
        all_unbroken(codex_connected(ls, base_url, model)),
        all_plain(ls) ==> all_plain(codex_connected(ls, base_url, model)),
{
    lemma_added_lines(base_url, model);
    let line = "model = "@ + toml_quoted(model);
    let cleared = without_provider(ls);
    let provided = top_set(cleared, "model_provider"@, provider_line());
    let modelled = top_set(provided, "model"@, line);
    lemma_cleared_whole(ls);
    lemma_set_whole(cleared, "model_provider"@, provider_line());
    lemma_set_whole(provided, "model"@, line);
    lemma_end_whole(modelled);
    let w = without_blank_end(modelled);
    let t = provider_table(base_url);
    let all = w.push(""@) + t;
    assert(all == codex_connected(ls, base_url, model));
    assert forall|i: int| 0 <= i < all.len() implies unbroken(#[trigger] all[i]) && (all_plain(ls)
        ==> plain_end(all[i])) by {
        if i < w.len() {
            assert(all[i] == w[i]);
        } else if i > w.len() {
            assert(all[i] == t[i - w.len() - 1]);
        }
    }
}

proof fn lemma_cleared_whole(ls: Seq<Seq<char>>)
    ensures
        all_unbroken(ls) ==> all_unbroken(without_provider(ls)),
        all_plain(ls) ==> all_plain(without_provider(ls)),
{
    lemma_header_from(ls, 0);
    let start = header_from(ls, 0);
    if start < ls.len() {
        lemma_first_starting(ls, "["@, start + 1, ls.len() as int);
        let end = first_starting(ls, "["@, start + 1, ls.len() as int);
        lemma_cut_whole(ls, start, end);
    }
}

proof fn lemma_cut_whole(ls: Seq<Seq<char>>, start: int, end: int)
    requires
        0 <= start <= end <= ls.len(),
    ensures
        all_unbroken(ls) ==> all_unbroken(ls.take(start) + ls.skip(end)),
        all_plain(ls) ==> all_plain(ls.take(start) + ls.skip(end)),
{
    let r = ls.take(start) + ls.skip(end);
    assert forall|i: int| 0 <= i < r.len() implies r[i] == ls[#[trigger] cut_from(i, start, end)]
        && 0 <= cut_from(i, start, end) < ls.len() by {}
    assert forall|i: int| 0 <= i < r.len() && all_unbroken(ls) implies unbroken(
        #[trigger] r[i],
    ) by {
        assert(unbroken(ls[cut_from(i, start, end)]));
    }
    assert forall|i: int| 0 <= i < r.len() && all_plain(ls) implies plain_end(#[trigger] r[i]) by {
        assert(plain_end(ls[cut_from(i, start, end)]));
    }
}

spec fn cut_from(i: int, start: int, end: int) -> int {
    if i < start {
        i
    } else {
        i + end - start
    }
}

proof fn lemma_set_whole(ls: Seq<Seq<char>>, key: Seq<char>, line: Seq<char>)
    requires
        unbroken(line),
        plain_end(line),
    ensures
        all_unbroken(ls) ==> all_unbroken(top_set(ls, key, line)),
        all_plain(ls) ==> all_plain(top_set(ls, key, line)),
{
    lemma_first_starting(ls, "["@, 0, ls.len() as int);
    let limit = first_table(ls);
    lemma_first_starting(ls, key + " "@, 0, limit);
    let i = first_starting(ls, key + " "@, 0, limit);
    let r = top_set(ls, key, line);
    assert forall|j: int| 0 <= j < r.len() && all_unbroken(ls) implies unbroken(
        #[trigger] r[j],
    ) by {
        if i >= limit && j > limit {
            assert(r[j] == ls[j - 1]);
        } else if r[j] != line {
            assert(r[j] == ls[j]);
        }
    }
    assert forall|j: int| 0 <= j < r.len() && all_plain(ls) implies plain_end(#[trigger] r[j]) by {
        if i >= limit && j > limit {
            assert(r[j] == ls[j - 1]);
        } else if r[j] != line {
            assert(r[j] == ls[j]);
        }
    }
}

proof fn lemma_end_whole(ls: Seq<Seq<char>>)
    ensures
        all_unbroken(ls) ==> all_unbroken(without_blank_end(ls)),
        all_plain(ls) ==> all_plain(without_blank_end(ls)),
    decreases ls.len(),
{
    if ls.len() > 0 && blank(ls.last()) {
        let front = ls.drop_last();
        assert forall|i: int| 0 <= i < front.len() implies #[trigger] front[i] == ls[i] by {}
        lemma_end_whole(front);
    }
}

proof fn lemma_removed_whole(ls: Seq<Seq<char>>, key: Seq<char>)
    ensures
        all_unbroken(ls) ==> all_unbroken(top_removed(ls, key)),
        all_plain(ls) ==> all_plain(top_removed(ls, key)),
{
    lemma_first_starting(ls, "["@, 0, ls.len() as int);
    let limit = first_table(ls);
    lemma_first_starting(ls, key + " "@, 0, limit);
    let i = first_starting(ls, key + " "@, 0, limit);
    if i < limit {
        lemma_cut_whole(ls, i, i + 1);
    }
}

proof fn lemma_disconnected_whole(ls: Seq<Seq<char>>)
    ensures
        all_unbroken(ls) ==> all_unbroken(codex_disconnected(ls)),
        all_plain(ls) ==> all_plain(codex_disconnected(ls)),
{
    let rest = without_provider(ls);
    lemma_cleared_whole(ls);
    lemma_removed_whole(rest, "model_provider"@);
    lemma_removed_whole(top_removed(rest, "model_provider"@), "model"@);
}

/// What a file says is read from it again.
proof fn lemma_said_reads_back(ls: Seq<Seq<char>>)
    requires
        all_unbroken(ls),
        all_plain(ls),
    ensures
        said(lines(file_text(ls))) == said(ls),
{
    if ls.len() > 0 {
        law_a_file_reads_back(ls);
    } else {
        let one = seq![Seq::<char>::empty()];
        assert(file_text(ls) =~= file_text(one)) by {
            assert(joined(ls, "\n"@) =~= joined(one, "\n"@));
        }
        law_a_file_reads_back(one);
        assert(blank(one[0]));
        assert(one.drop_last() =~= ls);
        assert(lines(file_text(ls)) == one);
        assert(said(one) == said(one.drop_last()));
    }
}

/// Codex's file after a connect and a disconnect says what it said before, in
/// the same order. The file chose neither a provider nor a model; the line
/// ends it is written with are plain ones, so a carriage return that stood
/// alone at the end of a line is not written back.
pub proof fn law_codex_file_is_put_back(
    existing: Option<Seq<char>>,
    base_url: Seq<char>,
    model: Seq<char>,
)
    requires
        ({
            let ls = file_lines(existing);
            let limit = first_table(ls);
            &&& header_from(ls, 0) == ls.len()
            &&& first_starting(ls, "model_provider"@ + " "@, 0, limit) == limit
            &&& first_starting(ls, "model"@ + " "@, 0, limit) == limit
        }),
        unbroken(base_url),
        unbroken(model),
    ensures
        ({
            let ls = file_lines(existing);
            let after = file_text(codex_connected(ls, base_url, model));
            let back = codex_disconnected(lines(after));
            &&& said(back) == said(reread(ls))
            &&& all_plain(ls) ==> said(lines(file_text(back))) == said(ls)
        }),
{
    let ls = file_lines(existing);
    let limit = first_table(ls);
    let there = codex_connected(ls, base_url, model);
    lemma_file_lines_unbroken(existing);
    lemma_connected_unbroken(ls, base_url, model);
    law_a_file_reads_back(there);
    lemma_codex_aside(ls, base_url, model);
    lemma_prefixes();
    lemma_header_aside(ls, 0);
    lemma_first_starting(ls, "["@, 0, ls.len() as int);
    lemma_first_aside(ls, "["@, 0, ls.len() as int);
    assert(reread(ls).len() == ls.len());
    lemma_first_aside(ls, "model_provider"@ + " "@, 0, limit);
    lemma_first_aside(ls, "model"@ + " "@, 0, limit);
    law_codex_disconnect_undoes_connect(reread(ls), base_url, model);
    let read = lines(file_text(there));
    assert(read == reread(there));
    if all_plain(ls) {
        lemma_plain(ls);
        lemma_plain(there);
        lemma_disconnected_whole(read);
        lemma_said_reads_back(codex_disconnected(read));
    }
}

// ------------------------------------------------------------ goose's lines

proof fn lemma_lacks_aside(ls: Seq<Seq<char>>, key: Seq<char>)
    requires
        lacks_key(ls, key),
        no_return(key + ":"@),
    ensures
        lacks_key(reread(ls), key),
{
    let r = reread(ls);
    assert forall|i: int| 0 <= i < r.len() implies !starts_with(
        trim_start(#[trigger] r[i]),
        key + ":"@,
    ) by {
        lemma_return_aside(ls[i]);
        assert(!starts_with(trim_start(ls[i]), key + ":"@));
    }
}

proof fn lemma_entry(key: Seq<char>, value: Seq<char>)
    requires
        unbroken(key),
        unbroken(value),
    ensures
        unbroken(key + ": "@ + value),
        without_cr(key + ": "@ + value) == key + ": "@ + without_cr(value),
{
    reveal_strlit(": ");
    let l = key + ": "@ + value;
    assert forall|i: int| 0 <= i < l.len() implies #[trigger] l[i] != '\n' by {
        if i < key.len() {
            assert(l[i] == key[i]);
        } else if i >= key.len() + 2 {
            assert(l[i] == value[i - key.len() - 2]);
        }
    }
    if value.len() == 0 {
        assert(l.last() == ' ');
    } else {
        assert(l.last() == value.last());
        assert(l.drop_last() =~= key + ": "@ + value.drop_last());
    }
}

/// What connecting makes of a file that set none of the keys.
proof fn lemma_goose_added(
    ls: Seq<Seq<char>>,
    base_url: Seq<char>,
    token: Seq<char>,
    model: Seq<char>,
)
    requires
        lacks_key(ls, "GOOSE_PROVIDER"@),
        lacks_key(ls, "GOOSE_MODEL"@),
        lacks_key(ls, "OPENAI_HOST"@),
        lacks_key(ls, "OPENAI_API_KEY"@),
    ensures
        goose_connected(ls, base_url, token, model) == ls.push(
            "GOOSE_PROVIDER"@ + ": "@ + "openai"@,
        ).push("GOOSE_MODEL"@ + ": "@ + model).push("OPENAI_HOST"@ + ": "@ + base_url).push(
            "OPENAI_API_KEY"@ + ": "@ + token,
        ),
{
    let (p, m, h, k) = ("GOOSE_PROVIDER"@, "GOOSE_MODEL"@, "OPENAI_HOST"@, "OPENAI_API_KEY"@);
    reveal_strlit("GOOSE_PROVIDER");
    reveal_strlit("GOOSE_MODEL");
    reveal_strlit("OPENAI_HOST");
    reveal_strlit("OPENAI_API_KEY");
    assert(!is_white('G') && !is_white('O'));
    let s1 = ls.push(p + ": "@ + "openai"@);
    let s2 = s1.push(m + ": "@ + model);
    let s3 = s2.push(h + ": "@ + base_url);
    lemma_yaml_set_new(ls, p, "openai"@);
    lemma_yaml_push(ls, p, "openai"@, m, 6);
    lemma_yaml_push(ls, p, "openai"@, h, 0);
    lemma_yaml_push(ls, p, "openai"@, k, 0);
    lemma_yaml_set_new(s1, m, model);
    lemma_yaml_push(s1, m, model, h, 0);
    lemma_yaml_push(s1, m, model, k, 0);
    lemma_yaml_set_new(s2, h, base_url);
    lemma_yaml_push(s2, h, base_url, k, 7);
    lemma_yaml_set_new(s3, k, token);
}

proof fn lemma_goose_keys()
    ensures
        unbroken("GOOSE_PROVIDER"@) && no_return("GOOSE_PROVIDER"@ + ":"@),
        unbroken("GOOSE_MODEL"@) && no_return("GOOSE_MODEL"@ + ":"@),
        unbroken("OPENAI_HOST"@) && no_return("OPENAI_HOST"@ + ":"@),
        unbroken("OPENAI_API_KEY"@) && no_return("OPENAI_API_KEY"@ + ":"@),
        unbroken("openai"@) && without_cr("openai"@) == "openai"@,
{
    reveal_strlit("GOOSE_PROVIDER");
    reveal_strlit("GOOSE_MODEL");
    reveal_strlit("OPENAI_HOST");
    reveal_strlit("OPENAI_API_KEY");
    reveal_strlit("openai");
    reveal_strlit(":");
    assert(("GOOSE_PROVIDER"@ + ":"@).len() == 15);
    assert(("GOOSE_MODEL"@ + ":"@).len() == 12);
    assert(("OPENAI_HOST"@ + ":"@).len() == 12);
    assert(("OPENAI_API_KEY"@ + ":"@).len() == 15);
    assert("openai"@.last() == 'i');
}

/// Goose's file after a connect and a disconnect has exactly the lines it had
/// before. The file set none of the keys; the line ends it is written with are
/// plain ones, so a carriage return that stood alone at the end of a line is
/// not written back.
pub proof fn law_goose_file_is_put_back(
    existing: Option<Seq<char>>,
    base_url: Seq<char>,
    token: Seq<char>,
    model: Seq<char>,
)
    requires
        lacks_key(file_lines(existing), "GOOSE_PROVIDER"@),
        lacks_key(file_lines(existing), "GOOSE_MODEL"@),
        lacks_key(file_lines(existing), "OPENAI_HOST"@),
        lacks_key(file_lines(existing), "OPENAI_API_KEY"@),
        unbroken(base_url),
        unbroken(token),
        unbroken(model),
    ensures
        ({
            let ls = file_lines(existing);
            let after = file_text(goose_connected(ls, base_url, token, model));
            let back = goose_disconnected(lines(after));
            &&& back == reread(ls)
            &&& all_plain(ls) ==> back == ls && said(lines(file_text(back))) == said(ls)
        }),
{
    let ls = file_lines(existing);
    let (p, m, h, k) = ("GOOSE_PROVIDER"@, "GOOSE_MODEL"@, "OPENAI_HOST"@, "OPENAI_API_KEY"@);
    lemma_goose_keys();
    lemma_file_lines_unbroken(existing);
    lemma_goose_added(ls, base_url, token, model);
    lemma_entry(p, "openai"@);
    lemma_entry(m, model);
    lemma_entry(h, base_url);
    lemma_entry(k, token);
    let there = goose_connected(ls, base_url, token, model);
    let n = ls.len() as int;
    assert forall|i: int| 0 <= i < there.len() implies unbroken(#[trigger] there[i]) by {
        if i < n {
            assert(there[i] == ls[i]);
        }
    }
    law_a_file_reads_back(there);
    lemma_lacks_aside(ls, p);
    lemma_lacks_aside(ls, m);
    lemma_lacks_aside(ls, h);
    lemma_lacks_aside(ls, k);
    let (b2, t2, m2) = (without_cr(base_url), without_cr(token), without_cr(model));
    lemma_goose_added(reread(ls), b2, t2, m2);
    assert(reread(there) =~= goose_connected(reread(ls), b2, t2, m2));
    law_goose_disconnect_undoes_connect(reread(ls), b2, t2, m2);
    if all_plain(ls) {
        lemma_plain(ls);
        lemma_said_reads_back(ls);
    }
}

} // verus!
