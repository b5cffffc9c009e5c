//! JSON with comments, as most tools keep their settings in.
use vstd::prelude::*;

use crate::text::{chars_of, find_char, index_of, lemma_index_of, string_of, trim_start, white};

verus! {

broadcast use vstd::string::group_string_axioms;

/// Where a quoted text that goes on at `i` ends: after its closing quote, or
/// at the end where there is none.
pub open spec fn string_end(s: Seq<char>, i: int) -> int
    decreases s.len() + 1 - i,
{
    if i >= s.len() {
        s.len() as int
    } else if s[i] == '\\' {
        string_end(s, i + 2)
    } else if s[i] == '"' {
        i + 1
    } else {
        string_end(s, i + 1)
    }
}

/// Where a block comment that goes on at `i` ends.
pub open spec fn comment_end(s: Seq<char>, i: int) -> int
    decreases s.len() - i,
{
    if i + 1 >= s.len() {
        s.len() as int
    } else if s[i] == '*' && s[i + 1] == '/' {
        i + 2
    } else {
        comment_end(s, i + 1)
    }
}

proof fn lemma_ends(s: Seq<char>, i: int)
    requires
        0 <= i,
    ensures
        i <= s.len() ==> i <= string_end(s, i) <= s.len(),
        i > s.len() ==> string_end(s, i) == s.len(),
        i <= s.len() ==> i <= comment_end(s, i) <= s.len(),
    decreases s.len() + 1 - i,
{
    if i < s.len() {
        lemma_ends(s, i + 1);
        lemma_ends(s, i + 2);
    }
}

/// Without comments: a line comment leaves its line break, a block comment
/// nothing, and what is quoted stays as it is.
pub open spec fn uncommented(s: Seq<char>) -> Seq<char>
    decreases s.len(),
{
    if s.len() == 0 {
        seq![]
    } else if s[0] == '"' {
        let e = string_end(s, 1);
        if 1 <= e <= s.len() {
            s.take(e) + uncommented(s.skip(e))
        } else {
            s
        }
    } else if s.len() > 1 && s[0] == '/' && s[1] == '/' {
        let k = index_of(s, '\n');
        if 0 <= k < s.len() {
            seq!['\n'] + uncommented(s.skip(k + 1))
        } else {
            seq![]
        }
    } else if s.len() > 1 && s[0] == '/' && s[1] == '*' {
        let e = comment_end(s, 2);
        if 2 <= e <= s.len() {
            uncommented(s.skip(e))
        } else {
            s
        }
    } else {
        seq![s[0]] + uncommented(s.drop_first())
    }
}

/// Whether the next thing after white space closes a list or a record.
pub open spec fn closes(s: Seq<char>) -> bool {
    let t = trim_start(s);
    t.len() > 0 && (t[0] == '}' || t[0] == ']')
}

/// Without the commas that come before a closing bracket. What is quoted
/// stays as it is.
pub open spec fn without_last_commas(s: Seq<char>) -> Seq<char>
    decreases s.len(),
{
    if s.len() == 0 {
        seq![]
    } else if s[0] == '"' {
        let e = string_end(s, 1);
        if 1 <= e <= s.len() {
            s.take(e) + without_last_commas(s.skip(e))
        } else {
            s
        }
    } else if s[0] == ',' && closes(s.drop_first()) {
        without_last_commas(s.drop_first())
    } else {
        seq![s[0]] + without_last_commas(s.drop_first())
    }
}

/// JSON with comments as plain JSON.
pub open spec fn plain_json(s: Seq<char>) -> Seq<char> {
    without_last_commas(uncommented(s))
}

fn find_string_end(v: &Vec<char>, from: usize) -> (e: usize)
    requires
        from < v@.len(),
    ensures
        from < e <= v@.len(),
        e - from == string_end(v@.skip(from as int), 1),
{
    let ghost s = v@.skip(from as int);
    let n: usize = v.len();
    let mut i: usize = from + 1;
    while i < n
        invariant
            from < n,
            n == v@.len(),
            s == v@.skip(from as int),
            from + 1 <= i <= n,
            string_end(s, 1) == string_end(s, i - from),
        decreases n - i,
    {
        assert(s[i - from] == v@[i as int]);
        if v[i] == '\\' {
            if n - i < 2 {
                proof {
                    lemma_ends(s, i - from + 2);
                }
                return n;
            }
            i = i + 2;
        } else if v[i] == '"' {
            return i + 1;
        } else {
            i = i + 1;
        }
    }
    n
}

fn find_comment_end(v: &Vec<char>, from: usize) -> (e: usize)
    requires
        from + 2 <= v@.len(),
    ensures
        from + 2 <= e <= v@.len(),
        e - from == comment_end(v@.skip(from as int), 2),
{
    let ghost s = v@.skip(from as int);
    let n: usize = v.len();
    let mut i: usize = from + 2;
    while i < n && n - i > 1
        invariant
            from + 2 <= n,
            n == v@.len(),
            s == v@.skip(from as int),
            from + 2 <= i <= n,
            comment_end(s, 2) == comment_end(s, i - from),
        decreases n - i,
    {
        assert(s[i - from] == v@[i as int]);
        assert(s[i - from + 1] == v@[i as int + 1]);
        if v[i] == '*' && v[i + 1] == '/' {
            return i + 2;
        }
        i = i + 1;
    }
    n
}

fn push_part(out: &mut Vec<char>, v: &Vec<char>, from: usize, to: usize)
    requires
        from <= to <= v@.len(),
    ensures
        final(out)@ == old(out)@ + v@.subrange(from as int, to as int),
{
    let ghost before = out@;
    let mut i: usize = from;
    assert(before + v@.subrange(from as int, from as int) =~= before);
    while i < to
        invariant
            from <= i <= to <= v@.len(),
            out@ == before + v@.subrange(from as int, i as int),
        decreases to - i,
    {
        out.push(v[i]);
        assert(before + v@.subrange(from as int, i as int + 1) =~= (before + v@.subrange(
            from as int,
            i as int,
        )).push(v@[i as int]));
        i = i + 1;
    }
}

fn strip_comments(v: &Vec<char>) -> (out: Vec<char>)
    ensures
        out@ == uncommented(v@),
{
    let n: usize = v.len();
    let mut out: Vec<char> = Vec::new();
    let mut i: usize = 0;
    assert(v@.skip(0) =~= v@);
    assert(out@ + uncommented(v@) =~= uncommented(v@));
    while i < n
        invariant
            n == v@.len(),
            i <= n,
            uncommented(v@) == out@ + uncommented(v@.skip(i as int)),
        decreases n - i,
    {
        let ghost s = v@.skip(i as int);
        let ghost before = out@;
        assert(s[0] == v@[i as int]);
        proof {
            lemma_ends(s, 1);
            lemma_ends(s, 2);
            lemma_index_of(s, '\n');
        }
        if v[i] == '"' {
            let e: usize = find_string_end(v, i);
            push_part(&mut out, v, i, e);
            assert(s.take(e - i) =~= v@.subrange(i as int, e as int));
            assert(s.skip(e - i) =~= v@.skip(e as int));
            assert(before + (s.take(e - i) + uncommented(s.skip(e - i))) =~= out@ + uncommented(
                v@.skip(e as int),
            ));
            i = e;
        } else if n - i > 1 && v[i] == '/' && v[i + 1] == '/' {
            assert(s[1] == v@[i as int + 1]);
            let k: usize = find_char(v, '\n', i);
            if k < n {
                out.push('\n');
                assert(s.skip(k - i + 1) =~= v@.skip(k as int + 1));
                assert(before + (seq!['\n'] + uncommented(v@.skip(k as int + 1))) =~= out@
                    + uncommented(v@.skip(k as int + 1)));
                i = k + 1;
            } else {
                assert(v@.skip(n as int) =~= Seq::<char>::empty());
                assert(before + uncommented(Seq::<char>::empty()) =~= before);
                i = n;
            }
        } else if n - i > 1 && v[i] == '/' && v[i + 1] == '*' {
            assert(s[1] == v@[i as int + 1]);
            let e: usize = find_comment_end(v, i);
            assert(s.skip(e - i) =~= v@.skip(e as int));
            i = e;
        } else {
            if n - i > 1 {
                assert(s[1] == v@[i as int + 1]);
            }
            out.push(v[i]);
            assert(s.drop_first() =~= v@.skip(i as int + 1));
            assert(before + (seq![s[0]] + uncommented(s.drop_first())) =~= out@ + uncommented(
                v@.skip(i as int + 1),
            ));
            i = i + 1;
        }
    }
    assert(v@.skip(i as int) =~= Seq::<char>::empty());
    assert(out@ + uncommented(Seq::<char>::empty()) =~= out@);
    out
}

/// Whether the next thing from `from` on closes a list or a record.
fn closes_at(v: &Vec<char>, from: usize) -> (r: bool)
    requires
        from <= v@.len(),
    ensures
        r == closes(v@.skip(from as int)),
{
    let n: usize = v.len();
    let mut j: usize = from;
    while j < n && white(v[j])
        invariant
            from <= j <= n,
            n == v@.len(),
            trim_start(v@.skip(from as int)) == trim_start(v@.skip(j as int)),
        decreases n - j,
    {
        assert(v@.skip(j as int).drop_first() =~= v@.skip(j as int + 1));
        j = j + 1;
    }
    if j < n {
        assert(v@.skip(j as int)[0] == v@[j as int]);
        v[j] == '}' || v[j] == ']'
    } else {
        assert(v@.skip(j as int).len() == 0);
        false
    }
}

fn strip_trailing_commas(v: &Vec<char>) -> (out: Vec<char>)
    ensures
        out@ == without_last_commas(v@),
{
    let n: usize = v.len();
    let mut out: Vec<char> = Vec::new();
    let mut i: usize = 0;
    assert(v@.skip(0) =~= v@);
    assert(out@ + without_last_commas(v@) =~= without_last_commas(v@));
    while i < n
        invariant
            n == v@.len(),
            i <= n,
            without_last_commas(v@) == out@ + without_last_commas(v@.skip(i as int)),
        decreases n - i,
    {
        let ghost s = v@.skip(i as int);
        let ghost before = out@;
        assert(s[0] == v@[i as int]);
        assert(s.drop_first() =~= v@.skip(i as int + 1));
        proof {
            lemma_ends(s, 1);
        }
        if v[i] == '"' {
            let e: usize = find_string_end(v, i);
            push_part(&mut out, v, i, e);
            assert(s.take(e - i) =~= v@.subrange(i as int, e as int));
            assert(s.skip(e - i) =~= v@.skip(e as int));
            assert(before + (s.take(e - i) + without_last_commas(s.skip(e - i))) =~= out@
                + without_last_commas(v@.skip(e as int)));
            i = e;
        } else {
            if !(v[i] == ',' && closes_at(v, i + 1)) {
                out.push(v[i]);
                assert(before + (seq![s[0]] + without_last_commas(s.drop_first())) =~= out@
                    + without_last_commas(s.drop_first()));
            }
            i = i + 1;
        }
    }
    assert(v@.skip(i as int) =~= Seq::<char>::empty());
    assert(out@ + without_last_commas(Seq::<char>::empty()) =~= out@);
    out
}

/// JSON with comments as plain JSON: comments outside of quotes are gone, and
/// so are the commas before a closing bracket.
pub fn strip_jsonc(input: &str) -> (r: String)
    ensures
        r@ == plain_json(input@),
{
    string_of(&strip_trailing_commas(&strip_comments(&chars_of(input))))
}

/// A text without slashes, quotes or commas is left as it is.
pub proof fn law_plain_text_is_untouched(s: Seq<char>)
    requires
        forall|i: int|
            0 <= i < s.len() ==> #[trigger] s[i] != '/' && s[i] != '"' && s[i] != ',',
    ensures
        plain_json(s) == s,
    decreases s.len(),
{
    lemma_uncommented_same(s);
    lemma_commas_same(s);
}

proof fn lemma_uncommented_same(s: Seq<char>)
    requires
        forall|i: int| 0 <= i < s.len() ==> #[trigger] s[i] != '/' && s[i] != '"',
    ensures
        uncommented(s) == s,
    decreases s.len(),
{
    if s.len() > 0 {
        let rest = s.drop_first();
        assert forall|i: int| 0 <= i < rest.len() implies #[trigger] rest[i] != '/' && rest[i]
            != '"' by {
            assert(rest[i] == s[i + 1]);
        }
        lemma_uncommented_same(rest);
        assert(seq![s[0]] + rest =~= s);
    } else {
        assert(uncommented(s) =~= s);
    }
}

proof fn lemma_commas_same(s: Seq<char>)
    requires
        forall|i: int| 0 <= i < s.len() ==> #[trigger] s[i] != ',' && s[i] != '"',
    ensures
        without_last_commas(s) == s,
    decreases s.len(),
{
    if s.len() > 0 {
        let rest = s.drop_first();
        assert forall|i: int| 0 <= i < rest.len() implies #[trigger] rest[i] != ',' && rest[i]
            != '"' by {
            assert(rest[i] == s[i + 1]);
        }
        lemma_commas_same(rest);
        assert(seq![s[0]] + rest =~= s);
    } else {
        assert(without_last_commas(s) =~= s);
    }
}

/// The quoted texts of plain JSON, in order.
pub open spec fn quoted(s: Seq<char>) -> Seq<Seq<char>>
    decreases s.len(),
{
    if s.len() == 0 {
        seq![]
    } else if s[0] == '"' {
        let e = string_end(s, 1);
        if 1 <= e <= s.len() {
            seq![s.take(e)] + quoted(s.skip(e))
        } else {
            seq![s]
        }
    } else {
        quoted(s.drop_first())
    }
}

/// The quoted texts of JSON with comments, in order; what a comment quotes is
/// not one of them.
pub open spec fn quoted_in_code(s: Seq<char>) -> Seq<Seq<char>>
    decreases s.len(),
{
    if s.len() == 0 {
        seq![]
    } else if s[0] == '"' {
        let e = string_end(s, 1);
        if 1 <= e <= s.len() {
            seq![s.take(e)] + quoted_in_code(s.skip(e))
        } else {
            seq![s]
        }
    } else if s.len() > 1 && s[0] == '/' && s[1] == '/' {
        let k = index_of(s, '\n');
        if 0 <= k < s.len() {
            quoted_in_code(s.skip(k + 1))
        } else {
            seq![]
        }
    } else if s.len() > 1 && s[0] == '/' && s[1] == '*' {
        let e = comment_end(s, 2);
        if 2 <= e <= s.len() {
            quoted_in_code(s.skip(e))
        } else {
            seq![]
        }
    } else {
        quoted_in_code(s.drop_first())
    }
}

/// Where a quoted text ends is decided by what it holds.
proof fn lemma_end_is_local(s: Seq<char>, t: Seq<char>, i: int)
    requires
        0 <= i,
        string_end(s, i) < s.len(),
        string_end(s, i) <= t.len(),
        t.take(string_end(s, i)) == s.take(string_end(s, i)),
    ensures
        string_end(t, i) == string_end(s, i),
    decreases s.len() + 1 - i,
{
    let e = string_end(s, i);
    lemma_ends(s, i);
    if i < s.len() {
        lemma_ends(s, i + 1);
        lemma_ends(s, i + 2);
        assert(t.take(e)[i] == s.take(e)[i]);
        if s[i] == '\\' {
            lemma_end_is_local(s, t, i + 2);
        } else if s[i] != '"' {
            lemma_end_is_local(s, t, i + 1);
        }
    }
}

/// A quoted text that `rest` follows is read as one.
proof fn lemma_quoted_first(s: Seq<char>, rest: Seq<char>)
    requires
        s.len() > 0,
        s[0] == '"',
        string_end(s, 1) == s.len() ==> rest.len() == 0,
    ensures
        quoted(s.take(string_end(s, 1)) + rest) == seq![s.take(string_end(s, 1))] + quoted(rest),
        string_end(s.take(string_end(s, 1)) + rest, 1) == string_end(s, 1),
{
    lemma_ends(s, 1);
    let e = string_end(s, 1);
    let t = s.take(e) + rest;
    assert(t.take(e) =~= s.take(e));
    if e < s.len() {
        lemma_end_is_local(s, t, 1);
    } else {
        assert(t =~= s);
    }
    assert(t[0] == s[0]);
    assert(t.skip(e) =~= rest);
}

proof fn lemma_commas_keep_quotes(s: Seq<char>)
    ensures
        quoted(without_last_commas(s)) == quoted(s),
    decreases s.len(),
{
    if s.len() > 0 {
        if s[0] == '"' {
            lemma_ends(s, 1);
            let e = string_end(s, 1);
            lemma_commas_keep_quotes(s.skip(e));
            lemma_quoted_first(s, without_last_commas(s.skip(e)));
        } else {
            let rest = s.drop_first();
            lemma_commas_keep_quotes(rest);
            if !(s[0] == ',' && closes(rest)) {
                assert((seq![s[0]] + without_last_commas(rest)).drop_first()
                    =~= without_last_commas(rest));
            }
        }
    }
}

proof fn lemma_comments_keep_quotes(s: Seq<char>)
    ensures
        quoted(uncommented(s)) == quoted_in_code(s),
    decreases s.len(),
{
    if s.len() > 0 {
        lemma_ends(s, 1);
        lemma_ends(s, 2);
        lemma_index_of(s, '\n');
        if s[0] == '"' {
            let e = string_end(s, 1);
            lemma_comments_keep_quotes(s.skip(e));
            lemma_quoted_first(s, uncommented(s.skip(e)));
        } else if s.len() > 1 && s[0] == '/' && s[1] == '/' {
            let k = index_of(s, '\n');
            if 0 <= k < s.len() {
                let rest = s.skip(k + 1);
                lemma_comments_keep_quotes(rest);
                assert((seq!['\n'] + uncommented(rest)).drop_first() =~= uncommented(rest));
            }
        } else if s.len() > 1 && s[0] == '/' && s[1] == '*' {
            lemma_comments_keep_quotes(s.skip(comment_end(s, 2)));
        } else {
            let rest = s.drop_first();
            lemma_comments_keep_quotes(rest);
            assert((seq![s[0]] + uncommented(rest)).drop_first() =~= uncommented(rest));
        }
    }
}

/// Every quoted text comes through whole, whatever it holds: what looks like a
/// comment in it stays, and so does a comma before a bracket.
pub proof fn law_quotes_protect_their_text(s: Seq<char>)
    ensures
        quoted(plain_json(s)) == quoted_in_code(s),
{
    lemma_comments_keep_quotes(s);
    lemma_commas_keep_quotes(uncommented(s));
}

} // verus!
