//! What a connect puts in the user's shell start-up file.
use vstd::prelude::*;

use crate::text::{
    chars_of, concat, concat3, contains, has_suffix, ends_with, is_white, lemma_trim_is_part,
    stands_at, starts_with, text_of, trim_end, trim_right,
};

verus! {

broadcast use vstd::string::group_string_axioms;

pub const MARK_BEGIN: &'static str = "# >>> rootmode connected apps >>>";

pub const MARK_END: &'static str = "# <<< rootmode connected apps <<<";

// ------------------------------------------------------------------ quoting

/// A character inside single quotes: a single quote closes them, stands
/// escaped, and opens them again.
pub open spec fn shell_char(c: char) -> Seq<char> {
    if c == '\'' {
        seq!['\'', '\\', '\'', '\'']
    } else {
        seq![c]
    }
}

pub open spec fn shell_escaped(s: Seq<char>) -> Seq<char>
    decreases s.len(),
{
    if s.len() == 0 {
        seq![]
    } else {
        shell_char(s[0]) + shell_escaped(s.drop_first())
    }
}

/// A text in single quotes.
pub open spec fn shell_quoted(s: Seq<char>) -> Seq<char> {
    "'"@ + shell_escaped(s) + "'"@
}

pub fn shell_quote(value: &str) -> (r: String)
    ensures
        r@ == shell_quoted(value@),
{
    let v = chars_of(value);
    let mut body = String::new();
    let mut i: usize = 0;
    assert(v@.skip(0) =~= v@);
    assert(body@ + shell_escaped(v@) =~= shell_escaped(v@));
    while i < v.len()
        invariant
            i <= v@.len(),
            shell_escaped(v@) == body@ + shell_escaped(v@.skip(i as int)),
        decreases v@.len() - i,
    {
        let ghost before = body@;
        let ghost rest = v@.skip(i as int);
        assert(rest.drop_first() =~= v@.skip(i as int + 1));
        if v[i] == '\'' {
            body.push('\'');
            body.push('\\');
            body.push('\'');
            body.push('\'');
        } else {
            body.push(v[i]);
        }
        assert(body@ =~= before + shell_char(v@[i as int]));
        assert(before + (shell_char(rest[0]) + shell_escaped(rest.drop_first())) =~= body@
            + shell_escaped(rest.drop_first()));
        i = i + 1;
    }
    assert(v@.skip(i as int) =~= Seq::<char>::empty());
    assert(body@ + shell_escaped(Seq::<char>::empty()) =~= body@);
    concat3("'", body.as_str(), "'")
}

/// How a shell reads a word: between single quotes everything as it is,
/// outside of them a backslash stands for the character after it. None where
/// a quote is left open.
pub open spec fn shell_read(s: Seq<char>, quoted: bool) -> Option<Seq<char>>
    decreases s.len(),
{
    if s.len() == 0 {
        if quoted {
            None
        } else {
            Some(seq![])
        }
    } else if s[0] == '\'' {
        shell_read(s.drop_first(), !quoted)
    } else if !quoted && s[0] == '\\' {
        if s.len() == 1 {
            None
        } else {
            match shell_read(s.skip(2), false) {
                Some(rest) => Some(seq![s[1]] + rest),
                None => None,
            }
        }
    } else {
        match shell_read(s.drop_first(), quoted) {
            Some(rest) => Some(seq![s[0]] + rest),
            None => None,
        }
    }
}

/// A shell reads a quoted text back as exactly what it was, whatever is in
/// it.
pub proof fn law_shell_quoting_reads_back(s: Seq<char>)
    ensures
        shell_read(shell_quoted(s), false) == Some(s),
{
    reveal_strlit("'");
    let q = shell_quoted(s);
    assert(q.drop_first() =~= shell_escaped(s) + "'"@);
    lemma_escaped_reads_back(s);
}

proof fn lemma_escaped_reads_back(s: Seq<char>)
    ensures
        shell_read(shell_escaped(s) + "'"@, true) == Some(s),
    decreases s.len(),
{
    reveal_strlit("'");
    let none = Seq::<char>::empty();
    let e = shell_escaped(s) + "'"@;
    if s.len() == 0 {
        assert(e =~= "'"@);
        assert(e.drop_first() =~= none);
        assert(shell_read(none, false) == Some(none));
        assert(s =~= none);
    } else {
        let rest = s.drop_first();
        let tail = shell_escaped(rest) + "'"@;
        lemma_escaped_reads_back(rest);
        assert(s =~= seq![s[0]] + rest);
        if s[0] == '\'' {
            assert(e =~= seq!['\'', '\\', '\'', '\''] + tail);
            let e1 = e.drop_first();
            assert(e1[0] == '\\' && e1[1] == '\'');
            let e2 = e1.skip(2);
            assert(e2 =~= seq!['\''] + tail);
            assert(e2.drop_first() =~= tail);
            assert(shell_read(e2, false) == shell_read(tail, true));
            assert(shell_read(e1, false) == Some(seq![e1[1]] + rest));
            assert(shell_read(e, true) == shell_read(e1, false));
        } else {
            assert(e =~= seq![s[0]] + tail);
            assert(e.drop_first() =~= tail);
            assert(shell_read(e, true) == Some(seq![s[0]] + rest));
        }
    }
}

// ------------------------------------------------------------------- blocks

/// The first place at or after `i` where `p` stands in `s`.
pub open spec fn first_at(s: Seq<char>, p: Seq<char>, i: int) -> Option<int>
    decreases s.len() + 1 - i,
{
    if i + p.len() > s.len() {
        None
    } else if starts_with(s.skip(i), p) {
        Some(i)
    } else {
        first_at(s, p, i + 1)
    }
}

proof fn lemma_first_at(s: Seq<char>, p: Seq<char>, i: int)
    requires
        0 <= i <= s.len(),
        p.len() > 0,
    ensures
        match first_at(s, p, i) {
            Some(k) => i <= k && k + p.len() <= s.len() && starts_with(s.skip(k), p) && forall|j: int|
                i <= j < k ==> !starts_with(#[trigger] s.skip(j), p),
            None => forall|j: int| i <= j <= s.len() ==> !starts_with(#[trigger] s.skip(j), p),
        },
    decreases s.len() - i,
{
    if i + p.len() <= s.len() && !starts_with(s.skip(i), p) {
        lemma_first_at(s, p, i + 1);
    }
}

proof fn lemma_first_at_is(s: Seq<char>, p: Seq<char>, i: int, k: int)
    requires
        0 <= i <= k,
        p.len() > 0,
        k + p.len() <= s.len(),
        starts_with(s.skip(k), p),
        forall|j: int| i <= j < k ==> !starts_with(#[trigger] s.skip(j), p),
    ensures
        first_at(s, p, i) == Some(k),
{
    lemma_first_at(s, p, i);
    match first_at(s, p, i) {
        Some(f) => {
            if f < k {
                assert(starts_with(s.skip(f), p));
            }
            if k < f {
                assert(!starts_with(s.skip(k), p));
            }
        },
        None => {
            assert(!starts_with(s.skip(k), p));
        },
    }
}

fn find_from(v: &Vec<char>, p: &Vec<char>, from: usize) -> (r: Option<usize>)
    requires
        from <= v@.len(),
    ensures
        match r {
            Some(k) => first_at(v@, p@, from as int) == Some(k as int) && from <= k && k + p@.len()
                <= v@.len(),
            None => first_at(v@, p@, from as int) is None,
        },
{
    let n: usize = v.len();
    let mut i: usize = from;
    while i <= n && p.len() <= n - i
        invariant
            from <= i <= n + 1,
            n == v@.len(),
            first_at(v@, p@, from as int) == first_at(v@, p@, i as int),
        decreases n + 1 - i,
    {
        if stands_at(v, p, i) {
            return Some(i);
        }
        assert(first_at(v@, p@, i as int) == first_at(v@, p@, i as int + 1));
        if i == n {
            assert(first_at(v@, p@, n as int + 1) is None);
            return None;
        }
        i = i + 1;
    }
    None
}

/// A file without this app's block: from the first opening mark up to and
/// with the closing mark after it.
pub open spec fn without_block(s: Seq<char>) -> Seq<char> {
    match first_at(s, MARK_BEGIN@, 0) {
        None => s,
        Some(start) => match first_at(s, MARK_END@, start) {
            None => s,
            Some(end) => s.take(start) + s.skip(end + MARK_END@.len()),
        },
    }
}

pub fn remove_guarded_block(existing: &str) -> (r: String)
    ensures
        r@ == without_block(existing@),
{
    let v = chars_of(existing);
    let n: usize = v.len();
    let begin = chars_of(MARK_BEGIN);
    let close = chars_of(MARK_END);
    let start: usize = match find_from(&v, &begin, 0) {
        Some(i) => i,
        None => {
            return existing.to_string();
        },
    };
    let end: usize = match find_from(&v, &close, start) {
        Some(i) => i,
        None => {
            return existing.to_string();
        },
    };
    let after: usize = end + close.len();
    assert(v@.subrange(0, start as int) =~= v@.take(start as int));
    assert(v@.subrange(after as int, n as int) =~= v@.skip(after as int));
    concat(text_of(&v, 0, start).as_str(), text_of(&v, after, n).as_str())
}

/// A file with this app's block at its end, in place of the one it had.
pub open spec fn with_block(s: Seq<char>, block: Seq<char>) -> Seq<char> {
    let kept = trim_end(without_block(s));
    if kept.len() == 0 {
        block + "\n"@
    } else {
        kept + "\n\n"@ + block + "\n"@
    }
}

pub fn replace_guarded_block(existing: &str, block: &str) -> (r: String)
    ensures
        r@ == with_block(existing@, block@),
{
    let kept = trim_right(remove_guarded_block(existing).as_str());
    if kept.as_str().is_empty() {
        concat(block, "\n")
    } else {
        let mut r = concat3(kept.as_str(), "\n\n", block);
        r.append("\n");
        r
    }
}

/// The block that exports a variable.
pub open spec fn export_block(name: Seq<char>, value: Seq<char>) -> Seq<char> {
    MARK_BEGIN@ + "\nexport "@ + name + "="@ + shell_quoted(value) + "\n"@ + MARK_END@
}

/// A start-up file that exports a variable to new shells.
pub fn export_env_var(existing: &str, name: &str, value: &str) -> (r: String)
    ensures
        r@ == with_block(existing@, export_block(name@, value@)),
{
    let mut block = concat3(MARK_BEGIN, "\nexport ", name);
    block.append("=");
    block.append(shell_quote(value).as_str());
    block.append("\n");
    block.append(MARK_END);
    replace_guarded_block(existing, block.as_str())
}

/// The block that exports a variable is the marks around one line.
pub proof fn lemma_export_block(name: Seq<char>, value: Seq<char>)
    ensures
        export_block(name, value) == block_of("export "@ + name + "="@ + shell_quoted(value)),
{
    reveal_strlit("\nexport ");
    reveal_strlit("export ");
    reveal_strlit("\n");
    assert("\nexport "@ =~= seq!['\n'] + "export "@);
    assert("\n"@ =~= seq!['\n']);
    assert(export_block(name, value) =~= block_of(
        "export "@ + name + "="@ + shell_quoted(value),
    ));
}

/// A variable that was exported and is then unset leaves the start-up file as
/// it is without this app's block, but for white space at its end. A file that
/// had no block is thereby as it was.
pub proof fn law_export_comes_out(s: Seq<char>, name: Seq<char>, value: Seq<char>)
    requires
        !contains(without_block(s), MARK_BEGIN@),
        !contains("export "@ + name + "="@ + shell_quoted(value), MARK_END@),
    ensures
        trim_end(without_block(with_block(s, export_block(name, value)))) == trim_end(
            without_block(s),
        ),
        !contains(s, MARK_BEGIN@) ==> without_block(s) == s,
{
    lemma_export_block(name, value);
    law_block_comes_out(s, "export "@ + name + "="@ + shell_quoted(value));
}

/// Nothing in the text is a line break.
spec fn one_line(s: Seq<char>) -> bool {
    forall|i: int| 0 <= i < s.len() ==> #[trigger] s[i] != '\n'
}

/// A mark does not reach across a line break: it stands before it or after
/// it.
proof fn lemma_no_mark_across(a: Seq<char>, b: Seq<char>, p: Seq<char>, j: int)
    requires
        one_line(p),
        p.len() > 0,
        0 <= j <= a.len(),
        starts_with((a + seq!['\n'] + b).skip(j), p),
    ensures
        j + p.len() <= a.len(),
        starts_with(a.skip(j), p),
{
    let s = a + seq!['\n'] + b;
    let k = a.len() - j;
    if j + p.len() > a.len() {
        assert(s.skip(j).take(p.len() as int)[k] == p[k]);
        assert(s.skip(j)[k] == s[a.len() as int]);
        assert(s[a.len() as int] == '\n');
        assert(p[k] != '\n');
    }
    assert(a.skip(j).take(p.len() as int) =~= p) by {
        assert forall|m: int| 0 <= m < p.len() implies a.skip(j).take(p.len() as int)[m]
            == p[m] by {
            assert(s.skip(j).take(p.len() as int)[m] == p[m]);
        }
    }
}

proof fn lemma_marks()
    ensures
        one_line(MARK_BEGIN@),
        one_line(MARK_END@),
        MARK_BEGIN@.len() == 33,
        MARK_END@.len() == 33,
        MARK_BEGIN@[2] == '>',
        MARK_END@[2] == '<',
{
    reveal_strlit("# >>> rootmode connected apps >>>");
    reveal_strlit("# <<< rootmode connected apps <<<");
}

/// This app's marks around a body.
pub open spec fn block_of(body: Seq<char>) -> Seq<char> {
    MARK_BEGIN@ + seq!['\n'] + body + seq!['\n'] + MARK_END@
}

/// The opening mark is found where the block begins.
proof fn lemma_begin_found(front: Seq<char>, rest: Seq<char>)
    requires
        !contains(front, MARK_BEGIN@),
        front.len() == 0 || front.last() == '\n',
        starts_with(rest, MARK_BEGIN@),
    ensures
        first_at(front + rest, MARK_BEGIN@, 0) == Some(front.len() as int),
{
    lemma_marks();
    let b = MARK_BEGIN@;
    let s = front + rest;
    let start = front.len() as int;
    assert(s.skip(start) =~= rest);
    assert forall|j: int| 0 <= j < start implies !starts_with(#[trigger] s.skip(j), b) by {
        if starts_with(s.skip(j), b) {
            let a = front.drop_last();
            assert(s =~= a + seq!['\n'] + rest);
            lemma_no_mark_across(a, rest, b, j);
            assert(front.skip(j).take(b.len() as int) =~= a.skip(j).take(b.len() as int));
            assert(starts_with(front.skip(j), b));
        }
    }
    lemma_first_at_is(s, b, 0, start);
}

/// The closing mark is found where the block ends.
proof fn lemma_end_found(front: Seq<char>, body: Seq<char>, back: Seq<char>)
    requires
        !contains(body, MARK_END@),
    ensures
        first_at(
            front + (MARK_BEGIN@ + seq!['\n'] + body + seq!['\n'] + MARK_END@ + back),
            MARK_END@,
            front.len() as int,
        ) == Some((front.len() + 35 + body.len()) as int),
{
    lemma_marks();
    let b = MARK_BEGIN@;
    let e = MARK_END@;
    let s = front + (b + seq!['\n'] + body + seq!['\n'] + e + back);
    let start = front.len() as int;
    let second = start + 35 + body.len();
    assert(s.skip(second) =~= e + back);
    assert((e + back).take(e.len() as int) =~= e);
    let a1 = front + b;
    let a2 = front + b + seq!['\n'] + body;
    let rest1 = body + seq!['\n'] + e + back;
    let rest2 = e + back;
    assert(s =~= a1 + seq!['\n'] + rest1);
    assert(s =~= a2 + seq!['\n'] + rest2);
    assert forall|j: int| start <= j < second implies !starts_with(#[trigger] s.skip(j), e) by {
        if starts_with(s.skip(j), e) {
            if j <= a1.len() {
                lemma_no_mark_across(a1, rest1, e, j);
                assert(j == start);
                assert(a1.skip(j).take(e.len() as int)[2] == e[2]);
                assert(a1.skip(j)[2] == b[2]);
            } else {
                lemma_no_mark_across(a2, rest2, e, j);
                let i = j - (start + 34);
                assert(a2.skip(j) =~= body.skip(i));
                assert(starts_with(body.skip(i), e));
            }
        }
    }
    lemma_first_at_is(s, e, start, second);
}

proof fn lemma_without_block(front: Seq<char>, body: Seq<char>, back: Seq<char>)
    requires
        !contains(front, MARK_BEGIN@),
        front.len() == 0 || front.last() == '\n',
        !contains(body, MARK_END@),
    ensures
        without_block(front + block_of(body) + back) == front + back,
{
    lemma_marks();
    let rest = MARK_BEGIN@ + seq!['\n'] + body + seq!['\n'] + MARK_END@ + back;
    let s = front + block_of(body) + back;
    assert(s =~= front + rest);
    assert(rest.take(MARK_BEGIN@.len() as int) =~= MARK_BEGIN@);
    lemma_begin_found(front, rest);
    lemma_end_found(front, body, back);
    let start = front.len() as int;
    assert(s.take(start) =~= front);
    assert(s.skip(start + 35 + body.len() + 33) =~= back);
}

proof fn lemma_block_comes_out(s: Seq<char>, body: Seq<char>)
    requires
        !contains(s, MARK_BEGIN@),
        !contains(body, MARK_END@),
    ensures
        trim_end(without_block(with_block(s, block_of(body)))) == trim_end(s),
{
    lemma_marks();
    lemma_no_block(s);
    lemma_trim_end_twice(s);
    let kept = trim_end(s);
    lemma_trim_is_part(s);
    lemma_kept_has_no_mark(s);
    reveal_strlit("\n");
    reveal_strlit("\n\n");
    if kept.len() == 0 {
        lemma_without_block(seq![], body, "\n"@);
        assert(Seq::<char>::empty() + block_of(body) + "\n"@ =~= block_of(body) + "\n"@);
        assert(Seq::<char>::empty() + "\n"@ =~= "\n"@);
        lemma_trim_newlines(kept, "\n"@);
        assert(kept + "\n"@ =~= "\n"@);
        assert(kept =~= seq![]);
    } else {
        let front = kept + "\n\n"@;
        lemma_front_has_no_mark(kept);
        lemma_without_block(front, body, "\n"@);
        assert(kept + "\n\n"@ + block_of(body) + "\n"@ =~= front + block_of(body) + "\n"@);
        reveal_strlit("\n\n\n");
        lemma_trim_newlines(kept, "\n\n\n"@);
        assert(front + "\n"@ =~= kept + "\n\n\n"@);
    }
}

/// Taking the block out again leaves the file as it is without this app's
/// block, but for white space at its end; it may have held one block before,
/// or none.
pub proof fn law_block_comes_out(s: Seq<char>, body: Seq<char>)
    requires
        !contains(without_block(s), MARK_BEGIN@),
        !contains(body, MARK_END@),
    ensures
        trim_end(without_block(with_block(s, block_of(body)))) == trim_end(without_block(s)),
        !contains(s, MARK_BEGIN@) ==> without_block(s) == s,
{
    let rest = without_block(s);
    lemma_no_block(rest);
    assert(with_block(s, block_of(body)) == with_block(rest, block_of(body)));
    lemma_block_comes_out(rest, body);
    if !contains(s, MARK_BEGIN@) {
        lemma_no_block(s);
    }
}

/// The block that is set last is the one that is there, once.
pub proof fn law_block_is_set_once(s: Seq<char>, first: Seq<char>, second: Seq<char>)
    requires
        !contains(without_block(s), MARK_BEGIN@),
        !contains(first, MARK_END@),
    ensures
        with_block(with_block(s, block_of(first)), block_of(second)) == with_block(
            s,
            block_of(second),
        ),
{
    law_block_comes_out(s, first);
}

/// A file in which a block was set holds it once: at its end, before one line
/// break. Neither the block nor its opening mark stands anywhere else.
pub proof fn law_block_stands_once(s: Seq<char>, body: Seq<char>)
    requires
        !contains(without_block(s), MARK_BEGIN@),
        !contains(body, MARK_BEGIN@),
    ensures
        ({
            let r = with_block(s, block_of(body));
            let at = r.len() - block_of(body).len() - 1;
            &&& at >= 0
            &&& r.skip(at) == block_of(body) + "\n"@
            &&& forall|i: int|
                0 <= i <= r.len() ==> (#[trigger] starts_with(r.skip(i), MARK_BEGIN@) <==> i == at)
            &&& forall|i: int|
                0 <= i <= r.len() ==> (#[trigger] starts_with(r.skip(i), block_of(body)) <==> i
                    == at)
        }),
{
    let kept = trim_end(without_block(s));
    let block = block_of(body);
    let r = with_block(s, block);
    reveal_strlit("\n");
    reveal_strlit("\n\n");
    lemma_marks();
    lemma_kept_has_no_mark(without_block(s));
    let front = if kept.len() == 0 {
        kept
    } else {
        lemma_front_has_no_mark(kept);
        kept + "\n\n"@
    };
    let b = MARK_BEGIN@;
    assert("\n"@ =~= seq!['\n']);
    assert(r =~= front + (block + seq!['\n']));
    let at = front.len() as int;
    assert(at == r.len() - block.len() - 1);
    assert(r.skip(at) =~= block + "\n"@);
    assert(r.skip(at).take(block.len() as int) =~= block);
    assert(r.skip(at).take(b.len() as int) =~= b);
    assert forall|i: int| 0 <= i <= r.len() implies (#[trigger] starts_with(r.skip(i), b) <==> i
        == at) by {
        if starts_with(r.skip(i), b) {
            lemma_mark_in_file(front, body, i);
        }
    }
    assert forall|i: int| 0 <= i <= r.len() implies (#[trigger] starts_with(r.skip(i), block)
        <==> i == at) by {
        if starts_with(r.skip(i), block) {
            assert(r.skip(i).take(b.len() as int) =~= r.skip(i).take(block.len() as int).take(
                b.len() as int,
            ));
            assert(block.take(b.len() as int) =~= b);
            assert(starts_with(r.skip(i), b));
        }
    }
}

/// The opening mark stands nowhere but where the block begins.
proof fn lemma_mark_in_file(front: Seq<char>, body: Seq<char>, i: int)
    requires
        !contains(front, MARK_BEGIN@),
        front.len() == 0 || front.last() == '\n',
        !contains(body, MARK_BEGIN@),
        0 <= i <= front.len() + block_of(body).len() + 1,
        starts_with((front + (block_of(body) + seq!['\n'])).skip(i), MARK_BEGIN@),
    ensures
        i == front.len(),
{
    lemma_marks();
    let b = MARK_BEGIN@;
    let e = MARK_END@;
    let none = Seq::<char>::empty();
    let start = front.len() as int;
    let s = front + (block_of(body) + seq!['\n']);
    let a1 = front + b;
    let a2 = a1 + seq!['\n'] + body;
    let a3 = a2 + seq!['\n'] + e;
    if i < start {
        let a = front.drop_last();
        assert(s =~= a + seq!['\n'] + (block_of(body) + seq!['\n']));
        lemma_no_mark_across(a, block_of(body) + seq!['\n'], b, i);
        assert(front.skip(i).take(b.len() as int) =~= a.skip(i).take(b.len() as int));
        assert(starts_with(front.skip(i), b));
    } else if i <= a1.len() {
        let rest = body + seq!['\n'] + e + seq!['\n'];
        assert(s =~= a1 + seq!['\n'] + rest);
        lemma_no_mark_across(a1, rest, b, i);
    } else if i <= a2.len() {
        let rest = e + seq!['\n'];
        assert(s =~= a2 + seq!['\n'] + rest);
        lemma_no_mark_across(a2, rest, b, i);
        let k = i - (a1.len() + 1);
        assert(a2.skip(i) =~= body.skip(k));
        assert(starts_with(body.skip(k), b));
    } else if i <= a3.len() {
        assert(s =~= a3 + seq!['\n'] + none);
        lemma_no_mark_across(a3, none, b, i);
        assert(i == a2.len() + 1);
        assert(a3.skip(i).take(b.len() as int)[2] == b[2]);
        assert(a3.skip(i)[2] == e[2]);
    }
}

/// A file that holds one block, on lines of its own, is without it what stands
/// around it, and then holds no opening mark.
pub proof fn law_a_block_is_cut_out(front: Seq<char>, body: Seq<char>, back: Seq<char>)
    requires
        !contains(front, MARK_BEGIN@),
        !contains(back, MARK_BEGIN@),
        front.len() == 0 || front.last() == '\n',
        !contains(body, MARK_END@),
    ensures
        without_block(front + block_of(body) + back) == front + back,
        !contains(front + back, MARK_BEGIN@),
{
    lemma_without_block(front, body, back);
    lemma_marks();
    let b = MARK_BEGIN@;
    let all = front + back;
    if contains(all, b) {
        let i = choose|i: int| 0 <= i <= all.len() && #[trigger] starts_with(all.skip(i), b);
        if i < front.len() {
            let a = front.drop_last();
            assert(all =~= a + seq!['\n'] + back);
            lemma_no_mark_across(a, back, b, i);
            assert(front.skip(i).take(b.len() as int) =~= a.skip(i).take(b.len() as int));
            assert(starts_with(front.skip(i), b));
        } else {
            assert(all.skip(i) =~= back.skip(i - front.len()));
            assert(starts_with(back.skip(i - front.len()), b));
        }
    }
}

proof fn lemma_no_block(s: Seq<char>)
    requires
        !contains(s, MARK_BEGIN@),
    ensures
        without_block(s) == s,
{
    lemma_marks();
    lemma_first_at(s, MARK_BEGIN@, 0);
    match first_at(s, MARK_BEGIN@, 0) {
        Some(k) => {
            assert(starts_with(s.skip(k), MARK_BEGIN@));
        },
        None => {},
    }
}

proof fn lemma_kept_has_no_mark(s: Seq<char>)
    requires
        !contains(s, MARK_BEGIN@),
    ensures
        !contains(trim_end(s), MARK_BEGIN@),
{
    lemma_trim_is_part(s);
    let kept = trim_end(s);
    if contains(kept, MARK_BEGIN@) {
        let i = choose|i: int|
            0 <= i <= kept.len() && #[trigger] starts_with(kept.skip(i), MARK_BEGIN@);
        assert(s.skip(i).take(MARK_BEGIN@.len() as int) =~= MARK_BEGIN@) by {
            assert(kept.skip(i).take(MARK_BEGIN@.len() as int) == MARK_BEGIN@);
        }
        assert(starts_with(s.skip(i), MARK_BEGIN@));
    }
}

proof fn lemma_front_has_no_mark(kept: Seq<char>)
    requires
        !contains(kept, MARK_BEGIN@),
    ensures
        !contains(kept + "\n\n"@, MARK_BEGIN@),
        (kept + "\n\n"@).last() == '\n',
{
    lemma_marks();
    reveal_strlit("\n\n");
    let front = kept + "\n\n"@;
    if contains(front, MARK_BEGIN@) {
        let i = choose|i: int|
            0 <= i <= front.len() && #[trigger] starts_with(front.skip(i), MARK_BEGIN@);
        assert(front =~= kept + seq!['\n'] + seq!['\n']);
        if i <= kept.len() {
            lemma_no_mark_across(kept, seq!['\n'], MARK_BEGIN@, i);
            assert(starts_with(kept.skip(i), MARK_BEGIN@));
        }
    }
}

proof fn lemma_trim_newlines(kept: Seq<char>, more: Seq<char>)
    requires
        kept == trim_end(kept),
        forall|i: int| 0 <= i < more.len() ==> #[trigger] more[i] == '\n',
    ensures
        trim_end(kept + more) == kept,
    decreases more.len(),
{
    if more.len() > 0 {
        let all = kept + more;
        assert(all.last() == '\n');
        assert(all.drop_last() =~= kept + more.drop_last());
        lemma_trim_newlines(kept, more.drop_last());
    } else {
        assert(kept + more =~= kept);
    }
}

proof fn lemma_trim_end_twice(s: Seq<char>)
    ensures
        trim_end(trim_end(s)) == trim_end(s),
    decreases s.len(),
{
    if s.len() > 0 && is_white(s.last()) {
        lemma_trim_end_twice(s.drop_last());
    }
}

// ------------------------------------------------------------------- launch

/// The start-up file of a shell.
pub open spec fn rc_file(shell: Seq<char>, has_zshrc: bool) -> Seq<char> {
    if ends_with(shell, "zsh"@) {
        ".zshrc"@
    } else if ends_with(shell, "bash"@) {
        ".bashrc"@
    } else if has_zshrc {
        ".zshrc"@
    } else {
        ".profile"@
    }
}

/// The start-up file of the user's shell, in the home directory.
pub fn shell_rc_file(shell: &str, has_zshrc: bool) -> (r: &'static str)
    ensures
        r@ == rc_file(shell@, has_zshrc),
{
    if has_suffix(shell, "zsh") {
        ".zshrc"
    } else if has_suffix(shell, "bash") {
        ".bashrc"
    } else if has_zshrc {
        ".zshrc"
    } else {
        ".profile"
    }
}

/// What a terminal runs to open a tool with the token set.
pub fn launch_command(token: &str, binary: &str) -> (r: String)
    ensures
        r@ == "export ROOTMODE_GATEWAY_TOKEN="@ + shell_quoted(token@) + "; "@ + binary@
            + "; exec $SHELL"@,
{
    let mut r = concat3(
        "export ROOTMODE_GATEWAY_TOKEN=",
        shell_quote(token).as_str(),
        "; ",
    );
    r.append(binary);
    r.append("; exec $SHELL");
    r
}

/// What the terminal app of macOS is told to open a tool with the token set.
pub fn mac_launch_script(token: &str, binary: &str) -> (r: String)
    ensures
        r@ == "tell application \"Terminal\" to do script \"export ROOTMODE_GATEWAY_TOKEN="@
            + shell_quoted(token@) + "; "@ + binary@ + "\""@,
{
    let mut r = concat3(
        "tell application \"Terminal\" to do script \"export ROOTMODE_GATEWAY_TOKEN=",
        shell_quote(token).as_str(),
        "; ",
    );
    r.append(binary);
    r.append("\"");
    r
}

/// What the command prompt of Windows runs to open a tool with the token set.
pub fn windows_launch_command(token: &str, binary: &str) -> (r: String)
    ensures
        r@ == "set ROOTMODE_GATEWAY_TOKEN="@ + token@ + "&&"@ + binary@,
{
    let mut r = concat3("set ROOTMODE_GATEWAY_TOKEN=", token, "&&");
    r.append(binary);
    r
}

} // verus!
