//! Keeping a model's reasoning out of its answer.
use vstd::prelude::*;

use crate::text::{
    blank, chars_of, index_of, is_blank, lemma_index_of, lemma_trim_is_part, lines, lines_of,
    lower_char, lower_of, string_of, texts, trim, trim_end, trim_right, trim_start, trimmed,
    without_cr,
};

verus! {

broadcast use vstd::string::group_string_axioms;

/// Whether `p` stands in `s` at `i`, whatever the case of its ASCII letters.
pub open spec fn tag_at(s: Seq<char>, p: Seq<char>, i: int) -> bool {
    &&& 0 <= i
    &&& i + p.len() <= s.len()
    &&& forall|k: int| 0 <= k < p.len() ==> #[trigger] lower_char(s[i + k]) == lower_char(p[k])
}

/// Whether `p` stands anywhere in `s`, whatever the case of its letters.
pub open spec fn has_tag(s: Seq<char>, p: Seq<char>) -> bool {
    exists|i: int| #[trigger] tag_at(s, p, i)
}

/// The first place at or after `i` where `p` stands in `s`.
pub open spec fn first_tag(s: Seq<char>, p: Seq<char>, i: int) -> Option<int>
    decreases s.len() - i,
{
    if i + p.len() > s.len() {
        None
    } else if tag_at(s, p, i) {
        Some(i)
    } else {
        first_tag(s, p, i + 1)
    }
}

pub proof fn lemma_first_tag(s: Seq<char>, p: Seq<char>, i: int)
    requires
        0 <= i,
    ensures
        match first_tag(s, p, i) {
            Some(k) => i <= k && tag_at(s, p, k) && forall|j: int| i <= j < k ==> !tag_at(s, p, j),
            None => forall|j: int| i <= j ==> !tag_at(s, p, j),
        },
    decreases s.len() - i,
{
    if i + p.len() <= s.len() && !tag_at(s, p, i) {
        lemma_first_tag(s, p, i + 1);
    }
}

/// The text without what stands between the tags, and without the tags. A
/// tag that is never closed takes the rest of the text with it.
pub open spec fn peeled(s: Seq<char>, open: Seq<char>, close: Seq<char>) -> Seq<char>
    decreases s.len(),
{
    match first_tag(s, open, 0) {
        None => s,
        Some(start) => {
            let after = start + open.len();
            match first_tag(s, close, after) {
                None => s.take(start),
                Some(end) => if 0 <= start < end + close.len() <= s.len() {
                    peeled(s.take(start) + s.skip(end + close.len() as int), open, close)
                } else {
                    s
                },
            }
        },
    }
}

/// Lines one under another, a run of blank ones between two others leaving
/// no more than the line break.
pub open spec fn collapsed(ls: Seq<Seq<char>>) -> Seq<char>
    decreases ls.len(),
{
    if ls.len() == 0 {
        seq![]
    } else {
        let out = collapsed(ls.drop_last());
        if blank(ls.last()) {
            if out.len() > 0 && (ls.len() == 1 || !blank(ls[ls.len() - 2])) {
                out.push('\n')
            } else {
                out
            }
        } else if out.len() > 0 && out.last() != '\n' {
            out.push('\n') + trim_end(ls.last())
        } else {
            out + trim_end(ls.last())
        }
    }
}

/// Both kinds of reasoning taken out, one after the other.
pub open spec fn peeled_once(s: Seq<char>) -> Seq<char> {
    peeled(peeled(s, "<think>"@, "</think>"@), "<thinking>"@, "</thinking>"@)
}

/// The text without reasoning. Taking one tag out can leave the halves of
/// another beside each other, so this goes on until neither is left.
pub open spec fn unthought(s: Seq<char>) -> Seq<char>
    decreases s.len(),
{
    let t = peeled_once(s);
    if has_tag(t, "<think>"@) && t.len() < s.len() {
        unthought(t)
    } else {
        t
    }
}

/// Lines one under another, without blank ones, and without white space at
/// either end.
pub open spec fn tidied(s: Seq<char>) -> Seq<char> {
    trimmed(collapsed(lines(s)))
}

/// What is left of a completion once its reasoning is taken out.
pub open spec fn answer_part(s: Seq<char>) -> Seq<char> {
    tidied(unthought(s))
}

proof fn lemma_peeled_len(s: Seq<char>, open: Seq<char>, close: Seq<char>)
    requires
        open.len() > 0,
    ensures
        peeled(s, open, close).len() <= s.len(),
        peeled(s, open, close).len() == s.len() ==> peeled(s, open, close) == s,
    decreases s.len(),
{
    lemma_first_tag(s, open, 0);
    if let Some(start) = first_tag(s, open, 0) {
        let after = start + open.len();
        lemma_first_tag(s, close, after);
        if let Some(end) = first_tag(s, close, after) {
            lemma_peeled_len(s.take(start) + s.skip(end + close.len() as int), open, close);
        }
    }
}

/// A round that leaves a tag behind has taken something out.
pub proof fn lemma_round(s: Seq<char>)
    ensures
        peeled_once(s).len() <= s.len(),
        has_tag(peeled_once(s), "<think>"@) ==> peeled_once(s).len() < s.len(),
        !has_tag(peeled_once(s), "<thinking>"@),
{
    reveal_strlit("<think>");
    reveal_strlit("<thinking>");
    let once = peeled(s, "<think>"@, "</think>"@);
    lemma_peeled_len(s, "<think>"@, "</think>"@);
    lemma_peeled_len(once, "<thinking>"@, "</thinking>"@);
    law_peeled_has_no_tag(s, "<think>"@, "</think>"@);
    law_peeled_has_no_tag(once, "<thinking>"@, "</thinking>"@);
}

/// A text without either tag has no reasoning to take out.
pub proof fn lemma_nothing_to_take_out(s: Seq<char>)
    requires
        !has_tag(s, "<think>"@),
        !has_tag(s, "<thinking>"@),
    ensures
        peeled_once(s) == s,
        unthought(s) == s,
{
    law_peeling_spares_plain_text(s, "<think>"@, "</think>"@);
    law_peeling_spares_plain_text(s, "<thinking>"@, "</thinking>"@);
}

/// Neither tag is left.
pub proof fn lemma_unthought(s: Seq<char>)
    ensures
        !has_tag(unthought(s), "<think>"@),
        !has_tag(unthought(s), "<thinking>"@),
    decreases s.len(),
{
    lemma_round(s);
    let t = peeled_once(s);
    if has_tag(t, "<think>"@) {
        lemma_unthought(t);
    }
}

fn find_ignore_ascii_case(hay: &Vec<char>, needle: &Vec<char>, from: usize) -> (r: Option<usize>)
    requires
        from <= hay@.len(),
    ensures
        match r {
            Some(i) => first_tag(hay@, needle@, from as int) == Some(i as int) && from <= i && i
                + needle@.len() <= hay@.len(),
            None => first_tag(hay@, needle@, from as int) is None,
        },
{
    let n: usize = hay.len();
    let mut i: usize = from;
    while i <= n && needle.len() <= n - i
        invariant
            from <= i,
            i <= n + 1,
            n == hay@.len(),
            first_tag(hay@, needle@, from as int) == first_tag(hay@, needle@, i as int),
        decreases n + 1 - i,
    {
        let mut k: usize = 0;
        while k < needle.len() && lower_of(hay[i + k]) == lower_of(needle[k])
            invariant
                k <= needle@.len(),
                n == hay@.len(),
                i <= n,
                needle@.len() <= n - i,
                forall|j: int|
                    0 <= j < k ==> #[trigger] lower_char(hay@[i + j]) == lower_char(needle@[j]),
            decreases needle@.len() - k,
        {
            k = k + 1;
        }
        if k == needle.len() {
            return Some(i);
        }
        assert(lower_char(hay@[i + k]) != lower_char(needle@[k as int]));
        if i == n {
            return None;
        }
        i = i + 1;
    }
    None
}

fn peel(s: Vec<char>, open: &Vec<char>, close: &Vec<char>) -> (r: Vec<char>)
    requires
        open@.len() > 0,
    ensures
        r@ == peeled(s@, open@, close@),
{
    let mut out: Vec<char> = s;
    loop
        invariant
            open@.len() > 0,
            peeled(s@, open@, close@) == peeled(out@, open@, close@),
        decreases out@.len(),
    {
        let n: usize = out.len();
        let start: usize = match find_ignore_ascii_case(&out, open, 0) {
            None => {
                return out;
            },
            Some(i) => i,
        };
        let after: usize = start + open.len();
        match find_ignore_ascii_case(&out, close, after) {
            None => {
                let ghost before = out@;
                out.truncate(start);
                assert(out@ =~= before.take(start as int));
                return out;
            },
            Some(found) => {
                let end: usize = found + close.len();
                let ghost before = out@;
                let mut kept: Vec<char> = Vec::new();
                let mut i: usize = 0;
                while i < start
                    invariant
                        i <= start <= out@.len(),
                        kept@ == out@.take(i as int),
                    decreases start - i,
                {
                    kept.push(out[i]);
                    assert(out@.take(i as int + 1) =~= out@.take(i as int).push(out@[i as int]));
                    i = i + 1;
                }
                let mut j: usize = end;
                assert(kept@ =~= out@.take(start as int) + out@.subrange(end as int, end as int));
                while j < n
                    invariant
                        start <= end <= j <= n,
                        n == out@.len(),
                        kept@ == out@.take(start as int) + out@.subrange(end as int, j as int),
                    decreases n - j,
                {
                    kept.push(out[j]);
                    assert((out@.take(start as int) + out@.subrange(end as int, j as int)).push(
                        out@[j as int],
                    ) =~= out@.take(start as int) + out@.subrange(end as int, j as int + 1));
                    j = j + 1;
                }
                assert(out@.subrange(end as int, n as int) =~= out@.skip(end as int));
                out = kept;
            },
        }
    }
}

pub(crate) fn collapse_blank_lines(s: &str) -> (r: String)
    ensures
        r@ == tidied(s@),
{
    let all = lines_of(s);
    let ghost ls = lines(s@);
    let mut out: Vec<char> = Vec::new();
    let mut was_blank: bool = false;
    let mut i: usize = 0;
    while i < all.len()
        invariant
            i <= all@.len(),
            texts(all@) == ls,
            out@ == collapsed(ls.take(i as int)),
            was_blank == (i > 0 && blank(ls[i - 1])),
        decreases all@.len() - i,
    {
        let ghost now = ls.take(i as int + 1);
        assert(now.drop_last() =~= ls.take(i as int));
        assert(now.last() == all@[i as int]@);
        if is_blank(all[i].as_str()) {
            if !was_blank && out.len() > 0 {
                out.push('\n');
            }
            was_blank = true;
        } else {
            was_blank = false;
            if out.len() > 0 && out[out.len() - 1] != '\n' {
                out.push('\n');
            }
            let mut kept = chars_of(trim_right(all[i].as_str()).as_str());
            out.append(&mut kept);
        }
        i = i + 1;
    }
    assert(ls.take(i as int) =~= ls);
    trim(string_of(&out).as_str())
}

/// The characters of a text that are not reasoning.
pub(crate) fn take_out_thinking(input: &str) -> (r: Vec<char>)
    ensures
        r@ == unthought(input@),
{
    proof {
        reveal_strlit("<think>");
        reveal_strlit("<thinking>");
    }
    let open = chars_of("<think>");
    let close = chars_of("</think>");
    let long_open = chars_of("<thinking>");
    let long_close = chars_of("</thinking>");
    let mut out = chars_of(input);
    loop
        invariant
            open@ == "<think>"@,
            close@ == "</think>"@,
            long_open@ == "<thinking>"@,
            long_close@ == "</thinking>"@,
            open@.len() > 0,
            long_open@.len() > 0,
            unthought(input@) == unthought(out@),
        decreases out@.len(),
    {
        let ghost before = out@;
        out = peel(peel(out, &open, &close), &long_open, &long_close);
        proof {
            lemma_round(before);
            lemma_first_tag(out@, "<think>"@, 0);
            if let Some(k) = first_tag(out@, "<think>"@, 0) {
                assert(tag_at(out@, "<think>"@, k));
            }
        }
        if find_ignore_ascii_case(&out, &open, 0).is_none() {
            return out;
        }
    }
}

/// Takes reasoning tags, and what they hold, out of a completion.
///
/// A model whose server does not separate the two writes its reasoning into
/// the reply; a coding client would show it as the answer. No opening tag is
/// left, whatever the text holds.
pub fn peel_thinking(input: &str) -> (r: String)
    ensures
        r@ == answer_part(input@),
        !has_tag(r@, "<think>"@),
        !has_tag(r@, "<thinking>"@),
{
    proof {
        law_answer_has_no_tag(input@);
    }
    collapse_blank_lines(string_of(&take_out_thinking(input)).as_str())
}

/// Peeling leaves no opening tag behind.
pub proof fn law_peeled_has_no_tag(s: Seq<char>, open: Seq<char>, close: Seq<char>)
    requires
        open.len() > 0,
    ensures
        !has_tag(peeled(s, open, close), open),
    decreases s.len(),
{
    lemma_first_tag(s, open, 0);
    match first_tag(s, open, 0) {
        None => {
            assert forall|i: int| !#[trigger] tag_at(s, open, i) by {}
        },
        Some(start) => {
            let after = start + open.len();
            lemma_first_tag(s, close, after);
            match first_tag(s, close, after) {
                None => {
                    let cut = s.take(start);
                    assert forall|i: int| !#[trigger] tag_at(cut, open, i) by {
                        if tag_at(cut, open, i) {
                            assert forall|k: int| 0 <= k < open.len() implies #[trigger] lower_char(
                                s[i + k],
                            ) == lower_char(open[k]) by {
                                assert(lower_char(cut[i + k]) == lower_char(open[k]));
                            }
                            assert(tag_at(s, open, i));
                        }
                    }
                },
                Some(end) => {
                    law_peeled_has_no_tag(
                        s.take(start) + s.skip(end + close.len() as int),
                        open,
                        close,
                    );
                },
            }
        },
    }
}

/// A text without the opening tag is not touched.
pub proof fn law_peeling_spares_plain_text(s: Seq<char>, open: Seq<char>, close: Seq<char>)
    requires
        !has_tag(s, open),
    ensures
        peeled(s, open, close) == s,
{
    lemma_first_tag(s, open, 0);
    match first_tag(s, open, 0) {
        Some(i) => {
            assert(tag_at(s, open, i));
        },
        None => {},
    }
}


proof fn lemma_tag_in_part(s: Seq<char>, a: int, b: int, p: Seq<char>)
    requires
        0 <= a <= b <= s.len(),
        has_tag(s.subrange(a, b), p),
    ensures
        has_tag(s, p),
{
    let part = s.subrange(a, b);
    let i = choose|i: int| #[trigger] tag_at(part, p, i);
    assert forall|k: int| 0 <= k < p.len() implies #[trigger] lower_char(s[(a + i) + k])
        == lower_char(p[k]) by {
        assert(lower_char(part[i + k]) == lower_char(p[k]));
        assert(part[i + k] == s[a + i + k]);
    }
    assert(tag_at(s, p, a + i));
}

proof fn lemma_tag_in_line(s: Seq<char>, p: Seq<char>, n: int)
    requires
        0 <= n < lines(s).len(),
        has_tag(lines(s)[n], p),
    ensures
        has_tag(s, p),
    decreases s.len(),
{
    let k = index_of(s, '\n');
    lemma_index_of(s, '\n');
    if s.len() > 0 && k < s.len() {
        if n == 0 {
            let line = without_cr(s.take(k));
            assert(line =~= s.subrange(0, line.len() as int));
            lemma_tag_in_part(s, 0, line.len() as int, p);
        } else {
            assert(lines(s)[n] == lines(s.skip(k + 1))[n - 1]);
            lemma_tag_in_line(s.skip(k + 1), p, n - 1);
            assert(s.skip(k + 1) =~= s.subrange(k + 1, s.len() as int));
            lemma_tag_in_part(s, k + 1, s.len() as int, p);
        }
    }
}

/// A tag has no line break in it.
spec fn one_line(p: Seq<char>) -> bool {
    p.len() > 0 && forall|k: int| 0 <= k < p.len() ==> #[trigger] p[k] != '\n'
}

/// A tag in two texts with a line break between them stands in one of them.
proof fn lemma_tag_across_break(a: Seq<char>, b: Seq<char>, p: Seq<char>)
    requires
        one_line(p),
        a.len() == 0 || a.last() == '\n',
        has_tag(a + b, p),
    ensures
        has_tag(a, p) || has_tag(b, p),
{
    let s = a + b;
    let i = choose|i: int| #[trigger] tag_at(s, p, i);
    let n = a.len() as int;
    if i + p.len() <= n {
        assert forall|k: int| 0 <= k < p.len() implies #[trigger] lower_char(a[i + k])
            == lower_char(p[k]) by {
            assert(lower_char(s[i + k]) == lower_char(p[k]));
        }
        assert(tag_at(a, p, i));
    } else if i >= n {
        assert forall|k: int| 0 <= k < p.len() implies #[trigger] lower_char(b[(i - n) + k])
            == lower_char(p[k]) by {
            assert(lower_char(s[i + k]) == lower_char(p[k]));
            assert(s[i + k] == b[i - n + k]);
        }
        assert(tag_at(b, p, i - n));
    } else {
        let k = n - 1 - i;
        assert(lower_char(s[i + k]) == lower_char(p[k]));
        assert(s[i + k] == '\n');
        assert(p[k] != '\n');
    }
}

proof fn lemma_tag_before_break(a: Seq<char>, p: Seq<char>)
    requires
        one_line(p),
        has_tag(a.push('\n'), p),
    ensures
        has_tag(a, p),
{
    let s = a.push('\n');
    let i = choose|i: int| #[trigger] tag_at(s, p, i);
    if i + p.len() == s.len() {
        let k = p.len() - 1;
        assert(lower_char(s[i + k]) == lower_char(p[k]));
        assert(p[k] != '\n');
    }
    assert forall|k: int| 0 <= k < p.len() implies #[trigger] lower_char(a[i + k]) == lower_char(
        p[k],
    ) by {
        assert(lower_char(s[i + k]) == lower_char(p[k]));
    }
    assert(tag_at(a, p, i));
}

proof fn lemma_tag_in_collapsed(ls: Seq<Seq<char>>, p: Seq<char>) -> (n: int)
    requires
        one_line(p),
        has_tag(collapsed(ls), p),
    ensures
        0 <= n < ls.len(),
        has_tag(ls[n], p),
    decreases ls.len(),
{
    if ls.len() == 0 {
        let i = choose|i: int| #[trigger] tag_at(collapsed(ls), p, i);
        0
    } else if blank(ls.last()) {
        let out = collapsed(ls.drop_last());
        if collapsed(ls) != out {
            lemma_tag_before_break(out, p);
        }
        let n = lemma_tag_in_collapsed(ls.drop_last(), p);
        n
    } else {
        let out = collapsed(ls.drop_last());
        let line = ls.last();
        let kept = trim_end(line);
        lemma_trim_is_part(line);
        assert(kept =~= line.subrange(0, kept.len() as int));
        let front = if out.len() > 0 && out.last() != '\n' {
            out.push('\n')
        } else {
            out
        };
        lemma_tag_across_break(front, kept, p);
        if has_tag(kept, p) {
            lemma_tag_in_part(line, 0, kept.len() as int, p);
            ls.len() - 1
        } else {
            if front != out {
                lemma_tag_before_break(out, p);
            }
            let n = lemma_tag_in_collapsed(ls.drop_last(), p);
            n
        }
    }
}

/// Whatever a model wrote, no opening tag is left in the answer.
pub proof fn law_answer_has_no_tag(s: Seq<char>)
    ensures
        !has_tag(answer_part(s), "<think>"@),
        !has_tag(answer_part(s), "<thinking>"@),
{
    reveal_strlit("<think>");
    reveal_strlit("<thinking>");
    lemma_unthought(s);
    lemma_no_tag_after_collapse(unthought(s), "<think>"@);
    lemma_no_tag_after_collapse(unthought(s), "<thinking>"@);
}

proof fn lemma_no_tag_after_collapse(s: Seq<char>, p: Seq<char>)
    requires
        one_line(p),
        !has_tag(s, p),
    ensures
        !has_tag(tidied(s), p),
{
    let c = collapsed(lines(s));
    let t = trimmed(c);
    if has_tag(t, p) {
        let started = trim_start(c);
        lemma_trim_is_part(c);
        lemma_trim_is_part(started);
        assert(t =~= started.subrange(0, t.len() as int));
        lemma_tag_in_part(started, 0, t.len() as int, p);
        assert(started =~= c.subrange(c.len() - started.len(), c.len() as int));
        lemma_tag_in_part(c, c.len() - started.len(), c.len() as int, p);
        let n = lemma_tag_in_collapsed(lines(s), p);
        lemma_tag_in_line(s, p, n);
    }
}

} // verus!
