//! What of a text can be shown while more of it is still to come.
//!
//! A reasoning tag may be split between two pieces. The end of the text that
//! could still become one is held back until it is known to be none.
use vstd::prelude::*;

use crate::gateway::thinking::{
    answer_part, collapse_blank_lines, collapsed, first_tag, has_tag, lemma_first_tag, lemma_nothing_to_take_out, lemma_round, peeled,
    peeled_once, tag_at, take_out_thinking, tidied, unthought,
};
use crate::gateway::tidy::{begins, lemma_tidied_more};
use crate::text::{chars_of, lines, lower_char, lower_of, string_of, trim_end, trim_start};

verus! {

broadcast use vstd::string::group_string_axioms;

/// The beginning of an opening tag, and not all of it. The shorter tag begins
/// as the longer one does.
pub open spec fn may_become_tag(p: Seq<char>) -> bool {
    &&& 0 < p.len() < "<thinking>"@.len()
    &&& forall|k: int|
        0 <= k < p.len() ==> lower_char(#[trigger] p[k]) == lower_char("<thinking>"@[k])
}

/// The place of the last `<`, or -1.
pub open spec fn last_open(s: Seq<char>) -> int
    decreases s.len(),
{
    if s.len() == 0 {
        -1
    } else if s.last() == '<' {
        s.len() - 1
    } else {
        last_open(s.drop_last())
    }
}

/// The text without the end that could still become a tag.
pub open spec fn settled(s: Seq<char>) -> Seq<char>
    decreases s.len(),
{
    let i = last_open(s);
    if 0 <= i < s.len() && may_become_tag(s.skip(i)) {
        settled(s.take(i))
    } else {
        s
    }
}

/// Nothing but beginnings of tags.
pub open spec fn loose(s: Seq<char>) -> bool {
    settled(s).len() == 0
}

fn find_last_open(v: &Vec<char>, n: usize) -> (r: Option<usize>)
    requires
        n <= v@.len(),
    ensures
        match r {
            Some(i) => last_open(v@.take(n as int)) == i && i < n,
            None => last_open(v@.take(n as int)) < 0,
        },
{
    let mut k: usize = n;
    while k > 0
        invariant
            k <= n <= v@.len(),
            last_open(v@.take(n as int)) == last_open(v@.take(k as int)),
        decreases k,
    {
        assert(v@.take(k as int).drop_last() =~= v@.take(k as int - 1));
        if v[k - 1] == '<' {
            return Some(k - 1);
        }
        k = k - 1;
    }
    None
}

fn begins_tag(v: &Vec<char>, from: usize, to: usize, tag: &Vec<char>) -> (r: bool)
    requires
        from < to <= v@.len(),
        tag@ == "<thinking>"@,
    ensures
        r == may_become_tag(v@.take(to as int).skip(from as int)),
{
    let ghost p = v@.take(to as int).skip(from as int);
    let n: usize = to - from;
    if n >= tag.len() {
        return false;
    }
    let mut k: usize = 0;
    while k < n
        invariant
            k <= n < tag@.len(),
            from + n == to <= v@.len(),
            p == v@.take(to as int).skip(from as int),
            tag@ == "<thinking>"@,
            forall|j: int|
                0 <= j < k ==> lower_char(#[trigger] p[j]) == lower_char("<thinking>"@[j]),
        decreases n - k,
    {
        assert(p[k as int] == v@[from + k]);
        if lower_of(v[from + k]) != lower_of(tag[k]) {
            return false;
        }
        k = k + 1;
    }
    true
}

/// Drops the end that could still become a tag.
pub(crate) fn hold_back(v: Vec<char>, tag: &Vec<char>) -> (r: Vec<char>)
    requires
        tag@ == "<thinking>"@,
    ensures
        r@ == settled(v@),
{
    let mut out = v;
    loop
        invariant
            tag@ == "<thinking>"@,
            settled(v@) == settled(out@),
        decreases out@.len(),
    {
        let n: usize = out.len();
        assert(out@.take(n as int) =~= out@);
        match find_last_open(&out, n) {
            Some(i) => {
                if begins_tag(&out, i, n, tag) {
                    let ghost before = out@;
                    out.truncate(i);
                    assert(out@ =~= before.take(i as int));
                } else {
                    return out;
                }
            },
            None => {
                return out;
            },
        }
    }
}

/// What of a reply can be shown when this much of it has come.
pub open spec fn shown_part(raw: Seq<char>) -> Seq<char> {
    tidied(settled(unthought(raw)))
}

/// What of a reply can be shown when this much of it has come.
pub fn show_so_far(raw: &str) -> (r: String)
    ensures
        r@ == shown_part(raw@),
{
    let kept = hold_back(take_out_thinking(raw), &chars_of("<thinking>"));
    collapse_blank_lines(string_of(&kept).as_str())
}

/// What was shown stays, whatever comes after: it is how what is shown later
/// begins, and how the whole answer begins.
pub proof fn law_shown_words_stay(raw: Seq<char>, more: Seq<char>)
    ensures
        begins(shown_part(raw + more), shown_part(raw)),
        begins(answer_part(raw + more), shown_part(raw)),
{
    let c = settled(unthought(raw));
    let all = unthought(raw + more);
    let d = settled(all);
    lemma_settled_words_stay(raw, more);
    let z = d.skip(c.len() as int);
    assert(c + z =~= d);
    lemma_tidied_more(c, z);
    let rest = all.skip(d.len() as int);
    assert(d + rest =~= all);
    lemma_tidied_more(d, rest);
    let n = tidied(c).len() as int;
    let m = tidied(d).len() as int;
    assert(tidied(all).take(n) =~= tidied(all).take(m).take(n));
}

/// Of nothing there is nothing to show.
pub proof fn lemma_nothing_to_show()
    ensures
        shown_part(seq![]).len() == 0,
{
    reveal_strlit("<think>");
    reveal_strlit("<thinking>");
    let none = Seq::<char>::empty();
    assert(!has_tag(none, "<think>"@) && !has_tag(none, "<thinking>"@));
    lemma_nothing_to_take_out(none);
    assert(settled(none) == none);
    assert(lines(none) =~= seq![]);
    assert(collapsed(lines(none)) =~= none);
    assert(trim_start(none) == none);
    assert(trim_end(none) == none);
}

// ------------------------------------------------------------------ proofs

proof fn lemma_last_open(s: Seq<char>)
    ensures
        -1 <= last_open(s) < s.len(),
        last_open(s) >= 0 ==> s[last_open(s)] == '<',
        forall|i: int| last_open(s) < i < s.len() ==> #[trigger] s[i] != '<',
    decreases s.len(),
{
    if s.len() > 0 && s.last() != '<' {
        let t = s.drop_last();
        lemma_last_open(t);
        assert forall|i: int| last_open(s) < i < s.len() implies #[trigger] s[i] != '<' by {
            if i < t.len() {
                assert(t[i] == s[i]);
            }
        }
    }
}

proof fn lemma_last_open_is(s: Seq<char>, k: int)
    requires
        0 <= k < s.len(),
        s[k] == '<',
        forall|i: int| k < i < s.len() ==> #[trigger] s[i] != '<',
    ensures
        last_open(s) == k,
{
    lemma_last_open(s);
    let j = last_open(s);
    if j < k {
        assert(s[k] != '<');
    }
    if j > k {
        assert(s[j] != '<');
    }
}

/// The beginning of a tag has one `<`, in front, and no `>`.
proof fn lemma_beginning(p: Seq<char>)
    requires
        may_become_tag(p),
    ensures
        p[0] == '<',
        forall|i: int| 0 < i < p.len() ==> #[trigger] p[i] != '<',
        forall|i: int| 0 <= i < p.len() ==> #[trigger] p[i] != '>',
{
    reveal_strlit("<thinking>");
    let t = "<thinking>"@;
    assert(lower_char(p[0]) == lower_char(t[0]));
    assert forall|i: int| 0 <= i < p.len() implies #[trigger] p[i] != '>' && (i > 0 ==> p[i]
        != '<') by {
        assert(lower_char(p[i]) == lower_char(t[i]));
        assert(t.len() == 10);
        assert(i < 9);
        assert(t[i] != '>');
        assert(i > 0 ==> t[i] != '<');
        assert(lower_char(t[i]) == t[i]);
    }
}

/// A text that ends in no beginning of a tag, at any length.
proof fn lemma_sealed(c: Seq<char>, j: int)
    requires
        settled(c) == c,
        0 <= j < c.len(),
    ensures
        !may_become_tag(c.skip(j)),
{
    if may_become_tag(c.skip(j)) {
        let p = c.skip(j);
        lemma_beginning(p);
        assert(c[j] == p[0]);
        assert forall|i: int| j < i < c.len() implies #[trigger] c[i] != '<' by {
            assert(c[i] == p[i - j]);
        }
        lemma_last_open_is(c, j);
        lemma_settled(c.take(j));
    }
}

proof fn lemma_settled(s: Seq<char>)
    ensures
        settled(s).len() <= s.len(),
        settled(s) == s.take(settled(s).len() as int),
        settled(settled(s)) == settled(s),
        loose(s.skip(settled(s).len() as int)),
    decreases s.len(),
{
    lemma_last_open(s);
    let i = last_open(s);
    if 0 <= i && may_become_tag(s.skip(i)) {
        let t = s.take(i);
        lemma_settled(t);
        let n = settled(t).len() as int;
        assert(t.take(n) =~= s.take(n));
        let v = t.skip(n);
        let p = s.skip(i);
        assert(s.skip(n) =~= v + p);
        lemma_loose_more(v, p);
    } else {
        assert(s.take(s.len() as int) =~= s);
        assert(s.skip(s.len() as int) =~= seq![]);
        assert(settled(Seq::<char>::empty()).len() == 0);
    }
}

proof fn lemma_loose_more(v: Seq<char>, p: Seq<char>)
    requires
        loose(v),
        may_become_tag(p),
    ensures
        loose(v + p),
{
    let s = v + p;
    let n = v.len() as int;
    lemma_beginning(p);
    assert(s[n] == p[0]);
    assert forall|i: int| n < i < s.len() implies #[trigger] s[i] != '<' by {
        assert(s[i] == p[i - n]);
    }
    lemma_last_open_is(s, n);
    assert(s.skip(n) =~= p);
    assert(s.take(n) =~= v);
}

/// Loose ends behind a text change nothing of what is settled, and hold no
/// `>`.
proof fn lemma_loose_end(w: Seq<char>, v: Seq<char>)
    requires
        loose(v),
    ensures
        settled(w + v) == settled(w),
        forall|i: int| 0 <= i < v.len() ==> #[trigger] v[i] != '>',
    decreases v.len(),
{
    lemma_last_open(v);
    let i = last_open(v);
    if v.len() == 0 {
        assert(w + v =~= w);
    } else {
        assert(0 <= i && may_become_tag(v.skip(i)));
        let p = v.skip(i);
        let t = v.take(i);
        lemma_beginning(p);
        lemma_loose_end(w, t);
        let s = w + v;
        let n = w.len() + i;
        assert(s[n] == '<');
        assert forall|k: int| n < k < s.len() implies #[trigger] s[k] != '<' by {
            assert(s[k] == v[k - w.len()]);
        }
        lemma_last_open_is(s, n);
        assert(s.skip(n) =~= p);
        assert(s.take(n) =~= w + t);
        assert forall|k: int| 0 <= k < v.len() implies #[trigger] v[k] != '>' by {
            if k < i {
                assert(v[k] == t[k]);
            } else {
                assert(v[k] == p[k - i]);
            }
        }
    }
}

/// What is settled stays so, whatever follows it.
proof fn lemma_settled_stays(c: Seq<char>, z: Seq<char>)
    requires
        settled(c) == c,
    ensures
        settled(c + z).len() >= c.len(),
        settled(c + z).take(c.len() as int) == c,
    decreases z.len(),
{
    let s = c + z;
    lemma_last_open(s);
    let i = last_open(s);
    if 0 <= i && may_become_tag(s.skip(i)) {
        if i < c.len() {
            let p = c.skip(i);
            let q = s.skip(i);
            assert forall|k: int| 0 <= k < p.len() implies lower_char(#[trigger] p[k])
                == lower_char("<thinking>"@[k]) by {
                assert(p[k] == q[k]);
            }
            assert(may_become_tag(p));
            lemma_sealed(c, i);
        }
        let rest = z.take(i - c.len());
        assert(s.take(i) =~= c + rest);
        lemma_settled_stays(c, rest);
    } else {
        assert(s.take(c.len() as int) =~= c);
    }
}

/// A pair of tags that this is about.
spec fn is_pair(open: Seq<char>, close: Seq<char>) -> bool {
    &&& 0 < open.len() <= "<thinking>"@.len()
    &&& open.last() == '>'
    &&& 0 < close.len()
    &&& close.last() == '>'
    &&& forall|k: int|
        0 <= k < open.len() - 1 ==> lower_char(#[trigger] open[k]) == lower_char(
            "<thinking>"@[k],
        )
}

proof fn lemma_pairs()
    ensures
        is_pair("<think>"@, "</think>"@),
        is_pair("<thinking>"@, "</thinking>"@),
{
    reveal_strlit("<think>");
    reveal_strlit("</think>");
    reveal_strlit("<thinking>");
    reveal_strlit("</thinking>");
}

proof fn lemma_first_tag_is(s: Seq<char>, p: Seq<char>, i: int, k: int)
    requires
        0 <= i <= k,
        tag_at(s, p, k),
        forall|j: int| i <= j < k ==> !tag_at(s, p, j),
    ensures
        first_tag(s, p, i) == Some(k),
{
    lemma_first_tag(s, p, i);
    match first_tag(s, p, i) {
        Some(f) => {
            if f < k {
                assert(tag_at(s, p, f));
            }
            if k < f {
                assert(!tag_at(s, p, k));
            }
        },
        None => {
            assert(!tag_at(s, p, k));
        },
    }
}

proof fn lemma_first_tag_none(s: Seq<char>, p: Seq<char>, i: int)
    requires
        0 <= i,
        forall|j: int| i <= j ==> !tag_at(s, p, j),
    ensures
        first_tag(s, p, i) is None,
{
    lemma_first_tag(s, p, i);
}

/// A tag in two texts that ends in the first stands in the first.
proof fn lemma_tag_in_front(a: Seq<char>, b: Seq<char>, p: Seq<char>, i: int)
    requires
        i + p.len() <= a.len(),
    ensures
        tag_at(a + b, p, i) == tag_at(a, p, i),
{
    let s = a + b;
    if tag_at(s, p, i) {
        assert forall|k: int| 0 <= k < p.len() implies #[trigger] lower_char(a[i + k])
            == lower_char(p[k]) by {
            assert(lower_char(s[i + k]) == lower_char(p[k]));
        }
    }
    if tag_at(a, p, i) {
        assert forall|k: int| 0 <= k < p.len() implies #[trigger] lower_char(s[i + k])
            == lower_char(p[k]) by {
            assert(lower_char(a[i + k]) == lower_char(p[k]));
        }
    }
}

/// A tag in two texts that begins in the second stands in the second.
proof fn lemma_tag_in_back(a: Seq<char>, b: Seq<char>, p: Seq<char>, i: int)
    requires
        i >= a.len(),
    ensures
        tag_at(a + b, p, i) == tag_at(b, p, i - a.len()),
{
    let s = a + b;
    let j = i - a.len();
    if tag_at(s, p, i) {
        assert forall|k: int| 0 <= k < p.len() implies #[trigger] lower_char(b[j + k])
            == lower_char(p[k]) by {
            assert(lower_char(s[i + k]) == lower_char(p[k]));
            assert(s[i + k] == b[j + k]);
        }
    }
    if tag_at(b, p, j) {
        assert forall|k: int| 0 <= k < p.len() implies #[trigger] lower_char(s[i + k])
            == lower_char(p[k]) by {
            assert(lower_char(b[j + k]) == lower_char(p[k]));
            assert(s[i + k] == b[j + k]);
        }
    }
}

/// A tag does not reach out of a settled text.
proof fn lemma_no_tag_out_of(c: Seq<char>, z: Seq<char>, open: Seq<char>, close: Seq<char>, i: int)
    requires
        is_pair(open, close),
        settled(c) == c,
        !has_tag(c, open),
        tag_at(c + z, open, i),
    ensures
        i >= c.len(),
{
    let s = c + z;
    if i < c.len() {
        if i + open.len() <= c.len() {
            lemma_tag_in_front(c, z, open, i);
            assert(tag_at(c, open, i));
        } else {
            let p = c.skip(i);
            assert forall|k: int| 0 <= k < p.len() implies lower_char(#[trigger] p[k])
                == lower_char("<thinking>"@[k]) by {
                assert(p[k] == s[i + k]);
                assert(lower_char(s[i + k]) == lower_char(open[k]));
            }
            assert(may_become_tag(p));
            lemma_sealed(c, i);
        }
    }
}

/// Peeling leaves a settled text without tags in front as it is.
proof fn lemma_peel_behind(c: Seq<char>, z: Seq<char>, open: Seq<char>, close: Seq<char>)
    requires
        is_pair(open, close),
        settled(c) == c,
        !has_tag(c, open),
    ensures
        peeled(c + z, open, close) == c + peeled(z, open, close),
    decreases z.len(),
{
    let s = c + z;
    let n = c.len() as int;
    lemma_first_tag(z, open, 0);
    match first_tag(z, open, 0) {
        None => {
            assert forall|j: int| 0 <= j implies !#[trigger] tag_at(s, open, j) by {
                if tag_at(s, open, j) {
                    lemma_no_tag_out_of(c, z, open, close, j);
                    lemma_tag_in_back(c, z, open, j);
                    assert(!tag_at(z, open, j - n));
                }
            }
            lemma_first_tag_none(s, open, 0);
        },
        Some(start) => {
            lemma_tag_in_back(c, z, open, n + start);
            assert forall|j: int| 0 <= j < n + start implies !#[trigger] tag_at(s, open, j) by {
                if tag_at(s, open, j) {
                    lemma_no_tag_out_of(c, z, open, close, j);
                    lemma_tag_in_back(c, z, open, j);
                    assert(!tag_at(z, open, j - n));
                }
            }
            lemma_first_tag_is(s, open, 0, n + start);
            let after = start + open.len();
            lemma_first_tag(z, close, after);
            match first_tag(z, close, after) {
                None => {
                    assert forall|j: int| n + after <= j implies !#[trigger] tag_at(s, close, j) by {
                        lemma_tag_in_back(c, z, close, j);
                        assert(!tag_at(z, close, j - n));
                    }
                    lemma_first_tag_none(s, close, n + after);
                    assert(s.take(n + start) =~= c + z.take(start));
                },
                Some(end) => {
                    lemma_tag_in_back(c, z, close, n + end);
                    assert forall|j: int| n + after <= j < n + end implies !#[trigger] tag_at(
                        s,
                        close,
                        j,
                    ) by {
                        lemma_tag_in_back(c, z, close, j);
                        assert(!tag_at(z, close, j - n));
                    }
                    lemma_first_tag_is(s, close, n + after, n + end);
                    let next = z.take(start) + z.skip(end + close.len() as int);
                    assert(s.take(n + start) + s.skip(n + end + close.len() as int) =~= c + next);
                    lemma_peel_behind(c, next, open, close);
                },
            }
        },
    }
}

/// A tag in a text with loose ends stands before them.
proof fn lemma_no_tag_in_loose(w: Seq<char>, v: Seq<char>, p: Seq<char>, i: int)
    requires
        loose(v),
        p.len() > 0,
        p.last() == '>',
        tag_at(w + v, p, i),
    ensures
        i + p.len() <= w.len(),
        tag_at(w, p, i),
{
    let s = w + v;
    lemma_loose_end(w, v);
    let k = p.len() - 1;
    assert(lower_char(s[i + k]) == lower_char(p[k]));
    assert(s[i + k] == '>');
    if i + p.len() > w.len() {
        assert(s[i + k] == v[i + k - w.len()]);
    }
    lemma_tag_in_front(w, v, p, i);
}

/// The first tag of a text is the first one whatever follows.
proof fn lemma_first_in_front(w: Seq<char>, v: Seq<char>, p: Seq<char>, i: int, k: int)
    requires
        0 <= i <= k,
        p.len() > 0,
        first_tag(w, p, i) == Some(k),
    ensures
        first_tag(w + v, p, i) == Some(k),
        k + p.len() <= w.len(),
{
    lemma_first_tag(w, p, i);
    lemma_tag_in_front(w, v, p, k);
    assert forall|j: int| i <= j < k implies !#[trigger] tag_at(w + v, p, j) by {
        lemma_tag_in_front(w, v, p, j);
    }
    lemma_first_tag_is(w + v, p, i, k);
}

/// Where a text has none, loose ends bring none.
proof fn lemma_none_in_loose(w: Seq<char>, v: Seq<char>, p: Seq<char>, i: int)
    requires
        0 <= i,
        loose(v),
        p.len() > 0,
        p.last() == '>',
        first_tag(w, p, i) is None,
    ensures
        first_tag(w + v, p, i) is None,
{
    lemma_first_tag(w, p, i);
    assert forall|j: int| i <= j implies !#[trigger] tag_at(w + v, p, j) by {
        if tag_at(w + v, p, j) {
            lemma_no_tag_in_loose(w, v, p, j);
        }
    }
    lemma_first_tag_none(w + v, p, i);
}

/// A text that has been settled, split from its loose ends.
proof fn lemma_split(t: Seq<char>) -> (r: (Seq<char>, Seq<char>))
    ensures
        t == r.0 + r.1,
        r.0 == settled(t),
        settled(r.0) == r.0,
        loose(r.1),
{
    lemma_settled(t);
    let n = settled(t).len() as int;
    assert(t.take(n) + t.skip(n) =~= t);
    (t.take(n), t.skip(n))
}

proof fn lemma_part_has_no_tag(t: Seq<char>, n: int, p: Seq<char>)
    requires
        0 <= n <= t.len(),
        forall|j: int| 0 <= j < n ==> !tag_at(t, p, j),
        p.len() > 0,
    ensures
        !has_tag(t.take(n), p),
{
    assert forall|j: int| !#[trigger] tag_at(t.take(n), p, j) by {
        if tag_at(t.take(n), p, j) {
            assert(t.take(n) + t.skip(n) =~= t);
            lemma_tag_in_front(t.take(n), t.skip(n), p, j);
            assert(tag_at(t, p, j));
        }
    }
}

/// Two texts that differ only behind a common part, one of them by loose ends
/// alone, are again such texts once they are peeled.
proof fn lemma_peel_both(
    w: Seq<char>,
    v: Seq<char>,
    more: Seq<char>,
    open: Seq<char>,
    close: Seq<char>,
) -> (r: (Seq<char>, Seq<char>, Seq<char>))
    requires
        is_pair(open, close),
        loose(v),
    ensures
        peeled(w + v, open, close) == r.0 + r.1,
        peeled(w + more, open, close) == r.0 + r.2,
        loose(r.1),
    decreases w.len(),
{
    lemma_first_tag(w, open, 0);
    match first_tag(w, open, 0) {
        None => {
            lemma_none_in_loose(w, v, open, 0);
            let (c, l) = lemma_split(w);
            assert(!has_tag(c, open)) by {
                lemma_part_has_no_tag(w, c.len() as int, open);
                assert(w.take(c.len() as int) =~= c);
            }
            assert(w + more =~= c + (l + more));
            lemma_peel_behind(c, l + more, open, close);
            lemma_loose_end(l, v);
            assert(w + v =~= c + (l + v));
            (c, l + v, peeled(l + more, open, close))
        },
        Some(start) => {
            lemma_first_in_front(w, v, open, 0, start);
            lemma_first_in_front(w, more, open, 0, start);
            let after = start + open.len();
            let n = close.len() as int;
            lemma_first_tag(w, close, after);
            match first_tag(w, close, after) {
                Some(end) => {
                    lemma_first_in_front(w, v, close, after, end);
                    lemma_first_in_front(w, more, close, after, end);
                    let next = w.take(start) + w.skip(end + n);
                    assert((w + v).take(start) + (w + v).skip(end + n) =~= next + v);
                    assert((w + more).take(start) + (w + more).skip(end + n) =~= next + more);
                    lemma_peel_both(next, v, more, open, close)
                },
                None => {
                    lemma_none_in_loose(w, v, close, after);
                    let t = w.take(start);
                    assert((w + v).take(start) =~= t);
                    assert((w + more).take(start) =~= t);
                    let (c, l) = lemma_split(t);
                    assert(!has_tag(c, open)) by {
                        lemma_part_has_no_tag(w, c.len() as int, open);
                        assert(w.take(c.len() as int) =~= c);
                    }
                    lemma_first_tag(w + more, close, after);
                    match first_tag(w + more, close, after) {
                        None => (c, l, l),
                        Some(end) => {
                            let rest = (w + more).skip(end + n);
                            assert(t + rest =~= c + (l + rest));
                            lemma_peel_behind(c, l + rest, open, close);
                            (c, l, peeled(l + rest, open, close))
                        },
                    }
                },
            }
        },
    }
}

proof fn lemma_round_both(w: Seq<char>, v: Seq<char>, more: Seq<char>) -> (r: (
    Seq<char>,
    Seq<char>,
    Seq<char>,
))
    requires
        loose(v),
    ensures
        peeled_once(w + v) == r.0 + r.1,
        peeled_once(w + more) == r.0 + r.2,
        loose(r.1),
{
    lemma_pairs();
    let (a, b, c) = lemma_peel_both(w, v, more, "<think>"@, "</think>"@);
    lemma_peel_both(a, b, c, "<thinking>"@, "</thinking>"@)
}

proof fn lemma_unthought_both(w: Seq<char>, v: Seq<char>, more: Seq<char>) -> (r: (
    Seq<char>,
    Seq<char>,
    Seq<char>,
))
    requires
        loose(v),
    ensures
        unthought(w + v) == r.0 + r.1,
        unthought(w + more) == r.0 + r.2,
        loose(r.1),
    decreases (w + v).len() + (w + more).len(),
{
    let (a, b, c) = lemma_round_both(w, v, more);
    lemma_round(w + v);
    lemma_round(w + more);
    let first = has_tag(a + b, "<think>"@);
    let second = has_tag(a + c, "<think>"@);
    if !first && !second {
        (a, b, c)
    } else {
        // The one that has no tag left would not change any more.
        if !first {
            lemma_nothing_to_take_out(a + b);
        }
        if !second {
            lemma_nothing_to_take_out(a + c);
        }
        lemma_unthought_both(a, b, c)
    }
}

/// What of a text without reasoning is settled is there, and settled, whatever
/// comes after it.
pub proof fn lemma_settled_words_stay(s: Seq<char>, more: Seq<char>)
    ensures
        ({
            let c = settled(unthought(s));
            let all = unthought(s + more);
            &&& c.len() <= settled(all).len() <= all.len()
            &&& settled(all).take(c.len() as int) == c
            &&& all.take(settled(all).len() as int) == settled(all)
        }),
{
    let none = Seq::<char>::empty();
    assert(settled(none).len() == 0);
    assert(s + none =~= s);
    let (w, v, rest) = lemma_unthought_both(s, none, more);
    lemma_loose_end(w, v);
    let (c, l) = lemma_split(w);
    assert(w + rest =~= c + (l + rest));
    lemma_settled_stays(c, l + rest);
    lemma_settled(unthought(s + more));
}

} // verus!
