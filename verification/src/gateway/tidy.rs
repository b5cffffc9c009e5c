//! What tidying a text does to a text that is tidy, and to one that grows.
use vstd::prelude::*;

use crate::gateway::thinking::{
    answer_part, collapsed, law_answer_has_no_tag, lemma_nothing_to_take_out, tidied, unthought,
};
use crate::text::{
    blank, index_of, is_white, lemma_index_of, lemma_index_of_unique, lemma_trim_is_part, lines,
    trim_end, trim_start, trimmed, without_cr,
};

verus! {

/// One text begins with another.
pub open spec fn begins(whole: Seq<char>, part: Seq<char>) -> bool {
    part.len() <= whole.len() && whole.take(part.len() as int) == part
}

// ---------------------------------------------------------------- trimming

proof fn lemma_trim_end_more(z: Seq<char>, y: Seq<char>)
    ensures
        begins(trim_end(z + y), trim_end(z)),
    decreases y.len(),
{
    let s = z + y;
    if y.len() == 0 {
        assert(s =~= z);
        assert(trim_end(z).take(trim_end(z).len() as int) =~= trim_end(z));
    } else if is_white(s.last()) {
        assert(s.drop_last() =~= z + y.drop_last());
        lemma_trim_end_more(z, y.drop_last());
    } else {
        lemma_trim_is_part(z);
        let n = trim_end(z).len() as int;
        assert(s.take(n) =~= z.take(n));
    }
}

proof fn lemma_trim_start_more(x: Seq<char>, y: Seq<char>)
    requires
        trim_start(x).len() > 0,
    ensures
        trim_start(x + y) == trim_start(x) + y,
    decreases x.len(),
{
    if is_white(x[0]) {
        assert((x + y).drop_first() =~= x.drop_first() + y);
        lemma_trim_start_more(x.drop_first(), y);
    }
}

/// What is left at the front does not begin with white space.
proof fn lemma_trim_start_front(x: Seq<char>)
    ensures
        trim_start(x).len() > 0 ==> !is_white(trim_start(x)[0]),
        trim_start(trim_start(x)) == trim_start(x),
    decreases x.len(),
{
    if x.len() > 0 && is_white(x[0]) {
        lemma_trim_start_front(x.drop_first());
    }
}

proof fn lemma_trim_end_back(x: Seq<char>)
    ensures
        trim_end(x).len() > 0 ==> !is_white(trim_end(x).last()),
        trim_end(trim_end(x)) == trim_end(x),
    decreases x.len(),
{
    if x.len() > 0 && is_white(x.last()) {
        lemma_trim_end_back(x.drop_last());
    }
}

/// A text with something in it keeps something at either end.
proof fn lemma_not_blank(x: Seq<char>)
    ensures
        !blank(x) <==> trim_start(x).len() > 0,
        !blank(x) <==> trim_end(x).len() > 0,
{
    lemma_trim_start_front(x);
    let t = trim_start(x);
    lemma_trim_is_part(x);
    if t.len() > 0 {
        assert(x[x.len() - t.len()] == t[0]);
        lemma_has_end(t, 0);
        lemma_has_end(x, x.len() - t.len());
    } else if trim_end(x).len() > 0 {
        lemma_trim_end_back(x);
        let e = trim_end(x);
        assert(x[e.len() - 1] == e.last());
        lemma_has_start(x, e.len() - 1);
    }
}

proof fn lemma_has_end(x: Seq<char>, i: int)
    requires
        0 <= i < x.len(),
        !is_white(x[i]),
    ensures
        trim_end(x).len() > i,
    decreases x.len(),
{
    if is_white(x.last()) {
        assert(x.drop_last()[i] == x[i]);
        lemma_has_end(x.drop_last(), i);
    }
}

proof fn lemma_has_start(x: Seq<char>, i: int)
    requires
        0 <= i < x.len(),
        !is_white(x[i]),
    ensures
        trim_start(x).len() > 0,
    decreases x.len(),
{
    if is_white(x[0]) {
        assert(x.drop_first()[i - 1] == x[i]);
        lemma_has_start(x.drop_first(), i - 1);
    }
}

proof fn lemma_trimmed_more(x: Seq<char>, y: Seq<char>)
    ensures
        begins(trimmed(x + y), trimmed(x)),
{
    if trimmed(x).len() == 0 {
        assert(trimmed(x + y).take(0) =~= trimmed(x));
    } else {
        lemma_not_blank(x);
        lemma_trim_start_more(x, y);
        lemma_trim_end_more(trim_start(x), y);
    }
}

// ------------------------------------------------------------------- lines

/// The lines of a text with one more character.
proof fn lemma_lines_push(p: Seq<char>, c: char)
    ensures
        p.len() == 0 || p.last() == '\n' ==> lines(p.push(c)) == lines(p).push(
            if c == '\n' {
                seq![]
            } else {
                seq![c]
            },
        ),
        p.len() > 0 && p.last() != '\n' ==> lines(p).len() > 0 && lines(p.push(c)) == lines(
            p,
        ).drop_last().push(
            if c == '\n' {
                without_cr(lines(p).last())
            } else {
                lines(p).last().push(c)
            },
        ),
    decreases p.len(),
{
    let none = Seq::<char>::empty();
    let s = p.push(c);
    let k = index_of(p, '\n');
    lemma_index_of(p, '\n');
    assert(lines(none) =~= seq![]);
    if k < p.len() {
        let q = p.skip(k + 1);
        assert(s.take(k) =~= p.take(k));
        assert(s.skip(k + 1) =~= q.push(c));
        assert forall|i: int| 0 <= i < k implies s[i] != '\n' by {
            assert(s[i] == p[i]);
        }
        lemma_index_of_unique(s, '\n', k);
        lemma_lines_push(q, c);
        let first = seq![without_cr(p.take(k))];
        assert(lines(p) == first + lines(q));
        assert(lines(s) == first + lines(q.push(c)));
        if q.len() == 0 {
            assert(lines(s) =~= lines(p).push(
                if c == '\n' {
                    seq![]
                } else {
                    seq![c]
                },
            ));
        } else {
            assert(q.last() == p.last());
            if p.last() == '\n' {
                assert(lines(s) =~= lines(p).push(
                    if c == '\n' {
                        seq![]
                    } else {
                        seq![c]
                    },
                ));
            } else {
                assert(lines(p).last() == lines(q).last());
                assert(lines(p).drop_last() =~= first + lines(q).drop_last());
                assert(lines(s) =~= lines(p).drop_last().push(
                    if c == '\n' {
                        without_cr(lines(p).last())
                    } else {
                        lines(p).last().push(c)
                    },
                ));
            }
        }
    } else {
        let n = p.len() as int;
        assert forall|i: int| 0 <= i < n implies s[i] != '\n' by {
            assert(s[i] == p[i]);
        }
        if c == '\n' {
            lemma_index_of_unique(s, '\n', n);
            assert(s.take(n) =~= p);
            assert(s.skip(n + 1) =~= none);
            assert(lines(s) =~= seq![without_cr(p)]);
            assert(without_cr(none) =~= none);
            if p.len() == 0 {
                assert(p =~= none);
                assert(lines(s) =~= lines(p).push(none));
            } else {
                assert(lines(p) =~= seq![p]);
                assert(lines(s) =~= lines(p).drop_last().push(without_cr(p)));
            }
        } else {
            assert forall|i: int| 0 <= i < n + 1 implies s[i] != '\n' by {}
            lemma_index_of_unique(s, '\n', n + 1);
            if p.len() == 0 {
                assert(p =~= none);
                assert(s =~= seq![c]);
                assert(lines(s) =~= lines(p).push(seq![c]));
            } else {
                assert(lines(p) =~= seq![p]);
                assert(lines(s) =~= lines(p).drop_last().push(p.push(c)));
            }
        }
    }
}

/// A new line at the end of a text that has ended its last one.
proof fn lemma_lines_append(a: Seq<char>, y: Seq<char>)
    requires
        a.len() == 0 || a.last() == '\n',
        y.len() > 0,
        forall|i: int| 0 <= i < y.len() ==> #[trigger] y[i] != '\n',
    ensures
        lines(a + y) == lines(a).push(y),
    decreases y.len(),
{
    let c = y.last();
    let front = y.drop_last();
    assert(c == y[y.len() - 1]);
    assert(a + y =~= (a + front).push(c));
    if front.len() == 0 {
        assert(a + front =~= a);
        lemma_lines_push(a, c);
        assert(y =~= seq![c]);
    } else {
        assert forall|i: int| 0 <= i < front.len() implies #[trigger] front[i] != '\n' by {
            assert(front[i] == y[i]);
        }
        lemma_lines_append(a, front);
        assert((a + front).last() == front.last());
        assert(front.last() == y[y.len() - 2]);
        lemma_lines_push(a + front, c);
        assert(lines(a).push(front).drop_last() =~= lines(a));
        assert(front.push(c) =~= y);
    }
}

/// No line holds a line break.
proof fn lemma_lines_hold_no_break(s: Seq<char>, n: int, i: int)
    requires
        0 <= n < lines(s).len(),
        0 <= i < lines(s)[n].len(),
    ensures
        lines(s)[n][i] != '\n',
    decreases s.len(),
{
    let k = index_of(s, '\n');
    lemma_index_of(s, '\n');
    if s.len() > 0 && k < s.len() {
        if n == 0 {
            assert(lines(s)[0] == without_cr(s.take(k)));
            assert(lines(s)[0][i] == s[i]);
        } else {
            assert(lines(s)[n] == lines(s.skip(k + 1))[n - 1]);
            lemma_lines_hold_no_break(s.skip(k + 1), n - 1, i);
        }
    }
}

// ----------------------------------------------------------------- growing

/// One more line only adds to what is there.
proof fn lemma_collapsed_push(ls: Seq<Seq<char>>, x: Seq<char>)
    ensures
        begins(collapsed(ls.push(x)), collapsed(ls)),
{
    let out = collapsed(ls);
    let all = ls.push(x);
    assert(all.drop_last() =~= ls);
    assert(collapsed(all).take(out.len() as int) =~= out);
}

proof fn lemma_begins_trimmed(whole: Seq<char>, part: Seq<char>)
    requires
        begins(whole, part),
    ensures
        begins(trimmed(whole), trimmed(part)),
{
    let rest = whole.skip(part.len() as int);
    assert(part + rest =~= whole);
    lemma_trimmed_more(part, rest);
}

/// A line break at the end is trimmed.
proof fn lemma_trim_break(x: Seq<char>)
    ensures
        trimmed(x.push('\n')) == trimmed(x),
{
    assert(is_white('\n'));
    if trim_start(x).len() > 0 {
        lemma_trim_start_more(x, seq!['\n']);
        assert(x + seq!['\n'] =~= x.push('\n'));
        let t = trim_start(x);
        assert((t + seq!['\n']).last() == '\n');
        assert((t + seq!['\n']).drop_last() =~= t);
    } else {
        lemma_all_white(x);
        assert forall|i: int| 0 <= i < x.push('\n').len() implies is_white(
            #[trigger] x.push('\n')[i],
        ) by {
            if i < x.len() {
                assert(x.push('\n')[i] == x[i]);
            }
        }
        lemma_white_is_blank(x.push('\n'));
        assert(trim_end(Seq::<char>::empty()) =~= Seq::<char>::empty());
        assert(trim_start(x.push('\n')) =~= Seq::<char>::empty());
        assert(trim_start(x) =~= Seq::<char>::empty());
    }
}

proof fn lemma_all_white(x: Seq<char>)
    requires
        trim_start(x).len() == 0,
    ensures
        forall|i: int| 0 <= i < x.len() ==> is_white(#[trigger] x[i]),
    decreases x.len(),
{
    if x.len() > 0 {
        lemma_all_white(x.drop_first());
        assert forall|i: int| 0 <= i < x.len() implies is_white(#[trigger] x[i]) by {
            if i > 0 {
                assert(x[i] == x.drop_first()[i - 1]);
            }
        }
    }
}

proof fn lemma_white_is_blank(x: Seq<char>)
    requires
        forall|i: int| 0 <= i < x.len() ==> is_white(#[trigger] x[i]),
    ensures
        trim_start(x).len() == 0,
    decreases x.len(),
{
    if x.len() > 0 {
        assert(is_white(x[0]));
        assert forall|i: int| 0 <= i < x.drop_first().len() implies is_white(
            #[trigger] x.drop_first()[i],
        ) by {
            assert(x.drop_first()[i] == x[i + 1]);
        }
        lemma_white_is_blank(x.drop_first());
    }
}

/// A last line that grows.
proof fn lemma_last_line_grows(ls: Seq<Seq<char>>, l: Seq<char>, grown: Seq<char>)
    requires
        begins(trim_end(grown), trim_end(l)),
        !blank(l) ==> !blank(grown),
    ensures
        begins(trimmed(collapsed(ls.push(grown))), trimmed(collapsed(ls.push(l)))),
{
    let out = collapsed(ls);
    assert(ls.push(l).drop_last() =~= ls);
    assert(ls.push(grown).drop_last() =~= ls);
    if blank(l) {
        lemma_trim_break(out);
        assert(trimmed(collapsed(ls.push(l))) == trimmed(out));
        lemma_collapsed_push(ls, grown);
        lemma_begins_trimmed(collapsed(ls.push(grown)), out);
    } else {
        let base = if out.len() > 0 && out.last() != '\n' {
            out.push('\n')
        } else {
            out
        };
        let a = base + trim_end(l);
        let b = base + trim_end(grown);
        let n = trim_end(l).len() as int;
        assert(b.take(a.len() as int) =~= base + trim_end(grown).take(n));
        lemma_begins_trimmed(b, a);
    }
}

proof fn lemma_tidied_push(p: Seq<char>, c: char)
    ensures
        begins(tidied(p.push(c)), tidied(p)),
{
    lemma_lines_push(p, c);
    if p.len() == 0 || p.last() == '\n' {
        let x = if c == '\n' {
            seq![]
        } else {
            seq![c]
        };
        lemma_collapsed_push(lines(p), x);
        lemma_begins_trimmed(collapsed(lines(p).push(x)), collapsed(lines(p)));
    } else {
        let ls = lines(p).drop_last();
        let l = lines(p).last();
        assert(ls.push(l) =~= lines(p));
        if c == '\n' {
            let cut = without_cr(l);
            assert(is_white('\r'));
            assert(trim_end(cut) == trim_end(l));
            lemma_not_blank(l);
            lemma_not_blank(cut);
            assert(trim_end(l).take(trim_end(l).len() as int) =~= trim_end(l));
            lemma_last_line_grows(ls, l, cut);
        } else {
            let grown = l.push(c);
            assert(grown =~= l + seq![c]);
            lemma_trim_end_more(l, seq![c]);
            lemma_not_blank(l);
            lemma_not_blank(grown);
            lemma_last_line_grows(ls, l, grown);
        }
    }
}

/// A tidied text is the beginning of what it is tidied to once more has come.
pub proof fn lemma_tidied_more(p: Seq<char>, z: Seq<char>)
    ensures
        begins(tidied(p + z), tidied(p)),
    decreases z.len(),
{
    if z.len() == 0 {
        assert(p + z =~= p);
        assert(tidied(p).take(tidied(p).len() as int) =~= tidied(p));
    } else {
        let front = z.drop_last();
        lemma_tidied_more(p, front);
        assert(p + z =~= (p + front).push(z.last()));
        lemma_tidied_push(p + front, z.last());
        let n = tidied(p).len() as int;
        let m = tidied(p + front).len() as int;
        assert(tidied(p + z).take(n) =~= tidied(p + z).take(m).take(n));
    }
}

// ------------------------------------------------------------------- again

/// A line as it stands in a tidy text.
spec fn tight(l: Seq<char>) -> bool {
    &&& l.len() > 0
    &&& !is_white(l.last())
    &&& forall|i: int| 0 <= i < l.len() ==> #[trigger] l[i] != '\n'
}

spec fn all_tight(ls: Seq<Seq<char>>) -> bool {
    forall|i: int| 0 <= i < ls.len() ==> tight(#[trigger] ls[i])
}

proof fn lemma_tight(l: Seq<char>)
    requires
        tight(l),
    ensures
        trim_end(l) == l,
        !blank(l),
{
    lemma_not_blank(l);
}

/// What a tidy line adds.
proof fn lemma_collapsed_tight(ls: Seq<Seq<char>>, l: Seq<char>)
    requires
        all_tight(ls),
        tight(l),
    ensures
        all_tight(ls.push(l)),
        collapsed(ls.push(l)) == (if ls.len() == 0 {
            l
        } else {
            collapsed(ls).push('\n') + l
        }),
        collapsed(ls.push(l)).len() > 0,
        collapsed(ls.push(l)).last() == l.last(),
    decreases ls.len(),
{
    let all = ls.push(l);
    assert(all.drop_last() =~= ls);
    lemma_tight(l);
    assert(is_white('\n'));
    if ls.len() > 0 {
        let front = ls.drop_last();
        assert(front.push(ls.last()) =~= ls);
        assert(tight(ls[ls.len() - 1]));
        assert forall|i: int| 0 <= i < front.len() implies tight(#[trigger] front[i]) by {
            assert(front[i] == ls[i]);
        }
        lemma_collapsed_tight(front, ls.last());
    } else {
        assert(collapsed(ls) =~= seq![]);
        assert(collapsed(all) =~= l);
    }
}

/// The tidy lines that a text comes to.
proof fn lemma_tight_lines(ls: Seq<Seq<char>>) -> (r: Seq<Seq<char>>)
    requires
        forall|n: int, i: int|
            0 <= n < ls.len() && 0 <= i < ls[n].len() ==> #[trigger] ls[n][i] != '\n',
    ensures
        all_tight(r),
        r.len() == 0 ==> collapsed(ls).len() == 0,
        r.len() > 0 ==> collapsed(ls) == (if blank(ls.last()) {
            collapsed(r).push('\n')
        } else {
            collapsed(r)
        }),
        r.len() > 0 ==> collapsed(r).len() > 0 && !is_white(collapsed(r).last()),
        r.len() > 0 ==> ls.len() > 0,
    decreases ls.len(),
{
    assert(is_white('\n'));
    if ls.len() == 0 {
        ls
    } else {
        let front = ls.drop_last();
        let x = ls.last();
        assert forall|n: int, i: int|
            0 <= n < front.len() && 0 <= i < front[n].len() implies #[trigger] front[n][i] != '\n' by {
            assert(ls[n][i] != '\n');
        }
        let r = lemma_tight_lines(front);
        if blank(x) {
            if r.len() > 0 {
                assert(ls[ls.len() - 2] == front.last());
            }
            r
        } else {
            let y = trim_end(x);
            lemma_not_blank(x);
            lemma_trim_end_back(x);
            lemma_trim_is_part(x);
            assert forall|i: int| 0 <= i < y.len() implies #[trigger] y[i] != '\n' by {
                assert(y[i] == x[i]);
                assert(ls[ls.len() - 1][i] != '\n');
            }
            assert(tight(y));
            lemma_collapsed_tight(r, y);
            r.push(y)
        }
    }
}

/// Tidy lines come apart as they were put together.
proof fn lemma_lines_of_tight(ls: Seq<Seq<char>>)
    requires
        all_tight(ls),
    ensures
        lines(collapsed(ls)) == ls,
    decreases ls.len(),
{
    if ls.len() == 0 {
        assert(collapsed(ls) =~= seq![]);
        assert(lines(collapsed(ls)) =~= ls);
    } else {
        let front = ls.drop_last();
        let l = ls.last();
        assert(tight(ls[ls.len() - 1]));
        assert forall|i: int| 0 <= i < front.len() implies tight(#[trigger] front[i]) by {
            assert(front[i] == ls[i]);
        }
        assert(front.push(l) =~= ls);
        lemma_lines_of_tight(front);
        lemma_collapsed_tight(front, l);
        let none = Seq::<char>::empty();
        if front.len() == 0 {
            lemma_lines_append(none, l);
            assert(none + l =~= l);
            assert(lines(none) =~= seq![]);
            assert(lines(collapsed(ls)) =~= ls);
        } else {
            let a = collapsed(front);
            let before = front.drop_last();
            assert(before.push(front.last()) =~= front);
            assert(tight(front[front.len() - 1]));
            assert forall|i: int| 0 <= i < before.len() implies tight(#[trigger] before[i]) by {
                assert(before[i] == front[i]);
            }
            lemma_collapsed_tight(before, front.last());
            assert(is_white('\n') && is_white('\r'));
            lemma_lines_push(a, '\n');
            assert(without_cr(front.last()) == front.last());
            assert(lines(a.push('\n')) =~= front);
            lemma_lines_append(a.push('\n'), l);
        }
    }
}

/// The first of some tidy lines stands in front.
proof fn lemma_first_line(ls: Seq<Seq<char>>, other: Seq<char>) -> (tail: Seq<char>)
    requires
        all_tight(ls),
        ls.len() > 0,
        tight(other),
    ensures
        collapsed(ls) == ls[0] + tail,
        collapsed(ls.update(0, other)) == other + tail,
        all_tight(ls.update(0, other)),
    decreases ls.len(),
{
    let front = ls.drop_last();
    let l = ls.last();
    assert(tight(ls[ls.len() - 1]));
    assert forall|i: int| 0 <= i < front.len() implies tight(#[trigger] front[i]) by {
        assert(front[i] == ls[i]);
    }
    assert(front.push(l) =~= ls);
    lemma_collapsed_tight(front, l);
    if front.len() == 0 {
        let none = Seq::<char>::empty();
        assert(ls.update(0, other) =~= front.push(other));
        lemma_collapsed_tight(front, other);
        assert(ls[0] + none =~= ls[0]);
        assert(other + none =~= other);
        none
    } else {
        let tail = lemma_first_line(front, other);
        assert(ls.update(0, other) =~= front.update(0, other).push(l));
        lemma_collapsed_tight(front.update(0, other), l);
        let r = tail.push('\n') + l;
        assert(collapsed(ls) =~= ls[0] + r);
        assert(collapsed(ls.update(0, other)) =~= other + r);
        r
    }
}

/// Tidying a tidied text changes nothing.
pub proof fn lemma_tidied_again(s: Seq<char>)
    ensures
        tidied(tidied(s)) == tidied(s),
{
    let ls = lines(s);
    assert forall|n: int, i: int| 0 <= n < ls.len() && 0 <= i < ls[n].len() implies #[trigger] ls[n][i]
        != '\n' by {
        lemma_lines_hold_no_break(s, n, i);
    }
    let k = lemma_tight_lines(ls);
    let none = Seq::<char>::empty();
    if k.len() == 0 {
        assert(collapsed(ls) =~= none);
        assert(tidied(s) =~= none);
        assert(lines(none) =~= seq![]);
        assert(collapsed(lines(none)) =~= none);
        assert(tidied(none) =~= none);
    } else {
        let all = collapsed(k);
        lemma_trim_break(all);
        assert(tidied(s) == trimmed(all));
        let first = k[0];
        assert(tight(first));
        lemma_tight(first);
        lemma_not_blank(first);
        let other = trim_start(first);
        lemma_trim_is_part(first);
        assert forall|i: int| 0 <= i < other.len() implies #[trigger] other[i] != '\n' by {
            assert(other[i] == first[i + (first.len() - other.len())]);
        }
        assert(other.last() == first.last());
        assert(tight(other));
        let tail = lemma_first_line(k, other);
        lemma_trim_start_more(first, tail);
        let r = other + tail;
        assert(trim_start(all) == r);
        assert(r.last() == all.last());
        assert(trim_end(r) == r);
        assert(tidied(s) == r);
        let k2 = k.update(0, other);
        lemma_lines_of_tight(k2);
        lemma_trim_start_front(first);
        assert(r[0] == other[0]);
        assert(trim_start(r) == r);
    }
}

/// Peeling a peeled text changes nothing.
pub proof fn law_peeling_again_changes_nothing(s: Seq<char>)
    ensures
        answer_part(answer_part(s)) == answer_part(s),
{
    law_answer_has_no_tag(s);
    lemma_nothing_to_take_out(answer_part(s));
    lemma_tidied_again(unthought(s));
}

} // verus!
