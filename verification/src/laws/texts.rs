//! Texts: cutting them up, putting them together, and the numbers in them.
use vstd::prelude::*;

use crate::text::{
    all_digits, blank, contains, decimal, digit, ends_with, first_chars, hex_number, index_of,
    is_white, joined, lines, lower, lower_char, parsed, split, starts_with, stripped, trim_end,
    trim_start, trimmed, unsigned, value, without_cr, without_leading,
};

verus! {

/// Nothing but white space.
pub open spec fn all_white(s: Seq<char>) -> bool {
    forall|i: int| 0 <= i < s.len() ==> is_white(#[trigger] s[i])
}

/// Trimming takes white space from both ends, all of it, and nothing else.
pub proof fn law_trimming_takes_the_space_around(s: Seq<char>)
    ensures
        exists|a: Seq<char>, b: Seq<char>|
            all_white(a) && all_white(b) && s == #[trigger] (a + trimmed(s) + b),
        trimmed(s).len() > 0 ==> !is_white(trimmed(s)[0]) && !is_white(trimmed(s).last()),
        blank(s) <==> all_white(s),
{
    let t = trim_start(s);
    lemma_trim_start(s);
    lemma_trim_end(t);
    let r = trimmed(s);
    let a = s.take(s.len() - t.len());
    let b = t.skip(r.len() as int);
    assert(s =~= a + r + b);
    assert(r == t.take(r.len() as int));
    if r.len() == 0 {
        assert(all_white(s)) by {
            assert forall|i: int| 0 <= i < s.len() implies is_white(#[trigger] s[i]) by {
                if i < a.len() {
                    assert(s[i] == a[i]);
                } else {
                    assert(s[i] == b[i - a.len()]);
                }
            }
        }
    }
    if all_white(s) && r.len() > 0 {
        assert(r[0] == s[a.len() as int]);
    }
}

proof fn lemma_trim_start(s: Seq<char>)
    ensures
        trim_start(s).len() <= s.len(),
        trim_start(s) == s.skip(s.len() - trim_start(s).len()),
        all_white(s.take(s.len() - trim_start(s).len())),
        trim_start(s).len() > 0 ==> !is_white(trim_start(s)[0]),
    decreases s.len(),
{
    if s.len() > 0 && is_white(s[0]) {
        let d = s.drop_first();
        lemma_trim_start(d);
        let n = trim_start(s).len();
        assert(s.skip(s.len() - n) =~= d.skip(d.len() - n));
        assert forall|i: int| 0 <= i < s.len() - n implies is_white(
            #[trigger] s.take(s.len() - n)[i],
        ) by {
            if i > 0 {
                assert(d.take(d.len() - n)[i - 1] == s[i]);
            }
        }
    } else {
        assert(s.skip(0) =~= s);
    }
}

pub(crate) proof fn lemma_trim_end(s: Seq<char>)
    ensures
        trim_end(s).len() <= s.len(),
        trim_end(s) == s.take(trim_end(s).len() as int),
        all_white(s.skip(trim_end(s).len() as int)),
        trim_end(s).len() > 0 ==> !is_white(trim_end(s).last()),
    decreases s.len(),
{
    if s.len() > 0 && is_white(s.last()) {
        let d = s.drop_last();
        lemma_trim_end(d);
        let n = trim_end(s).len() as int;
        assert(s.take(n) =~= d.take(n));
        assert forall|i: int| 0 <= i < s.len() - n implies is_white(#[trigger] s.skip(n)[i]) by {
            if i < d.len() - n {
                assert(d.skip(n)[i] == s[i + n]);
            }
        }
    } else {
        assert(s.take(s.len() as int) =~= s);
    }
}

/// White space is what a keyboard types as such, a space, a tab or the end of
/// a line, and a few rarer marks; letters and figures are none.
pub proof fn law_what_white_space_is(c: char)
    ensures
        c == ' ' || c == '\t' || c == '\n' || c == '\r' ==> is_white(c),
        '!' <= c && c <= '~' ==> !is_white(c),
{
}

/// The pieces put together again are the text, and none holds the separator.
pub proof fn law_a_split_text_is_whole(s: Seq<char>, c: char)
    ensures
        joined(split(s, c), seq![c]) == s,
        forall|i: int| 0 <= i < split(s, c).len() ==> !(#[trigger] split(s, c)[i]).contains(c),
        split(s, c).len() > 0,
    decreases s.len(),
{
    lemma_index_of(s, c);
    let k = index_of(s, c);
    if 0 <= k < s.len() {
        let rest = s.skip(k + 1);
        let tail = split(rest, c);
        law_a_split_text_is_whole(rest, c);
        lemma_joined_front(s.take(k), tail, seq![c]);
        assert(s.take(k) + seq![c] + rest =~= s);
        assert forall|i: int| 0 <= i < split(s, c).len() implies !(#[trigger] split(
            s,
            c,
        )[i]).contains(c) by {
            if i > 0 {
                assert(split(s, c)[i] == tail[i - 1]);
            }
        }
    }
}

proof fn lemma_index_of(s: Seq<char>, c: char)
    ensures
        0 <= index_of(s, c) <= s.len(),
        index_of(s, c) < s.len() ==> s[index_of(s, c)] == c,
        !s.take(index_of(s, c)).contains(c),
        index_of(s, c) == s.len() ==> !s.contains(c),
    decreases s.len(),
{
    if s.len() > 0 && s[0] != c {
        let d = s.drop_first();
        lemma_index_of(d, c);
        let k = index_of(d, c);
        let t = s.take(k + 1);
        if t.contains(c) {
            let i = choose|i: int| 0 <= i < t.len() && t[i] == c;
            assert(d.take(k)[i - 1] == c);
        }
        if k == d.len() && s.contains(c) {
            let i = choose|i: int| 0 <= i < s.len() && s[i] == c;
            assert(d[i - 1] == c);
        }
    }
}

proof fn lemma_joined_front(a: Seq<char>, rest: Seq<Seq<char>>, sep: Seq<char>)
    requires
        rest.len() > 0,
    ensures
        joined(seq![a] + rest, sep) == a + sep + joined(rest, sep),
    decreases rest.len(),
{
    let all = seq![a] + rest;
    if rest.len() == 1 {
        assert(all.drop_last() =~= seq![a]);
        assert(joined(seq![a], sep) == a);
        assert(all.last() == rest[0]);
        assert(joined(rest, sep) == rest[0]);
        assert(all.len() == 2);
        assert(joined(all, sep) == joined(all.drop_last(), sep) + sep + all.last());
    } else {
        assert(all.drop_last() =~= seq![a] + rest.drop_last());
        lemma_joined_front(a, rest.drop_last(), sep);
        assert(all.last() == rest.last());
        assert(joined(all, sep) =~= a + sep + joined(rest, sep));
    }
}

/// Joining puts the separator between the parts, and only there.
pub proof fn law_parts_are_joined_in_order(parts: Seq<Seq<char>>, p: Seq<char>, sep: Seq<char>)
    ensures
        joined(seq![], sep) == Seq::<char>::empty(),
        joined(seq![p], sep) == p,
        parts.len() > 0 ==> joined(parts.push(p), sep) == joined(parts, sep) + sep + p,
{
    assert(parts.push(p).drop_last() =~= parts);
}

/// A line ends at the line feed; a carriage return before it is not of the
/// line; what follows is the further lines. A last line needs no end.
pub proof fn law_a_line_ends_at_its_feed(l: Seq<char>, rest: Seq<char>)
    requires
        !l.contains('\n'),
    ensures
        lines(l + seq!['\n'] + rest) == seq![without_cr(l)] + lines(rest),
        lines(l + seq!['\r', '\n'] + rest) == seq![l] + lines(rest),
        l.len() > 0 ==> lines(l) == seq![l],
        lines(seq![]) == Seq::<Seq<char>>::empty(),
        l.len() > 0 && l.last() != '\r' ==> without_cr(l) == l,
{
    let s = l + seq!['\n'] + rest;
    lemma_index_of_feed(l, rest);
    assert(s.take(l.len() as int) =~= l);
    assert(s.skip(l.len() as int + 1) =~= rest);
    let l2 = l.push('\r');
    assert(!l2.contains('\n')) by {
        if l2.contains('\n') {
            let i = choose|i: int| 0 <= i < l2.len() && l2[i] == '\n';
            assert(l[i] == '\n');
        }
    }
    let s2 = l2 + seq!['\n'] + rest;
    assert(s2 =~= l + seq!['\r', '\n'] + rest);
    lemma_index_of_feed(l2, rest);
    assert(s2.take(l2.len() as int) =~= l2);
    assert(s2.skip(l2.len() as int + 1) =~= rest);
    assert(l2.drop_last() =~= l);
    lemma_index_of(l, '\n');
}

proof fn lemma_index_of_feed(l: Seq<char>, rest: Seq<char>)
    requires
        !l.contains('\n'),
    ensures
        index_of(l + seq!['\n'] + rest, '\n') == l.len(),
    decreases l.len(),
{
    let s = l + seq!['\n'] + rest;
    if l.len() > 0 {
        assert(l[0] != '\n');
        let d = l.drop_first();
        assert(s.drop_first() =~= d + seq!['\n'] + rest);
        if d.contains('\n') {
            let i = choose|i: int| 0 <= i < d.len() && d[i] == '\n';
            assert(l[i + 1] == '\n');
        }
        lemma_index_of_feed(d, rest);
    }
}

/// A prefix is what a text begins with, an end what it ends with, and both
/// stand in it; what follows the prefix is the rest.
pub proof fn law_the_rest_follows_the_prefix(p: Seq<char>, rest: Seq<char>)
    ensures
        starts_with(p + rest, p) && stripped(p + rest, p) == Some(rest),
        ends_with(p + rest, rest),
        contains(p + rest, p) && contains(p + rest, rest),
        p.len() > 0 ==> without_leading(p + rest, p) == without_leading(rest, p),
        !starts_with(rest, p) ==> stripped(rest, p) is None && without_leading(rest, p) == rest,
{
    let s = p + rest;
    assert(s.take(p.len() as int) =~= p);
    assert(s.skip(p.len() as int) =~= rest);
    assert(s.skip(0) =~= s);
    assert(starts_with(s.skip(0), p));
    assert(rest.take(rest.len() as int) =~= rest);
    assert(starts_with(s.skip(p.len() as int), rest));
}

/// The first characters are as many as asked for, or all.
pub proof fn law_the_first_characters(s: Seq<char>, n: nat)
    ensures
        first_chars(s, n).len() == (if s.len() < n {
            s.len()
        } else {
            n
        }),
        starts_with(s, first_chars(s, n)),
{
    assert(s.take(s.len() as int) =~= s);
}

/// Lower case changes the twenty-six capital letters to the small ones and
/// nothing else, wherever they stand.
pub proof fn law_lower_case(s: Seq<char>, c: char)
    ensures
        lower(s).len() == s.len(),
        forall|i: int| 0 <= i < s.len() ==> #[trigger] lower(s)[i] == lower_char(s[i]),
        'A' <= c && c <= 'Z' ==> lower_char(c) as u32 == c as u32 + 32,
        !('A' <= c && c <= 'Z') ==> lower_char(c) == c,
        lower(lower(s)) == lower(s),
{
    assert forall|i: int| 0 <= i < s.len() implies #[trigger] lower(lower(s))[i] == lower(s)[i] by {
        let d = s[i];
        if 'A' <= d && d <= 'Z' {
            let e = ((d as u32 + 32) as u8) as char;
            assert(e as u32 == d as u32 + 32);
        }
    }
    assert(lower(lower(s)) =~= lower(s));
    if 'A' <= c && c <= 'Z' {
        assert((((c as u32 + 32) as u8) as char) as u32 == c as u32 + 32);
    }
}

/// A number is read back from its decimal figures, with or without a plus
/// sign, and from its figures to the base of sixteen.
pub proof fn law_a_number_is_read_back(n: u64)
    ensures
        parsed(decimal(n as nat), 10) == Some(n),
        parsed(seq!['+'] + decimal(n as nat), 10) == Some(n),
        parsed(hex_number(n as nat), 16) == Some(n),
{
    let s = decimal(n as nat);
    let h = hex_number(n as nat);
    lemma_decimal_value(n as nat);
    lemma_hex_value(n as nat);
    assert(digit('+') == 16);
    assert(s[0] != '+');
    assert(h[0] != '+');
    assert(unsigned(s) == s);
    assert(unsigned(h) == h);
    assert((seq!['+'] + s).drop_first() =~= s);
}

proof fn lemma_decimal_value(n: nat)
    ensures
        value(decimal(n), 10) == n,
        all_digits(decimal(n), 10),
        decimal(n).len() > 0,
    decreases n,
{
    if n < 10 {
        let c = (('0' as u32 + n) as u8) as char;
        assert(c as u32 == '0' as u32 + n);
        assert(decimal(n).drop_last() =~= Seq::<char>::empty());
        assert(value(Seq::<char>::empty(), 10) == 0);
        assert(decimal(n).last() == c);
    } else {
        lemma_decimal_value(n / 10);
        let c = (('0' as u32 + n % 10) as u8) as char;
        assert(c as u32 == '0' as u32 + n % 10);
        assert(decimal(n).drop_last() =~= decimal(n / 10));
        assert forall|i: int| 0 <= i < decimal(n).len() implies digit(#[trigger] decimal(n)[i])
            < 10 by {
            if i < decimal(n / 10).len() {
                assert(decimal(n)[i] == decimal(n / 10)[i]);
            }
        }
    }
}

pub(crate) proof fn lemma_hex_value(n: nat)
    ensures
        value(hex_number(n), 16) == n,
        all_digits(hex_number(n), 16),
        hex_number(n).len() > 0,
    decreases n,
{
    let k = (n % 16) as nat;
    let c = crate::text::hex_figure(k);
    if k < 10 {
        assert(c as u32 == '0' as u32 + k);
    } else {
        assert(c as u32 == 'a' as u32 + k - 10);
    }
    assert(digit(c) == k);
    if n < 16 {
        assert(hex_number(n).drop_last() =~= Seq::<char>::empty());
        assert(value(Seq::<char>::empty(), 16) == 0);
    } else {
        lemma_hex_value(n / 16);
        assert(hex_number(n).drop_last() =~= hex_number(n / 16));
        assert forall|i: int| 0 <= i < hex_number(n).len() implies digit(
            #[trigger] hex_number(n)[i],
        ) < 16 by {
            if i < hex_number(n / 16).len() {
                assert(hex_number(n)[i] == hex_number(n / 16)[i]);
            }
        }
    }
}

/// What holds anything but figures is no number.
pub proof fn law_only_figures_are_a_number(s: Seq<char>, i: int)
    requires
        0 < i < s.len(),
        !('0' <= s[i] && s[i] <= '9'),
    ensures
        parsed(s, 10) is None,
        parsed(seq![], 10) is None,
{
    let d = unsigned(s);
    if s[0] == '+' {
        assert(d[i - 1] == s[i]);
    } else {
        assert(d[i] == s[i]);
    }
    assert(digit(s[i]) >= 10);
}

pub(crate) proof fn lemma_no_point(n: nat)
    ensures
        !decimal(n).contains('.'),
{
    lemma_decimal_value(n);
    let s = decimal(n);
    assert(digit('.') == 16);
    if s.contains('.') {
        let i = choose|i: int| 0 <= i < s.len() && s[i] == '.';
        assert(digit(s[i]) < 10);
    }
}

pub(crate) proof fn lemma_split_front(a: Seq<char>, rest: Seq<char>, c: char)
    requires
        !a.contains(c),
    ensures
        split(a + seq![c] + rest, c) == seq![a] + split(rest, c),
{
    let s = a + seq![c] + rest;
    lemma_index_of(s, c);
    let k = index_of(s, c);
    assert(s[a.len() as int] == c);
    if k < a.len() {
        assert(a[k] == c);
    }
    if k > a.len() {
        assert(s.take(k)[a.len() as int] == c);
    }
    assert(s.take(k) =~= a);
    assert(s.skip(k + 1) =~= rest);
}

pub(crate) proof fn lemma_split_none(a: Seq<char>, c: char)
    requires
        !a.contains(c),
    ensures
        split(a, c) == seq![a],
{
    lemma_index_of(a, c);
}

} // verus!
