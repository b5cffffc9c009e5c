//! Characters, lines and numbers in text.
//!
//! A `String` is read as the sequence of its characters. The spec functions
//! here say what each operation gives in those terms; the functions beside
//! them compute it.
use vstd::prelude::*;
use vstd::string::StringSliceAdditionalSpecFns;
use vstd::utf8::{
    decode_utf8, encode_utf8, encode_utf8_decode_utf8, encode_utf8_valid_utf8, is_char_boundary,
    is_char_boundary_iff_not_is_continuation_byte, is_char_boundary_start_end_of_seq,
};

verus! {

broadcast use vstd::string::group_string_axioms;

/// `String::push` appends one character.
pub assume_specification[ String::push ](s: &mut String, c: char)
    ensures
        final(s)@ == old(s)@.push(c),
;

// ------------------------------------------------------------ building text

/// The texts behind a list of strings.
pub open spec fn texts(v: Seq<String>) -> Seq<Seq<char>> {
    Seq::new(v.len(), |i: int| v[i]@)
}

pub proof fn lemma_texts_push(v: Seq<String>, s: String)
    ensures
        texts(v.push(s)) == texts(v).push(s@),
{
    assert(texts(v.push(s)) =~= texts(v).push(s@));
}

/// The characters of a text, one by one.
pub fn chars_of(s: &str) -> (r: Vec<char>)
    ensures
        r@ == s@,
{
    let mut r: Vec<char> = Vec::new();
    for c in it: s.chars()
        invariant
            r@ == it.seq().take(it.index() as int),
            it.seq() == s@,
    {
        r.push(c);
        assert(it.seq().take(it.index() as int).push(c) =~= it.seq().take(it.index() as int + 1));
    }
    assert(r@ =~= s@);
    r
}

/// The text between two positions.
pub fn text_of(v: &Vec<char>, from: usize, to: usize) -> (r: String)
    requires
        from <= to <= v@.len(),
    ensures
        r@ == v@.subrange(from as int, to as int),
{
    let mut r = String::new();
    let mut i: usize = from;
    assert(r@ =~= v@.subrange(from as int, from as int));
    while i < to
        invariant
            from <= i <= to <= v@.len(),
            r@ == v@.subrange(from as int, i as int),
        decreases to - i,
    {
        r.push(v[i]);
        assert(v@.subrange(from as int, i as int).push(v@[i as int]) =~= v@.subrange(
            from as int,
            i as int + 1,
        ));
        i = i + 1;
    }
    r
}

/// The whole of a character list as text.
pub fn string_of(v: &Vec<char>) -> (r: String)
    ensures
        r@ == v@,
{
    assert(v@.subrange(0, v@.len() as int) =~= v@);
    text_of(v, 0, v.len())
}

/// Two texts laid end to end.
pub fn concat(a: &str, b: &str) -> (r: String)
    ensures
        r@ == a@ + b@,
{
    let mut r = a.to_string();
    r.append(b);
    r
}

/// Three texts laid end to end.
pub fn concat3(a: &str, b: &str, c: &str) -> (r: String)
    ensures
        r@ == a@ + b@ + c@,
{
    let mut r = a.to_string();
    r.append(b);
    r.append(c);
    r
}

/// Whether two texts are the same.
pub fn same(a: &str, b: &str) -> (r: bool)
    ensures
        r == (a@ == b@),
{
    let x = a.to_string();
    let y = b.to_string();
    x == y
}

// -------------------------------------------------------------- white space

/// Unicode's `White_Space` property.
pub open spec fn is_white(c: char) -> bool {
    let n = c as u32;
    ||| 0x9 <= n <= 0xd
    ||| n == 0x20
    ||| n == 0x85
    ||| n == 0xa0
    ||| n == 0x1680
    ||| 0x2000 <= n <= 0x200a
    ||| n == 0x2028
    ||| n == 0x2029
    ||| n == 0x202f
    ||| n == 0x205f
    ||| n == 0x3000
}

pub fn white(c: char) -> (r: bool)
    ensures
        r == is_white(c),
{
    let n: u32 = c as u32;
    (0x9 <= n && n <= 0xd) || n == 0x20 || n == 0x85 || n == 0xa0 || n == 0x1680 || (0x2000 <= n && n
        <= 0x200a) || n == 0x2028 || n == 0x2029 || n == 0x202f || n == 0x205f || n == 0x3000
}

/// Without the white space it starts with.
pub open spec fn trim_start(s: Seq<char>) -> Seq<char>
    decreases s.len(),
{
    if s.len() > 0 && is_white(s[0]) {
        trim_start(s.drop_first())
    } else {
        s
    }
}

/// Without the white space it ends with.
pub open spec fn trim_end(s: Seq<char>) -> Seq<char>
    decreases s.len(),
{
    if s.len() > 0 && is_white(s.last()) {
        trim_end(s.drop_last())
    } else {
        s
    }
}

/// Without white space at either end.
pub open spec fn trimmed(s: Seq<char>) -> Seq<char> {
    trim_end(trim_start(s))
}

/// Nothing but white space.
pub open spec fn blank(s: Seq<char>) -> bool {
    trimmed(s).len() == 0
}

/// What is left at the front is a prefix, what is left at the back a suffix.
pub proof fn lemma_trim_is_part(s: Seq<char>)
    ensures
        trim_end(s).len() <= s.len(),
        trim_end(s) == s.take(trim_end(s).len() as int),
        trim_start(s).len() <= s.len(),
        trim_start(s) == s.skip(s.len() - trim_start(s).len()),
    decreases s.len(),
{
    if s.len() > 0 && is_white(s.last()) {
        lemma_trim_is_part(s.drop_last());
        assert(trim_end(s) =~= s.take(trim_end(s).len() as int));
    } else {
        assert(s.take(s.len() as int) =~= s);
    }
    if s.len() > 0 && is_white(s[0]) {
        lemma_trim_is_part(s.drop_first());
        assert(trim_start(s) =~= s.skip(s.len() - trim_start(s).len()));
    } else {
        assert(s.skip(0) =~= s);
    }
}

fn start_of(v: &Vec<char>) -> (i: usize)
    ensures
        i <= v@.len(),
        trim_start(v@) == v@.skip(i as int),
        i < v@.len() ==> !is_white(v@[i as int]),
{
    let mut i: usize = 0;
    assert(v@.skip(0) =~= v@);
    while i < v.len() && white(v[i])
        invariant
            i <= v@.len(),
            trim_start(v@) == trim_start(v@.skip(i as int)),
        decreases v@.len() - i,
    {
        assert(v@.skip(i as int).drop_first() =~= v@.skip(i as int + 1));
        i = i + 1;
    }
    i
}

fn end_of(v: &Vec<char>, from: usize) -> (e: usize)
    requires
        from <= v@.len(),
    ensures
        from <= e <= v@.len(),
        trim_end(v@.skip(from as int)) == v@.subrange(from as int, e as int),
{
    let mut e: usize = v.len();
    assert(v@.skip(from as int) =~= v@.subrange(from as int, e as int));
    while e > from && white(v[e - 1])
        invariant
            from <= e <= v@.len(),
            trim_end(v@.skip(from as int)) == trim_end(v@.subrange(from as int, e as int)),
        decreases e,
    {
        assert(v@.subrange(from as int, e as int).drop_last() =~= v@.subrange(
            from as int,
            e as int - 1,
        ));
        e = e - 1;
    }
    e
}

pub fn trim(s: &str) -> (r: String)
    ensures
        r@ == trimmed(s@),
{
    let v = chars_of(s);
    let a: usize = start_of(&v);
    let b: usize = end_of(&v, a);
    text_of(&v, a, b)
}

pub fn trim_left(s: &str) -> (r: String)
    ensures
        r@ == trim_start(s@),
{
    let v = chars_of(s);
    let a: usize = start_of(&v);
    assert(v@.skip(a as int) =~= v@.subrange(a as int, v@.len() as int));
    text_of(&v, a, v.len())
}

pub fn trim_right(s: &str) -> (r: String)
    ensures
        r@ == trim_end(s@),
{
    let v = chars_of(s);
    assert(v@.skip(0) =~= v@);
    let b: usize = end_of(&v, 0);
    text_of(&v, 0, b)
}

pub fn is_blank(s: &str) -> (r: bool)
    ensures
        r == blank(s@),
{
    let t = trim(s);
    t.as_str().is_empty()
}

// ------------------------------------------------------------- affixes

pub open spec fn starts_with(s: Seq<char>, p: Seq<char>) -> bool {
    p.len() <= s.len() && s.take(p.len() as int) == p
}

pub open spec fn ends_with(s: Seq<char>, p: Seq<char>) -> bool {
    p.len() <= s.len() && s.skip(s.len() - p.len()) == p
}

/// Whether `p` stands in `v` at position `at`.
pub fn stands_at(v: &Vec<char>, p: &Vec<char>, at: usize) -> (r: bool)
    requires
        at <= v@.len(),
    ensures
        r == starts_with(v@.skip(at as int), p@),
{
    let n: usize = v.len();
    if p.len() > n - at {
        return false;
    }
    let mut i: usize = 0;
    while i < p.len()
        invariant
            at <= n,
            n == v@.len(),
            p@.len() <= n - at,
            i <= p@.len(),
            v@.skip(at as int).take(i as int) == p@.take(i as int),
        decreases p@.len() - i,
    {
        if v[at + i] != p[i] {
            assert(v@.skip(at as int).take(p@.len() as int)[i as int] != p@[i as int]);
            return false;
        }
        assert(v@.skip(at as int).take(i as int + 1) =~= v@.skip(at as int).take(i as int).push(
            p@[i as int],
        ));
        assert(p@.take(i as int + 1) =~= p@.take(i as int).push(p@[i as int]));
        i = i + 1;
    }
    assert(p@.take(p@.len() as int) =~= p@);
    true
}

pub fn has_prefix(s: &str, p: &str) -> (r: bool)
    ensures
        r == starts_with(s@, p@),
{
    let v = chars_of(s);
    let q = chars_of(p);
    assert(v@.skip(0) =~= v@);
    stands_at(&v, &q, 0)
}

pub fn has_suffix(s: &str, p: &str) -> (r: bool)
    ensures
        r == ends_with(s@, p@),
{
    let v = chars_of(s);
    let q = chars_of(p);
    if q.len() > v.len() {
        return false;
    }
    let r = stands_at(&v, &q, v.len() - q.len());
    assert(v@.skip(v@.len() - q@.len()).take(q@.len() as int) =~= v@.skip(v@.len() - q@.len()));
    r
}

/// What follows a prefix, when it is there.
pub open spec fn stripped(s: Seq<char>, p: Seq<char>) -> Option<Seq<char>> {
    if starts_with(s, p) {
        Some(s.skip(p.len() as int))
    } else {
        None
    }
}

pub fn strip_prefix(s: &str, p: &str) -> (r: Option<String>)
    ensures
        match r {
            Some(t) => stripped(s@, p@) == Some(t@),
            None => stripped(s@, p@) is None,
        },
{
    let v = chars_of(s);
    let q = chars_of(p);
    assert(v@.skip(0) =~= v@);
    if stands_at(&v, &q, 0) {
        assert(v@.subrange(q@.len() as int, v@.len() as int) =~= v@.skip(q@.len() as int));
        Some(text_of(&v, q.len(), v.len()))
    } else {
        None
    }
}

/// Without any run of `p` it starts with; `p` must not be empty.
pub open spec fn without_leading(s: Seq<char>, p: Seq<char>) -> Seq<char>
    decreases s.len(),
{
    if p.len() > 0 && starts_with(s, p) {
        without_leading(s.skip(p.len() as int), p)
    } else {
        s
    }
}

pub fn trim_start_matches(s: &str, p: &str) -> (r: String)
    ensures
        r@ == without_leading(s@, p@),
{
    let v = chars_of(s);
    let q = chars_of(p);
    let n: usize = v.len();
    let mut at: usize = 0;
    assert(v@.skip(0) =~= v@);
    while q.len() > 0 && stands_at(&v, &q, at)
        invariant
            at <= n,
            n == v@.len(),
            q@ == p@,
            without_leading(s@, p@) == without_leading(v@.skip(at as int), p@),
        decreases v@.len() - at,
    {
        assert(v@.skip(at as int).skip(q@.len() as int) =~= v@.skip(at as int + q@.len() as int));
        at = at + q.len();
    }
    assert(v@.skip(at as int) =~= v@.subrange(at as int, v@.len() as int));
    text_of(&v, at, v.len())
}

// ------------------------------------------------------------ cutting

/// How long a text is in bytes.
pub open spec fn byte_len(s: Seq<char>) -> nat {
    encode_utf8(s).len()
}

pub fn bytes_in(s: &str) -> (r: usize)
    ensures
        r == byte_len(s@),
{
    s.as_bytes().len()
}

/// The text between two places that are counted in bytes; none where a place
/// is out of range or inside a character.
pub open spec fn piece(s: Seq<char>, from: int, to: int) -> Option<Seq<char>> {
    let b = encode_utf8(s);
    if 0 <= from <= to <= b.len() && is_char_boundary(b, from) && is_char_boundary(b, to) {
        Some(decode_utf8(b.subrange(from, to)))
    } else {
        None
    }
}

pub fn byte_piece(s: &str, from: usize, to: usize) -> (r: Option<String>)
    ensures
        (match r {
            Some(t) => Some(t@),
            None => None,
        }) == piece(s@, from as int, to as int),
{
    let n: usize = bytes_in(s);
    if from > to || to > n || !s.is_char_boundary(from) || !s.is_char_boundary(to) {
        return None;
    }
    let ghost b = encode_utf8(s@);
    let (front, _) = s.split_at(to);
    let ghost f = encode_utf8(front@);
    proof {
        encode_utf8_valid_utf8(s@);
        encode_utf8_valid_utf8(front@);
        assert(f == b.subrange(0, to as int));
        is_char_boundary_start_end_of_seq(f);
        if from < to {
            assert(f[from as int] == b[from as int]);
            is_char_boundary_iff_not_is_continuation_byte(b, from as int);
            is_char_boundary_iff_not_is_continuation_byte(f, from as int);
        }
    }
    let (_, part) = front.split_at(from);
    proof {
        assert(encode_utf8(part@) =~= b.subrange(from as int, to as int));
        encode_utf8_decode_utf8(part@);
    }
    Some(part.to_string())
}

// ------------------------------------------------------------ finding

/// Whether `p` stands somewhere in `s`.
pub open spec fn contains(s: Seq<char>, p: Seq<char>) -> bool {
    exists|i: int| 0 <= i <= s.len() && #[trigger] starts_with(s.skip(i), p)
}

/// Part of a part is a part of the whole.
pub proof fn lemma_contains_trans(s: Seq<char>, m: Seq<char>, p: Seq<char>)
    requires
        contains(s, m),
        contains(m, p),
    ensures
        contains(s, p),
{
    let i = choose|i: int| 0 <= i <= s.len() && #[trigger] starts_with(s.skip(i), m);
    let j = choose|j: int| 0 <= j <= m.len() && #[trigger] starts_with(m.skip(j), p);
    let there = s.skip(i + j);
    assert(there.take(p.len() as int) =~= p) by {
        assert forall|k: int| 0 <= k < p.len() implies there[k] == p[k] by {
            assert(p[k] == m.skip(j).take(p.len() as int)[k]);
            assert(m[j + k] == s.skip(i).take(m.len() as int)[j + k]);
        }
    }
    assert(starts_with(s.skip(i + j), p));
}

/// A text laid between two others is part of the whole.
pub proof fn lemma_contains_middle(a: Seq<char>, p: Seq<char>, b: Seq<char>)
    ensures
        contains(a + p + b, p),
{
    let s = a + p + b;
    assert(s.skip(a.len() as int).take(p.len() as int) =~= p);
    assert(starts_with(s.skip(a.len() as int), p));
}

pub proof fn lemma_prefix_contained(s: Seq<char>, p: Seq<char>)
    requires
        starts_with(s, p),
    ensures
        contains(s, p),
{
    assert(s.skip(0) =~= s);
    assert(starts_with(s.skip(0), p));
}

pub proof fn lemma_prefix_trans(s: Seq<char>, m: Seq<char>, p: Seq<char>)
    requires
        starts_with(s, m),
        starts_with(m, p),
    ensures
        starts_with(s, p),
{
    assert(s.take(p.len() as int) =~= s.take(m.len() as int).take(p.len() as int));
}

pub fn has_text(s: &str, p: &str) -> (r: bool)
    ensures
        r == contains(s@, p@),
{
    let v = chars_of(s);
    let q = chars_of(p);
    let mut at: usize = 0;
    while at <= v.len()
        invariant
            at <= v@.len() + 1,
            v@ == s@,
            q@ == p@,
            forall|i: int| 0 <= i < at ==> !#[trigger] starts_with(s@.skip(i), p@),
        decreases v@.len() + 1 - at,
    {
        if stands_at(&v, &q, at) {
            return true;
        }
        if at == v.len() {
            return false;
        }
        at = at + 1;
    }
    false
}

/// The position of the first `c`, or the length when there is none.
pub open spec fn index_of(s: Seq<char>, c: char) -> int
    decreases s.len(),
{
    if s.len() == 0 || s[0] == c {
        0
    } else {
        1 + index_of(s.drop_first(), c)
    }
}

pub proof fn lemma_index_of(s: Seq<char>, c: char)
    ensures
        0 <= index_of(s, c) <= s.len(),
        index_of(s, c) < s.len() ==> s[index_of(s, c)] == c,
        forall|i: int| 0 <= i < index_of(s, c) ==> s[i] != c,
    decreases s.len(),
{
    if s.len() > 0 && s[0] != c {
        lemma_index_of(s.drop_first(), c);
        assert forall|i: int| 0 <= i < index_of(s, c) implies s[i] != c by {
            if i > 0 {
                assert(s[i] == s.drop_first()[i - 1]);
            }
        }
    }
}

pub proof fn lemma_index_of_unique(s: Seq<char>, c: char, k: int)
    requires
        0 <= k <= s.len(),
        k < s.len() ==> s[k] == c,
        forall|i: int| 0 <= i < k ==> s[i] != c,
    ensures
        index_of(s, c) == k,
{
    lemma_index_of(s, c);
    let j = index_of(s, c);
    if j < k {
        assert(s[j] == c);
    }
    if k < j {
        assert(s[k] != c);
    }
}

pub fn find_char(v: &Vec<char>, c: char, from: usize) -> (r: usize)
    requires
        from <= v@.len(),
    ensures
        from <= r <= v@.len(),
        r - from == index_of(v@.skip(from as int), c),
{
    let mut i: usize = from;
    while i < v.len() && v[i] != c
        invariant
            from <= i <= v@.len(),
            forall|k: int| from <= k < i ==> v@[k] != c,
        decreases v@.len() - i,
    {
        i = i + 1;
    }
    proof {
        lemma_index_of_unique(v@.skip(from as int), c, i - from);
    }
    i
}

// ------------------------------------------------------------ splitting

/// The pieces between the separators; one more than there are separators.
pub open spec fn split(s: Seq<char>, c: char) -> Seq<Seq<char>>
    decreases s.len(),
{
    let k = index_of(s, c);
    if 0 <= k < s.len() {
        seq![s.take(k)] + split(s.skip(k + 1), c)
    } else {
        seq![s]
    }
}

pub fn split_char(s: &str, c: char) -> (r: Vec<String>)
    ensures
        texts(r@) == split(s@, c),
        r@.len() >= 1,
{
    let v = chars_of(s);
    let mut r: Vec<String> = Vec::new();
    let mut at: usize = 0;
    assert(v@.skip(0) =~= v@);
    assert(texts(r@) + split(v@, c) =~= split(v@, c));
    loop
        invariant
            v@ == s@,
            at <= v@.len(),
            split(s@, c) == texts(r@) + split(v@.skip(at as int), c),
        decreases v@.len() - at,
    {
        let k: usize = find_char(&v, c, at);
        let ghost rest = v@.skip(at as int);
        let piece = text_of(&v, at, k);
        let ghost before = r@;
        proof {
            lemma_index_of(rest, c);
            lemma_texts_push(before, piece);
        }
        r.push(piece);
        if k == v.len() {
            assert(piece@ =~= rest);
            assert(texts(before) + seq![rest] =~= texts(r@));
            return r;
        }
        assert(rest.take(k - at) =~= piece@);
        assert(rest.skip(k - at + 1) =~= v@.skip(k as int + 1));
        assert(texts(before) + (seq![piece@] + split(v@.skip(k as int + 1), c)) =~= texts(r@)
            + split(v@.skip(k as int + 1), c));
        at = k + 1;
    }
}

/// Without one carriage return at the end.
pub open spec fn without_cr(s: Seq<char>) -> Seq<char> {
    if s.len() > 0 && s.last() == '\r' {
        s.drop_last()
    } else {
        s
    }
}

/// The lines of a text: ended by a line feed, with or without a carriage
/// return before it; the last may lack the ending.
pub open spec fn lines(s: Seq<char>) -> Seq<Seq<char>>
    decreases s.len(),
{
    let k = index_of(s, '\n');
    if s.len() == 0 {
        seq![]
    } else if 0 <= k < s.len() {
        seq![without_cr(s.take(k))] + lines(s.skip(k + 1))
    } else {
        seq![s]
    }
}

pub fn lines_of(s: &str) -> (r: Vec<String>)
    ensures
        texts(r@) == lines(s@),
{
    let v = chars_of(s);
    let mut r: Vec<String> = Vec::new();
    let mut at: usize = 0;
    assert(v@.skip(0) =~= v@);
    assert(texts(r@) + lines(v@) =~= lines(v@));
    while at < v.len()
        invariant
            v@ == s@,
            at <= v@.len(),
            lines(s@) == texts(r@) + lines(v@.skip(at as int)),
        decreases v@.len() - at,
    {
        let k: usize = find_char(&v, '\n', at);
        let ghost rest = v@.skip(at as int);
        let ghost before = r@;
        proof {
            lemma_index_of(rest, '\n');
        }
        if k == v.len() {
            let piece = text_of(&v, at, k);
            proof {
                lemma_texts_push(before, piece);
                assert(piece@ =~= rest);
                assert(texts(before) + seq![rest] =~= texts(before).push(rest));
                assert(v@.skip(k as int) =~= Seq::<char>::empty());
                assert(texts(before).push(rest) + lines(Seq::<char>::empty()) =~= texts(before).push(
                    rest,
                ));
            }
            r.push(piece);
            at = k;
        } else {
            assert(rest.take(k - at) =~= v@.subrange(at as int, k as int));
            let end: usize = if k > at && v[k - 1] == '\r' {
                k - 1
            } else {
                k
            };
            assert(without_cr(rest.take(k - at)) =~= v@.subrange(at as int, end as int));
            let piece = text_of(&v, at, end);
            proof {
                lemma_texts_push(before, piece);
                assert(rest.skip(k - at + 1) =~= v@.skip(k as int + 1));
                assert(texts(before) + (seq![piece@] + lines(v@.skip(k as int + 1))) =~= texts(
                    before,
                ).push(piece@) + lines(v@.skip(k as int + 1)));
            }
            r.push(piece);
            at = k + 1;
        }
    }
    assert(v@.skip(at as int) =~= Seq::<char>::empty());
    assert(texts(r@) + lines(Seq::<char>::empty()) =~= texts(r@));
    r
}

/// The parts with a separator between each two.
pub open spec fn joined(parts: Seq<Seq<char>>, sep: Seq<char>) -> Seq<char>
    decreases parts.len(),
{
    if parts.len() == 0 {
        seq![]
    } else if parts.len() == 1 {
        parts[0]
    } else {
        joined(parts.drop_last(), sep) + sep + parts.last()
    }
}

pub fn join(parts: &Vec<String>, sep: &str) -> (r: String)
    ensures
        r@ == joined(texts(parts@), sep@),
{
    let mut r = String::new();
    let mut i: usize = 0;
    while i < parts.len()
        invariant
            i <= parts@.len(),
            r@ == joined(texts(parts@).take(i as int), sep@),
        decreases parts@.len() - i,
    {
        let ghost now = texts(parts@).take(i as int + 1);
        assert(now.drop_last() =~= texts(parts@).take(i as int));
        if i > 0 {
            r.append(sep);
        } else {
            assert(now.len() == 1);
            assert(r@ + parts@[0]@ =~= parts@[0]@);
        }
        r.append(parts[i].as_str());
        i = i + 1;
    }
    assert(texts(parts@).take(i as int) =~= texts(parts@));
    r
}

// ------------------------------------------------------------ letter case

/// ASCII letters in lower case, everything else as it is.
pub open spec fn lower_char(c: char) -> char {
    if 'A' <= c && c <= 'Z' {
        ((c as u32 + 32) as u8) as char
    } else {
        c
    }
}

pub open spec fn lower(s: Seq<char>) -> Seq<char> {
    Seq::new(s.len(), |i: int| lower_char(s[i]))
}

pub fn lower_of(c: char) -> (r: char)
    ensures
        r == lower_char(c),
{
    if 'A' <= c && c <= 'Z' {
        ((c as u32 + 32) as u8) as char
    } else {
        c
    }
}

pub fn to_lower(s: &str) -> (r: String)
    ensures
        r@ == lower(s@),
{
    let v = chars_of(s);
    let mut r = String::new();
    let mut i: usize = 0;
    while i < v.len()
        invariant
            i <= v@.len(),
            v@ == s@,
            r@ == lower(s@).take(i as int),
        decreases v@.len() - i,
    {
        r.push(lower_of(v[i]));
        assert(lower(s@).take(i as int + 1) =~= lower(s@).take(i as int).push(
            lower_char(v@[i as int]),
        ));
        i = i + 1;
    }
    assert(lower(s@).take(i as int) =~= lower(s@));
    r
}

/// Whether two texts differ at most in the case of ASCII letters.
pub fn same_ignoring_case(a: &str, b: &str) -> (r: bool)
    ensures
        r == (lower(a@) == lower(b@)),
{
    let x = to_lower(a);
    let y = to_lower(b);
    x == y
}

/// What `str::to_lowercase` makes of a text: Unicode's lower case.
pub uninterp spec fn lowercased(s: Seq<char>) -> Seq<char>;

/// `str::to_lowercase` gives the text in Unicode's lower case.
#[verifier::external_body]
pub(crate) fn to_lowercase(s: &str) -> (r: String)
    ensures
        r@ == lowercased(s@),
{
    s.to_lowercase()
}

// ------------------------------------------------------------ taking

/// The first `n` characters, or all of them.
pub open spec fn first_chars(s: Seq<char>, n: nat) -> Seq<char> {
    if s.len() <= n {
        s
    } else {
        s.take(n as int)
    }
}

pub fn take_chars(s: &str, n: usize) -> (r: String)
    ensures
        r@ == first_chars(s@, n as nat),
{
    let v = chars_of(s);
    if v.len() <= n {
        s.to_string()
    } else {
        assert(v@.subrange(0, n as int) =~= v@.take(n as int));
        text_of(&v, 0, n)
    }
}

// ------------------------------------------------------------ numbers

/// What a digit stands for in bases up to sixteen, or sixteen when it is none.
pub open spec fn digit(c: char) -> nat {
    if '0' <= c && c <= '9' {
        (c as u32 - '0' as u32) as nat
    } else if 'a' <= c && c <= 'f' {
        (c as u32 - 'a' as u32 + 10) as nat
    } else if 'A' <= c && c <= 'F' {
        (c as u32 - 'A' as u32 + 10) as nat
    } else {
        16
    }
}

pub fn digit_of(c: char) -> (r: u32)
    ensures
        r == digit(c),
        r <= 16,
{
    if '0' <= c && c <= '9' {
        c as u32 - '0' as u32
    } else if 'a' <= c && c <= 'f' {
        c as u32 - 'a' as u32 + 10
    } else if 'A' <= c && c <= 'F' {
        c as u32 - 'A' as u32 + 10
    } else {
        16
    }
}

/// Digits of a base, and nothing else.
pub open spec fn all_digits(s: Seq<char>, base: nat) -> bool {
    forall|i: int| 0 <= i < s.len() ==> digit(#[trigger] s[i]) < base
}

/// The number that digits write, most significant first.
pub open spec fn value(s: Seq<char>, base: nat) -> nat
    decreases s.len(),
{
    if s.len() == 0 {
        0
    } else {
        value(s.drop_last(), base) * base + digit(s.last())
    }
}

/// Without one plus sign in front.
pub open spec fn unsigned(s: Seq<char>) -> Seq<char> {
    if s.len() > 0 && s[0] == '+' {
        s.drop_first()
    } else {
        s
    }
}

/// Reading a number the way `u64` reads one: an optional plus sign, then at
/// least one digit, and a value that fits.
pub open spec fn parsed(s: Seq<char>, base: nat) -> Option<u64> {
    let d = unsigned(s);
    if d.len() > 0 && all_digits(d, base) && value(d, base) <= u64::MAX {
        Some(value(d, base) as u64)
    } else {
        None
    }
}

pub proof fn lemma_value_grows(s: Seq<char>, base: nat, n: int)
    requires
        0 <= n <= s.len(),
        base >= 1,
    ensures
        value(s.take(n), base) <= value(s, base),
    decreases s.len() - n,
{
    if n < s.len() {
        let next = s.take(n + 1);
        assert(next.drop_last() =~= s.take(n));
        assert(value(s.take(n), base) <= value(s.take(n), base) * base) by (nonlinear_arith)
            requires
                base >= 1,
        ;
        lemma_value_grows(s, base, n + 1);
    } else {
        assert(s.take(n) =~= s);
    }
}

/// Why a text is no number that fits.
#[derive(Debug, Clone, Copy, PartialEq, Eq, Structural)]
pub enum NumberFault {
    /// There is nothing in it.
    Empty,
    /// Something in it is no digit.
    BadDigit,
    /// It is too large.
    TooLarge,
}

/// A place that holds no digit, reached before the number grew too large.
pub open spec fn bad_digit_at(d: Seq<char>, base: nat, i: int) -> bool {
    &&& 0 <= i < d.len()
    &&& digit(d[i]) >= base
    &&& all_digits(d.take(i), base)
    &&& value(d.take(i), base) <= u64::MAX
}

/// What is found wrong first, reading from the left.
pub open spec fn first_fault(s: Seq<char>, base: nat) -> NumberFault {
    let d = unsigned(s);
    if s.len() == 0 {
        NumberFault::Empty
    } else if d.len() == 0 || exists|i: int| bad_digit_at(d, base, i) {
        NumberFault::BadDigit
    } else {
        NumberFault::TooLarge
    }
}

/// The words for what is wrong with a number.
pub open spec fn fault_words(f: NumberFault) -> Seq<char> {
    match f {
        NumberFault::Empty => "cannot parse integer from empty string"@,
        NumberFault::BadDigit => "invalid digit found in string"@,
        NumberFault::TooLarge => "number too large to fit in target type"@,
    }
}

pub fn fault_text(f: NumberFault) -> (r: &'static str)
    ensures
        r@ == fault_words(f),
{
    match f {
        NumberFault::Empty => "cannot parse integer from empty string",
        NumberFault::BadDigit => "invalid digit found in string",
        NumberFault::TooLarge => "number too large to fit in target type",
    }
}

/// A digit that is none after the number has grown too large is not found.
proof fn lemma_too_large_first(d: Seq<char>, base: nat, n: int)
    requires
        0 <= n <= d.len(),
        base >= 1,
        all_digits(d.take(n), base),
        value(d.take(n), base) > u64::MAX,
    ensures
        forall|i: int| !bad_digit_at(d, base, i),
{
    assert forall|i: int| !bad_digit_at(d, base, i) by {
        if bad_digit_at(d, base, i) {
            if i < n {
                assert(d.take(n)[i] == d[i]);
            } else {
                assert(d.take(i).take(n) =~= d.take(n));
                lemma_value_grows(d.take(i), base, n);
            }
        }
    }
}

/// Reads a number, or says what is wrong with it.
pub fn read_number(s: &str, base: u32) -> (r: Result<u64, NumberFault>)
    requires
        2 <= base <= 16,
    ensures
        match r {
            Ok(n) => parsed(s@, base as nat) == Some(n),
            Err(f) => parsed(s@, base as nat) is None && f == first_fault(s@, base as nat),
        },
{
    let v = chars_of(s);
    if v.len() == 0 {
        return Err(NumberFault::Empty);
    }
    let from: usize = if v[0] == '+' {
        1
    } else {
        0
    };
    let ghost d = unsigned(s@);
    assert(d =~= v@.skip(from as int));
    if from == v.len() {
        return Err(NumberFault::BadDigit);
    }
    let mut n: u64 = 0;
    let mut i: usize = from;
    while i < v.len()
        invariant
            2 <= base <= 16,
            s@.len() > 0,
            d.len() > 0,
            from <= i <= v@.len(),
            d == v@.skip(from as int),
            all_digits(d.take(i - from), base as nat),
            n == value(d.take(i - from), base as nat),
            d == unsigned(s@),
        decreases v@.len() - i,
    {
        let x: u32 = digit_of(v[i]);
        let ghost now = d.take(i - from + 1);
        assert(now.drop_last() =~= d.take(i - from));
        assert(now.last() == v@[i as int]);
        if x >= base {
            assert(d[i - from] == v@[i as int]);
            assert(bad_digit_at(d, base as nat, i - from));
            return Err(NumberFault::BadDigit);
        }
        let wide: u128 = n as u128;
        assert(wide * base <= u64::MAX as u128 * 16) by (nonlinear_arith)
            requires
                wide <= u64::MAX as u128,
                base <= 16,
        ;
        let next: u128 = wide * (base as u128) + (x as u128);
        assert(all_digits(now, base as nat)) by {
            assert forall|k: int| 0 <= k < now.len() implies digit(#[trigger] now[k]) < base by {
                if k < i - from {
                    assert(now[k] == d.take(i - from)[k]);
                }
            }
        }
        if next > u64::MAX as u128 {
            proof {
                lemma_value_grows(d, base as nat, i - from + 1);
                lemma_too_large_first(d, base as nat, i - from + 1);
            }
            return Err(NumberFault::TooLarge);
        }
        n = next as u64;
        i = i + 1;
    }
    assert(d.take(i - from) =~= d);
    Ok(n)
}

pub fn parse_number(s: &str, base: u32) -> (r: Option<u64>)
    requires
        2 <= base <= 16,
    ensures
        r == parsed(s@, base as nat),
{
    match read_number(s, base) {
        Ok(n) => Some(n),
        Err(_) => None,
    }
}

/// The decimal digits of a number.
pub open spec fn decimal(n: nat) -> Seq<char>
    decreases n,
{
    if n < 10 {
        seq![(('0' as u32 + n) as u8) as char]
    } else {
        decimal(n / 10).push((('0' as u32 + n % 10) as u8) as char)
    }
}

pub fn decimal_of(n: u64) -> (r: String)
    ensures
        r@ == decimal(n as nat),
    decreases n,
{
    if n < 10 {
        let mut r = String::new();
        r.push(((48 + n) as u8) as char);
        assert(r@ =~= decimal(n as nat));
        r
    } else {
        let mut r = decimal_of(n / 10);
        r.push(((48 + n % 10) as u8) as char);
        r
    }
}


/// The lower-case hex digits of a number.
pub open spec fn hex_number(n: nat) -> Seq<char>
    decreases n,
{
    if n < 16 {
        seq![hex_figure(n)]
    } else {
        hex_number(n / 16).push(hex_figure(n % 16))
    }
}

/// The lower-case hex digit of a number below sixteen.
pub open spec fn hex_figure(n: nat) -> char {
    if n < 10 {
        (('0' as u32 + n) as u8) as char
    } else {
        (('a' as u32 + n - 10) as u8) as char
    }
}

pub fn hex_number_of(n: u64) -> (r: String)
    ensures
        r@ == hex_number(n as nat),
    decreases n,
{
    let last: u64 = n % 16;
    let c: char = if last < 10 {
        ((48 + last) as u8) as char
    } else {
        ((97 + last - 10) as u8) as char
    };
    if n < 16 {
        let mut r = String::new();
        r.push(c);
        assert(r@ =~= hex_number(n as nat));
        r
    } else {
        let mut r = hex_number_of(n / 16);
        r.push(c);
        r
    }
}

} // verus!
