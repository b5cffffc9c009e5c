//! Putting offers in order.
use vstd::prelude::*;

use crate::text::chars_of;

verus! {

broadcast use vstd::string::group_string_axioms;

/// Whether a text comes before another, letter by letter.
pub open spec fn text_before(a: Seq<char>, b: Seq<char>) -> bool
    decreases a.len(),
{
    if b.len() == 0 {
        false
    } else if a.len() == 0 {
        true
    } else if a[0] == b[0] {
        text_before(a.drop_first(), b.drop_first())
    } else {
        a[0] < b[0]
    }
}

pub proof fn lemma_text_before_irreflexive(a: Seq<char>)
    ensures
        !text_before(a, a),
    decreases a.len(),
{
    if a.len() > 0 {
        lemma_text_before_irreflexive(a.drop_first());
    }
}

pub proof fn lemma_text_before_total(a: Seq<char>, b: Seq<char>)
    ensures
        text_before(a, b) || text_before(b, a) || a == b,
    decreases a.len(),
{
    if a.len() > 0 && b.len() > 0 && a[0] == b[0] {
        lemma_text_before_total(a.drop_first(), b.drop_first());
        if a.drop_first() == b.drop_first() {
            assert(a =~= seq![a[0]] + a.drop_first());
            assert(b =~= seq![b[0]] + b.drop_first());
        }
    } else if a.len() == 0 && b.len() == 0 {
        assert(a =~= b);
    }
}

pub proof fn lemma_text_before_trans(a: Seq<char>, b: Seq<char>, c: Seq<char>)
    requires
        text_before(a, b),
        text_before(b, c),
    ensures
        text_before(a, c),
    decreases a.len(),
{
    if a.len() > 0 && b.len() > 0 && c.len() > 0 && a[0] == b[0] && b[0] == c[0] {
        lemma_text_before_trans(a.drop_first(), b.drop_first(), c.drop_first());
    }
}

/// Whether a text comes before another.
pub fn comes_before(a: &str, b: &str) -> (r: bool)
    ensures
        r == text_before(a@, b@),
{
    let x = chars_of(a);
    let y = chars_of(b);
    let mut i: usize = 0;
    assert(x@.skip(0) =~= x@);
    assert(y@.skip(0) =~= y@);
    while i < x.len() && i < y.len() && x[i] == y[i]
        invariant
            i <= x@.len(),
            i <= y@.len(),
            text_before(x@, y@) == text_before(x@.skip(i as int), y@.skip(i as int)),
        decreases x@.len() - i,
    {
        assert(x@.skip(i as int).drop_first() =~= x@.skip(i as int + 1));
        assert(y@.skip(i as int).drop_first() =~= y@.skip(i as int + 1));
        i = i + 1;
    }
    if i == y.len() {
        false
    } else if i == x.len() {
        true
    } else {
        x[i] < y[i]
    }
}

/// What an offer is ordered by: the price, then names, then a drawn number.
#[derive(Debug)]
pub struct Key {
    pub price: u64,
    pub model: String,
    pub label: String,
    pub draw: u32,
}

pub struct Rank {
    pub price: u64,
    pub model: Seq<char>,
    pub label: Seq<char>,
    pub draw: u32,
}

impl View for Key {
    type V = Rank;

    open spec fn view(&self) -> Rank {
        Rank { price: self.price, model: self.model@, label: self.label@, draw: self.draw }
    }
}

impl Rank {
    pub open spec fn before(self, other: Rank) -> bool {
        if self.price != other.price {
            self.price < other.price
        } else if self.model != other.model {
            text_before(self.model, other.model)
        } else if self.label != other.label {
            text_before(self.label, other.label)
        } else {
            self.draw < other.draw
        }
    }
}

pub proof fn lemma_rank_total(a: Rank, b: Rank)
    ensures
        a.before(b) || b.before(a) || a == b,
        !(a.before(b) && b.before(a)),
{
    lemma_text_before_total(a.model, b.model);
    lemma_text_before_total(a.label, b.label);
    if text_before(a.model, b.model) && text_before(b.model, a.model) {
        lemma_text_before_trans(a.model, b.model, a.model);
        lemma_text_before_irreflexive(a.model);
    }
    if text_before(a.label, b.label) && text_before(b.label, a.label) {
        lemma_text_before_trans(a.label, b.label, a.label);
        lemma_text_before_irreflexive(a.label);
    }
}

pub proof fn lemma_rank_trans(a: Rank, b: Rank, c: Rank)
    requires
        !b.before(a),
        !c.before(b),
    ensures
        !c.before(a),
{
    lemma_rank_total(a, b);
    lemma_rank_total(b, c);
    lemma_rank_total(a, c);
    if c.before(a) && a.before(b) && b.before(c) {
        if c.price == a.price && a.price == b.price {
            if c.model != a.model && a.model != b.model && text_before(c.model, a.model)
                && text_before(a.model, b.model) {
                lemma_text_before_trans(c.model, a.model, b.model);
                if b.model != c.model {
                    lemma_text_before_trans(c.model, b.model, c.model);
                }
                lemma_text_before_irreflexive(c.model);
            }
            if b.model == c.model || a.model == b.model || a.model == c.model {
                if a.model == b.model && b.model == c.model {
                    if c.label != a.label && a.label != b.label {
                        lemma_text_before_trans(c.label, a.label, b.label);
                        if b.label != c.label {
                            lemma_text_before_trans(c.label, b.label, c.label);
                        }
                        lemma_text_before_irreflexive(c.label);
                    } else if a.label == c.label && a.label != b.label {
                        lemma_text_before_trans(a.label, b.label, c.label);
                        lemma_text_before_irreflexive(a.label);
                    } else if a.label == b.label && b.label != c.label {
                        lemma_text_before_trans(b.label, c.label, a.label);
                        lemma_text_before_irreflexive(a.label);
                    }
                } else if a.model == b.model {
                    lemma_text_before_trans(c.model, a.model, c.model);
                    lemma_text_before_irreflexive(c.model);
                } else if b.model == c.model {
                    lemma_text_before_trans(a.model, b.model, a.model);
                    lemma_text_before_irreflexive(a.model);
                } else {
                    lemma_text_before_trans(a.model, b.model, a.model);
                    lemma_text_before_irreflexive(a.model);
                }
            }
        }
    }
}

impl Key {
    pub fn before(&self, other: &Key) -> (r: bool)
        ensures
            r == self@.before(other@),
    {
        if self.price != other.price {
            self.price < other.price
        } else if self.model != other.model {
            comes_before(self.model.as_str(), other.model.as_str())
        } else if self.label != other.label {
            comes_before(self.label.as_str(), other.label.as_str())
        } else {
            self.draw < other.draw
        }
    }
}

pub open spec fn ranks(keys: Seq<Key>) -> Seq<Rank> {
    Seq::new(keys.len(), |i: int| keys[i]@)
}

/// `p` names each of the ranks once, in order, equal ones as they stood.
pub open spec fn in_order(rs: Seq<Rank>, p: Seq<usize>) -> bool {
    &&& p.len() == rs.len()
    &&& forall|i: int| 0 <= i < p.len() ==> (#[trigger] p[i]) < rs.len()
    &&& forall|k: usize| k < rs.len() ==> #[trigger] p.contains(k)
    &&& forall|i: int, j: int|
        0 <= i < j < p.len() ==> {
            &&& #[trigger] p[i] != #[trigger] p[j]
            &&& !rs[p[j] as int].before(rs[p[i] as int])
            &&& rs[p[i] as int] == rs[p[j] as int] ==> p[i] < p[j]
        }
}

/// `p` names each of the first `n` ranks once, in order.
spec fn in_order_up_to(rs: Seq<Rank>, p: Seq<usize>, n: int) -> bool {
    &&& p.len() == n <= rs.len()
    &&& forall|i: int| 0 <= i < p.len() ==> (#[trigger] p[i]) < n
    &&& forall|k: usize| k < n ==> #[trigger] p.contains(k)
    &&& forall|i: int, j: int|
        0 <= i < j < p.len() ==> {
            &&& #[trigger] p[i] != #[trigger] p[j]
            &&& !rs[p[j] as int].before(rs[p[i] as int])
            &&& rs[p[i] as int] == rs[p[j] as int] ==> p[i] < p[j]
        }
}

/// The places of the keys, in order.
pub fn ordered(keys: &Vec<Key>) -> (p: Vec<usize>)
    ensures
        in_order(ranks(keys@), p@),
{
    let ghost rs = ranks(keys@);
    let mut p: Vec<usize> = Vec::new();
    let mut n: usize = 0;
    while n < keys.len()
        invariant
            n <= keys@.len(),
            rs == ranks(keys@),
            in_order_up_to(rs, p@, n as int),
        decreases keys@.len() - n,
    {
        let mut at: usize = p.len();
        while at > 0 && keys[n].before(&keys[p[at - 1]])
            invariant
                n < keys@.len(),
                rs == ranks(keys@),
                in_order_up_to(rs, p@, n as int),
                at <= p@.len(),
                forall|i: int|
                    at <= i < p@.len() ==> rs[n as int].before(rs[(#[trigger] p@[i]) as int]),
            decreases at,
        {
            at = at - 1;
        }
        let ghost before = p@;
        p.insert(at, n);
        proof {
            assert forall|k: usize| k < n + 1 implies #[trigger] p@.contains(k) by {
                if k == n {
                    assert(p@[at as int] == k);
                } else {
                    assert(before.contains(k));
                    let i = choose|i: int| 0 <= i < before.len() && before[i] == k;
                    if i < at {
                        assert(p@[i] == k);
                    } else {
                        assert(p@[i + 1] == k);
                    }
                }
            }
            assert forall|i: int, j: int| 0 <= i < j < p@.len() implies {
                &&& #[trigger] p@[i] != #[trigger] p@[j]
                &&& !rs[p@[j] as int].before(rs[p@[i] as int])
                &&& rs[p@[i] as int] == rs[p@[j] as int] ==> p@[i] < p@[j]
            } by {
                let x = rs[n as int];
                if j == at {
                    assert(p@[i] == before[i]);
                    let y = rs[before[i] as int];
                    let last = rs[before[at - 1] as int];
                    assert(!x.before(last));
                    if i < at - 1 {
                        assert(before[i] != before[at - 1]);
                        lemma_rank_trans(y, last, x);
                    }
                } else if i == at {
                    assert(p@[j] == before[j - 1]);
                    let y = rs[before[j - 1] as int];
                    assert(x.before(y));
                    lemma_rank_total(x, y);
                } else {
                    let i2 = if i < at {
                        i
                    } else {
                        i - 1
                    };
                    let j2 = if j < at {
                        j
                    } else {
                        j - 1
                    };
                    assert(p@[i] == before[i2]);
                    assert(p@[j] == before[j2]);
                    assert(before[i2] != before[j2]);
                }
            }
        }
        n = n + 1;
    }
    p
}

} // verus!
