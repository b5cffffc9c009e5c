//! Rows: keeping some, finding one, putting them in order.
use vstd::prelude::*;

verus! {

/// The rows that are to be kept, as they stood.
pub open spec fn kept<T>(rows: Seq<T>, keep: spec_fn(T) -> bool) -> Seq<T>
    decreases rows.len(),
{
    if rows.len() == 0 {
        seq![]
    } else {
        let before = kept(rows.drop_last(), keep);
        if keep(rows.last()) {
            before.push(rows.last())
        } else {
            before
        }
    }
}

/// No two rows have the same key.
pub open spec fn distinct<T, K>(rows: Seq<T>, key: spec_fn(T) -> K) -> bool {
    forall|i: int, j: int|
        0 <= i < j < rows.len() ==> key(#[trigger] rows[i]) != key(#[trigger] rows[j])
}

/// The rows behind references to them.
pub open spec fn plain<T>(v: Seq<&T>) -> Seq<T> {
    Seq::new(v.len(), |i: int| *v[i])
}

/// What is kept is some of the rows, and all that are to be kept.
pub proof fn lemma_kept_members<T>(rows: Seq<T>, keep: spec_fn(T) -> bool)
    ensures
        kept(rows, keep).len() <= rows.len(),
        forall|t: T| #[trigger]
            kept(rows, keep).contains(t) <==> (rows.contains(t) && keep(t)),
    decreases rows.len(),
{
    if rows.len() > 0 {
        let before = rows.drop_last();
        lemma_kept_members(before, keep);
        assert forall|t: T| #[trigger]
            kept(rows, keep).contains(t) <==> (rows.contains(t) && keep(t)) by {
            let k = kept(rows, keep);
            if k.contains(t) {
                let i = choose|i: int| 0 <= i < k.len() && k[i] == t;
                if i < kept(before, keep).len() {
                    assert(kept(before, keep)[i] == t);
                    assert(kept(before, keep).contains(t));
                    assert(before.contains(t));
                    let j = choose|j: int| 0 <= j < before.len() && before[j] == t;
                    assert(rows[j] == t);
                } else {
                    assert(rows[rows.len() - 1] == t);
                    assert(keep(t));
                }
            }
            if rows.contains(t) && keep(t) {
                let j = choose|j: int| 0 <= j < rows.len() && rows[j] == t;
                if j < before.len() {
                    assert(before[j] == t);
                    assert(before.contains(t));
                    assert(kept(before, keep).contains(t));
                    let i = choose|i: int|
                        0 <= i < kept(before, keep).len() && kept(before, keep)[i] == t;
                    assert(k[i] == t);
                } else {
                    assert(k[k.len() - 1] == t);
                }
            }
        }
    }
}

/// Keeping rows makes no two of them the same.
pub proof fn lemma_kept_distinct<T, K>(rows: Seq<T>, keep: spec_fn(T) -> bool, key: spec_fn(T) -> K)
    requires
        distinct(rows, key),
    ensures
        distinct(kept(rows, keep), key),
    decreases rows.len(),
{
    if rows.len() > 0 {
        let before = rows.drop_last();
        let k = kept(before, keep);
        lemma_kept_distinct(before, keep, key);
        lemma_kept_members(before, keep);
        assert forall|i: int| 0 <= i < k.len() implies key(#[trigger] k[i]) != key(
            rows.last(),
        ) by {
            assert(k.contains(k[i]));
            let j = choose|j: int| 0 <= j < before.len() && before[j] == k[i];
            assert(rows[j] == k[i]);
        }
    }
}

/// Where every row is to be kept, all of them are.
pub proof fn lemma_kept_all<T>(rows: Seq<T>, keep: spec_fn(T) -> bool)
    requires
        forall|i: int| 0 <= i < rows.len() ==> keep(#[trigger] rows[i]),
    ensures
        kept(rows, keep) == rows,
    decreases rows.len(),
{
    if rows.len() > 0 {
        let before = rows.drop_last();
        assert forall|i: int| 0 <= i < before.len() implies keep(#[trigger] before[i]) by {
            assert(before[i] == rows[i]);
        }
        lemma_kept_all(before, keep);
        assert(keep(rows[rows.len() - 1]));
        assert(before.push(rows.last()) =~= rows);
    } else {
        assert(rows =~= seq![]);
    }
}

/// Where as many rows stay as there were, all of them stay.
pub proof fn lemma_kept_whole<T>(rows: Seq<T>, keep: spec_fn(T) -> bool)
    requires
        kept(rows, keep).len() == rows.len(),
    ensures
        kept(rows, keep) == rows,
    decreases rows.len(),
{
    if rows.len() > 0 {
        let before = rows.drop_last();
        lemma_kept_members(before, keep);
        lemma_kept_whole(before, keep);
        assert(before.push(rows.last()) =~= rows);
    } else {
        assert(kept(rows, keep) =~= rows);
    }
}

/// Adding a row with a key of its own keeps them distinct.
pub proof fn lemma_push_distinct<T, K>(rows: Seq<T>, row: T, key: spec_fn(T) -> K)
    requires
        distinct(rows, key),
        forall|i: int| 0 <= i < rows.len() ==> key(#[trigger] rows[i]) != key(row),
    ensures
        distinct(rows.push(row), key),
{
    let after = rows.push(row);
    assert forall|i: int, j: int| 0 <= i < j < after.len() implies key(#[trigger] after[i]) != key(
        #[trigger] after[j],
    ) by {
        assert(after[i] == rows[i]);
    }
}

/// Rows that keep their keys stay distinct.
pub proof fn lemma_same_keys_distinct<T, K>(before: Seq<T>, after: Seq<T>, key: spec_fn(T) -> K)
    requires
        distinct(before, key),
        before.len() == after.len(),
        forall|i: int| 0 <= i < after.len() ==> key(#[trigger] after[i]) == key(before[i]),
    ensures
        distinct(after, key),
{
    assert forall|i: int, j: int| 0 <= i < j < after.len() implies key(#[trigger] after[i]) != key(
        #[trigger] after[j],
    ) by {
        assert(key(before[i]) != key(before[j]));
    }
}

/// Drops the rows that are not to be kept.
pub(crate) fn keep_only<T, F: Fn(&T) -> bool>(
    v: &mut Vec<T>,
    keep: F,
    Ghost(p): Ghost<spec_fn(T) -> bool>,
)
    requires
        forall|t: &T| keep.requires((t,)),
        forall|t: &T, b: bool| keep.ensures((t,), b) ==> b == p(*t),
    ensures
        final(v)@ == kept(old(v)@, p),
{
    let ghost all = v@;
    let ghost mut seen: int = 0;
    let mut i: usize = 0;
    assert(all.take(0) =~= seq![]);
    assert(all.skip(0) =~= all);
    assert(kept(all.take(0), p) + all.skip(0) =~= all);
    while i < v.len()
        invariant
            forall|t: &T| keep.requires((t,)),
            forall|t: &T, b: bool| keep.ensures((t,), b) ==> b == p(*t),
            0 <= seen <= all.len(),
            i == kept(all.take(seen), p).len(),
            v@ == kept(all.take(seen), p) + all.skip(seen),
        decreases all.len() - seen,
    {
        let ghost row = all[seen];
        assert(v@[i as int] == row);
        assert(all.take(seen + 1).drop_last() =~= all.take(seen));
        assert(all.take(seen + 1).last() == row);
        let ghost had = kept(all.take(seen), p);
        if keep(&v[i]) {
            i = i + 1;
            assert(v@ =~= had.push(row) + all.skip(seen + 1));
        } else {
            v.remove(i);
            assert(v@ =~= had + all.skip(seen + 1));
        }
        proof {
            seen = seen + 1;
        }
    }
    assert(seen == all.len());
    assert(all.take(seen) =~= all);
    assert(v@ =~= kept(all, p));
}

/// The place of the first row that is meant, or the number of rows.
pub(crate) fn place_of<T, F: Fn(&T) -> bool>(
    v: &Vec<T>,
    is: F,
    Ghost(p): Ghost<spec_fn(T) -> bool>,
) -> (r: usize)
    requires
        forall|t: &T| is.requires((t,)),
        forall|t: &T, b: bool| is.ensures((t,), b) ==> b == p(*t),
    ensures
        r <= v@.len(),
        r < v@.len() ==> p(v@[r as int]),
        forall|i: int| 0 <= i < r ==> !p(#[trigger] v@[i]),
{
    let mut i: usize = 0;
    while i < v.len()
        invariant
            forall|t: &T| is.requires((t,)),
            forall|t: &T, b: bool| is.ensures((t,), b) ==> b == p(*t),
            i <= v@.len(),
            forall|k: int| 0 <= k < i ==> !p(#[trigger] v@[k]),
        decreases v@.len() - i,
    {
        if is(&v[i]) {
            return i;
        }
        i = i + 1;
    }
    i
}

/// The rows that are meant, as they stand.
pub(crate) fn chosen<T, F: Fn(&T) -> bool>(
    v: &Vec<T>,
    is: F,
    Ghost(p): Ghost<spec_fn(T) -> bool>,
) -> (r: Vec<&T>)
    requires
        forall|t: &T| is.requires((t,)),
        forall|t: &T, b: bool| is.ensures((t,), b) ==> b == p(*t),
    ensures
        plain(r@) == kept(v@, p),
{
    let mut out: Vec<&T> = Vec::new();
    let mut i: usize = 0;
    assert(plain(out@) =~= kept(v@.take(0), p));
    while i < v.len()
        invariant
            forall|t: &T| is.requires((t,)),
            forall|t: &T, b: bool| is.ensures((t,), b) ==> b == p(*t),
            i <= v@.len(),
            plain(out@) == kept(v@.take(i as int), p),
        decreases v@.len() - i,
    {
        assert(v@.take(i as int + 1).drop_last() =~= v@.take(i as int));
        let row = &v[i];
        let ghost before = out@;
        if is(row) {
            out.push(row);
            assert(plain(out@) =~= plain(before).push(*row));
        }
        i = i + 1;
    }
    assert(v@.take(i as int) =~= v@);
    out
}

/// How many rows are meant.
pub(crate) fn count_of<T, F: Fn(&T) -> bool>(
    v: &Vec<T>,
    is: F,
    Ghost(p): Ghost<spec_fn(T) -> bool>,
) -> (r: usize)
    requires
        forall|t: &T| is.requires((t,)),
        forall|t: &T, b: bool| is.ensures((t,), b) ==> b == p(*t),
    ensures
        r == kept(v@, p).len(),
        r <= v@.len(),
{
    let rows = chosen(v, is, Ghost(p));
    proof {
        lemma_kept_members(v@, p);
        assert(plain(rows@).len() == rows@.len());
    }
    rows.len()
}

// -------------------------------------------------------------------- order

/// What rows are put in order by: the lower number first, then the lower
/// second number.
pub type Turn = (i128, i128);

pub open spec fn sooner(a: Turn, b: Turn) -> bool {
    a.0 < b.0 || (a.0 == b.0 && a.1 < b.1)
}

/// `p` names each of the rows once, in order, equal ones as they stood.
pub open spec fn in_turn(keys: Seq<Turn>, p: Seq<usize>) -> bool {
    &&& p.len() == keys.len()
    &&& forall|i: int| 0 <= i < p.len() ==> (#[trigger] p[i]) < keys.len()
    &&& forall|i: int, j: int|
        0 <= i < j < p.len() ==> {
            let a = keys[(#[trigger] p[i]) as int];
            let b = keys[(#[trigger] p[j]) as int];
            sooner(a, b) || (a == b && p[i] < p[j])
        }
}

/// `out` is the rows, put in order.
pub open spec fn listed<T>(rows: Seq<T>, key: spec_fn(T) -> Turn, out: Seq<T>) -> bool {
    exists|p: Seq<usize>| #[trigger]
        in_turn(keys_of(rows, key), p) && out == picked(rows, p)
}

pub open spec fn keys_of<T>(rows: Seq<T>, key: spec_fn(T) -> Turn) -> Seq<Turn> {
    Seq::new(rows.len(), |i: int| key(rows[i]))
}

/// The rows at these places.
pub open spec fn picked<T>(rows: Seq<T>, p: Seq<usize>) -> Seq<T> {
    Seq::new(p.len(), |i: int| rows[p[i] as int])
}

/// `out` is as many of the first rows in order as there may be.
pub open spec fn listed_up_to<T>(
    rows: Seq<T>,
    key: spec_fn(T) -> Turn,
    limit: int,
    out: Seq<T>,
) -> bool {
    exists|full: Seq<T>| #[trigger]
        listed(rows, key, full) && out == (if limit < full.len() {
            full.take(limit)
        } else {
            full
        })
}

spec fn in_turn_up_to(keys: Seq<Turn>, p: Seq<usize>, n: int) -> bool {
    &&& p.len() == n <= keys.len()
    &&& forall|i: int| 0 <= i < p.len() ==> (#[trigger] p[i]) < n
    &&& forall|i: int, j: int|
        0 <= i < j < p.len() ==> {
            let a = keys[(#[trigger] p[i]) as int];
            let b = keys[(#[trigger] p[j]) as int];
            sooner(a, b) || (a == b && p[i] < p[j])
        }
}

fn turns(keys: &Vec<Turn>) -> (p: Vec<usize>)
    ensures
        in_turn(keys@, p@),
{
    let mut p: Vec<usize> = Vec::new();
    let mut n: usize = 0;
    while n < keys.len()
        invariant
            n <= keys@.len(),
            in_turn_up_to(keys@, p@, n as int),
        decreases keys@.len() - n,
    {
        let (a0, a1): (i128, i128) = keys[n];
        let mut at: usize = p.len();
        let mut looking: bool = true;
        while looking && at > 0
            invariant
                n < keys@.len(),
                keys@[n as int] == (a0, a1),
                in_turn_up_to(keys@, p@, n as int),
                at <= p@.len(),
                forall|i: int|
                    at <= i < p@.len() ==> sooner(
                        keys@[n as int],
                        keys@[(#[trigger] p@[i]) as int],
                    ),
                !looking ==> at > 0 && !sooner(keys@[n as int], keys@[p@[at - 1] as int]),
            decreases at + (if looking {
                1int
            } else {
                0int
            }),
        {
            let (b0, b1): (i128, i128) = keys[p[at - 1]];
            if a0 < b0 || (a0 == b0 && a1 < b1) {
                at = at - 1;
            } else {
                looking = false;
            }
        }
        let ghost before = p@;
        p.insert(at, n);
        proof {
            assert forall|i: int, j: int| 0 <= i < j < p@.len() implies {
                let a = keys@[(#[trigger] p@[i]) as int];
                let b = keys@[(#[trigger] p@[j]) as int];
                sooner(a, b) || (a == b && p@[i] < p@[j])
            } by {
                if j == at {
                    assert(p@[i] == before[i]);
                    if i < at - 1 {
                        let a = keys@[before[i] as int];
                        let b = keys@[before[at - 1] as int];
                        assert(sooner(a, b) || (a == b && before[i] < before[at - 1]));
                    }
                } else if i == at {
                    assert(p@[j] == before[j - 1]);
                } else {
                    let i2 = if i < at {
                        i
                    } else {
                        i - 1
                    };
                    let j2 = if j < at {
                        j
                    } else {
                        j - 1
                    };
                    assert(p@[i] == before[i2]);
                    assert(p@[j] == before[j2]);
                }
            }
        }
        n = n + 1;
    }
    p
}

/// As many of the first rows in order as there may be.
pub(crate) fn list_rows<'a, T, F: Fn(&T) -> Turn>(
    rows: &Vec<&'a T>,
    key: F,
    limit: usize,
    Ghost(k): Ghost<spec_fn(T) -> Turn>,
) -> (r: Vec<&'a T>)
    requires
        forall|t: &T| key.requires((t,)),
        forall|t: &T, x: Turn| key.ensures((t,), x) ==> x == k(*t),
    ensures
        listed_up_to(plain(rows@), k, limit as int, plain(r@)),
{
    let mut keys: Vec<Turn> = Vec::new();
    let mut i: usize = 0;
    while i < rows.len()
        invariant
            forall|t: &T| key.requires((t,)),
            forall|t: &T, x: Turn| key.ensures((t,), x) ==> x == k(*t),
            i <= rows@.len(),
            keys@.len() == i,
            forall|j: int| 0 <= j < i ==> #[trigger] keys@[j] == k(*rows@[j]),
        decreases rows@.len() - i,
    {
        let row: &'a T = rows[i];
        keys.push(key(row));
        i = i + 1;
    }
    let p = turns(&keys);
    let ghost all = plain(rows@);
    assert(keys@ =~= keys_of(all, k));
    let ghost full = picked(all, p@);
    assert(in_turn(keys_of(all, k), p@));
    let mut out: Vec<&'a T> = Vec::new();
    let mut j: usize = 0;
    while j < p.len() && j < limit
        invariant
            in_turn(keys_of(all, k), p@),
            all == plain(rows@),
            full == picked(all, p@),
            j <= p@.len(),
            j <= limit,
            out@.len() == j,
            forall|i: int| 0 <= i < j ==> *(#[trigger] out@[i]) == full[i],
        decreases p@.len() - j,
    {
        out.push(rows[p[j]]);
        j = j + 1;
    }
    proof {
        assert(listed(all, k, full));
        if limit < full.len() {
            assert(plain(out@) =~= full.take(limit as int));
        } else {
            assert(plain(out@) =~= full);
        }
    }
    out
}

} // verus!
