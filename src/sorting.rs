//! Stable insertion sort by an integer key, stated over `Seq`.
use vstd::prelude::*;

verus! {

broadcast use vstd::seq_lib::group_seq_properties;

/// Values that are ordered by an integer key.
pub trait Keyed: Sized {
    spec fn sort_key(&self) -> int;

    fn key_le(&self, other: &Self) -> (r: bool)
        ensures
            r == (self.sort_key() <= other.sort_key()),
    ;
}

/// Inserts `x` after the last element of `s` whose key is not greater than `x`'s.
pub open spec fn insert_by_key<T: Keyed>(s: Seq<T>, x: T) -> Seq<T>
    decreases s.len(),
{
    if s.len() == 0 {
        seq![x]
    } else if s.last().sort_key() <= x.sort_key() {
        s.push(x)
    } else {
        insert_by_key(s.drop_last(), x).push(s.last())
    }
}

/// The stable sort of `s` by key.
pub open spec fn sort_by_key<T: Keyed>(s: Seq<T>) -> Seq<T>
    decreases s.len(),
{
    if s.len() == 0 {
        s
    } else {
        insert_by_key(sort_by_key(s.drop_last()), s.last())
    }
}

pub open spec fn sorted_by_key<T: Keyed>(s: Seq<T>) -> bool {
    forall|i: int, j: int| 0 <= i < j < s.len() ==> s[i].sort_key() <= s[j].sort_key()
}

proof fn lemma_insert_at<T: Keyed>(s: Seq<T>, x: T, p: int)
    requires
        0 <= p <= s.len(),
        p == 0 || s[p - 1].sort_key() <= x.sort_key(),
        forall|k: int| p <= k < s.len() ==> !(s[k].sort_key() <= x.sort_key()),
    ensures
        insert_by_key(s, x) == s.take(p).push(x) + s.skip(p),
    decreases s.len(),
{
    if s.len() == 0 {
        assert(s.take(p).push(x) + s.skip(p) =~= seq![x]);
    } else if p == s.len() {
        assert(s.take(p).push(x) + s.skip(p) =~= s.push(x));
    } else {
        let t = s.drop_last();
        lemma_insert_at(t, x, p);
        assert(t.take(p).push(x) + t.skip(p) + seq![s.last()] =~= s.take(p).push(x) + s.skip(p));
        assert((t.take(p).push(x) + t.skip(p)).push(s.last()) =~= t.take(p).push(x) + t.skip(p)
            + seq![s.last()]);
    }
}

proof fn lemma_insert_sorted<T: Keyed>(s: Seq<T>, x: T)
    requires
        sorted_by_key(s),
    ensures
        sorted_by_key(insert_by_key(s, x)),
        insert_by_key(s, x).to_multiset() == s.to_multiset().insert(x),
        insert_by_key(s, x).len() == s.len() + 1,
        forall|i: int|
            0 <= i < insert_by_key(s, x).len() ==> (#[trigger] insert_by_key(s, x)[i] == x || s.contains(
                insert_by_key(s, x)[i],
            )),
    decreases s.len(),
{
    if s.len() == 0 {
        assert(seq![x] =~= Seq::<T>::empty().push(x));
    } else if s.last().sort_key() <= x.sort_key() {
    } else {
        let t = s.drop_last();
        lemma_insert_sorted(t, x);
        let r = insert_by_key(t, x);
        assert(s =~= t.push(s.last()));
        assert forall|i: int| 0 <= i < r.len() implies r[i].sort_key() <= s.last().sort_key() by {
            if r[i] != x {
                let k = choose|k: int| 0 <= k < t.len() && t[k] == r[i];
                assert(t[k] == s[k]);
            }
        }
        assert forall|i: int| 0 <= i < r.push(s.last()).len() implies (#[trigger] r.push(
            s.last(),
        )[i] == x || s.contains(r.push(s.last())[i])) by {
            if i < r.len() && r[i] != x {
                let k = choose|k: int| 0 <= k < t.len() && t[k] == r[i];
                assert(s[k] == t[k]);
            } else if i == r.len() {
                assert(s[s.len() - 1] == s.last());
            }
        }
    }
}

/// The stable sort by key is sorted and holds the same elements.
pub proof fn lemma_sort_by_key<T: Keyed>(s: Seq<T>)
    ensures
        sorted_by_key(sort_by_key(s)),
        sort_by_key(s).to_multiset() == s.to_multiset(),
        sort_by_key(s).len() == s.len(),
    decreases s.len(),
{
    if s.len() > 0 {
        lemma_sort_by_key(s.drop_last());
        lemma_insert_sorted(sort_by_key(s.drop_last()), s.last());
        assert(s =~= s.drop_last().push(s.last()));
    }
}

pub open spec fn distinct_keys<T: Keyed>(s: Seq<T>) -> bool {
    forall|i: int, j: int| 0 <= i < j < s.len() ==> s[i].sort_key() != s[j].sort_key()
}

/// Sorting keeps the elements, so distinct keys stay distinct.
pub proof fn lemma_sort_members<T: Keyed>(s: Seq<T>)
    ensures
        forall|i: int| 0 <= i < sort_by_key(s).len() ==> s.contains(#[trigger] sort_by_key(s)[i]),
        forall|i: int| 0 <= i < s.len() ==> sort_by_key(s).contains(#[trigger] s[i]),
        distinct_keys(s) ==> distinct_keys(sort_by_key(s)),
    decreases s.len(),
{
    lemma_sort_by_key(s);
    assert forall|i: int| 0 <= i < sort_by_key(s).len() implies s.contains(#[trigger] sort_by_key(s)[i]) by {
        assert(sort_by_key(s).to_multiset().count(sort_by_key(s)[i]) > 0);
    }
    assert forall|i: int| 0 <= i < s.len() implies sort_by_key(s).contains(#[trigger] s[i]) by {
        assert(s.to_multiset().count(s[i]) > 0);
    }
    if s.len() > 0 && distinct_keys(s) {
        let t = s.drop_last();
        let x = s.last();
        lemma_sort_members(t);
        lemma_sort_by_key(t);
        let st = sort_by_key(t);
        assert(distinct_keys(t));
        assert forall|k: int| 0 <= k < st.len() implies st[k].sort_key() != x.sort_key() by {
            assert(t.contains(st[k]));
            let j = choose|j: int| 0 <= j < t.len() && t[j] == st[k];
            assert(s[j] == t[j]);
        }
        lemma_insert_distinct(st, x);
    }
}

proof fn lemma_insert_distinct<T: Keyed>(t: Seq<T>, x: T)
    requires
        distinct_keys(t),
        forall|k: int| 0 <= k < t.len() ==> (#[trigger] t[k]).sort_key() != x.sort_key(),
    ensures
        distinct_keys(insert_by_key(t, x)),
    decreases t.len(),
{
    if t.len() > 0 && !(t.last().sort_key() <= x.sort_key()) {
        let d = t.drop_last();
        lemma_insert_distinct(d, x);
        lemma_insert_sorted_members(d, x);
        let r = insert_by_key(d, x);
        assert forall|k: int| 0 <= k < r.len() implies r[k].sort_key() != t.last().sort_key() by {
            if r[k] != x {
                let j = choose|j: int| 0 <= j < d.len() && d[j] == r[k];
                assert(t[j] == d[j]);
                assert(t[t.len() - 1] == t.last());
            }
        }
        assert(insert_by_key(t, x) =~= r.push(t.last()));
    }
}

proof fn lemma_insert_sorted_members<T: Keyed>(s: Seq<T>, x: T)
    ensures
        insert_by_key(s, x).len() == s.len() + 1,
        forall|i: int|
            0 <= i < insert_by_key(s, x).len() ==> (#[trigger] insert_by_key(s, x)[i] == x || s.contains(
                insert_by_key(s, x)[i],
            )),
    decreases s.len(),
{
    if s.len() > 0 && !(s.last().sort_key() <= x.sort_key()) {
        let t = s.drop_last();
        lemma_insert_sorted_members(t, x);
        let r = insert_by_key(t, x);
        assert forall|i: int| 0 <= i < r.push(s.last()).len() implies (#[trigger] r.push(s.last())[i] == x
            || s.contains(r.push(s.last())[i])) by {
            if i < r.len() && r[i] != x {
                let k = choose|k: int| 0 <= k < t.len() && t[k] == r[i];
                assert(s[k] == t[k]);
            } else if i == r.len() {
                assert(s[s.len() - 1] == s.last());
            }
        }
    } else if s.len() > 0 {
        assert forall|i: int| 0 <= i < s.push(x).len() implies (#[trigger] s.push(x)[i] == x || s.contains(
            s.push(x)[i],
        )) by {
            if i < s.len() {
                assert(s.push(x)[i] == s[i]);
            }
        }
    }
}

pub open spec fn keys_cover<T: Keyed>(x: Seq<T>, y: Seq<T>) -> bool {
    forall|i: int|
        0 <= i < x.len() ==> exists|j: int| 0 <= j < y.len() && #[trigger] x[i].sort_key() == #[trigger] y[j].sort_key()
}

/// Two sorted sequences with distinct keys, each of whose keys occurs in the
/// other, have the same key at every position below `k`.
pub proof fn lemma_sorted_aligned<T: Keyed>(x: Seq<T>, y: Seq<T>, k: int)
    requires
        0 <= k <= x.len(),
        x.len() == y.len(),
        sorted_by_key(x),
        sorted_by_key(y),
        distinct_keys(x),
        distinct_keys(y),
        keys_cover(x, y),
        keys_cover(y, x),
    ensures
        forall|i: int| 0 <= i < k ==> (#[trigger] x[i]).sort_key() == y[i].sort_key(),
    decreases k,
{
    if k > 0 {
        let p = k - 1;
        lemma_sorted_aligned(x, y, p);
        let m = choose|j: int| 0 <= j < y.len() && x[p].sort_key() == y[j].sort_key();
        if m < p {
            assert(x[m].sort_key() == y[m].sort_key());
        }
        let n = choose|j: int| 0 <= j < x.len() && y[p].sort_key() == x[j].sort_key();
        if n < p {
            assert(x[n].sort_key() == y[n].sort_key());
        }
    }
}

/// Two sequences that agree pointwise in key and in `rel` still do so
/// after both are sorted.
pub proof fn lemma_sort_pointwise<T: Keyed>(a: Seq<T>, b: Seq<T>, rel: spec_fn(T, T) -> bool)
    requires
        a.len() == b.len(),
        forall|k: int|
            0 <= k < a.len() ==> (#[trigger] a[k]).sort_key() == b[k].sort_key() && rel(a[k], b[k]),
    ensures
        sort_by_key(a).len() == sort_by_key(b).len(),
        forall|k: int|
            0 <= k < sort_by_key(a).len() ==> (#[trigger] sort_by_key(a)[k]).sort_key() == sort_by_key(
                b,
            )[k].sort_key() && rel(sort_by_key(a)[k], sort_by_key(b)[k]),
    decreases a.len(),
{
    if a.len() > 0 {
        lemma_sort_pointwise(a.drop_last(), b.drop_last(), rel);
        assert(a.last() == a[a.len() - 1]);
        lemma_insert_pointwise(sort_by_key(a.drop_last()), sort_by_key(b.drop_last()), a.last(), b.last(), rel);
    }
}

proof fn lemma_insert_pointwise<T: Keyed>(sa: Seq<T>, sb: Seq<T>, x: T, y: T, rel: spec_fn(T, T) -> bool)
    requires
        sa.len() == sb.len(),
        forall|k: int|
            0 <= k < sa.len() ==> (#[trigger] sa[k]).sort_key() == sb[k].sort_key() && rel(sa[k], sb[k]),
        x.sort_key() == y.sort_key(),
        rel(x, y),
    ensures
        insert_by_key(sa, x).len() == insert_by_key(sb, y).len(),
        forall|k: int|
            0 <= k < insert_by_key(sa, x).len() ==> (#[trigger] insert_by_key(sa, x)[k]).sort_key()
                == insert_by_key(sb, y)[k].sort_key() && rel(insert_by_key(sa, x)[k], insert_by_key(sb, y)[k]),
    decreases sa.len(),
{
    if sa.len() > 0 {
        assert(sa.last() == sa[sa.len() - 1]);
        if !(sa.last().sort_key() <= x.sort_key()) {
            lemma_insert_pointwise(sa.drop_last(), sb.drop_last(), x, y, rel);
        }
    }
}

/// Sorts `v` by key, keeping the input order of elements with equal keys.
pub fn sort_vec_by_key<T: Keyed>(v: Vec<T>) -> (r: Vec<T>)
    ensures
        r@ == sort_by_key(v@),
{
    let ghost orig = v@;
    let mut rest = v;
    let mut out: Vec<T> = Vec::new();
    let ghost mut i: int = 0;
    while rest.len() > 0
        invariant
            0 <= i <= orig.len(),
            rest@ == orig.skip(i),
            out@ == sort_by_key(orig.take(i)),
        decreases rest.len(),
    {
        let x = rest.remove(0);
        proof {
            assert(orig.take(i + 1).drop_last() =~= orig.take(i));
            assert(orig.take(i + 1).last() == x);
        }
        let mut p: usize = out.len();
        while p > 0 && !out[p - 1].key_le(&x)
            invariant
                0 <= p <= out.len(),
                forall|k: int| p <= k < out@.len() ==> !(out@[k].sort_key() <= x.sort_key()),
            decreases p,
        {
            p = p - 1;
        }
        proof {
            lemma_insert_at(out@, x, p as int);
        }
        out.insert(p, x);
        proof {
            assert(out@ =~= sort_by_key(orig.take(i + 1)));
            i = i + 1;
            assert(rest@ =~= orig.skip(i));
        }
    }
    proof {
        assert(orig.take(i) =~= orig);
    }
    out
}

} // verus!
