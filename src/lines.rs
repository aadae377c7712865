//! Lexicographic order of texts, and a stable sort of lines by it.
use vstd::prelude::*;

use vstd::string::StrSliceExecFns;

verus! {

/// `a` comes no later than `b` in the order of their characters' code
/// points, which is the byte order of their UTF-8 forms.
pub open spec fn lex_le(a: Seq<char>, b: Seq<char>) -> bool
    decreases a.len(),
{
    if a.len() == 0 {
        true
    } else if b.len() == 0 {
        false
    } else if (a[0] as u32) != (b[0] as u32) {
        (a[0] as u32) < (b[0] as u32)
    } else {
        lex_le(a.skip(1), b.skip(1))
    }
}

pub open spec fn insert_lex(s: Seq<Seq<char>>, x: Seq<char>) -> Seq<Seq<char>>
    decreases s.len(),
{
    if s.len() == 0 {
        seq![x]
    } else if lex_le(s.last(), x) {
        s.push(x)
    } else {
        insert_lex(s.drop_last(), x).push(s.last())
    }
}

/// The stable insertion sort of `s` in lexicographic order.
pub open spec fn sort_lex(s: Seq<Seq<char>>) -> Seq<Seq<char>>
    decreases s.len(),
{
    if s.len() == 0 {
        s
    } else {
        insert_lex(sort_lex(s.drop_last()), s.last())
    }
}

pub fn text_le(a: &String, b: &String) -> (r: bool)
    ensures
        r == lex_le(a@, b@),
{
    let n = a.as_str().unicode_len();
    let m = b.as_str().unicode_len();
    let mut i: usize = 0;
    assert(a@.skip(0) =~= a@ && b@.skip(0) =~= b@);
    while i < n && i < m
        invariant
            n == a@.len(),
            m == b@.len(),
            i <= n,
            i <= m,
            lex_le(a@, b@) == lex_le(a@.skip(i as int), b@.skip(i as int)),
        decreases n - i,
    {
        let x = a.as_str().get_char(i);
        let y = b.as_str().get_char(i);
        assert(a@.skip(i as int)[0] == x && b@.skip(i as int)[0] == y);
        if (x as u32) != (y as u32) {
            return (x as u32) < (y as u32);
        }
        assert(a@.skip(i as int).skip(1) =~= a@.skip(i + 1));
        assert(b@.skip(i as int).skip(1) =~= b@.skip(i + 1));
        i = i + 1;
    }
    i == n
}

proof fn lemma_insert_lex_at(s: Seq<Seq<char>>, x: Seq<char>, p: int)
    requires
        0 <= p <= s.len(),
        p == 0 || lex_le(s[p - 1], x),
        forall|k: int| p <= k < s.len() ==> !lex_le(#[trigger] s[k], x),
    ensures
        insert_lex(s, x) == s.take(p).push(x) + s.skip(p),
    decreases s.len(),
{
    if s.len() == 0 {
        assert(s.take(p).push(x) + s.skip(p) =~= seq![x]);
    } else if p == s.len() {
        assert(s.take(p).push(x) + s.skip(p) =~= s.push(x));
    } else {
        let t = s.drop_last();
        lemma_insert_lex_at(t, x, p);
        assert((t.take(p).push(x) + t.skip(p)).push(s.last()) =~= s.take(p).push(x) + s.skip(p));
    }
}

/// Sorts lines lexicographically, keeping equal lines in input order.
pub fn sort_lines(v: Vec<String>) -> (r: Vec<String>)
    ensures
        views(r@) == sort_lex(views(v@)),
{
    let ghost orig = views(v@);
    let mut rest = v;
    let mut out: Vec<String> = Vec::new();
    let ghost mut i: int = 0;
    while rest.len() > 0
        invariant
            0 <= i <= orig.len(),
            orig.len() == i + rest@.len(),
            forall|k: int| 0 <= k < rest@.len() ==> #[trigger] rest@[k]@ == orig[i + k],
            views(out@) == sort_lex(orig.take(i)),
        decreases rest.len(),
    {
        let x = rest.remove(0);
        proof {
            assert(orig.take(i + 1).drop_last() =~= orig.take(i));
            assert(orig.take(i + 1).last() == x@);
        }
        let ghost ov = views(out@);
        let mut p: usize = out.len();
        while p > 0 && !text_le(&out[p - 1], &x)
            invariant
                0 <= p <= out.len(),
                ov == views(out@),
                forall|k: int| p <= k < ov.len() ==> !lex_le(#[trigger] ov[k], x@),
            decreases p,
        {
            p = p - 1;
        }
        proof {
            lemma_insert_lex_at(ov, x@, p as int);
        }
        out.insert(p, x);
        proof {
            assert(views(out@) =~= ov.take(p as int).push(x@) + ov.skip(p as int));
            assert(views(out@) =~= sort_lex(orig.take(i + 1)));
            i = i + 1;
        }
    }
    proof {
        assert(orig.take(i) =~= orig);
    }
    out
}

pub open spec fn sorted_lex(s: Seq<Seq<char>>) -> bool {
    forall|i: int, j: int| 0 <= i < j < s.len() ==> lex_le(#[trigger] s[i], #[trigger] s[j])
}

proof fn lemma_lex_total(a: Seq<char>, b: Seq<char>)
    ensures
        lex_le(a, b) || lex_le(b, a),
    decreases a.len(),
{
    if a.len() > 0 && b.len() > 0 && (a[0] as u32) == (b[0] as u32) {
        lemma_lex_total(a.skip(1), b.skip(1));
    }
}

proof fn lemma_lex_trans(a: Seq<char>, b: Seq<char>, c: Seq<char>)
    requires
        lex_le(a, b),
        lex_le(b, c),
    ensures
        lex_le(a, c),
    decreases a.len(),
{
    if a.len() > 0 && b.len() > 0 && c.len() > 0 && (a[0] as u32) == (b[0] as u32) && (b[0] as u32) == (c[0] as u32) {
        lemma_lex_trans(a.skip(1), b.skip(1), c.skip(1));
    }
}

proof fn lemma_insert_lex_sorted(s: Seq<Seq<char>>, x: Seq<char>)
    requires
        sorted_lex(s),
    ensures
        sorted_lex(insert_lex(s, x)),
        insert_lex(s, x).to_multiset() == s.to_multiset().insert(x),
        forall|i: int|
            0 <= i < insert_lex(s, x).len() ==> (#[trigger] insert_lex(s, x)[i] == x || s.contains(
                insert_lex(s, x)[i],
            )),
    decreases s.len(),
{
    broadcast use vstd::seq_lib::group_seq_properties;

    if s.len() == 0 {
        assert(seq![x] =~= Seq::<Seq<char>>::empty().push(x));
    } else if lex_le(s.last(), x) {
        assert forall|i: int, j: int| 0 <= i < j < s.push(x).len() implies lex_le(
            #[trigger] s.push(x)[i],
            #[trigger] s.push(x)[j],
        ) by {
            if j == s.len() && i < s.len() - 1 {
                lemma_lex_trans(s[i], s.last(), x);
            }
        }
    } else {
        let t = s.drop_last();
        lemma_insert_lex_sorted(t, x);
        lemma_lex_total(s.last(), x);
        let r = insert_lex(t, x);
        assert(s =~= t.push(s.last()));
        assert forall|i: int| 0 <= i < r.len() implies lex_le(r[i], s.last()) by {
            if r[i] != x {
                let k = choose|k: int| 0 <= k < t.len() && t[k] == r[i];
                assert(t[k] == s[k]);
            }
        }
        assert forall|i: int, j: int| 0 <= i < j < r.push(s.last()).len() implies lex_le(
            #[trigger] r.push(s.last())[i],
            #[trigger] r.push(s.last())[j],
        ) by {
            if j == r.len() {
                assert(lex_le(r[i], s.last()));
            } else {
                assert(lex_le(r[i], r[j]));
            }
        }
        assert forall|i: int| 0 <= i < r.push(s.last()).len() implies (#[trigger] r.push(s.last())[i] == x
            || s.contains(r.push(s.last())[i])) by {
            if i < r.len() && r[i] != x {
                let k = choose|k: int| 0 <= k < t.len() && t[k] == r[i];
                assert(s[k] == t[k]);
            } else if i == r.len() {
                assert(s[s.len() - 1] == s.last());
            }
        }
    }
}

/// Sorting lines gives them in lexicographic order, each line as often as
/// it was given.
pub proof fn lemma_sort_lex(s: Seq<Seq<char>>)
    ensures
        sorted_lex(sort_lex(s)),
        sort_lex(s).to_multiset() == s.to_multiset(),
    decreases s.len(),
{
    broadcast use vstd::seq_lib::group_seq_properties;

    if s.len() > 0 {
        lemma_sort_lex(s.drop_last());
        lemma_insert_lex_sorted(sort_lex(s.drop_last()), s.last());
        assert(s =~= s.drop_last().push(s.last()));
    }
}

/// The lines joined by `sep`.
pub open spec fn join_text(s: Seq<Seq<char>>, sep: Seq<char>) -> Seq<char>
    decreases s.len(),
{
    if s.len() == 0 {
        Seq::empty()
    } else if s.len() == 1 {
        s[0]
    } else {
        join_text(s.drop_last(), sep) + sep + s.last()
    }
}

pub open spec fn views(s: Seq<String>) -> Seq<Seq<char>> {
    s.map_values(|x: String| x@)
}

pub fn join_lines(v: &Vec<String>, sep: &str) -> (r: String)
    ensures
        r@ == join_text(views(v@), sep@),
{
    let ghost ns = views(v@);
    let mut out = String::new();
    let mut j: usize = 0;
    while j < v.len()
        invariant
            j <= v@.len(),
            ns == views(v@),
            out@ == join_text(ns.take(j as int), sep@),
        decreases v@.len() - j,
    {
        if j > 0 {
            out.append(sep);
        }
        out.append(v[j].as_str());
        assert(ns.take(j + 1).drop_last() =~= ns.take(j as int));
        proof {
            if j == 0 {
                assert(ns.take(1)[0] == ns[0]);
            }
        }
        j = j + 1;
    }
    assert(ns.take(j as int) =~= ns);
    out
}

} // verus!
