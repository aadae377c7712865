//! Structural similarity of two payloads, from their longest common
//! subsequence of bytes.
use vstd::prelude::*;

use crate::text::{digit_text, dec_text, push_dec, push_digit};

verus! {

/// The length of a longest common subsequence of `a` and `b`.
pub open spec fn lcs(a: Seq<u8>, b: Seq<u8>) -> nat
    decreases a.len() + b.len(),
{
    if a.len() == 0 || b.len() == 0 {
        0
    } else if a.last() == b.last() {
        lcs(a.drop_last(), b.drop_last()) + 1
    } else {
        let x = lcs(a.drop_last(), b);
        let y = lcs(a, b.drop_last());
        if x >= y {
            x
        } else {
            y
        }
    }
}

/// Matched bytes relative to the combined length, in tenths of a percent,
/// rounded down; two empty payloads are alike.
pub open spec fn ratio_tenths(a: Seq<u8>, b: Seq<u8>) -> nat {
    if a.len() + b.len() == 0 {
        1000
    } else {
        (2000 * lcs(a, b)) / (a.len() + b.len())
    }
}

pub proof fn lemma_lcs_bounded(a: Seq<u8>, b: Seq<u8>)
    ensures
        lcs(a, b) <= a.len(),
        lcs(a, b) <= b.len(),
    decreases a.len() + b.len(),
{
    if a.len() > 0 && b.len() > 0 {
        lemma_lcs_bounded(a.drop_last(), b.drop_last());
        lemma_lcs_bounded(a.drop_last(), b);
        lemma_lcs_bounded(a, b.drop_last());
    }
}

pub proof fn lemma_lcs_self(a: Seq<u8>)
    ensures
        lcs(a, a) == a.len(),
    decreases a.len(),
{
    if a.len() > 0 {
        lemma_lcs_self(a.drop_last());
    }
}

/// The similarity ratio lies between 0.0% and 100.0%, and a payload compared
/// with itself scores 100.0%.
pub proof fn lemma_ratio_bounds(a: Seq<u8>, b: Seq<u8>)
    ensures
        ratio_tenths(a, b) <= 1000,
        ratio_tenths(a, a) == 1000,
{
    lemma_lcs_bounded(a, b);
    lemma_lcs_self(a);
    if a.len() + b.len() > 0 {
        let l = lcs(a, b);
        let t = a.len() + b.len();
        assert(2000 * l <= 1000 * t) by (nonlinear_arith)
            requires
                l <= a.len(),
                l <= b.len(),
                t == a.len() + b.len(),
        ;
        assert((2000 * l) / t <= 1000) by (nonlinear_arith)
            requires
                2000 * l <= 1000 * t,
                t > 0,
        ;
    }
    if a.len() > 0 {
        let t = a.len() + a.len();
        assert((2000 * a.len()) / t == 1000) by (nonlinear_arith)
            requires
                t == a.len() + a.len(),
                t > 0,
        ;
    }
}

/// Length of a longest common subsequence, by dynamic programming over
/// two rows.
pub fn lcs_len(a: &Vec<u8>, b: &Vec<u8>) -> (r: usize)
    ensures
        r == lcs(a@, b@),
{
    let n = a.len();
    let m = b.len();
    let mut prev: Vec<usize> = Vec::new();
    prev.push(0);
    let mut j: usize = 0;
    while j < m
        invariant
            m == b@.len(),
            j <= m,
            prev@.len() == j + 1,
            forall|k: int| 0 <= k <= j ==> prev@[k] == 0,
        decreases m - j,
    {
        prev.push(0);
        j = j + 1;
    }
    proof {
        assert forall|k: int| 0 <= k <= m implies prev@[k] == lcs(a@.take(0), b@.take(k)) by {}
    }
    let mut i: usize = 0;
    while i < n
        invariant
            n == a@.len(),
            m == b@.len(),
            i <= n,
            prev@.len() == m + 1,
            forall|k: int| 0 <= k <= m ==> #[trigger] prev@[k] == lcs(a@.take(i as int), b@.take(k)),
        decreases n - i,
    {
        let mut cur: Vec<usize> = Vec::new();
        cur.push(0);
        proof {
            assert(lcs(a@.take(i + 1), b@.take(0)) == 0);
        }
        let mut jj: usize = 0;
        while jj < m
            invariant
                n == a@.len(),
                m == b@.len(),
                i < n,
                jj <= m,
                prev@.len() == m + 1,
                cur@.len() == jj + 1,
                forall|k: int| 0 <= k <= m ==> #[trigger] prev@[k] == lcs(a@.take(i as int), b@.take(k)),
                forall|k: int| 0 <= k <= jj ==> #[trigger] cur@[k] == lcs(a@.take(i + 1), b@.take(k)),
            decreases m - jj,
        {
            let j = jj + 1;
            let ghost ai = a@.take(i + 1);
            let ghost bj = b@.take(j as int);
            proof {
                assert(ai.drop_last() =~= a@.take(i as int));
                assert(bj.drop_last() =~= b@.take(j - 1));
                assert(ai.last() == a@[i as int]);
                assert(bj.last() == b@[j - 1]);
                lemma_lcs_bounded(a@.take(i as int), b@.take(j - 1));
            }
            let v = if a[i] == b[j - 1] {
                prev[j - 1] + 1
            } else if prev[j] >= cur[j - 1] {
                prev[j]
            } else {
                cur[j - 1]
            };
            cur.push(v);
            jj = jj + 1;
        }
        prev = cur;
        i = i + 1;
    }
    proof {
        assert(a@.take(n as int) =~= a@);
        assert(b@.take(m as int) =~= b@);
    }
    prev[m]
}

/// The similarity of two payloads in tenths of a percent.
pub fn similarity_tenths(a: &Vec<u8>, b: &Vec<u8>) -> (r: u64)
    ensures
        r == ratio_tenths(a@, b@),
        r <= 1000,
{
    proof {
        lemma_ratio_bounds(a@, b@);
    }
    let t: u128 = a.len() as u128 + b.len() as u128;
    if t == 0 {
        return 1000;
    }
    let l = lcs_len(a, b);
    let q: u128 = (2000 * (l as u128)) / t;
    q as u64
}

/// A ratio in tenths of a percent as fixed-width text: `ddd.d%` with
/// leading spaces in place of leading zeros.
pub open spec fn percent_text(t: nat) -> Seq<char> {
    let whole = t / 10;
    let pad = if whole < 10 {
        "  "@
    } else if whole < 100 {
        " "@
    } else {
        Seq::empty()
    };
    pad + dec_text(whole) + "."@ + digit_text(t % 10) + "%"@
}

pub fn push_percent(out: &mut String, t: u64)
    requires
        t <= 1000,
    ensures
        final(out)@ == old(out)@ + percent_text(t as nat),
{
    let whole = t / 10;
    if whole < 10 {
        out.append("  ");
    } else if whole < 100 {
        out.append(" ");
    }
    push_dec(out, whole);
    out.append(".");
    push_digit(out, t % 10);
    out.append("%");
    assert(out@ =~= old(out)@ + percent_text(t as nat));
}

} // verus!
