//! Compact rendering of the member names of a naming group.
use vstd::prelude::*;

use vstd::string::{StrSliceExecFns, StringExecFns};

use crate::lines::views;

verus! {

pub open spec fn has_prefix(s: Seq<char>, g: Seq<char>) -> bool {
    g.len() <= s.len() && s.take(g.len() as int) == g
}

/// The index token of one member: `x` for an empty suffix, the suffix
/// itself for one character, the suffix in braces otherwise.
pub open spec fn suffix_token(suf: Seq<char>) -> Seq<char> {
    if suf.len() == 0 {
        "x"@
    } else if suf.len() == 1 {
        suf
    } else {
        "{"@ + suf + "}"@
    }
}

pub open spec fn tokens_text(g: Seq<char>, names: Seq<Seq<char>>) -> Seq<char>
    decreases names.len(),
{
    if names.len() == 0 {
        Seq::empty()
    } else {
        tokens_text(g, names.drop_last()) + suffix_token(names.last().skip(g.len() as int))
    }
}

/// The names, separated by `, `.
pub open spec fn joined_text(names: Seq<Seq<char>>) -> Seq<char>
    decreases names.len(),
{
    if names.len() == 0 {
        Seq::empty()
    } else if names.len() == 1 {
        names[0]
    } else {
        joined_text(names.drop_last()) + ", "@ + names.last()
    }
}

pub open spec fn all_prefixed(g: Seq<char>, names: Seq<Seq<char>>) -> bool {
    forall|i: int| 0 <= i < names.len() ==> has_prefix(#[trigger] names[i], g)
}

/// The pattern of group `g` with members `names`, in the order given.
pub open spec fn pattern_text(g: Seq<char>, names: Seq<Seq<char>>) -> Seq<char> {
    if all_prefixed(g, names) {
        let idx = tokens_text(g, names);
        if idx == "x"@ {
            g
        } else if idx.len() == 1 {
            g + idx
        } else {
            g + "["@ + idx + "]"@
        }
    } else {
        g + ": "@ + joined_text(names)
    }
}

fn starts_with(s: &String, g: &String) -> (r: bool)
    ensures
        r == has_prefix(s@, g@),
{
    let n = g.as_str().unicode_len();
    let m = s.as_str().unicode_len();
    if n > m {
        return false;
    }
    let mut i: usize = 0;
    while i < n
        invariant
            n == g@.len(),
            n <= m == s@.len(),
            i <= n,
            forall|k: int| 0 <= k < i ==> s@[k] == g@[k],
        decreases n - i,
    {
        if s.as_str().get_char(i) != g.as_str().get_char(i) {
            return false;
        }
        i = i + 1;
    }
    assert(s@.take(n as int) =~= g@);
    true
}

/// Whether a device is left out of a run: its name starts with `prefix`.
pub fn excluded(name: &String, prefix: &String) -> (r: bool)
    ensures
        r == has_prefix(name@, prefix@),
{
    starts_with(name, prefix)
}

/// Renders the names of a group as `g`, `g<suffix>` or `g[<suffixes>]`
/// when every name starts with `g`, and as `g: <names>` otherwise.
pub fn compress_names(g: &String, names: &Vec<String>) -> (r: String)
    ensures
        r@ == pattern_text(g@, views(names@)),
{
    let ghost ns = views(names@);
    let mut all = true;
    let mut i: usize = 0;
    while i < names.len()
        invariant
            i <= names@.len(),
            ns == views(names@),
            all == (forall|k: int| 0 <= k < i ==> has_prefix(#[trigger] ns[k], g@)),
        decreases names@.len() - i,
    {
        assert(ns[i as int] == names@[i as int]@);
        if !starts_with(&names[i], g) {
            all = false;
        }
        i = i + 1;
    }
    let mut out = String::new();
    out.append(g.as_str());
    if all {
        let n = g.as_str().unicode_len();
        let mut idx = String::new();
        let mut j: usize = 0;
        while j < names.len()
            invariant
                j <= names@.len(),
                n == g@.len(),
                ns == views(names@),
                all_prefixed(g@, ns),
                idx@ == tokens_text(g@, ns.take(j as int)),
            decreases names@.len() - j,
        {
            let s = names[j].as_str();
            assert(has_prefix(ns[j as int], g@));
            let m = s.unicode_len();
            let suf = s.substring_char(n, m);
            let k = m - n;
            if k == 0 {
                idx.append("x");
            } else if k == 1 {
                idx.append(suf);
            } else {
                idx.append("{");
                idx.append(suf);
                idx.append("}");
            }
            assert(ns.take(j + 1).drop_last() =~= ns.take(j as int));
            assert(suf@ =~= ns[j as int].skip(n as int));
            j = j + 1;
        }
        assert(ns.take(j as int) =~= ns);
        let len = idx.as_str().unicode_len();
        proof {
            reveal_strlit("x");
        }
        if len == 1 && idx.as_str().get_char(0) == 'x' {
            assert(idx@ =~= "x"@);
        } else {
            assert(idx@ != "x"@);
            if len == 1 {
                out.append(idx.as_str());
            } else {
                out.append("[");
                out.append(idx.as_str());
                out.append("]");
            }
        }
    } else {
        out.append(": ");
        let mut j: usize = 0;
        while j < names.len()
            invariant
                j <= names@.len(),
                ns == views(names@),
                out@ == g@ + ": "@ + joined_text(ns.take(j as int)),
            decreases names@.len() - j,
        {
            if j > 0 {
                out.append(", ");
            }
            out.append(names[j].as_str());
            assert(ns.take(j + 1).drop_last() =~= ns.take(j as int));
            proof {
                if j == 0 {
                    assert(ns.take(1)[0] == ns[0]);
                }
            }
            j = j + 1;
        }
        assert(ns.take(j as int) =~= ns);
    }
    out
}

} // verus!
