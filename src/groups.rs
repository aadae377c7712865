//! Naming groups of a device and their compact patterns.
use vstd::prelude::*;

use crate::catalog::{group_of, Catalog, IndexEntry};
use crate::lines::{sort_lex, sort_lines, views};
use crate::model::Peripheral;
use crate::pattern::{compress_names, pattern_text};

verus! {

/// A peripheral derived from another is an alias and joins no group.
pub open spec fn counted(p: Peripheral) -> bool {
    p.derived_from is None
}

/// The groups of the peripherals that are not aliases, each once, in order
/// of first appearance.
pub open spec fn group_names(ps: Seq<Peripheral>) -> Seq<Seq<char>>
    decreases ps.len(),
{
    if ps.len() == 0 {
        Seq::empty()
    } else {
        let s = group_names(ps.drop_last());
        let p = ps.last();
        if counted(p) && !s.contains(group_of(p)) {
            s.push(group_of(p))
        } else {
            s
        }
    }
}

/// The names of the members of group `g`, each once, in order of first
/// appearance.
pub open spec fn member_names(ps: Seq<Peripheral>, g: Seq<char>) -> Seq<Seq<char>>
    decreases ps.len(),
{
    if ps.len() == 0 {
        Seq::empty()
    } else {
        let s = member_names(ps.drop_last(), g);
        let p = ps.last();
        if counted(p) && group_of(p) == g && !s.contains(p.name@) {
            s.push(p.name@)
        } else {
            s
        }
    }
}

/// One pattern per group, groups and members in sorted order.
pub open spec fn device_patterns(ps: Seq<Peripheral>) -> Seq<Seq<char>> {
    sort_lex(group_names(ps)).map_values(|g: Seq<char>| pattern_text(g, sort_lex(member_names(ps, g))))
}

/// The groups that have index lines, each once, in order of first
/// appearance.
pub open spec fn index_group_names(index: Seq<IndexEntry>) -> Seq<Seq<char>>
    decreases index.len(),
{
    if index.len() == 0 {
        Seq::empty()
    } else {
        let s = index_group_names(index.drop_last());
        if s.contains(index.last().group@) {
            s
        } else {
            s.push(index.last().group@)
        }
    }
}

fn contains_text(v: &Vec<String>, x: &String) -> (r: bool)
    ensures
        r == views(v@).contains(x@),
{
    let ghost vs = views(v@);
    let mut i: usize = 0;
    while i < v.len()
        invariant
            i <= v@.len(),
            vs == views(v@),
            forall|k: int| 0 <= k < i ==> vs[k] != x@,
        decreases v@.len() - i,
    {
        if v[i] == *x {
            assert(vs[i as int] == x@);
            return true;
        }
        i = i + 1;
    }
    false
}

fn group_string(p: &Peripheral) -> (r: String)
    ensures
        r@ == group_of(*p),
{
    match &p.group_name {
        Some(g) => g.clone(),
        None => p.name.clone(),
    }
}

fn collect_groups(ps: &Vec<Peripheral>) -> (r: Vec<String>)
    ensures
        views(r@) == group_names(ps@),
{
    let mut out: Vec<String> = Vec::new();
    let mut i: usize = 0;
    while i < ps.len()
        invariant
            i <= ps@.len(),
            views(out@) == group_names(ps@.take(i as int)),
        decreases ps@.len() - i,
    {
        assert(ps@.take(i + 1).drop_last() =~= ps@.take(i as int));
        let p = &ps[i];
        if p.derived_from.is_none() {
            let g = group_string(p);
            if !contains_text(&out, &g) {
                out.push(g);
                assert(views(out@) =~= group_names(ps@.take(i + 1)));
            }
        }
        i = i + 1;
    }
    assert(ps@.take(i as int) =~= ps@);
    out
}

fn collect_members(ps: &Vec<Peripheral>, g: &String) -> (r: Vec<String>)
    ensures
        views(r@) == member_names(ps@, g@),
{
    let mut out: Vec<String> = Vec::new();
    let mut i: usize = 0;
    while i < ps.len()
        invariant
            i <= ps@.len(),
            views(out@) == member_names(ps@.take(i as int), g@),
        decreases ps@.len() - i,
    {
        assert(ps@.take(i + 1).drop_last() =~= ps@.take(i as int));
        let p = &ps[i];
        if p.derived_from.is_none() {
            let pg = group_string(p);
            if pg == *g && !contains_text(&out, &p.name) {
                out.push(p.name.clone());
                assert(views(out@) =~= member_names(ps@.take(i + 1), g@));
            }
        }
        i = i + 1;
    }
    assert(ps@.take(i as int) =~= ps@);
    out
}

/// The pattern line of every naming group of a device, in sorted group
/// order, each over the group's sorted member names.
pub fn group_patterns(ps: &Vec<Peripheral>) -> (r: Vec<String>)
    ensures
        views(r@) == device_patterns(ps@),
{
    let groups = sort_lines(collect_groups(ps));
    let ghost gs = views(groups@);
    let mut out: Vec<String> = Vec::new();
    let mut k: usize = 0;
    while k < groups.len()
        invariant
            k <= groups@.len(),
            gs == views(groups@),
            gs == sort_lex(group_names(ps@)),
            views(out@) == gs.take(k as int).map_values(
                |g: Seq<char>| pattern_text(g, sort_lex(member_names(ps@, g))),
            ),
        decreases groups@.len() - k,
    {
        let g = &groups[k];
        let members = sort_lines(collect_members(ps, g));
        let line = compress_names(g, &members);
        let ghost before = views(out@);
        out.push(line);
        assert(views(out@) =~= before.push(line@));
        assert(gs[k as int] == g@);
        assert(gs.take(k + 1).map_values(|g: Seq<char>| pattern_text(g, sort_lex(member_names(ps@, g))))
            =~= gs.take(k as int).map_values(
            |g: Seq<char>| pattern_text(g, sort_lex(member_names(ps@, g))),
        ).push(line@));
        k = k + 1;
    }
    assert(gs.take(k as int) =~= gs);
    out
}

impl Catalog {
    /// The groups that have index lines, in order of first appearance.
    pub fn index_groups(&self) -> (r: Vec<String>)
        ensures
            views(r@) == index_group_names(self.index@),
    {
        let mut out: Vec<String> = Vec::new();
        let mut i: usize = 0;
        while i < self.index.len()
            invariant
                i <= self.index@.len(),
                views(out@) == index_group_names(self.index@.take(i as int)),
            decreases self.index@.len() - i,
        {
            assert(self.index@.take(i + 1).drop_last() =~= self.index@.take(i as int));
            let g = &self.index[i].group;
            if !contains_text(&out, g) {
                out.push(g.clone());
                assert(views(out@) =~= index_group_names(self.index@.take(i + 1)));
            }
            i = i + 1;
        }
        assert(self.index@.take(i as int) =~= self.index@);
        out
    }
}

} // verus!
