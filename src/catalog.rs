//! One run over many devices: every peripheral's tree is stored once per
//! identifier, referenced in its group's index, and each group is listed
//! with its sorted references and, on request, the similarity of its
//! stored trees.
use vstd::prelude::*;

use vstd::string::{StrSliceExecFns, StringExecFns};

use crate::canon::nodes_text;
use crate::fingerprint::{fingerprint, named_tree_id, short_digest, tree_id, utf8};
use crate::lines::{join_lines, join_text, lemma_sort_lex, sort_lex, sort_lines, sorted_lex, views};
use crate::model::{Device, Peripheral};
use crate::normalize::{norm_peripheral, normalize_peripheral};
use crate::similarity::{percent_text, push_percent, ratio_tenths, similarity_tenths};
use crate::store::{has_key, put_effect, stored, ContentStore, StoredFile};

verus! {

/// How a run treats its input.
#[derive(Debug, Clone, Copy, PartialEq, Eq, Structural)]
pub struct Options {
    /// Keep descriptions and display names in the canonical form.
    pub keep_descriptions: bool,
    /// Identify trees by device and peripheral name instead of the skeleton
    /// digest, and keep no index.
    pub show_name: bool,
    /// List the similarity of the stored trees of each group.
    pub compare_percent: bool,
}

/// One line of a group's index.
#[derive(Debug, PartialEq, Eq)]
pub struct IndexEntry {
    pub group: String,
    pub line: String,
}

/// The group of a peripheral: its group name, else its own name.
pub open spec fn group_of(p: Peripheral) -> Seq<char> {
    match p.group_name {
        Some(g) => g@,
        None => p.name@,
    }
}

/// The identifier under which a canonical peripheral is stored.
pub open spec fn stored_id(q: Peripheral, device: Seq<char>, show_name: bool) -> Seq<char> {
    let regs = q.registers->Some_0@;
    if show_name {
        named_tree_id(regs, device, q.name@)
    } else {
        tree_id(regs)
    }
}

/// The index line of a peripheral: `<id> <peripheral> <device>`.
pub open spec fn reference_line(id: Seq<char>, name: Seq<char>, device: Seq<char>) -> Seq<char> {
    id + " "@ + name + " "@ + device
}

/// All that a run keeps: the stored trees and the index lines.
pub struct Catalog {
    pub store: ContentStore,
    pub index: Vec<IndexEntry>,
}

/// The effect of one peripheral, given its canonical form `q`.
pub open spec fn step(old: Catalog, new: Catalog, q: Peripheral, device: Seq<char>, opts: Options) -> bool {
    match q.registers {
        None => new.store.files@ == old.store.files@ && new.index@ == old.index@,
        Some(regs) => {
            let id = stored_id(q, device, opts.show_name);
            &&& put_effect(
                old.store.files@,
                new.store.files@,
                group_of(q),
                id,
                short_digest(nodes_text(regs@, true)),
                nodes_text(regs@, false),
            )
            &&& if opts.show_name {
                new.index@ == old.index@
            } else {
                &&& new.index@.len() == old.index@.len() + 1
                &&& new.index@.drop_last() == old.index@
                &&& new.index@.last().group@ == group_of(q)
                &&& new.index@.last().line@ == reference_line(id, q.name@, device)
            }
        },
    }
}

impl Catalog {
    pub open spec fn wf(&self) -> bool {
        self.store.wf()
    }

    pub fn new() -> (r: Self)
        ensures
            r.wf(),
            r.store.files@.len() == 0,
            r.index@.len() == 0,
    {
        Catalog { store: ContentStore::new(), index: Vec::new() }
    }

    /// Normalizes `p`, stores its canonical tree under its group unless the
    /// identifier is there already, and, unless names are shown, adds its
    /// index line. Returns the identifier, or `None` for a peripheral
    /// without registers.
    pub fn add_peripheral(&mut self, device: &String, p: Peripheral, opts: Options) -> (r: Option<String>)
        requires
            old(self).wf(),
        ensures
            final(self).wf(),
            exists|q: Peripheral|
                norm_peripheral(q, p, opts.keep_descriptions) && step(*old(self), *final(self), q, device@, opts)
                    && match q.registers {
                    None => r is None,
                    Some(_) => r is Some && r->Some_0@ == stored_id(q, device@, opts.show_name),
                },
    {
        let q = normalize_peripheral(p, opts.keep_descriptions);
        let group = match &q.group_name {
            Some(g) => g.clone(),
            None => q.name.clone(),
        };
        match &q.registers {
            None => None,
            Some(regs) => {
                let fp = fingerprint(regs, device, &q.name, opts.show_name);
                let id = fp.id.clone();
                let _ = self.store.put(group.clone(), fp.id.clone(), fp.skeleton, fp.payload);
                if !opts.show_name {
                    let mut line = fp.id.clone();
                    line.append(" ");
                    line.append(q.name.as_str());
                    line.append(" ");
                    line.append(device.as_str());
                    self.index.push(IndexEntry { group, line });
                    assert(self.index@.drop_last() =~= old(self).index@);
                }
                assert(step(*old(self), *self, q, device@, opts));
                Some(id)
            },
        }
    }
}

/// `new` is what adding the peripherals `ps` of a device, in order, makes
/// of `old`.
pub open spec fn device_run(old: Catalog, new: Catalog, ps: Seq<Peripheral>, device: Seq<char>, opts: Options) -> bool
    decreases ps.len(),
{
    if ps.len() == 0 {
        new.store.files@ == old.store.files@ && new.index@ == old.index@
    } else {
        exists|mid: Catalog, q: Peripheral|
            #![trigger step(mid, new, q, device, opts)]
            device_run(old, mid, ps.drop_last(), device, opts) && norm_peripheral(q, ps.last(), opts.keep_descriptions)
                && step(mid, new, q, device, opts)
    }
}

impl Catalog {
    /// Adds every peripheral of a device, in order.
    pub fn add_device(&mut self, d: Device, opts: Options)
        requires
            old(self).wf(),
        ensures
            final(self).wf(),
            device_run(*old(self), *final(self), d.peripherals@, d.name@, opts),
    {
        let ghost orig = d.peripherals@;
        let name = d.name;
        let mut rest = d.peripherals;
        let ghost mut i: int = 0;
        while rest.len() > 0
            invariant
                self.wf(),
                0 <= i <= orig.len(),
                rest@ == orig.skip(i),
                device_run(*old(self), *self, orig.take(i), name@, opts),
            decreases rest.len(),
        {
            let ghost before = *self;
            let p = rest.remove(0);
            let _ = self.add_peripheral(&name, p, opts);
            proof {
                let t = orig.take(i + 1);
                assert(t.drop_last() =~= orig.take(i));
                assert(t.last() == p);
                let q = choose|q: Peripheral|
                    norm_peripheral(q, p, opts.keep_descriptions) && step(before, *self, q, name@, opts);
                assert(step(before, *self, q, name@, opts));
                assert(device_run(*old(self), *self, t, name@, opts));
                i = i + 1;
                assert(rest@ =~= orig.skip(i));
            }
        }
        proof {
            assert(orig.take(i) =~= orig);
        }
    }
}

pub open spec fn lines_of(index: Seq<IndexEntry>, g: Seq<char>) -> Seq<Seq<char>>
    decreases index.len(),
{
    if index.len() == 0 {
        Seq::empty()
    } else if index.last().group@ == g {
        lines_of(index.drop_last(), g).push(index.last().line@)
    } else {
        lines_of(index.drop_last(), g)
    }
}

pub open spec fn skeletons(fs: Seq<StoredFile>) -> Seq<Seq<char>> {
    fs.map_values(|f: StoredFile| f.skeleton@)
}

/// The first stored tree of group `g` for each skeleton digest, in order.
pub open spec fn files_of(files: Seq<StoredFile>, g: Seq<char>) -> Seq<StoredFile>
    decreases files.len(),
{
    if files.len() == 0 {
        Seq::empty()
    } else {
        let s = files_of(files.drop_last(), g);
        if files.last().group@ == g && !skeletons(s).contains(files.last().skeleton@) {
            s.push(files.last())
        } else {
            s
        }
    }
}

/// The report line of two stored trees: `<ratio>% <id> <id>`.
pub open spec fn pair_line(a: StoredFile, b: StoredFile) -> Seq<char> {
    percent_text(ratio_tenths(utf8(a.payload@), utf8(b.payload@))) + " "@ + a.id@ + " "@ + b.id@
}

/// One report line for each pair of files, the earlier one first.
pub open spec fn pair_lines(fs: Seq<StoredFile>) -> Seq<Seq<char>>
    decreases fs.len(),
{
    if fs.len() == 0 {
        Seq::empty()
    } else {
        pair_lines(fs.drop_last()) + fs.drop_last().map_values(|a: StoredFile| pair_line(a, fs.last()))
    }
}

/// The listing of group `g`: its sorted index lines and, when asked and
/// when there is a pair to compare, a blank line and the sorted report.
pub open spec fn listing_text(cat: Catalog, g: Seq<char>, compare: bool) -> Seq<char> {
    let refs = join_text(sort_lex(lines_of(cat.index@, g)), "\n"@);
    let pairs = pair_lines(files_of(cat.store.files@, g));
    if compare && pairs.len() > 0 {
        refs + "\n\n"@ + join_text(sort_lex(pairs), "\n"@)
    } else {
        refs
    }
}

impl Catalog {
    fn group_lines(&self, g: &String) -> (r: Vec<String>)
        ensures
            views(r@) == lines_of(self.index@, g@),
    {
        let mut out: Vec<String> = Vec::new();
        let mut i: usize = 0;
        while i < self.index.len()
            invariant
                i <= self.index@.len(),
                views(out@) == lines_of(self.index@.take(i as int), g@),
            decreases self.index@.len() - i,
        {
            assert(self.index@.take(i + 1).drop_last() =~= self.index@.take(i as int));
            if self.index[i].group == *g {
                out.push(self.index[i].line.clone());
                assert(views(out@) =~= lines_of(self.index@.take(i + 1), g@));
            }
            i = i + 1;
        }
        assert(self.index@.take(i as int) =~= self.index@);
        out
    }

    fn skeleton_seen(&self, seen: &Vec<usize>, i: usize) -> (r: bool)
        requires
            i < self.store.files@.len(),
            forall|k: int| 0 <= k < seen@.len() ==> #[trigger] seen@[k] < self.store.files@.len(),
        ensures
            r == skeletons(seen@.map_values(|k: usize| self.store.files@[k as int])).contains(
                self.store.files@[i as int].skeleton@,
            ),
    {
        let ghost fs = seen@.map_values(|k: usize| self.store.files@[k as int]);
        let ghost sk = skeletons(fs);
        let mut j: usize = 0;
        while j < seen.len()
            invariant
                j <= seen@.len(),
                i < self.store.files@.len(),
                forall|k: int| 0 <= k < seen@.len() ==> #[trigger] seen@[k] < self.store.files@.len(),
                fs == seen@.map_values(|k: usize| self.store.files@[k as int]),
                sk == skeletons(fs),
                forall|k: int| 0 <= k < j ==> sk[k] != self.store.files@[i as int].skeleton@,
            decreases seen@.len() - j,
        {
            if self.store.files[seen[j]].skeleton == self.store.files[i].skeleton {
                assert(sk[j as int] == self.store.files@[i as int].skeleton@);
                return true;
            }
            j = j + 1;
        }
        false
    }

    fn report_lines(&self, g: &String) -> (r: Vec<String>)
        ensures
            views(r@) == pair_lines(files_of(self.store.files@, g@)),
    {
        let ghost all = self.store.files@;
        let mut seen: Vec<usize> = Vec::new();
        let mut out: Vec<String> = Vec::new();
        let mut i: usize = 0;
        while i < self.store.files.len()
            invariant
                all == self.store.files@,
                i <= all.len(),
                forall|k: int| 0 <= k < seen@.len() ==> #[trigger] seen@[k] < i,
                seen@.map_values(|k: usize| all[k as int]) == files_of(all.take(i as int), g@),
                views(out@) == pair_lines(files_of(all.take(i as int), g@)),
            decreases all.len() - i,
        {
            assert(all.take(i + 1).drop_last() =~= all.take(i as int));
            if self.store.files[i].group == *g && !self.skeleton_seen(&seen, i) {
                let ghost before = files_of(all.take(i as int), g@);
                let ghost ov = views(out@);
                let b = &self.store.files[i];
                let bb = b.payload.as_str().as_bytes_vec();
                let mut j: usize = 0;
                while j < seen.len()
                    invariant
                        all == self.store.files@,
                        i < all.len(),
                        *b == all[i as int],
                        bb@ == utf8(b.payload@),
                        j <= seen@.len(),
                        forall|k: int| 0 <= k < seen@.len() ==> #[trigger] seen@[k] < i,
                        seen@.map_values(|k: usize| all[k as int]) == before,
                        views(out@) == ov + before.take(j as int).map_values(
                            |a: StoredFile| pair_line(a, *b),
                        ),
                    decreases seen@.len() - j,
                {
                    let a = &self.store.files[seen[j]];
                    assert(*a == before[j as int]);
                    let ab = a.payload.as_str().as_bytes_vec();
                    let t = similarity_tenths(&ab, &bb);
                    let mut line = String::new();
                    push_percent(&mut line, t);
                    line.append(" ");
                    line.append(a.id.as_str());
                    line.append(" ");
                    line.append(b.id.as_str());
                    assert(line@ =~= pair_line(*a, *b));
                    let ghost prev_out = views(out@);
                    out.push(line);
                    assert(views(out@) =~= prev_out.push(pair_line(*a, *b)));
                    assert(before.take(j + 1).map_values(|x: StoredFile| pair_line(x, *b))
                        =~= before.take(j as int).map_values(|x: StoredFile| pair_line(x, *b)).push(
                        pair_line(*a, *b),
                    ));
                    assert(views(out@) =~= ov + before.take(j + 1).map_values(
                        |x: StoredFile| pair_line(x, *b),
                    ));
                    j = j + 1;
                }
                let ghost now = files_of(all.take(i + 1), g@);
                assert(now == before.push(*b));
                assert(now.drop_last() =~= before);
                assert(before.take(j as int) =~= before);
                seen.push(i);
                assert(seen@.map_values(|k: usize| all[k as int]) =~= now);
            }
            i = i + 1;
        }
        assert(all.take(i as int) =~= all);
        out
    }

    /// The text of group `g`'s index file, followed, when `compare` is set
    /// and the group holds at least two trees, by a blank line and the
    /// sorted similarity report of every pair of them.
    pub fn listing(&self, g: &String, compare: bool) -> (r: String)
        ensures
            r@ == listing_text(*self, g@, compare),
    {
        let lines = sort_lines(self.group_lines(g));
        let mut out = join_lines(&lines, "\n");
        if compare {
            let pairs = self.report_lines(g);
            if pairs.len() > 0 {
                let sorted = sort_lines(pairs);
                let report = join_lines(&sorted, "\n");
                out.append("\n\n");
                out.append(report.as_str());
            }
        }
        out
    }
}

/// Two peripherals of one group whose canonical trees have the same text,
/// added to an empty catalog, leave one stored tree and two index lines
/// with one identifier; the group's listing holds those lines sorted.
pub proof fn lemma_shared_tree(
    c0: Catalog,
    c1: Catalog,
    c2: Catalog,
    q1: Peripheral,
    q2: Peripheral,
    d1: Seq<char>,
    d2: Seq<char>,
    opts: Options,
)
    requires
        c0.store.files@.len() == 0,
        c0.index@.len() == 0,
        !opts.show_name,
        q1.registers is Some,
        q2.registers is Some,
        group_of(q1) == group_of(q2),
        nodes_text(q1.registers->Some_0@, false) == nodes_text(q2.registers->Some_0@, false),
        nodes_text(q1.registers->Some_0@, true) == nodes_text(q2.registers->Some_0@, true),
        step(c0, c1, q1, d1, opts),
        step(c1, c2, q2, d2, opts),
    ensures
        c2.store.files@.len() == 1,
        c2.store.files@[0].group@ == group_of(q1),
        stored_id(q1, d1, false) == stored_id(q2, d2, false),
        lines_of(c2.index@, group_of(q1)) == seq![
            reference_line(stored_id(q1, d1, false), q1.name@, d1),
            reference_line(stored_id(q1, d1, false), q2.name@, d2),
        ],
        sorted_lex(sort_lex(lines_of(c2.index@, group_of(q1)))),
        sort_lex(lines_of(c2.index@, group_of(q1))).to_multiset() == lines_of(c2.index@, group_of(q1)).to_multiset(),
{
    let g = group_of(q1);
    let id = stored_id(q1, d1, false);
    assert(!stored(c0.store.files@, g, id));
    assert(has_key(c1.store.files@[0], g, id));
    assert(stored(c1.store.files@, g, id));
    assert(stored_id(q2, d2, false) == id);
    assert(lines_of(c0.index@, g) =~= Seq::<Seq<char>>::empty());
    assert(c1.index@.drop_last() == c0.index@);
    assert(lines_of(c1.index@, g) =~= seq![reference_line(id, q1.name@, d1)]);
    assert(c2.index@.drop_last() == c1.index@);
    assert(lines_of(c2.index@, g) =~= seq![
        reference_line(id, q1.name@, d1),
        reference_line(id, q2.name@, d2),
    ]);
    lemma_sort_lex(lines_of(c2.index@, g));
}

} // verus!
