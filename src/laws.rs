//! What the canonical text guarantees: it depends on the input alone, not
//! on which canonical form was taken, and the skeleton ignores enumerated
//! values and write constraints.
use vstd::prelude::*;

use crate::canon::{
    cluster_attrs_text, field_attrs_text, register_access_text, register_attrs_text, register_names_text,
    field_text, fields_text, node_text, nodes_text, register_text, table_text, tables_text,
    values_text,
};
use crate::fingerprint::{short_digest, tree_id};
use crate::model::{EnumeratedValue, EnumeratedValues, Field, Peripheral, RegisterCluster};
use crate::normalize::{
    norm_field, norm_fields_seq, norm_node, norm_nodes_seq, norm_peripheral, norm_table,
    norm_value, norm_values_seq,
};
use crate::lines::lex_le;
use crate::similarity::percent_text;
use crate::sorting::{
    distinct_keys, keys_cover, lemma_sort_by_key, lemma_sort_members, lemma_sort_pointwise, lemma_sorted_aligned,
    sort_by_key, Keyed,
};
use crate::text::{dec_text, digit_text};

verus! {

proof fn lemma_values_unique(o1: Seq<EnumeratedValue>, o2: Seq<EnumeratedValue>, i: Seq<EnumeratedValue>, keep: bool)
    requires
        norm_values_seq(o1, i, keep),
        norm_values_seq(o2, i, keep),
    ensures
        o1 == o2,
{
    let m1 = choose|mid: Seq<EnumeratedValue>|
        #![trigger sort_by_key(mid)]
        mid.len() == i.len() && (forall|k: int| 0 <= k < i.len() ==> norm_value(#[trigger] mid[k], i[k], keep))
            && o1 == sort_by_key(mid);
    let m2 = choose|mid: Seq<EnumeratedValue>|
        #![trigger sort_by_key(mid)]
        mid.len() == i.len() && (forall|k: int| 0 <= k < i.len() ==> norm_value(#[trigger] mid[k], i[k], keep))
            && o2 == sort_by_key(mid);
    assert forall|k: int| 0 <= k < i.len() implies m1[k] == m2[k] by {
        assert(norm_value(m1[k], i[k], keep));
        assert(norm_value(m2[k], i[k], keep));
    }
    assert(m1 =~= m2);
}

proof fn lemma_tables_text(a: Seq<EnumeratedValues>, b: Seq<EnumeratedValues>, i: Seq<EnumeratedValues>, keep: bool)
    requires
        a.len() == i.len(),
        b.len() == i.len(),
        forall|k: int| 0 <= k < i.len() ==> norm_table(#[trigger] a[k], i[k], keep),
        forall|k: int| 0 <= k < i.len() ==> norm_table(#[trigger] b[k], i[k], keep),
    ensures
        tables_text(a) == tables_text(b),
    decreases i.len(),
{
    if i.len() > 0 {
        let n = i.len() - 1;
        lemma_tables_text(a.drop_last(), b.drop_last(), i.drop_last(), keep);
        assert(norm_table(a[n], i[n], keep));
        assert(norm_table(b[n], i[n], keep));
        lemma_values_unique(a[n].values@, b[n].values@, i[n].values@, keep);
        assert(table_text(a.last()) == table_text(b.last()));
    }
}

proof fn lemma_field_text(f1: Field, f2: Field, i: Field, keep: bool, erase: bool)
    requires
        norm_field(f1, i, keep),
        norm_field(f2, i, keep),
    ensures
        field_text(f1, erase) == field_text(f2, erase),
{
    reveal(field_attrs_text);
    lemma_tables_text(f1.enumerated_values@, f2.enumerated_values@, i.enumerated_values@, keep);
}

proof fn lemma_fields_text_pointwise(a: Seq<Field>, b: Seq<Field>, erase: bool)
    requires
        a.len() == b.len(),
        forall|k: int| 0 <= k < a.len() ==> field_text(#[trigger] a[k], erase) == field_text(b[k], erase),
    ensures
        fields_text(a, erase) == fields_text(b, erase),
    decreases a.len(),
{
    if a.len() > 0 {
        lemma_fields_text_pointwise(a.drop_last(), b.drop_last(), erase);
        assert(field_text(a[a.len() - 1], erase) == field_text(b[a.len() - 1], erase));
    }
}

proof fn lemma_fields_text(o1: Seq<Field>, o2: Seq<Field>, i: Seq<Field>, keep: bool, erase: bool)
    requires
        norm_fields_seq(o1, i, keep),
        norm_fields_seq(o2, i, keep),
    ensures
        fields_text(o1, erase) == fields_text(o2, erase),
{
    let m1 = choose|mid: Seq<Field>|
        #![trigger sort_by_key(mid)]
        mid.len() == i.len() && (forall|k: int| 0 <= k < i.len() ==> norm_field(#[trigger] mid[k], i[k], keep))
            && o1 == sort_by_key(mid);
    let m2 = choose|mid: Seq<Field>|
        #![trigger sort_by_key(mid)]
        mid.len() == i.len() && (forall|k: int| 0 <= k < i.len() ==> norm_field(#[trigger] mid[k], i[k], keep))
            && o2 == sort_by_key(mid);
    let rel = |x: Field, y: Field| field_text(x, erase) == field_text(y, erase);
    assert forall|k: int| 0 <= k < m1.len() implies (#[trigger] m1[k]).sort_key() == m2[k].sort_key() && rel(
        m1[k],
        m2[k],
    ) by {
        assert(norm_field(m1[k], i[k], keep));
        assert(norm_field(m2[k], i[k], keep));
        lemma_field_text(m1[k], m2[k], i[k], keep, erase);
    }
    lemma_sort_pointwise(m1, m2, rel);
    lemma_fields_text_pointwise(o1, o2, erase);
}

proof fn lemma_nodes_text_pointwise(a: Seq<RegisterCluster>, b: Seq<RegisterCluster>, erase: bool)
    requires
        a.len() == b.len(),
        forall|k: int| 0 <= k < a.len() ==> node_text(#[trigger] a[k], erase) == node_text(b[k], erase),
    ensures
        nodes_text(a, erase) == nodes_text(b, erase),
    decreases a.len(),
{
    if a.len() > 0 {
        lemma_nodes_text_pointwise(a.drop_last(), b.drop_last(), erase);
        assert(node_text(a[a.len() - 1], erase) == node_text(b[a.len() - 1], erase));
    }
}

proof fn lemma_node_text(o1: RegisterCluster, o2: RegisterCluster, i: RegisterCluster, keep: bool, erase: bool)
    requires
        norm_node(o1, i, keep),
        norm_node(o2, i, keep),
    ensures
        node_text(o1, erase) == node_text(o2, erase),
        o1.sort_key() == i.sort_key(),
    decreases i,
{
    reveal(register_attrs_text);
    reveal(register_names_text);
    reveal(register_access_text);
    reveal(cluster_attrs_text);
    match (o1, o2, i) {
        (RegisterCluster::Register(a), RegisterCluster::Register(b), RegisterCluster::Register(c)) => {
            match (a.fields, b.fields, c.fields) {
                (Some(fa), Some(fb), Some(fc)) => lemma_fields_text(fa@, fb@, fc@, keep, erase),
                _ => {},
            }
            assert(register_text(a, erase) == register_text(b, erase));
        },
        (RegisterCluster::Cluster(a), RegisterCluster::Cluster(b), RegisterCluster::Cluster(c)) => {
            lemma_nodes_text(a.children@, b.children@, c.children@, keep, erase);
        },
        _ => {},
    }
}

proof fn lemma_nodes_text(o1: Seq<RegisterCluster>, o2: Seq<RegisterCluster>, i: Seq<RegisterCluster>, keep: bool, erase: bool)
    requires
        norm_nodes_seq(o1, i, keep),
        norm_nodes_seq(o2, i, keep),
    ensures
        nodes_text(o1, erase) == nodes_text(o2, erase),
    decreases i,
{
    let m1 = choose|mid: Seq<RegisterCluster>|
        #![trigger sort_by_key(mid)]
        mid.len() == i.len() && (forall|k: int| 0 <= k < i.len() ==> norm_node(#[trigger] mid[k], i[k], keep))
            && o1 == sort_by_key(mid);
    let m2 = choose|mid: Seq<RegisterCluster>|
        #![trigger sort_by_key(mid)]
        mid.len() == i.len() && (forall|k: int| 0 <= k < i.len() ==> norm_node(#[trigger] mid[k], i[k], keep))
            && o2 == sort_by_key(mid);
    let rel = |x: RegisterCluster, y: RegisterCluster| node_text(x, erase) == node_text(y, erase);
    assert forall|k: int| 0 <= k < m1.len() implies (#[trigger] m1[k]).sort_key() == m2[k].sort_key() && rel(
        m1[k],
        m2[k],
    ) by {
        assert(norm_node(m1[k], i[k], keep));
        assert(norm_node(m2[k], i[k], keep));
        lemma_node_text(m1[k], m2[k], i[k], keep, erase);
        lemma_node_text(m2[k], m1[k], i[k], keep, erase);
    }
    lemma_sort_pointwise(m1, m2, rel);
    lemma_nodes_text_pointwise(o1, o2, erase);
}

/// Normalization determines the fingerprints: any two canonical forms of
/// one peripheral have the same structural text, the same skeleton text
/// and the same identifier.
pub proof fn lemma_fingerprint_deterministic(q1: Peripheral, q2: Peripheral, p: Peripheral, keep: bool)
    requires
        norm_peripheral(q1, p, keep),
        norm_peripheral(q2, p, keep),
        p.registers is Some,
    ensures
        q1.registers is Some && q2.registers is Some,
        nodes_text(q1.registers->Some_0@, false) == nodes_text(q2.registers->Some_0@, false),
        nodes_text(q1.registers->Some_0@, true) == nodes_text(q2.registers->Some_0@, true),
        tree_id(q1.registers->Some_0@) == tree_id(q2.registers->Some_0@),
{
    let a = q1.registers->Some_0@;
    let b = q2.registers->Some_0@;
    let c = p.registers->Some_0@;
    lemma_nodes_text(a, b, c, keep, false);
    lemma_nodes_text(a, b, c, keep, true);
}

/// The canonical form of a node has the node's key.
proof fn lemma_norm_keys(m: Seq<RegisterCluster>, i: Seq<RegisterCluster>, keep: bool)
    requires
        m.len() == i.len(),
        forall|k: int| 0 <= k < i.len() ==> norm_node(#[trigger] m[k], i[k], keep),
    ensures
        forall|k: int| 0 <= k < m.len() ==> (#[trigger] m[k]).sort_key() == i[k].sort_key(),
        distinct_keys(i) ==> distinct_keys(m),
{
    assert forall|k: int| 0 <= k < m.len() implies (#[trigger] m[k]).sort_key() == i[k].sort_key() by {
        lemma_node_text(m[k], m[k], i[k], keep, false);
    }
}

proof fn lemma_member_of<T>(a: Seq<T>, b: Seq<T>, x: T)
    requires
        a.to_multiset() == b.to_multiset(),
        a.contains(x),
    ensures
        b.contains(x),
{
    a.to_multiset_ensures();
    b.to_multiset_ensures();
    assert(a.to_multiset().count(x) > 0);
    assert(b.to_multiset().count(x) > 0);
}

proof fn lemma_sorted_cover(
    m1: Seq<RegisterCluster>,
    m2: Seq<RegisterCluster>,
    i1: Seq<RegisterCluster>,
    i2: Seq<RegisterCluster>,
    keep: bool,
)
    requires
        m1.len() == i1.len(),
        m2.len() == i2.len(),
        forall|k: int| 0 <= k < m1.len() ==> (#[trigger] m1[k]).sort_key() == i1[k].sort_key(),
        forall|k: int| 0 <= k < m2.len() ==> (#[trigger] m2[k]).sort_key() == i2[k].sort_key(),
        i1.to_multiset() == i2.to_multiset(),
    ensures
        keys_cover(sort_by_key(m1), sort_by_key(m2)),
{
    let s1 = sort_by_key(m1);
    let s2 = sort_by_key(m2);
    lemma_sort_members(m1);
    lemma_sort_members(m2);
    assert forall|a: int| 0 <= a < s1.len() implies exists|b: int|
        0 <= b < s2.len() && #[trigger] s1[a].sort_key() == #[trigger] s2[b].sort_key() by {
        assert(m1.contains(s1[a]));
        let j = choose|j: int| 0 <= j < m1.len() && m1[j] == s1[a];
        assert(i1.contains(i1[j]));
        lemma_member_of(i1, i2, i1[j]);
        let j2 = choose|j2: int| 0 <= j2 < i2.len() && i2[j2] == i1[j];
        assert(s2.contains(m2[j2]));
        let b = choose|b: int| 0 <= b < s2.len() && s2[b] == m2[j2];
        assert(s1[a].sort_key() == s2[b].sort_key());
    }
}

proof fn lemma_text_at(
    m1: Seq<RegisterCluster>,
    m2: Seq<RegisterCluster>,
    i1: Seq<RegisterCluster>,
    i2: Seq<RegisterCluster>,
    keep: bool,
    erase: bool,
    k: int,
)
    requires
        m1.len() == i1.len(),
        m2.len() == i2.len(),
        forall|k: int| 0 <= k < i1.len() ==> norm_node(#[trigger] m1[k], i1[k], keep),
        forall|k: int| 0 <= k < i2.len() ==> norm_node(#[trigger] m2[k], i2[k], keep),
        forall|k: int| 0 <= k < m1.len() ==> (#[trigger] m1[k]).sort_key() == i1[k].sort_key(),
        forall|k: int| 0 <= k < m2.len() ==> (#[trigger] m2[k]).sort_key() == i2[k].sort_key(),
        i1.to_multiset() == i2.to_multiset(),
        distinct_keys(i1),
        0 <= k < sort_by_key(m1).len(),
        0 <= k < sort_by_key(m2).len(),
        sort_by_key(m1)[k].sort_key() == sort_by_key(m2)[k].sort_key(),
    ensures
        node_text(sort_by_key(m1)[k], erase) == node_text(sort_by_key(m2)[k], erase),
{
    let s1 = sort_by_key(m1);
    let s2 = sort_by_key(m2);
    lemma_sort_members(m1);
    lemma_sort_members(m2);
    assert(m1.contains(s1[k]));
    assert(m2.contains(s2[k]));
    let j1 = choose|j: int| 0 <= j < m1.len() && m1[j] == s1[k];
    let j2 = choose|j: int| 0 <= j < m2.len() && m2[j] == s2[k];
    assert(i2.contains(i2[j2]));
    lemma_member_of(i2, i1, i2[j2]);
    let jj = choose|j: int| 0 <= j < i1.len() && i1[j] == i2[j2];
    if jj < j1 {
        assert(i1[jj].sort_key() != i1[j1].sort_key());
    } else if j1 < jj {
        assert(i1[j1].sort_key() != i1[jj].sort_key());
    }
    assert(norm_node(m1[j1], i1[j1], keep));
    assert(norm_node(m2[j2], i2[j2], keep));
    lemma_node_text(m1[j1], m2[j2], i1[j1], keep, erase);
}

proof fn lemma_reordered_texts(
    m1: Seq<RegisterCluster>,
    m2: Seq<RegisterCluster>,
    i1: Seq<RegisterCluster>,
    i2: Seq<RegisterCluster>,
    keep: bool,
    erase: bool,
)
    requires
        m1.len() == i1.len(),
        m2.len() == i2.len(),
        i1.len() == i2.len(),
        forall|k: int| 0 <= k < i1.len() ==> norm_node(#[trigger] m1[k], i1[k], keep),
        forall|k: int| 0 <= k < i2.len() ==> norm_node(#[trigger] m2[k], i2[k], keep),
        i1.to_multiset() == i2.to_multiset(),
        distinct_keys(i1),
        distinct_keys(i2),
    ensures
        nodes_text(sort_by_key(m1), erase) == nodes_text(sort_by_key(m2), erase),
{
    let s1 = sort_by_key(m1);
    let s2 = sort_by_key(m2);
    lemma_norm_keys(m1, i1, keep);
    lemma_norm_keys(m2, i2, keep);
    lemma_sort_by_key(m1);
    lemma_sort_by_key(m2);
    lemma_sort_members(m1);
    lemma_sort_members(m2);
    lemma_sorted_cover(m1, m2, i1, i2, keep);
    lemma_sorted_cover(m2, m1, i2, i1, keep);
    lemma_sorted_aligned(s1, s2, s1.len() as int);
    assert forall|k: int| 0 <= k < s1.len() implies node_text(#[trigger] s1[k], erase) == node_text(s2[k], erase) by {
        lemma_text_at(m1, m2, i1, i2, keep, erase, k);
    }
    lemma_nodes_text_pointwise(s1, s2, erase);
}

/// Listing the top-level registers and clusters of a peripheral in another
/// order, their offsets being distinct, changes neither its canonical texts
/// nor its identifier.
pub proof fn lemma_reorder_invariant(
    o1: Seq<RegisterCluster>,
    o2: Seq<RegisterCluster>,
    i1: Seq<RegisterCluster>,
    i2: Seq<RegisterCluster>,
    keep: bool,
)
    requires
        norm_nodes_seq(o1, i1, keep),
        norm_nodes_seq(o2, i2, keep),
        i1.to_multiset() == i2.to_multiset(),
        distinct_keys(i1),
        distinct_keys(i2),
    ensures
        nodes_text(o1, false) == nodes_text(o2, false),
        nodes_text(o1, true) == nodes_text(o2, true),
        tree_id(o1) == tree_id(o2),
{
    let m1 = choose|mid: Seq<RegisterCluster>|
        #![trigger sort_by_key(mid)]
        mid.len() == i1.len() && (forall|k: int| 0 <= k < i1.len() ==> norm_node(#[trigger] mid[k], i1[k], keep))
            && o1 == sort_by_key(mid);
    let m2 = choose|mid: Seq<RegisterCluster>|
        #![trigger sort_by_key(mid)]
        mid.len() == i2.len() && (forall|k: int| 0 <= k < i2.len() ==> norm_node(#[trigger] mid[k], i2[k], keep))
            && o2 == sort_by_key(mid);
    i1.to_multiset_ensures();
    i2.to_multiset_ensures();
    assert(i1.len() == i2.len());
    lemma_reordered_texts(m1, m2, i1, i2, keep, false);
    lemma_reordered_texts(m1, m2, i1, i2, keep, true);
}

/// Two fields alike in all but their enumerated values and write
/// constraint.
pub open spec fn same_field_layout(a: Field, b: Field) -> bool {
    &&& a.name == b.name
    &&& a.description == b.description
    &&& a.bit_offset == b.bit_offset
    &&& a.bit_width == b.bit_width
    &&& a.dim == b.dim
    &&& a.access == b.access
    &&& a.modified_write_values == b.modified_write_values
    &&& a.read_action == b.read_action
    &&& a.derived_from == b.derived_from
}

/// Two trees alike in all but the enumerated values and write constraints
/// of their fields.
pub open spec fn same_layout(a: RegisterCluster, b: RegisterCluster) -> bool
    decreases a,
{
    match (a, b) {
        (RegisterCluster::Register(x), RegisterCluster::Register(y)) => {
            &&& x.name == y.name
            &&& x.description == y.description
            &&& x.display_name == y.display_name
            &&& x.dim == y.dim
            &&& x.alternate_group == y.alternate_group
            &&& x.alternate_register == y.alternate_register
            &&& x.address_offset == y.address_offset
            &&& x.properties == y.properties
            &&& x.datatype == y.datatype
            &&& x.modified_write_values == y.modified_write_values
            &&& x.write_constraint == y.write_constraint
            &&& x.read_action == y.read_action
            &&& x.derived_from == y.derived_from
            &&& match (x.fields, y.fields) {
                (None, None) => true,
                (Some(a), Some(b)) => a@.len() == b@.len() && forall|k: int|
                    0 <= k < a@.len() ==> same_field_layout(#[trigger] a@[k], b@[k]),
                _ => false,
            }
        },
        (RegisterCluster::Cluster(x), RegisterCluster::Cluster(y)) => {
            &&& x.name == y.name
            &&& x.description == y.description
            &&& x.dim == y.dim
            &&& x.alternate_cluster == y.alternate_cluster
            &&& x.header_struct_name == y.header_struct_name
            &&& x.address_offset == y.address_offset
            &&& x.default_properties == y.default_properties
            &&& x.derived_from == y.derived_from
            &&& same_layouts(x.children@, y.children@)
        },
        _ => false,
    }
}

pub open spec fn same_layouts(a: Seq<RegisterCluster>, b: Seq<RegisterCluster>) -> bool
    decreases a,
{
    &&& a.len() == b.len()
    &&& forall|k: int| 0 <= k < a.len() ==> same_layout(#[trigger] a[k], b[k])
}

proof fn lemma_same_layout_text(a: RegisterCluster, b: RegisterCluster)
    requires
        same_layout(a, b),
    ensures
        node_text(a, true) == node_text(b, true),
    decreases a,
{
    reveal(register_attrs_text);
    reveal(register_names_text);
    reveal(register_access_text);
    reveal(cluster_attrs_text);
    match (a, b) {
        (RegisterCluster::Register(x), RegisterCluster::Register(y)) => {
            match (x.fields, y.fields) {
                (Some(fa), Some(fb)) => {
                    assert forall|k: int| 0 <= k < fa@.len() implies field_text(#[trigger] fa@[k], true)
                        == field_text(fb@[k], true) by {
                        reveal(field_attrs_text);
                        assert(same_field_layout(fa@[k], fb@[k]));
                    }
                    lemma_fields_text_pointwise(fa@, fb@, true);
                },
                _ => {},
            }
        },
        (RegisterCluster::Cluster(x), RegisterCluster::Cluster(y)) => {
            lemma_same_layouts_text(x.children@, y.children@);
        },
        _ => {},
    }
}

/// Trees that differ only in enumerated values and write constraints have
/// the same skeleton text, and so the same skeleton digest.
pub proof fn lemma_same_layouts_text(a: Seq<RegisterCluster>, b: Seq<RegisterCluster>)
    requires
        same_layouts(a, b),
    ensures
        nodes_text(a, true) == nodes_text(b, true),
        short_digest(nodes_text(a, true)) == short_digest(nodes_text(b, true)),
    decreases a,
{
    assert forall|k: int| 0 <= k < a.len() implies node_text(#[trigger] a[k], true) == node_text(b[k], true) by {
        assert(same_layout(a[k], b[k]));
        lemma_same_layout_text(a[k], b[k]);
    }
    lemma_nodes_text_pointwise(a, b, true);
}

proof fn lemma_digit_char(d: nat)
    requires
        d < 10,
    ensures
        digit_text(d).len() == 1,
        digit_text(d)[0] as u32 == 48 + d,
{
    reveal_strlit("0");
    reveal_strlit("1");
    reveal_strlit("2");
    reveal_strlit("3");
    reveal_strlit("4");
    reveal_strlit("5");
    reveal_strlit("6");
    reveal_strlit("7");
    reveal_strlit("8");
    reveal_strlit("9");
}

pub open spec fn digit_char(d: nat) -> char {
    digit_text(d)[0]
}

pub open spec fn char0(t: nat) -> char {
    if t / 10 == 100 {
        digit_char(1)
    } else {
        ' '
    }
}

pub open spec fn char1(t: nat) -> char {
    if t / 10 == 100 {
        digit_char(0)
    } else if t / 10 >= 10 {
        digit_char(t / 100)
    } else {
        ' '
    }
}

pub open spec fn char2(t: nat) -> char {
    digit_char((t / 10) % 10)
}

pub open spec fn char4(t: nat) -> char {
    digit_char(t % 10)
}

/// The code point of each character of a percentage's text.
proof fn lemma_percent_chars(t: nat)
    requires
        t <= 1000,
    ensures
        percent_text(t).len() == 6,
        percent_text(t)[0] == char0(t),
        percent_text(t)[1] == char1(t),
        percent_text(t)[2] == char2(t),
        percent_text(t)[3] == '.',
        percent_text(t)[4] == char4(t),
        percent_text(t)[5] == '%',
{
    reveal_strlit("  ");
    reveal_strlit(" ");
    reveal_strlit(".");
    reveal_strlit("%");
    let w = t / 10;
    lemma_digit_char(t % 10);
    lemma_digit_char(w % 10);
    if w < 10 {
        assert(dec_text(w) == digit_text(w));
    } else if w < 100 {
        lemma_digit_char(w / 10);
        assert(dec_text(w / 10) == digit_text(w / 10));
        assert(dec_text(w) == dec_text(w / 10) + digit_text(w % 10));
        assert(w / 10 == t / 100);
    } else {
        lemma_digit_char(1);
        lemma_digit_char(0);
        assert(dec_text(1) == digit_text(1));
        assert(dec_text(10) == dec_text(1) + digit_text(0));
        assert(dec_text(w) == dec_text(10) + digit_text(0));
    }
}

/// Where the texts of two ratios first differ, the smaller ratio has the
/// smaller character.
proof fn lemma_char_order(t1: nat, t2: nat)
    requires
        t1 < t2 <= 1000,
    ensures
        (char0(t1) as u32) < (char0(t2) as u32) || (char0(t1) == char0(t2) && (char1(t1) as u32) < (char1(
            t2,
        ) as u32)) || (char0(t1) == char0(t2) && char1(t1) == char1(t2) && (char2(t1) as u32) < (char2(
            t2,
        ) as u32)) || (char0(t1) == char0(t2) && char1(t1) == char1(t2) && char2(t1) == char2(t2) && (char4(
            t1,
        ) as u32) < (char4(t2) as u32)),
{
    let w1 = t1 / 10;
    let w2 = t2 / 10;
    vstd::arithmetic::div_mod::lemma_fundamental_div_mod(t1 as int, 10);
    vstd::arithmetic::div_mod::lemma_fundamental_div_mod(t2 as int, 10);
    vstd::arithmetic::div_mod::lemma_fundamental_div_mod(w1 as int, 10);
    vstd::arithmetic::div_mod::lemma_fundamental_div_mod(w2 as int, 10);
    vstd::arithmetic::div_mod::lemma_div_denominator(t1 as int, 10, 10);
    vstd::arithmetic::div_mod::lemma_div_denominator(t2 as int, 10, 10);
    lemma_digit_char(t1 % 10);
    lemma_digit_char(t2 % 10);
    lemma_digit_char(w1 % 10);
    lemma_digit_char(w2 % 10);
    lemma_digit_char(0);
    lemma_digit_char(1);
    if w1 >= 10 && w1 < 100 {
        lemma_digit_char(t1 / 100);
    }
    if w2 >= 10 && w2 < 100 {
        lemma_digit_char(t2 / 100);
    }
}

/// On texts that agree before index `i` and differ there, the order is
/// decided by the characters at `i`, whatever follows.
proof fn lemma_lex_first_difference(a: Seq<char>, b: Seq<char>, x: Seq<char>, y: Seq<char>, i: int)
    requires
        a.len() == b.len(),
        0 <= i < a.len(),
        forall|k: int| 0 <= k < i ==> a[k] == b[k],
        (a[i] as u32) != (b[i] as u32),
    ensures
        lex_le(a + x, b + y) == ((a[i] as u32) < (b[i] as u32)),
    decreases i,
{
    assert((a + x)[0] == a[0] && (b + y)[0] == b[0]);
    if i > 0 {
        lemma_lex_first_difference(a.skip(1), b.skip(1), x, y, i - 1);
        assert((a + x).skip(1) =~= a.skip(1) + x);
        assert((b + y).skip(1) =~= b.skip(1) + y);
    }
}

/// Report lines order as their ratios do: the fixed-width percentage text
/// of a smaller ratio comes strictly first, whatever follows it.
pub proof fn lemma_percent_order(t1: nat, t2: nat, x: Seq<char>, y: Seq<char>)
    requires
        t1 < t2 <= 1000,
    ensures
        lex_le(percent_text(t1) + x, percent_text(t2) + y),
        !lex_le(percent_text(t2) + y, percent_text(t1) + x),
{
    lemma_percent_chars(t1);
    lemma_percent_chars(t2);
    lemma_char_order(t1, t2);
    let a = percent_text(t1);
    let b = percent_text(t2);
    let i: int = if char0(t1) != char0(t2) {
        0
    } else if char1(t1) != char1(t2) {
        1
    } else if char2(t1) != char2(t2) {
        2
    } else {
        4
    };
    assert(a[i] != b[i] && (a[i] as u32) < (b[i] as u32));
    lemma_lex_first_difference(a, b, x, y, i);
    lemma_lex_first_difference(b, a, y, x, i);
}

} // verus!
