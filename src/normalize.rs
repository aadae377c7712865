//! Canonical form of a register tree: free text removed unless asked to be
//! kept, and every level ordered by its key with ties kept in input order.
use vstd::prelude::*;

use crate::model::{
    Cluster, EnumeratedValue, EnumeratedValues, Field, Interrupt, Peripheral, Register, RegisterCluster,
};
use crate::sorting::{sort_by_key, sort_vec_by_key};

verus! {

/// A text field after normalization: kept as it was, or removed.
pub open spec fn stripped(o: Option<String>, i: Option<String>, keep: bool) -> bool {
    if keep {
        o == i
    } else {
        o is None
    }
}

pub open spec fn norm_value(o: EnumeratedValue, i: EnumeratedValue, keep: bool) -> bool {
    &&& o.name == i.name
    &&& stripped(o.description, i.description, keep)
    &&& o.value == i.value
    &&& o.is_default == i.is_default
}

/// `o` is the stable sort of the pointwise normalization of `i`.
pub open spec fn norm_values_seq(o: Seq<EnumeratedValue>, i: Seq<EnumeratedValue>, keep: bool) -> bool {
    exists|mid: Seq<EnumeratedValue>|
        #![trigger sort_by_key(mid)]
        mid.len() == i.len() && (forall|k: int| 0 <= k < i.len() ==> norm_value(#[trigger] mid[k], i[k], keep))
            && o == sort_by_key(mid)
}

pub open spec fn norm_table(o: EnumeratedValues, i: EnumeratedValues, keep: bool) -> bool {
    &&& o.name == i.name
    &&& o.usage == i.usage
    &&& o.derived_from == i.derived_from
    &&& norm_values_seq(o.values@, i.values@, keep)
}

pub open spec fn norm_field(o: Field, i: Field, keep: bool) -> bool {
    &&& o.name == i.name
    &&& stripped(o.description, i.description, keep)
    &&& o.bit_offset == i.bit_offset
    &&& o.bit_width == i.bit_width
    &&& o.dim == i.dim
    &&& o.access == i.access
    &&& o.modified_write_values == i.modified_write_values
    &&& o.read_action == i.read_action
    &&& o.derived_from == i.derived_from
    &&& o.write_constraint == i.write_constraint
    &&& o.enumerated_values@.len() == i.enumerated_values@.len()
    &&& forall|k: int|
        0 <= k < i.enumerated_values@.len() ==> norm_table(
            #[trigger] o.enumerated_values@[k],
            i.enumerated_values@[k],
            keep,
        )
}

pub open spec fn norm_fields_seq(o: Seq<Field>, i: Seq<Field>, keep: bool) -> bool {
    exists|mid: Seq<Field>|
        #![trigger sort_by_key(mid)]
        mid.len() == i.len() && (forall|k: int| 0 <= k < i.len() ==> norm_field(#[trigger] mid[k], i[k], keep))
            && o == sort_by_key(mid)
}

pub open spec fn norm_register(o: Register, i: Register, keep: bool) -> bool {
    &&& o.name == i.name
    &&& stripped(o.description, i.description, keep)
    &&& stripped(o.display_name, i.display_name, keep)
    &&& o.dim == i.dim
    &&& o.alternate_group == i.alternate_group
    &&& o.alternate_register == i.alternate_register
    &&& o.address_offset == i.address_offset
    &&& o.properties == i.properties
    &&& o.datatype == i.datatype
    &&& o.modified_write_values == i.modified_write_values
    &&& o.write_constraint == i.write_constraint
    &&& o.read_action == i.read_action
    &&& o.derived_from == i.derived_from
    &&& match (o.fields, i.fields) {
        (None, None) => true,
        (Some(a), Some(b)) => norm_fields_seq(a@, b@, keep),
        _ => false,
    }
}

pub open spec fn norm_node(o: RegisterCluster, i: RegisterCluster, keep: bool) -> bool
    decreases i,
{
    match (o, i) {
        (RegisterCluster::Register(a), RegisterCluster::Register(b)) => norm_register(a, b, keep),
        (RegisterCluster::Cluster(a), RegisterCluster::Cluster(b)) => {
            &&& a.name == b.name
            &&& stripped(a.description, b.description, keep)
            &&& a.dim == b.dim
            &&& a.alternate_cluster == b.alternate_cluster
            &&& a.header_struct_name == b.header_struct_name
            &&& a.address_offset == b.address_offset
            &&& a.default_properties == b.default_properties
            &&& a.derived_from == b.derived_from
            &&& norm_nodes_seq(a.children@, b.children@, keep)
        },
        _ => false,
    }
}

pub open spec fn norm_nodes_seq(o: Seq<RegisterCluster>, i: Seq<RegisterCluster>, keep: bool) -> bool
    decreases i,
{
    exists|mid: Seq<RegisterCluster>|
        #![trigger sort_by_key(mid)]
        mid.len() == i.len() && (forall|k: int| 0 <= k < i.len() ==> norm_node(#[trigger] mid[k], i[k], keep))
            && o == sort_by_key(mid)
}

pub open spec fn norm_interrupt(o: Interrupt, i: Interrupt, keep: bool) -> bool {
    &&& o.name == i.name
    &&& stripped(o.description, i.description, keep)
    &&& o.value == i.value
}

/// `o` is the canonical form of `i`.
pub open spec fn norm_peripheral(o: Peripheral, i: Peripheral, keep: bool) -> bool {
    &&& o.name == i.name
    &&& o.group_name == i.group_name
    &&& o.derived_from == i.derived_from
    &&& stripped(o.description, i.description, keep)
    &&& stripped(o.display_name, i.display_name, keep)
    &&& o.base_address == i.base_address
    &&& o.interrupts@.len() == i.interrupts@.len()
    &&& (forall|k: int|
        0 <= k < i.interrupts@.len() ==> norm_interrupt(#[trigger] o.interrupts@[k], i.interrupts@[k], keep))
    &&& match (o.registers, i.registers) {
        (None, None) => true,
        (Some(a), Some(b)) => norm_nodes_seq(a@, b@, keep),
        _ => false,
    }
}

fn strip_text(t: Option<String>, keep: bool) -> (r: Option<String>)
    ensures
        stripped(r, t, keep),
{
    if keep {
        t
    } else {
        None
    }
}

fn normalize_values(v: Vec<EnumeratedValue>, keep: bool) -> (r: Vec<EnumeratedValue>)
    ensures
        norm_values_seq(r@, v@, keep),
{
    let ghost orig = v@;
    let mut rest = v;
    let mut mid: Vec<EnumeratedValue> = Vec::new();
    while rest.len() > 0
        invariant
            mid@.len() <= orig.len(),
            rest@ == orig.skip(mid@.len() as int),
            forall|k: int| 0 <= k < mid@.len() ==> norm_value(#[trigger] mid@[k], orig[k], keep),
        decreases rest.len(),
    {
        let x = rest.remove(0);
        let y = EnumeratedValue {
            name: x.name,
            description: strip_text(x.description, keep),
            value: x.value,
            is_default: x.is_default,
        };
        mid.push(y);
        assert(rest@ =~= orig.skip(mid@.len() as int));
    }
    let ghost m = mid@;
    let r = sort_vec_by_key(mid);
    assert(m.len() == orig.len() && (forall|k: int| 0 <= k < orig.len() ==> norm_value(#[trigger] m[k], orig[k], keep)) && r@ == sort_by_key(m));
    r
}

fn normalize_tables(v: Vec<EnumeratedValues>, keep: bool) -> (r: Vec<EnumeratedValues>)
    ensures
        r@.len() == v@.len(),
        forall|k: int| 0 <= k < v@.len() ==> norm_table(#[trigger] r@[k], v@[k], keep),
{
    let ghost orig = v@;
    let mut rest = v;
    let mut out: Vec<EnumeratedValues> = Vec::new();
    while rest.len() > 0
        invariant
            out@.len() <= orig.len(),
            rest@ == orig.skip(out@.len() as int),
            forall|k: int| 0 <= k < out@.len() ==> norm_table(#[trigger] out@[k], orig[k], keep),
        decreases rest.len(),
    {
        let x = rest.remove(0);
        let y = EnumeratedValues {
            name: x.name,
            usage: x.usage,
            derived_from: x.derived_from,
            values: normalize_values(x.values, keep),
        };
        out.push(y);
        assert(rest@ =~= orig.skip(out@.len() as int));
    }
    out
}

fn normalize_fields(v: Vec<Field>, keep: bool) -> (r: Vec<Field>)
    ensures
        norm_fields_seq(r@, v@, keep),
{
    let ghost orig = v@;
    let mut rest = v;
    let mut mid: Vec<Field> = Vec::new();
    while rest.len() > 0
        invariant
            mid@.len() <= orig.len(),
            rest@ == orig.skip(mid@.len() as int),
            forall|k: int| 0 <= k < mid@.len() ==> norm_field(#[trigger] mid@[k], orig[k], keep),
        decreases rest.len(),
    {
        let x = rest.remove(0);
        let y = Field {
            name: x.name,
            description: strip_text(x.description, keep),
            dim: x.dim,
            bit_offset: x.bit_offset,
            bit_width: x.bit_width,
            access: x.access,
            modified_write_values: x.modified_write_values,
            read_action: x.read_action,
            derived_from: x.derived_from,
            enumerated_values: normalize_tables(x.enumerated_values, keep),
            write_constraint: x.write_constraint,
        };
        mid.push(y);
        assert(rest@ =~= orig.skip(mid@.len() as int));
    }
    let ghost m = mid@;
    let r = sort_vec_by_key(mid);
    assert(m.len() == orig.len() && (forall|k: int| 0 <= k < orig.len() ==> norm_field(#[trigger] m[k], orig[k], keep)) && r@ == sort_by_key(m));
    r
}

fn normalize_register(x: Register, keep: bool) -> (r: Register)
    ensures
        norm_register(r, x, keep),
{
    let fields = match x.fields {
        None => None,
        Some(v) => Some(normalize_fields(v, keep)),
    };
    Register {
        name: x.name,
        description: strip_text(x.description, keep),
        display_name: strip_text(x.display_name, keep),
        dim: x.dim,
        alternate_group: x.alternate_group,
        alternate_register: x.alternate_register,
        address_offset: x.address_offset,
        properties: x.properties,
        datatype: x.datatype,
        modified_write_values: x.modified_write_values,
        write_constraint: x.write_constraint,
        read_action: x.read_action,
        derived_from: x.derived_from,
        fields,
    }
}

fn normalize_node(x: RegisterCluster, keep: bool) -> (r: RegisterCluster)
    ensures
        norm_node(r, x, keep),
    decreases x,
{
    match x {
        RegisterCluster::Register(reg) => RegisterCluster::Register(normalize_register(reg, keep)),
        RegisterCluster::Cluster(c) => {
            let children = normalize_nodes(c.children, keep);
            RegisterCluster::Cluster(
                Cluster {
                    name: c.name,
                    description: strip_text(c.description, keep),
                    dim: c.dim,
                    alternate_cluster: c.alternate_cluster,
                    header_struct_name: c.header_struct_name,
                    address_offset: c.address_offset,
                    default_properties: c.default_properties,
                    derived_from: c.derived_from,
                    children,
                },
            )
        },
    }
}

fn normalize_nodes(v: Vec<RegisterCluster>, keep: bool) -> (r: Vec<RegisterCluster>)
    ensures
        norm_nodes_seq(r@, v@, keep),
    decreases v@,
{
    let ghost orig = v@;
    let mut rest = v;
    let mut mid: Vec<RegisterCluster> = Vec::new();
    while rest.len() > 0
        invariant
            orig == v@,
            mid@.len() <= orig.len(),
            rest@ == orig.skip(mid@.len() as int),
            forall|k: int| 0 <= k < mid@.len() ==> norm_node(#[trigger] mid@[k], orig[k], keep),
        decreases rest.len(),
    {
        let ghost i = mid@.len() as int;
        let x = rest.remove(0);
        assert(x == orig[i]);
        assert(decreases_to!(v@ => orig[i]));
        let y = normalize_node(x, keep);
        mid.push(y);
        assert(rest@ =~= orig.skip(mid@.len() as int));
    }
    let ghost m = mid@;
    let r = sort_vec_by_key(mid);
    assert(m.len() == orig.len() && (forall|k: int| 0 <= k < orig.len() ==> norm_node(#[trigger] m[k], orig[k], keep)) && r@ == sort_by_key(m));
    r
}

fn normalize_interrupts(v: Vec<Interrupt>, keep: bool) -> (r: Vec<Interrupt>)
    ensures
        r@.len() == v@.len(),
        forall|k: int| 0 <= k < v@.len() ==> norm_interrupt(#[trigger] r@[k], v@[k], keep),
{
    let ghost orig = v@;
    let mut rest = v;
    let mut out: Vec<Interrupt> = Vec::new();
    while rest.len() > 0
        invariant
            out@.len() <= orig.len(),
            rest@ == orig.skip(out@.len() as int),
            forall|k: int| 0 <= k < out@.len() ==> norm_interrupt(#[trigger] out@[k], orig[k], keep),
        decreases rest.len(),
    {
        let x = rest.remove(0);
        let y = Interrupt { name: x.name, description: strip_text(x.description, keep), value: x.value };
        out.push(y);
        assert(rest@ =~= orig.skip(out@.len() as int));
    }
    out
}

/// Returns the canonical form of `p`: registers and clusters ordered by
/// address offset, fields by bit offset, enumerated values by value (ties
/// in input order), and, unless `keep_descriptions`, every description and
/// display name removed.
pub fn normalize_peripheral(p: Peripheral, keep_descriptions: bool) -> (r: Peripheral)
    ensures
        norm_peripheral(r, p, keep_descriptions),
{
    let registers = match p.registers {
        None => None,
        Some(v) => Some(normalize_nodes(v, keep_descriptions)),
    };
    Peripheral {
        name: p.name,
        group_name: p.group_name,
        derived_from: p.derived_from,
        description: strip_text(p.description, keep_descriptions),
        display_name: strip_text(p.display_name, keep_descriptions),
        base_address: p.base_address,
        registers,
        interrupts: normalize_interrupts(p.interrupts, keep_descriptions),
    }
}

} // verus!
