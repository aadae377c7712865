//! Canonical text of a register tree, in tree order.
//!
//! Each node is one line that starts with a keyword, followed by one line
//! per attribute that it has; a cluster's children stand between its lines
//! and an `end-cluster` line. Free text is escaped so that it stays on its
//! line. With `erase` set, the
//! enumerated values and write constraints of every field are left out,
//! which gives the skeleton of the tree.
use vstd::prelude::*;

use vstd::string::{StrSliceExecFns, StringExecFns};

use crate::model::{
    Cluster, Dim, EnumeratedValue, EnumeratedValues, Field, Properties, Register, RegisterCluster,
    WriteConstraint,
};
use crate::text::{dec_text, push_dec};

verus! {

/// A character as it stands in the text: backslash and newline are
/// written as `\\` and `\n`, so that no free text can end a line.
pub open spec fn esc_char(c: char) -> Seq<char> {
    if c == '\\' {
        "\\\\"@
    } else if c == '\n' {
        "\\n"@
    } else {
        seq![c]
    }
}

pub open spec fn escaped(s: Seq<char>) -> Seq<char>
    decreases s.len(),
{
    if s.len() == 0 {
        Seq::empty()
    } else {
        escaped(s.drop_last()) + esc_char(s.last())
    }
}

/// Escaped text holds no newline.
pub proof fn lemma_escaped_single_line(s: Seq<char>)
    ensures
        !escaped(s).contains('\n'),
    decreases s.len(),
{
    reveal_strlit("\\\\");
    reveal_strlit("\\n");
    if s.len() > 0 {
        lemma_escaped_single_line(s.drop_last());
        let c = s.last();
        assert(!esc_char(c).contains('\n'));
        let a = escaped(s.drop_last());
        let b = esc_char(c);
        assert forall|i: int| 0 <= i < (a + b).len() implies (a + b)[i] != '\n' by {
            if i < a.len() {
                assert((a + b)[i] == a[i]);
            } else {
                assert((a + b)[i] == b[i - a.len()]);
            }
        }
    }
}

pub open spec fn opt_num_text(v: Option<u64>) -> Seq<char> {
    match v {
        None => "~"@,
        Some(x) => dec_text(x as nat),
    }
}

/// A line `<key> <text>` where the text is present, nothing otherwise.
pub open spec fn text_line(key: Seq<char>, t: Option<String>) -> Seq<char> {
    match t {
        None => Seq::empty(),
        Some(s) => key + " "@ + escaped(s@) + "\n"@,
    }
}

/// A line `<key> <number>` where the number is present.
pub open spec fn num_line(key: Seq<char>, v: Option<u64>) -> Seq<char> {
    match v {
        None => Seq::empty(),
        Some(x) => key + " "@ + dec_text(x as nat) + "\n"@,
    }
}

pub open spec fn u32_line(key: Seq<char>, v: Option<u32>) -> Seq<char> {
    match v {
        None => Seq::empty(),
        Some(x) => key + " "@ + dec_text(x as nat) + "\n"@,
    }
}

pub open spec fn bool_line(key: Seq<char>, v: Option<bool>) -> Seq<char> {
    match v {
        None => Seq::empty(),
        Some(b) => key + " "@ + bool_text(b) + "\n"@,
    }
}

pub open spec fn index_items(s: Seq<String>) -> Seq<char>
    decreases s.len(),
{
    if s.len() == 0 {
        Seq::empty()
    } else {
        index_items(s.drop_last()) + " "@ + escaped(s.last()@)
    }
}

#[verifier::opaque]
pub open spec fn dim_text(d: Option<Dim>) -> Seq<char> {
    match d {
        None => Seq::empty(),
        Some(d) => "dim "@ + dec_text(d.count as nat) + " "@ + dec_text(d.increment as nat) + "\n"@
            + match d.indexes {
            None => Seq::empty(),
            Some(v) => "dim-index"@ + index_items(v@) + "\n"@,
        } + text_line("dim-name"@, d.name),
    }
}

#[verifier::opaque]
pub open spec fn props_text(p: Properties) -> Seq<char> {
    u32_line("size"@, p.size) + text_line("access"@, p.access) + text_line("protection"@, p.protection)
        + num_line("reset-value"@, p.reset_value) + num_line("reset-mask"@, p.reset_mask)
}

pub open spec fn bool_text(b: bool) -> Seq<char> {
    if b {
        "true"@
    } else {
        "false"@
    }
}

pub open spec fn constraint_text(w: Option<WriteConstraint>) -> Seq<char> {
    match w {
        None => Seq::empty(),
        Some(WriteConstraint::WriteAsRead(b)) => "write-constraint write-as-read "@ + bool_text(b) + "\n"@,
        Some(WriteConstraint::UseEnumeratedValues(b)) => "write-constraint use-enumerated-values "@
            + bool_text(b) + "\n"@,
        Some(WriteConstraint::Range(a, b)) => "write-constraint range "@ + dec_text(a as nat) + " "@
            + dec_text(b as nat) + "\n"@,
    }
}

pub open spec fn value_text(v: EnumeratedValue) -> Seq<char> {
    "value "@ + escaped(v.name@) + " = "@ + opt_num_text(v.value) + "\n"@ + bool_line("is-default"@, v.is_default)
        + text_line("description"@, v.description)
}

pub open spec fn values_text(s: Seq<EnumeratedValue>) -> Seq<char>
    decreases s.len(),
{
    if s.len() == 0 {
        Seq::empty()
    } else {
        values_text(s.drop_last()) + value_text(s.last())
    }
}

/// A table's line; an unnamed table has no space after the keyword.
pub open spec fn table_text(t: EnumeratedValues) -> Seq<char> {
    let head = match t.name {
        None => "enumerated-values\n"@,
        Some(n) => "enumerated-values "@ + escaped(n@) + "\n"@,
    };
    head + text_line("usage"@, t.usage) + text_line("derived-from"@, t.derived_from) + values_text(t.values@)
}

pub open spec fn tables_text(s: Seq<EnumeratedValues>) -> Seq<char>
    decreases s.len(),
{
    if s.len() == 0 {
        Seq::empty()
    } else {
        tables_text(s.drop_last()) + table_text(s.last())
    }
}

#[verifier::opaque]
pub open spec fn field_attrs_text(f: Field) -> Seq<char> {
    text_line("description"@, f.description) + dim_text(f.dim) + text_line("access"@, f.access) + text_line(
        "modified-write-values"@,
        f.modified_write_values,
    ) + text_line("read-action"@, f.read_action) + text_line("derived-from"@, f.derived_from)
}

pub open spec fn field_text(f: Field, erase: bool) -> Seq<char> {
    "field "@ + escaped(f.name@) + " @"@ + dec_text(f.bit_offset as nat) + " width "@ + dec_text(
        f.bit_width as nat,
    ) + "\n"@ + field_attrs_text(f) + if erase {
        Seq::empty()
    } else {
        constraint_text(f.write_constraint) + tables_text(f.enumerated_values@)
    }
}

pub open spec fn fields_text(s: Seq<Field>, erase: bool) -> Seq<char>
    decreases s.len(),
{
    if s.len() == 0 {
        Seq::empty()
    } else {
        fields_text(s.drop_last(), erase) + field_text(s.last(), erase)
    }
}

#[verifier::opaque]
pub open spec fn register_names_text(r: Register) -> Seq<char> {
    text_line("description"@, r.description) + text_line("display-name"@, r.display_name) + dim_text(r.dim)
        + text_line("alternate-group"@, r.alternate_group) + text_line(
        "alternate-register"@,
        r.alternate_register,
    )
}

#[verifier::opaque]
pub open spec fn register_access_text(r: Register) -> Seq<char> {
    props_text(r.properties) + text_line("datatype"@, r.datatype) + text_line(
        "modified-write-values"@,
        r.modified_write_values,
    ) + constraint_text(r.write_constraint) + text_line("read-action"@, r.read_action) + text_line(
        "derived-from"@,
        r.derived_from,
    )
}

#[verifier::opaque]
pub open spec fn register_attrs_text(r: Register) -> Seq<char> {
    register_names_text(r) + register_access_text(r)
}

/// A register's line and attributes; a register with a field list, even
/// an empty one, has a `fields` line before its fields.
pub open spec fn register_text(r: Register, erase: bool) -> Seq<char> {
    "register "@ + escaped(r.name@) + " @"@ + dec_text(r.address_offset as nat) + "\n"@ + register_attrs_text(r)
        + match r.fields {
        None => Seq::empty(),
        Some(v) => "fields\n"@ + fields_text(v@, erase),
    }
}

#[verifier::opaque]
pub open spec fn cluster_attrs_text(c: Cluster) -> Seq<char> {
    text_line("description"@, c.description) + dim_text(c.dim) + text_line("alternate-cluster"@, c.alternate_cluster)
        + text_line("header-struct-name"@, c.header_struct_name) + props_text(c.default_properties) + text_line(
        "derived-from"@,
        c.derived_from,
    )
}

pub open spec fn node_text(n: RegisterCluster, erase: bool) -> Seq<char>
    decreases n,
{
    match n {
        RegisterCluster::Register(r) => register_text(r, erase),
        RegisterCluster::Cluster(c) => "cluster "@ + escaped(c.name@) + " @"@ + dec_text(c.address_offset as nat)
            + "\n"@ + cluster_attrs_text(c) + nodes_text(c.children@, erase) + "end-cluster\n"@,
    }
}

pub open spec fn nodes_text(s: Seq<RegisterCluster>, erase: bool) -> Seq<char>
    decreases s,
{
    if s.len() == 0 {
        Seq::empty()
    } else {
        nodes_text(s.drop_last(), erase) + node_text(s.last(), erase)
    }
}

fn push_escaped(out: &mut String, s: &str)
    ensures
        final(out)@ == old(out)@ + escaped(s@),
{
    let n = s.unicode_len();
    let mut i: usize = 0;
    while i < n
        invariant
            n == s@.len(),
            i <= n,
            out@ == old(out)@ + escaped(s@.take(i as int)),
        decreases n - i,
    {
        let c = s.get_char(i);
        if c == '\\' {
            out.append("\\\\");
        } else if c == '\n' {
            out.append("\\n");
        } else {
            let one = s.substring_char(i, i + 1);
            assert(one@ =~= seq![c]);
            out.append(one);
        }
        assert(s@.take(i + 1).drop_last() =~= s@.take(i as int));
        assert(s@.take(i + 1).last() == c);
        i = i + 1;
    }
    assert(s@.take(n as int) =~= s@);
}

fn push_opt_num(out: &mut String, v: Option<u64>)
    ensures
        final(out)@ == old(out)@ + opt_num_text(v),
{
    match v {
        None => out.append("~"),
        Some(x) => push_dec(out, x),
    }
}

fn push_text_line(out: &mut String, key: &str, t: &Option<String>)
    ensures
        final(out)@ == old(out)@ + text_line(key@, *t),
{
    match t {
        None => {
            assert(out@ =~= old(out)@ + text_line(key@, *t));
        },
        Some(s) => {
            out.append(key);
            out.append(" ");
            push_escaped(out, s.as_str());
            out.append("\n");
            assert(out@ =~= old(out)@ + text_line(key@, *t));
        },
    }
}

fn push_num_line(out: &mut String, key: &str, v: Option<u64>)
    ensures
        final(out)@ == old(out)@ + num_line(key@, v),
{
    match v {
        None => {
            assert(out@ =~= old(out)@ + num_line(key@, v));
        },
        Some(x) => {
            out.append(key);
            out.append(" ");
            push_dec(out, x);
            out.append("\n");
            assert(out@ =~= old(out)@ + num_line(key@, v));
        },
    }
}

fn push_u32_line(out: &mut String, key: &str, v: Option<u32>)
    ensures
        final(out)@ == old(out)@ + u32_line(key@, v),
{
    match v {
        None => {
            assert(out@ =~= old(out)@ + u32_line(key@, v));
        },
        Some(x) => {
            out.append(key);
            out.append(" ");
            push_dec(out, x as u64);
            out.append("\n");
            assert(out@ =~= old(out)@ + u32_line(key@, v));
        },
    }
}

fn push_bool(out: &mut String, b: bool)
    ensures
        final(out)@ == old(out)@ + bool_text(b),
{
    if b {
        out.append("true");
    } else {
        out.append("false");
    }
}

fn push_bool_line(out: &mut String, key: &str, v: Option<bool>)
    ensures
        final(out)@ == old(out)@ + bool_line(key@, v),
{
    match v {
        None => {
            assert(out@ =~= old(out)@ + bool_line(key@, v));
        },
        Some(b) => {
            out.append(key);
            out.append(" ");
            push_bool(out, b);
            out.append("\n");
            assert(out@ =~= old(out)@ + bool_line(key@, v));
        },
    }
}

fn push_index_items(out: &mut String, s: &Vec<String>)
    ensures
        final(out)@ == old(out)@ + index_items(s@),
{
    let mut i: usize = 0;
    while i < s.len()
        invariant
            i <= s@.len(),
            out@ == old(out)@ + index_items(s@.take(i as int)),
        decreases s@.len() - i,
    {
        out.append(" ");
        push_escaped(out, s[i].as_str());
        assert(s@.take(i + 1).drop_last() =~= s@.take(i as int));
        i = i + 1;
    }
    assert(s@.take(i as int) =~= s@);
}

fn push_dim(out: &mut String, d: &Option<Dim>)
    ensures
        final(out)@ == old(out)@ + dim_text(*d),
{
    reveal(dim_text);
    match d {
        None => {
            assert(out@ =~= old(out)@ + dim_text(*d));
        },
        Some(d) => {
            out.append("dim ");
            push_dec(out, d.count as u64);
            out.append(" ");
            push_dec(out, d.increment as u64);
            out.append("\n");
            match &d.indexes {
                None => {},
                Some(v) => {
                    out.append("dim-index");
                    push_index_items(out, v);
                    out.append("\n");
                },
            }
            push_text_line(out, "dim-name", &d.name);
            assert(out@ =~= old(out)@ + dim_text(Some(*d)));
        },
    }
}

fn push_props(out: &mut String, p: &Properties)
    ensures
        final(out)@ == old(out)@ + props_text(*p),
{
    reveal(props_text);
    push_u32_line(out, "size", p.size);
    push_text_line(out, "access", &p.access);
    push_text_line(out, "protection", &p.protection);
    push_num_line(out, "reset-value", p.reset_value);
    push_num_line(out, "reset-mask", p.reset_mask);
    assert(out@ =~= old(out)@ + props_text(*p));
}

fn push_constraint(out: &mut String, w: Option<WriteConstraint>)
    ensures
        final(out)@ == old(out)@ + constraint_text(w),
{
    match w {
        None => {
            assert(out@ =~= old(out)@ + constraint_text(w));
        },
        Some(WriteConstraint::WriteAsRead(b)) => {
            out.append("write-constraint write-as-read ");
            push_bool(out, b);
            out.append("\n");
            assert(out@ =~= old(out)@ + constraint_text(w));
        },
        Some(WriteConstraint::UseEnumeratedValues(b)) => {
            out.append("write-constraint use-enumerated-values ");
            push_bool(out, b);
            out.append("\n");
            assert(out@ =~= old(out)@ + constraint_text(w));
        },
        Some(WriteConstraint::Range(a, b)) => {
            out.append("write-constraint range ");
            push_dec(out, a);
            out.append(" ");
            push_dec(out, b);
            out.append("\n");
            assert(out@ =~= old(out)@ + constraint_text(w));
        },
    }
}

fn push_value(out: &mut String, v: &EnumeratedValue)
    ensures
        final(out)@ == old(out)@ + value_text(*v),
{
    out.append("value ");
    push_escaped(out, v.name.as_str());
    out.append(" = ");
    push_opt_num(out, v.value);
    out.append("\n");
    push_bool_line(out, "is-default", v.is_default);
    push_text_line(out, "description", &v.description);
    assert(out@ =~= old(out)@ + value_text(*v));
}

fn push_values(out: &mut String, s: &Vec<EnumeratedValue>)
    ensures
        final(out)@ == old(out)@ + values_text(s@),
{
    let mut i: usize = 0;
    while i < s.len()
        invariant
            i <= s@.len(),
            out@ == old(out)@ + values_text(s@.take(i as int)),
        decreases s@.len() - i,
    {
        push_value(out, &s[i]);
        assert(s@.take(i + 1).drop_last() =~= s@.take(i as int));
        i = i + 1;
    }
    assert(s@.take(i as int) =~= s@);
}

fn push_table(out: &mut String, t: &EnumeratedValues)
    ensures
        final(out)@ == old(out)@ + table_text(*t),
{
    match &t.name {
        None => out.append("enumerated-values\n"),
        Some(n) => {
            out.append("enumerated-values ");
            push_escaped(out, n.as_str());
            out.append("\n");
        },
    }
    push_text_line(out, "usage", &t.usage);
    push_text_line(out, "derived-from", &t.derived_from);
    push_values(out, &t.values);
    assert(out@ =~= old(out)@ + table_text(*t));
}

fn push_tables(out: &mut String, s: &Vec<EnumeratedValues>)
    ensures
        final(out)@ == old(out)@ + tables_text(s@),
{
    let mut i: usize = 0;
    while i < s.len()
        invariant
            i <= s@.len(),
            out@ == old(out)@ + tables_text(s@.take(i as int)),
        decreases s@.len() - i,
    {
        push_table(out, &s[i]);
        assert(s@.take(i + 1).drop_last() =~= s@.take(i as int));
        i = i + 1;
    }
    assert(s@.take(i as int) =~= s@);
}

#[verifier::rlimit(40)]
fn push_field_attrs(out: &mut String, f: &Field)
    ensures
        final(out)@ == old(out)@ + field_attrs_text(*f),
{
    reveal(field_attrs_text);
    push_text_line(out, "description", &f.description);
    push_dim(out, &f.dim);
    push_text_line(out, "access", &f.access);
    push_text_line(out, "modified-write-values", &f.modified_write_values);
    push_text_line(out, "read-action", &f.read_action);
    push_text_line(out, "derived-from", &f.derived_from);
    assert(out@ =~= old(out)@ + field_attrs_text(*f));
}

#[verifier::rlimit(40)]
fn push_field(out: &mut String, f: &Field, erase: bool)
    ensures
        final(out)@ == old(out)@ + field_text(*f, erase),
{
    out.append("field ");
    push_escaped(out, f.name.as_str());
    out.append(" @");
    push_dec(out, f.bit_offset as u64);
    out.append(" width ");
    push_dec(out, f.bit_width as u64);
    out.append("\n");
    push_field_attrs(out, f);
    if !erase {
        push_constraint(out, f.write_constraint);
        push_tables(out, &f.enumerated_values);
    }
    assert(out@ =~= old(out)@ + field_text(*f, erase));
}

fn push_fields(out: &mut String, s: &Vec<Field>, erase: bool)
    ensures
        final(out)@ == old(out)@ + fields_text(s@, erase),
{
    let mut i: usize = 0;
    while i < s.len()
        invariant
            i <= s@.len(),
            out@ == old(out)@ + fields_text(s@.take(i as int), erase),
        decreases s@.len() - i,
    {
        push_field(out, &s[i], erase);
        assert(s@.take(i + 1).drop_last() =~= s@.take(i as int));
        i = i + 1;
    }
    assert(s@.take(i as int) =~= s@);
}

fn push_register_names(out: &mut String, r: &Register)
    ensures
        final(out)@ == old(out)@ + register_names_text(*r),
{
    reveal(register_names_text);
    push_text_line(out, "description", &r.description);
    push_text_line(out, "display-name", &r.display_name);
    push_dim(out, &r.dim);
    push_text_line(out, "alternate-group", &r.alternate_group);
    push_text_line(out, "alternate-register", &r.alternate_register);
    assert(out@ =~= old(out)@ + register_names_text(*r));
}

fn push_register_access(out: &mut String, r: &Register)
    ensures
        final(out)@ == old(out)@ + register_access_text(*r),
{
    reveal(register_access_text);
    push_props(out, &r.properties);
    push_text_line(out, "datatype", &r.datatype);
    push_text_line(out, "modified-write-values", &r.modified_write_values);
    push_constraint(out, r.write_constraint);
    push_text_line(out, "read-action", &r.read_action);
    push_text_line(out, "derived-from", &r.derived_from);
    assert(out@ =~= old(out)@ + register_access_text(*r));
}

fn push_register_attrs(out: &mut String, r: &Register)
    ensures
        final(out)@ == old(out)@ + register_attrs_text(*r),
{
    reveal(register_attrs_text);
    push_register_names(out, r);
    push_register_access(out, r);
    assert(out@ =~= old(out)@ + register_attrs_text(*r));
}

#[verifier::rlimit(40)]
fn push_register(out: &mut String, r: &Register, erase: bool)
    ensures
        final(out)@ == old(out)@ + register_text(*r, erase),
{
    out.append("register ");
    push_escaped(out, r.name.as_str());
    out.append(" @");
    push_dec(out, r.address_offset as u64);
    out.append("\n");
    push_register_attrs(out, r);
    match &r.fields {
        None => {},
        Some(v) => {
            out.append("fields\n");
            push_fields(out, v, erase);
        },
    }
    assert(out@ =~= old(out)@ + register_text(*r, erase));
}

#[verifier::rlimit(40)]
fn push_cluster_attrs(out: &mut String, c: &Cluster)
    ensures
        final(out)@ == old(out)@ + cluster_attrs_text(*c),
{
    reveal(cluster_attrs_text);
    push_text_line(out, "description", &c.description);
    push_dim(out, &c.dim);
    push_text_line(out, "alternate-cluster", &c.alternate_cluster);
    push_text_line(out, "header-struct-name", &c.header_struct_name);
    push_props(out, &c.default_properties);
    push_text_line(out, "derived-from", &c.derived_from);
    assert(out@ =~= old(out)@ + cluster_attrs_text(*c));
}

#[verifier::rlimit(40)]
fn push_node(out: &mut String, n: &RegisterCluster, erase: bool)
    ensures
        final(out)@ == old(out)@ + node_text(*n, erase),
    decreases n,
{
    match n {
        RegisterCluster::Register(r) => push_register(out, r, erase),
        RegisterCluster::Cluster(c) => {
            out.append("cluster ");
            push_escaped(out, c.name.as_str());
            out.append(" @");
            push_dec(out, c.address_offset as u64);
            out.append("\n");
            push_cluster_attrs(out, c);
            push_nodes(out, &c.children, erase);
            out.append("end-cluster\n");
            assert(out@ =~= old(out)@ + node_text(*n, erase));
        },
    }
}

fn push_nodes(out: &mut String, s: &Vec<RegisterCluster>, erase: bool)
    ensures
        final(out)@ == old(out)@ + nodes_text(s@, erase),
    decreases s@,
{
    let mut i: usize = 0;
    while i < s.len()
        invariant
            i <= s@.len(),
            out@ == old(out)@ + nodes_text(s@.take(i as int), erase),
        decreases s@.len() - i,
    {
        assert(decreases_to!(s@ => s@[i as int]));
        push_node(out, &s[i], erase);
        assert(s@.take(i + 1).drop_last() =~= s@.take(i as int));
        assert(s@.take(i + 1).last() == s@[i as int]);
        i = i + 1;
    }
    assert(s@.take(i as int) =~= s@);
}

/// The canonical text of a register tree; with `erase`, its skeleton.
pub fn tree_text(registers: &Vec<RegisterCluster>, erase: bool) -> (r: String)
    ensures
        r@ == nodes_text(registers@, erase),
{
    let mut out = String::new();
    push_nodes(&mut out, registers, erase);
    assert(out@ =~= nodes_text(registers@, erase));
    out
}

} // verus!
