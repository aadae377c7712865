//! The register tree of a peripheral, as handed over by a document parser.
use vstd::prelude::*;

use crate::sorting::Keyed;

verus! {

/// One meaning of a field's value.
#[derive(Debug, PartialEq, Eq)]
pub struct EnumeratedValue {
    pub name: String,
    pub description: Option<String>,
    pub value: Option<u64>,
    pub is_default: Option<bool>,
}

/// A named table of enumerated values.
#[derive(Debug, PartialEq, Eq)]
pub struct EnumeratedValues {
    pub name: Option<String>,
    /// Whether the table applies to reads, writes or both, by name.
    pub usage: Option<String>,
    pub derived_from: Option<String>,
    pub values: Vec<EnumeratedValue>,
}

/// The dimension of an array of registers, fields or clusters.
#[derive(Debug, PartialEq, Eq)]
pub struct Dim {
    pub count: u32,
    pub increment: u32,
    pub indexes: Option<Vec<String>>,
    pub name: Option<String>,
}

/// Size, access, protection and reset of a register, or the defaults
/// that a cluster gives its registers. Access and protection are held by
/// name.
#[derive(Debug, PartialEq, Eq)]
pub struct Properties {
    pub size: Option<u32>,
    pub access: Option<String>,
    pub protection: Option<String>,
    pub reset_value: Option<u64>,
    pub reset_mask: Option<u64>,
}

/// What may be written to a field.
#[derive(Debug, Clone, Copy, PartialEq, Eq, Structural)]
pub enum WriteConstraint {
    WriteAsRead(bool),
    UseEnumeratedValues(bool),
    Range(u64, u64),
}

/// A bit range of a register. Access, modified-write values and read
/// action are held by name.
#[derive(Debug, PartialEq, Eq)]
pub struct Field {
    pub name: String,
    pub description: Option<String>,
    pub dim: Option<Dim>,
    pub bit_offset: u32,
    pub bit_width: u32,
    pub access: Option<String>,
    pub modified_write_values: Option<String>,
    pub read_action: Option<String>,
    pub derived_from: Option<String>,
    pub enumerated_values: Vec<EnumeratedValues>,
    pub write_constraint: Option<WriteConstraint>,
}

/// A memory-mapped register. Data type, modified-write values and read
/// action are held by name.
#[derive(Debug, PartialEq, Eq)]
pub struct Register {
    pub name: String,
    pub description: Option<String>,
    pub display_name: Option<String>,
    pub dim: Option<Dim>,
    pub alternate_group: Option<String>,
    pub alternate_register: Option<String>,
    pub address_offset: u32,
    pub properties: Properties,
    pub datatype: Option<String>,
    pub modified_write_values: Option<String>,
    pub write_constraint: Option<WriteConstraint>,
    pub read_action: Option<String>,
    pub derived_from: Option<String>,
    pub fields: Option<Vec<Field>>,
}

/// A named container of registers and clusters.
#[derive(Debug, PartialEq, Eq)]
pub struct Cluster {
    pub name: String,
    pub description: Option<String>,
    pub dim: Option<Dim>,
    pub alternate_cluster: Option<String>,
    pub header_struct_name: Option<String>,
    pub address_offset: u32,
    pub default_properties: Properties,
    pub derived_from: Option<String>,
    pub children: Vec<RegisterCluster>,
}

/// A node of the register tree.
#[derive(Debug, PartialEq, Eq)]
pub enum RegisterCluster {
    Register(Register),
    Cluster(Cluster),
}

/// An interrupt line of a peripheral.
#[derive(Debug, PartialEq, Eq)]
pub struct Interrupt {
    pub name: String,
    pub description: Option<String>,
    pub value: u32,
}

/// A hardware block with its register tree.
#[derive(Debug, PartialEq, Eq)]
pub struct Peripheral {
    pub name: String,
    pub group_name: Option<String>,
    pub derived_from: Option<String>,
    pub description: Option<String>,
    pub display_name: Option<String>,
    pub base_address: u64,
    pub registers: Option<Vec<RegisterCluster>>,
    pub interrupts: Vec<Interrupt>,
}

/// One device description: a name and its peripherals.
#[derive(Debug, PartialEq, Eq)]
pub struct Device {
    pub name: String,
    pub peripherals: Vec<Peripheral>,
}

impl RegisterCluster {
    pub open spec fn offset(&self) -> u32 {
        match self {
            RegisterCluster::Register(r) => r.address_offset,
            RegisterCluster::Cluster(c) => c.address_offset,
        }
    }
}

impl Keyed for RegisterCluster {
    open spec fn sort_key(&self) -> int {
        self.offset() as int
    }

    fn key_le(&self, other: &Self) -> (r: bool) {
        let a = match self {
            RegisterCluster::Register(r) => r.address_offset,
            RegisterCluster::Cluster(c) => c.address_offset,
        };
        let b = match other {
            RegisterCluster::Register(r) => r.address_offset,
            RegisterCluster::Cluster(c) => c.address_offset,
        };
        a <= b
    }
}

impl Keyed for Field {
    open spec fn sort_key(&self) -> int {
        self.bit_offset as int
    }

    fn key_le(&self, other: &Self) -> (r: bool) {
        self.bit_offset <= other.bit_offset
    }
}

/// An absent value sorts before every present one.
pub open spec fn option_key(v: Option<u64>) -> int {
    match v {
        None => 0,
        Some(x) => x as int + 1,
    }
}

impl Keyed for EnumeratedValue {
    open spec fn sort_key(&self) -> int {
        option_key(self.value)
    }

    fn key_le(&self, other: &Self) -> (r: bool) {
        match (self.value, other.value) {
            (None, _) => true,
            (Some(_), None) => false,
            (Some(a), Some(b)) => a <= b,
        }
    }
}

} // verus!
