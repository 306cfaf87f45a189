use crate::vhdl::identifier::Identifier;
use crate::vhdl::statement::ResReference;
use crate::vhdl::symbol::{Architecture, Configuration};
use vstd::prelude::*;

verus! {

/// A unit that adds edges to the graph of another: an architecture to
/// that of its entity, a configuration to its own.
#[derive(Debug, PartialEq)]
pub enum SubUnit {
    Configuration(Configuration),
    Architecture(Architecture),
}

impl SubUnit {
    /// The architecture as a sub-unit.
    pub fn from_arch(arch: Architecture) -> (r: SubUnit)
        ensures
            r == SubUnit::Architecture(arch),
    {
        SubUnit::Architecture(arch)
    }

    /// The configuration as a sub-unit.
    pub fn from_config(cfg: Configuration) -> (r: SubUnit)
        ensures
            r == SubUnit::Configuration(cfg),
    {
        SubUnit::Configuration(cfg)
    }

    /// The units that the sub-unit instantiates or binds.
    pub fn get_edges(&self) -> (r: &Vec<Identifier>)
        ensures
            *r == match *self {
                SubUnit::Architecture(u) => u.dependencies,
                SubUnit::Configuration(u) => u.dependencies,
            },
    {
        match self {
            SubUnit::Architecture(u) => u.edges(),
            SubUnit::Configuration(u) => u.edges(),
        }
    }

    /// The entity that the sub-unit belongs to.
    pub fn get_entity(&self) -> (r: &Identifier)
        ensures
            *r == match *self {
                SubUnit::Architecture(u) => u.owner,
                SubUnit::Configuration(u) => u.owner,
            },
    {
        match self {
            SubUnit::Architecture(u) => u.entity(),
            SubUnit::Configuration(u) => u.entity(),
        }
    }

    /// The references of the sub-unit.
    pub fn get_refs(&self) -> (r: Vec<&ResReference>)
        ensures
            r@.len() == match *self {
                SubUnit::Architecture(u) => u.refs@.len(),
                SubUnit::Configuration(u) => u.refs@.len(),
            },
            forall|i: int|
                0 <= i < r@.len() ==> *r@[i] == match *self {
                    SubUnit::Architecture(u) => u.refs@[i],
                    SubUnit::Configuration(u) => u.refs@[i],
                },
    {
        match self {
            SubUnit::Architecture(u) => u.get_refs(),
            SubUnit::Configuration(u) => u.get_refs(),
        }
    }
}

} // verus!
