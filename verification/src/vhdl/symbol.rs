use crate::vhdl::identifier::Identifier;
use crate::vhdl::interface::{decls_view, Decl, Generics, InterfaceDeclarations, Ports};
use crate::vhdl::statement::{refs_of, ResReference, UseClause};
use vstd::prelude::*;

verus! {

/// A package declaration.
#[derive(Debug, PartialEq)]
pub struct Package {
    pub name: Identifier,
    pub body: Option<PackageBody>,
    pub refs: Vec<ResReference>,
}

/// A package body.
#[derive(Debug, PartialEq)]
pub struct PackageBody {
    pub owner: Identifier,
    pub refs: Vec<ResReference>,
}

/// An entity declaration.
#[derive(Debug, PartialEq)]
pub struct Entity {
    pub name: Identifier,
    pub ports: Ports,
    pub generics: Generics,
    pub architectures: Vec<Architecture>,
    pub refs: Vec<ResReference>,
}

/// An architecture body.
#[derive(Debug, PartialEq)]
pub struct Architecture {
    pub name: Identifier,
    pub owner: Identifier,
    pub dependencies: Vec<Identifier>,
    pub refs: Vec<ResReference>,
}

/// A context declaration.
#[derive(Debug, PartialEq)]
pub struct Context {
    pub name: Identifier,
    pub refs: Vec<ResReference>,
}

/// What follows the keyword `context`: a declaration, or a reference to
/// contexts declared elsewhere.
#[derive(Debug, PartialEq)]
pub enum ContextUsage {
    ContextDeclaration(Context),
    ContextReference(Vec<ResReference>),
}

/// A statement of a context clause.
#[derive(Debug, PartialEq)]
pub enum ContextStatement {
    LibraryClause,
    UseClause(UseClause),
}

/// A configuration declaration.
#[derive(Debug, PartialEq)]
pub struct Configuration {
    pub name: Identifier,
    pub owner: Identifier,
    pub dependencies: Vec<Identifier>,
    pub refs: Vec<ResReference>,
}

/// A design unit found in source code.
#[derive(Debug, PartialEq)]
pub enum VHDLSymbol {
    Entity(Entity),
    Context(Context),
    Package(Package),
    Configuration(Configuration),
    Architecture(Architecture),
    PackageBody(PackageBody),
}

/// A design unit over plain sequences.
pub enum Unit {
    Entity {
        name: Identifier,
        generics: Seq<Decl>,
        ports: Seq<Decl>,
        architectures: Seq<Architecture>,
        refs: Seq<ResReference>,
    },
    Context { name: Identifier, refs: Seq<ResReference> },
    Package { name: Identifier, body: Option<PackageBody>, refs: Seq<ResReference> },
    Configuration {
        name: Identifier,
        owner: Identifier,
        deps: Seq<Identifier>,
        refs: Seq<ResReference>,
    },
    Architecture {
        name: Identifier,
        owner: Identifier,
        deps: Seq<Identifier>,
        refs: Seq<ResReference>,
    },
    PackageBody { owner: Identifier, refs: Seq<ResReference> },
}

impl Unit {
    /// The references of the unit.
    pub open spec fn refs(self) -> Seq<ResReference> {
        match self {
            Unit::Entity { refs, .. } => refs,
            Unit::Context { refs, .. } => refs,
            Unit::Package { refs, .. } => refs,
            Unit::Configuration { refs, .. } => refs,
            Unit::Architecture { refs, .. } => refs,
            Unit::PackageBody { refs, .. } => refs,
        }
    }

    /// The unit with `more` appended to its references.
    pub open spec fn with_refs(self, more: Seq<ResReference>) -> Unit {
        match self {
            Unit::Entity { name, generics, ports, architectures, refs } => Unit::Entity {
                name,
                generics,
                ports,
                architectures,
                refs: refs + more,
            },
            Unit::Context { name, refs } => Unit::Context { name, refs: refs + more },
            Unit::Package { name, body, refs } => Unit::Package { name, body, refs: refs + more },
            Unit::Configuration { name, owner, deps, refs } => Unit::Configuration {
                name,
                owner,
                deps,
                refs: refs + more,
            },
            Unit::Architecture { name, owner, deps, refs } => Unit::Architecture {
                name,
                owner,
                deps,
                refs: refs + more,
            },
            Unit::PackageBody { owner, refs } => Unit::PackageBody { owner, refs: refs + more },
        }
    }
}

impl View for VHDLSymbol {
    type V = Unit;

    open spec fn view(&self) -> Unit {
        match self {
            VHDLSymbol::Entity(e) => Unit::Entity {
                name: e.name,
                generics: decls_view(e.generics.0.0@),
                ports: decls_view(e.ports.0.0@),
                architectures: e.architectures@,
                refs: e.refs@,
            },
            VHDLSymbol::Context(c) => Unit::Context { name: c.name, refs: c.refs@ },
            VHDLSymbol::Package(p) => Unit::Package { name: p.name, body: p.body, refs: p.refs@ },
            VHDLSymbol::Configuration(c) => Unit::Configuration {
                name: c.name,
                owner: c.owner,
                deps: c.dependencies@,
                refs: c.refs@,
            },
            VHDLSymbol::Architecture(a) => Unit::Architecture {
                name: a.name,
                owner: a.owner,
                deps: a.dependencies@,
                refs: a.refs@,
            },
            VHDLSymbol::PackageBody(b) => Unit::PackageBody { owner: b.owner, refs: b.refs@ },
        }
    }
}

impl VHDLSymbol {
    /// The name of the unit; a package body has none of its own.
    pub fn as_iden(&self) -> (r: Option<&Identifier>)
        ensures
            match *self {
                VHDLSymbol::Entity(e) => r == Some(&e.name),
                VHDLSymbol::Architecture(a) => r == Some(&a.name),
                VHDLSymbol::Package(p) => r == Some(&p.name),
                VHDLSymbol::PackageBody(_) => r is None,
                VHDLSymbol::Configuration(c) => r == Some(&c.name),
                VHDLSymbol::Context(c) => r == Some(&c.name),
            },
    {
        match self {
            VHDLSymbol::Entity(e) => Some(&e.name),
            VHDLSymbol::Architecture(a) => Some(&a.name),
            VHDLSymbol::Package(p) => Some(&p.name),
            VHDLSymbol::PackageBody(_) => None,
            VHDLSymbol::Configuration(c) => Some(&c.name),
            VHDLSymbol::Context(c) => Some(&c.name),
        }
    }

    /// The entity, if the unit is one.
    pub fn as_entity(&self) -> (r: Option<&Entity>)
        ensures
            match *self {
                VHDLSymbol::Entity(e) => r == Some(&e),
                _ => r is None,
            },
    {
        match self {
            VHDLSymbol::Entity(e) => Some(e),
            _ => None,
        }
    }

    /// The configuration, if the unit is one.
    pub fn as_configuration(&self) -> (r: Option<&Configuration>)
        ensures
            match *self {
                VHDLSymbol::Configuration(c) => r == Some(&c),
                _ => r is None,
            },
    {
        match self {
            VHDLSymbol::Configuration(c) => Some(c),
            _ => None,
        }
    }

    /// The architecture, if the unit is one.
    pub fn as_architecture(&self) -> (r: Option<&Architecture>)
        ensures
            match *self {
                VHDLSymbol::Architecture(a) => r == Some(&a),
                _ => r is None,
            },
    {
        match self {
            VHDLSymbol::Architecture(a) => Some(a),
            _ => None,
        }
    }

    /// The entity, if the unit is one.
    pub fn into_entity(self) -> (r: Option<Entity>)
        ensures
            match self {
                VHDLSymbol::Entity(e) => r == Some(e),
                _ => r is None,
            },
    {
        match self {
            VHDLSymbol::Entity(e) => Some(e),
            _ => None,
        }
    }

    /// The architecture, if the unit is one.
    pub fn into_architecture(self) -> (r: Option<Architecture>)
        ensures
            match self {
                VHDLSymbol::Architecture(a) => r == Some(a),
                _ => r is None,
            },
    {
        match self {
            VHDLSymbol::Architecture(a) => Some(a),
            _ => None,
        }
    }

    /// Moves the references of `refs` to the end of the unit's own, leaving
    /// `refs` empty.
    pub fn add_refs(&mut self, refs: &mut Vec<ResReference>)
        ensures
            final(self)@ == old(self)@.with_refs(old(refs)@),
            final(refs)@.len() == 0,
    {
        match self {
            VHDLSymbol::Entity(e) => e.refs.append(refs),
            VHDLSymbol::Architecture(a) => a.refs.append(refs),
            VHDLSymbol::Package(p) => p.refs.append(refs),
            VHDLSymbol::PackageBody(b) => b.refs.append(refs),
            VHDLSymbol::Context(c) => c.refs.append(refs),
            VHDLSymbol::Configuration(c) => c.refs.append(refs),
        }
    }

    /// The references of the unit; the rest is dropped.
    pub fn take_refs(self) -> (r: Vec<ResReference>)
        ensures
            r@ == self@.refs(),
    {
        match self {
            VHDLSymbol::Entity(e) => e.refs,
            VHDLSymbol::Architecture(a) => a.refs,
            VHDLSymbol::Package(p) => p.refs,
            VHDLSymbol::PackageBody(b) => b.refs,
            VHDLSymbol::Context(c) => c.refs,
            VHDLSymbol::Configuration(c) => c.refs,
        }
    }

    /// The references of the unit, in order.
    pub fn get_refs(&self) -> (r: Vec<&ResReference>)
        ensures
            r@.len() == self@.refs().len(),
            forall|i: int| 0 <= i < r@.len() ==> *r@[i] == self@.refs()[i],
    {
        match self {
            VHDLSymbol::Entity(e) => e.get_refs(),
            VHDLSymbol::Architecture(a) => a.get_refs(),
            VHDLSymbol::Package(p) => p.get_refs(),
            VHDLSymbol::PackageBody(b) => b.get_refs(),
            VHDLSymbol::Context(c) => c.get_refs(),
            VHDLSymbol::Configuration(c) => c.get_refs(),
        }
    }
}

impl Package {
    /// The references of the package.
    pub fn get_refs(&self) -> (r: Vec<&ResReference>)
        ensures
            r@.len() == self.refs@.len(),
            forall|i: int| 0 <= i < r@.len() ==> *r@[i] == self.refs@[i],
    {
        refs_of(&self.refs)
    }

    /// The name of the package.
    pub fn get_name(&self) -> (r: &Identifier)
        ensures
            *r == self.name,
    {
        &self.name
    }
}

impl PackageBody {
    /// The references of the package body.
    pub fn get_refs(&self) -> (r: Vec<&ResReference>)
        ensures
            r@.len() == self.refs@.len(),
            forall|i: int| 0 <= i < r@.len() ==> *r@[i] == self.refs@[i],
    {
        refs_of(&self.refs)
    }

    /// The package that the body belongs to.
    pub fn get_owner(&self) -> (r: &Identifier)
        ensures
            *r == self.owner,
    {
        &self.owner
    }

    /// The references of the package body; the rest is dropped.
    pub fn take_refs(self) -> (r: Vec<ResReference>)
        ensures
            r@ == self.refs@,
    {
        self.refs
    }
}

impl Entity {
    /// An entity without a name, generics or ports.
    pub fn new() -> (r: Entity)
        ensures
            r.name is Basic,
            r.name.name().len() == 0,
            r.ports.0.0@.len() == 0,
            r.generics.0.0@.len() == 0,
            r.architectures@.len() == 0,
            r.refs@.len() == 0,
    {
        Entity {
            name: Identifier::new(),
            ports: Ports(InterfaceDeclarations::new()),
            generics: Generics(InterfaceDeclarations::new()),
            architectures: Vec::new(),
            refs: Vec::new(),
        }
    }

    /// Whether the entity is a testbench: it is one if and only if it has no ports.
    pub open spec fn spec_is_testbench(&self) -> bool {
        self.ports.0.0@.len() == 0
    }

    /// Whether the entity is a testbench: it is one if and only if it has no ports.
    pub fn is_testbench(&self) -> (r: bool)
        ensures
            r == self.spec_is_testbench(),
    {
        self.ports.0.0.len() == 0
    }

    /// The name of the entity.
    pub fn get_name(&self) -> (r: &Identifier)
        ensures
            *r == self.name,
    {
        &self.name
    }

    /// The references of the entity.
    pub fn get_refs(&self) -> (r: Vec<&ResReference>)
        ensures
            r@.len() == self.refs@.len(),
            forall|i: int| 0 <= i < r@.len() ==> *r@[i] == self.refs@[i],
    {
        refs_of(&self.refs)
    }

    /// The architectures linked to the entity so far.
    pub fn get_architectures(&self) -> (r: &Vec<Architecture>)
        ensures
            *r == self.architectures,
    {
        &self.architectures
    }

    /// Links one more architecture to the entity.
    pub fn link_architecture(&mut self, arch: Architecture)
        ensures
            final(self).architectures@ == old(self).architectures@.push(arch),
            final(self).name == old(self).name,
            final(self).ports == old(self).ports,
            final(self).generics == old(self).generics,
            final(self).refs == old(self).refs,
    {
        self.architectures.push(arch);
    }
}

impl Architecture {
    /// The name of the architecture.
    pub fn name(&self) -> (r: &Identifier)
        ensures
            *r == self.name,
    {
        &self.name
    }

    /// The entity that the architecture belongs to.
    pub fn entity(&self) -> (r: &Identifier)
        ensures
            *r == self.owner,
    {
        &self.owner
    }

    /// The units that the architecture instantiates or binds.
    pub fn edges(&self) -> (r: &Vec<Identifier>)
        ensures
            *r == self.dependencies,
    {
        &self.dependencies
    }

    /// The references of the architecture.
    pub fn get_refs(&self) -> (r: Vec<&ResReference>)
        ensures
            r@.len() == self.refs@.len(),
            forall|i: int| 0 <= i < r@.len() ==> *r@[i] == self.refs@[i],
    {
        refs_of(&self.refs)
    }
}

impl Context {
    /// The references of the context.
    pub fn get_refs(&self) -> (r: Vec<&ResReference>)
        ensures
            r@.len() == self.refs@.len(),
            forall|i: int| 0 <= i < r@.len() ==> *r@[i] == self.refs@[i],
    {
        refs_of(&self.refs)
    }

    /// The name of the context.
    pub fn get_name(&self) -> (r: &Identifier)
        ensures
            *r == self.name,
    {
        &self.name
    }
}

impl Configuration {
    /// The name of the configuration.
    pub fn name(&self) -> (r: &Identifier)
        ensures
            *r == self.name,
    {
        &self.name
    }

    /// The entity that the configuration configures.
    pub fn entity(&self) -> (r: &Identifier)
        ensures
            *r == self.owner,
    {
        &self.owner
    }

    /// The units that the configuration binds.
    pub fn edges(&self) -> (r: &Vec<Identifier>)
        ensures
            *r == self.dependencies,
    {
        &self.dependencies
    }

    /// The references of the configuration.
    pub fn get_refs(&self) -> (r: Vec<&ResReference>)
        ensures
            r@.len() == self.refs@.len(),
            forall|i: int| 0 <= i < r@.len() ==> *r@[i] == self.refs@[i],
    {
        refs_of(&self.refs)
    }
}

} // verus!
