use crate::text::{extend_str, string_of};
use crate::vhdl::interface::{decls_view, Decl, InterfaceDeclaration};
use crate::vhdl::keyword::Keyword;
use crate::vhdl::statement::{push_tokens, statement_text};
use crate::vhdl::symbol::Entity;
use vstd::prelude::*;

verus! {

/// The subtype and the default of a declaration as they are written.
pub open spec fn type_text(d: Decl) -> Seq<char> {
    statement_text(d.datatype, d.datatype.len() as int) + if d.default.len() > 0 {
        " := "@ + statement_text(d.default, d.default.len() as int)
    } else {
        Seq::empty()
    }
}

/// A declaration as it is written in an interface list.
pub open spec fn decl_text(d: Decl) -> Seq<char> {
    d.name.lexeme() + " : "@ + (match d.mode {
        Some(k) => k.text() + " "@,
        None => Seq::empty(),
    }) + type_text(d)
}

/// The first `n` declarations as the items of an interface list, each on a
/// line of its own, with a semicolon behind each but the last of the list.
pub open spec fn interface_items(decls: Seq<Decl>, n: int) -> Seq<char>
    decreases n,
{
    if n <= 0 {
        Seq::empty()
    } else {
        interface_items(decls, n - 1) + "\n    "@ + decl_text(decls[n - 1]) + if n < decls.len() {
            ";"@
        } else {
            Seq::empty()
        }
    }
}

/// The declarations as an interface list in parentheses.
pub open spec fn interface_part(decls: Seq<Decl>) -> Seq<char> {
    "("@ + interface_items(decls, decls.len() as int) + "\n);"@
}

/// The first `n` declarations, each as the declaration of an object of
/// the class `class`, on a line of its own.
pub open spec fn declaration_part(decls: Seq<Decl>, class: Keyword, n: int) -> Seq<char>
    decreases n,
{
    if n <= 0 {
        Seq::empty()
    } else {
        declaration_part(decls, class, n - 1) + class.text() + " "@ + decls[n - 1].name.lexeme()
            + " : "@ + type_text(decls[n - 1]) + ";\n"@
    }
}

/// The first `n` declarations as the associations of a map, each name
/// with itself, on a line of its own, with a comma behind each but the
/// last of the list.
pub open spec fn map_items(decls: Seq<Decl>, n: int) -> Seq<char>
    decreases n,
{
    if n <= 0 {
        Seq::empty()
    } else {
        map_items(decls, n - 1) + "\n    "@ + decls[n - 1].name.lexeme() + " => "@ + decls[n
            - 1].name.lexeme() + if n < decls.len() {
            ","@
        } else {
            Seq::empty()
        }
    }
}

/// The declarations as a map in which each name is bound to itself.
pub open spec fn instantiation_part(decls: Seq<Decl>) -> Seq<char> {
    "map ("@ + map_items(decls, decls.len() as int) + "\n)"@
}

/// The declaration of a component for the entity.
pub open spec fn component_text(name: Seq<char>, generics: Seq<Decl>, ports: Seq<Decl>) -> Seq<char> {
    "component "@ + name + (if generics.len() > 0 {
        "\ngeneric "@ + interface_part(generics)
    } else {
        Seq::empty()
    }) + (if ports.len() > 0 {
        "\nport "@ + interface_part(ports)
    } else {
        Seq::empty()
    }) + "\nend component;\n"@
}

/// The instantiation of the entity under the label `inst`, from the
/// library `library` if one is named.
pub open spec fn instance_text(
    inst: Seq<char>,
    library: Option<Seq<char>>,
    name: Seq<char>,
    generics: Seq<Decl>,
    ports: Seq<Decl>,
) -> Seq<char> {
    inst + " : "@ + (match library {
        Some(lib) => "entity "@ + lib + "."@,
        None => Seq::empty(),
    }) + name + (if generics.len() > 0 {
        " generic "@ + instantiation_part(generics)
    } else {
        Seq::empty()
    }) + (if ports.len() > 0 {
        " port "@ + instantiation_part(ports)
    } else {
        Seq::empty()
    }) + ";"@
}

/// Appends the subtype and the default of a declaration.
fn push_type(out: &mut Vec<char>, d: &InterfaceDeclaration)
    ensures
        final(out)@ == old(out)@ + type_text(d@),
{
    push_tokens(out, &d.datatype);
    if d.default.len() > 0 {
        extend_str(out, " := ");
        push_tokens(out, &d.default);
    }
    assert(out@ =~= old(out)@ + type_text(d@));
}

/// Appends a declaration as it is written in an interface list.
fn push_decl(out: &mut Vec<char>, d: &InterfaceDeclaration)
    ensures
        final(out)@ == old(out)@ + decl_text(d@),
{
    extend_str(out, d.name.to_string().as_str());
    extend_str(out, " : ");
    let ghost head = out@;
    match d.mode {
        Some(k) => {
            extend_str(out, k.as_str());
            extend_str(out, " ");
            assert(out@ =~= head + (k.text() + " "@));
        },
        None => {
            assert(out@ =~= head + Seq::<char>::empty());
        },
    }
    push_type(out, d);
    assert(out@ =~= old(out)@ + decl_text(d@));
}

/// Appends the declarations as an interface list in parentheses.
fn push_interface_part(out: &mut Vec<char>, decls: &Vec<InterfaceDeclaration>)
    ensures
        final(out)@ == old(out)@ + interface_part(decls_view(decls@)),
{
    let ghost ds = decls_view(decls@);
    extend_str(out, "(");
    let ghost start = out@;
    let mut i: usize = 0;
    assert(out@ =~= start + interface_items(ds, 0));
    while i < decls.len()
        invariant
            i <= decls.len(),
            ds == decls_view(decls@),
            out@ == start + interface_items(ds, i as int),
        decreases decls.len() - i,
    {
        let d = &decls[i];
        assert(ds[i as int] == d@);
        let ghost before = out@;
        extend_str(out, "\n    ");
        push_decl(out, d);
        let ghost mid = out@;
        if i + 1 < decls.len() {
            extend_str(out, ";");
        } else {
            assert(mid + Seq::<char>::empty() =~= mid);
        }
        assert(mid == before + "\n    "@ + decl_text(d@));
        assert(start + (interface_items(ds, i as int) + "\n    "@ + decl_text(d@) + if i + 1
            < ds.len() {
            ";"@
        } else {
            Seq::<char>::empty()
        }) =~= start + interface_items(ds, i as int) + "\n    "@ + decl_text(d@) + if i + 1
            < ds.len() {
            ";"@
        } else {
            Seq::<char>::empty()
        });
        i += 1;
    }
    extend_str(out, "\n);");
    assert(out@ =~= old(out)@ + interface_part(ds));
}

/// Appends the declarations as a map in which each name is bound to itself.
fn push_instantiation_part(out: &mut Vec<char>, decls: &Vec<InterfaceDeclaration>)
    ensures
        final(out)@ == old(out)@ + instantiation_part(decls_view(decls@)),
{
    let ghost ds = decls_view(decls@);
    extend_str(out, "map (");
    let ghost start = out@;
    let mut i: usize = 0;
    assert(out@ =~= start + map_items(ds, 0));
    while i < decls.len()
        invariant
            i <= decls.len(),
            ds == decls_view(decls@),
            out@ == start + map_items(ds, i as int),
        decreases decls.len() - i,
    {
        let d = &decls[i];
        assert(ds[i as int] == d@);
        let name = d.name.to_string();
        extend_str(out, "\n    ");
        extend_str(out, name.as_str());
        extend_str(out, " => ");
        extend_str(out, name.as_str());
        if i + 1 < decls.len() {
            extend_str(out, ",");
        }
        assert(out@ =~= start + map_items(ds, i + 1));
        i += 1;
    }
    extend_str(out, "\n)");
    assert(out@ =~= old(out)@ + instantiation_part(ds));
}

/// The declarations, each as the declaration of an object of the class `class`.
fn declarations(decls: &Vec<InterfaceDeclaration>, class: Keyword) -> (r: String)
    ensures
        r@ == declaration_part(decls_view(decls@), class, decls@.len() as int),
{
    let ghost ds = decls_view(decls@);
    let mut out: Vec<char> = Vec::new();
    let mut i: usize = 0;
    while i < decls.len()
        invariant
            i <= decls.len(),
            ds == decls_view(decls@),
            out@ == declaration_part(ds, class, i as int),
        decreases decls.len() - i,
    {
        let d = &decls[i];
        assert(ds[i as int] == d@);
        let ghost before = out@;
        extend_str(&mut out, class.as_str());
        extend_str(&mut out, " ");
        extend_str(&mut out, d.name.to_string().as_str());
        extend_str(&mut out, " : ");
        push_type(&mut out, d);
        extend_str(&mut out, ";\n");
        assert(out@ =~= declaration_part(ds, class, i + 1));
        i += 1;
    }
    string_of(&out)
}

impl Entity {
    /// The declaration of a component for the entity.
    pub fn into_component(&self) -> (r: String)
        ensures
            r@ == component_text(
                self.name.lexeme(),
                decls_view(self.generics.0.0@),
                decls_view(self.ports.0.0@),
            ),
    {
        let mut out: Vec<char> = Vec::new();
        extend_str(&mut out, "component ");
        extend_str(&mut out, self.name.to_string().as_str());
        if self.generics.0.0.len() > 0 {
            extend_str(&mut out, "\ngeneric ");
            push_interface_part(&mut out, &self.generics.0.0);
        }
        if self.ports.0.0.len() > 0 {
            extend_str(&mut out, "\nport ");
            push_interface_part(&mut out, &self.ports.0.0);
        }
        extend_str(&mut out, "\nend component;\n");
        assert(out@ =~= component_text(
            self.name.lexeme(),
            decls_view(self.generics.0.0@),
            decls_view(self.ports.0.0@),
        ));
        string_of(&out)
    }

    /// The declarations of a signal for each port of the entity.
    pub fn into_signals(&self) -> (r: String)
        ensures
            r@ == declaration_part(
                decls_view(self.ports.0.0@),
                Keyword::Signal,
                self.ports.0.0@.len() as int,
            ),
    {
        declarations(&self.ports.0.0, Keyword::Signal)
    }

    /// The declarations of a constant for each generic of the entity.
    pub fn into_constants(&self) -> (r: String)
        ensures
            r@ == declaration_part(
                decls_view(self.generics.0.0@),
                Keyword::Constant,
                self.generics.0.0@.len() as int,
            ),
    {
        declarations(&self.generics.0.0, Keyword::Constant)
    }

    /// The instantiation of the entity under the label `inst`, from the
    /// library `library` if one is named.
    pub fn into_instance(&self, inst: &str, library: Option<String>) -> (r: String)
        ensures
            r@ == instance_text(
                inst@,
                match library {
                    Some(lib) => Some(lib@),
                    None => None,
                },
                self.name.lexeme(),
                decls_view(self.generics.0.0@),
                decls_view(self.ports.0.0@),
            ),
    {
        let mut out: Vec<char> = Vec::new();
        extend_str(&mut out, inst);
        extend_str(&mut out, " : ");
        match &library {
            Some(lib) => {
                extend_str(&mut out, "entity ");
                extend_str(&mut out, lib.as_str());
                extend_str(&mut out, ".");
            },
            None => {},
        }
        extend_str(&mut out, self.name.to_string().as_str());
        if self.generics.0.0.len() > 0 {
            extend_str(&mut out, " generic ");
            push_instantiation_part(&mut out, &self.generics.0.0);
        }
        if self.ports.0.0.len() > 0 {
            extend_str(&mut out, " port ");
            push_instantiation_part(&mut out, &self.ports.0.0);
        }
        extend_str(&mut out, ";");
        assert(out@ =~= instance_text(
            inst@,
            match library {
                Some(lib) => Some(lib@),
                None => None,
            },
            self.name.lexeme(),
            decls_view(self.generics.0.0@),
            decls_view(self.ports.0.0@),
        ));
        string_of(&out)
    }
}

} // verus!
