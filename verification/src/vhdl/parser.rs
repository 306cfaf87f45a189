use crate::vhdl::delimiter::Delimiter;
use crate::vhdl::identifier::Identifier;
use crate::vhdl::interface::{list_decls, Decl, Generics, InterfaceDeclarations, Ports};
use crate::vhdl::keyword::Keyword;
use crate::vhdl::statement::{
    delim_at, ident_at, ident_of, kw_at, lemma_statement_end, spec_configuration_spec,
    spec_instantiation, spec_interface_list, spec_primary_ending, spec_statement,
    spec_subprogram, spec_use_clause, stmts_view, ParseError, ParseErrorKind, ResReference,
    Statement, Stmt,
};
use crate::vhdl::symbol::{
    Architecture, Configuration, Context, ContextUsage, Entity, Package, PackageBody, Unit,
    VHDLSymbol,
};
use crate::vhdl::token::{Token, VHDLToken};
use vstd::prelude::*;

verus! {

/// Which `end` closes the part that is being read.
#[derive(Debug, Clone, Copy, PartialEq, Eq, Structural)]
pub enum EndKind {
    /// The `end` of a design unit.
    Primary,
    /// The `end` of an inner construct, such as `end process`.
    Sub,
}

/// Whether a statement that starts with `end` closes the part.
pub open spec fn exits(kind: EndKind, toks: Seq<Token>) -> bool {
    match kind {
        EndKind::Primary => spec_primary_ending(toks),
        EndKind::Sub => !spec_primary_ending(toks),
    }
}

/// What a declarative or statement part yields: the units it depends on and
/// the references found in it.
pub struct Found {
    pub deps: Seq<Identifier>,
    pub refs: Seq<ResReference>,
}

/// Nothing found.
pub open spec fn nothing() -> Found {
    Found { deps: Seq::empty(), refs: Seq::empty() }
}

/// The error that the tokens end at `pos`.
pub open spec fn ends_at(pos: int) -> ParseError {
    ParseError { index: pos as usize, kind: ParseErrorKind::UnexpectedEnd }
}

/// The error that no identifier stands at `pos`.
pub open spec fn no_name_at(pos: int) -> ParseError {
    ParseError { index: pos as usize, kind: ParseErrorKind::ExpectedIdentifier }
}

/// The error that the keyword `kw` is missing at `pos`.
pub open spec fn no_kw_at(pos: int, kw: Keyword) -> ParseError {
    ParseError { index: pos as usize, kind: ParseErrorKind::ExpectedKeyword(kw) }
}

/// The error, if any, of finding no identifier at `pos`.
pub open spec fn name_fault(tokens: Seq<Token>, pos: int) -> Option<ParseError> {
    if pos < 0 || pos >= tokens.len() {
        Some(ends_at(pos))
    } else if !ident_at(tokens, pos) {
        Some(no_name_at(pos))
    } else {
        None
    }
}

/// The error, if any, of finding no keyword `kw` at `pos`.
pub open spec fn kw_fault(tokens: Seq<Token>, pos: int, kw: Keyword) -> Option<ParseError> {
    if pos < 0 || pos >= tokens.len() {
        Some(ends_at(pos))
    } else if !kw_at(tokens, pos, kw) {
        Some(no_kw_at(pos, kw))
    } else {
        None
    }
}

/// The index after the component declaration, continued at `pos` inside it:
/// generic and port lists and other statements are passed over up to
/// the statement that starts with `end`.
pub open spec fn component_rest(tokens: Seq<Token>, pos: int) -> Result<int, ParseError>
    decreases tokens.len() - pos,
{
    if pos < 0 || pos >= tokens.len() {
        Ok(pos)
    } else if kw_at(tokens, pos, Keyword::End) {
        Ok(spec_statement(tokens, pos).1)
    } else if kw_at(tokens, pos, Keyword::Generic) || kw_at(tokens, pos, Keyword::Port) {
        match spec_interface_list(tokens, pos + 1) {
            Err(e) => Err(e),
            Ok((_, end)) => if pos < end <= tokens.len() {
                component_rest(tokens, end)
            } else {
                Ok(pos)
            },
        }
    } else {
        let end = spec_statement(tokens, pos).1;
        if pos < end <= tokens.len() {
            component_rest(tokens, end)
        } else {
            Ok(pos)
        }
    }
}

/// The name of the component declared at `pos`, where `component` stands,
/// and the index after the declaration.
pub open spec fn spec_component(tokens: Seq<Token>, pos: int) -> Result<(Identifier, int), ParseError> {
    if let Some(e) = kw_fault(tokens, pos, Keyword::Component) {
        Err(e)
    } else if let Some(e) = name_fault(tokens, pos + 1) {
        Err(e)
    } else if pos + 2 >= tokens.len() {
        Err(ends_at(pos + 2))
    } else {
        let start = if kw_at(tokens, pos + 2, Keyword::Is) {
            pos + 3
        } else {
            pos + 2
        };
        match component_rest(tokens, start) {
            Err(e) => Err(e),
            Ok(end) => Ok((ident_of(tokens, pos + 1), end)),
        }
    }
}

/// What the statement part that continues at `pos` yields on top of `acc`,
/// and the index after the `end` that closes it.
///
/// A statement that instantiates a unit adds that unit; every statement adds
/// its references. The bodies of subprograms and processes are read too,
/// and add their references only. Component and package declarations are
/// passed over.
pub open spec fn body_from(tokens: Seq<Token>, pos: int, kind: EndKind, acc: Found) -> Result<
    (Found, int),
    ParseError,
>
    decreases tokens.len() - pos, 0nat,
{
    if pos < 0 || pos >= tokens.len() {
        Ok((acc, pos))
    } else if kw_at(tokens, pos, Keyword::End) {
        let (st, end) = spec_statement(tokens, pos);
        if exits(kind, st.tokens) {
            Ok((acc, end))
        } else if pos < end <= tokens.len() {
            body_from(tokens, end, kind, acc)
        } else {
            Ok((acc, pos))
        }
    } else if kw_at(tokens, pos, Keyword::Function) || kw_at(tokens, pos, Keyword::Begin) {
        let start = spec_statement(tokens, pos).1;
        if pos < start <= tokens.len() {
            match body_from(tokens, start, EndKind::Sub, nothing()) {
                Err(e) => Err(e),
                Ok((inner, end)) => if pos < end <= tokens.len() {
                    body_from(
                        tokens,
                        end,
                        kind,
                        Found { deps: acc.deps, refs: acc.refs + inner.refs },
                    )
                } else {
                    Ok((acc, pos))
                },
            }
        } else {
            Ok((acc, pos))
        }
    } else if kw_at(tokens, pos, Keyword::Component) {
        match spec_component(tokens, pos) {
            Err(e) => Err(e),
            Ok((_, end)) => if pos < end <= tokens.len() {
                body_from(tokens, end, kind, acc)
            } else {
                Ok((acc, pos))
            },
        }
    } else if kw_at(tokens, pos, Keyword::Package) {
        match spec_route(tokens, pos + 1) {
            Err(e) => Err(e),
            Ok((_, end)) => if pos < end <= tokens.len() {
                body_from(tokens, end, kind, acc)
            } else {
                Ok((acc, pos))
            },
        }
    } else {
        let (st, end) = spec_statement(tokens, pos);
        let deps = match spec_instantiation(st.tokens) {
            Some(id) => acc.deps.push(id),
            None => acc.deps,
        };
        if pos < end <= tokens.len() {
            body_from(tokens, end, kind, Found { deps, refs: acc.refs + st.refs })
        } else {
            Ok((acc, pos))
        }
    }
}

/// What the declarative part that continues at `pos` yields on top of
/// `acc`, and the index after the `end` that closes it.
///
/// A configuration specification adds the unit it binds; any other
/// statement adds its references. After `begin` the statement part
/// follows, which runs to the `end` of the design unit. Subprograms,
/// component and package declarations are passed over.
pub open spec fn decl_from(tokens: Seq<Token>, pos: int, kind: EndKind, acc: Found) -> Result<
    (Found, int),
    ParseError,
>
    decreases tokens.len() - pos, 0nat,
{
    if pos < 0 || pos >= tokens.len() {
        Ok((acc, pos))
    } else if kw_at(tokens, pos, Keyword::Begin) {
        match body_from(tokens, pos + 1, EndKind::Primary, nothing()) {
            Err(e) => Err(e),
            Ok((body, end)) => Ok(
                (Found { deps: acc.deps + body.deps, refs: acc.refs + body.refs }, end),
            ),
        }
    } else if kw_at(tokens, pos, Keyword::End) {
        let (st, end) = spec_statement(tokens, pos);
        if exits(kind, st.tokens) {
            Ok((acc, end))
        } else if pos < end <= tokens.len() {
            decl_from(tokens, end, kind, acc)
        } else {
            Ok((acc, pos))
        }
    } else if kw_at(tokens, pos, Keyword::Component) {
        match spec_component(tokens, pos) {
            Err(e) => Err(e),
            Ok((_, end)) => if pos < end <= tokens.len() {
                decl_from(tokens, end, kind, acc)
            } else {
                Ok((acc, pos))
            },
        }
    } else if kw_at(tokens, pos, Keyword::Package) {
        match spec_route(tokens, pos + 1) {
            Err(e) => Err(e),
            Ok((_, end)) => if pos < end <= tokens.len() {
                decl_from(tokens, end, kind, acc)
            } else {
                Ok((acc, pos))
            },
        }
    } else if tokens[pos].ttype is Keyword && spec_subprogram(tokens[pos].ttype->Keyword_0) {
        match subprogram_end(tokens, pos + 1) {
            Err(e) => Err(e),
            Ok(end) => if pos < end <= tokens.len() {
                decl_from(tokens, end, kind, acc)
            } else {
                Ok((acc, pos))
            },
        }
    } else {
        let (st, end) = spec_statement(tokens, pos);
        let next = match spec_configuration_spec(st.tokens) {
            Some(id) => Found { deps: acc.deps.push(id), refs: acc.refs },
            None => Found { deps: acc.deps, refs: acc.refs + st.refs },
        };
        if pos < end <= tokens.len() {
            decl_from(tokens, end, kind, next)
        } else {
            Ok((acc, pos))
        }
    }
}

/// What the declarative part that starts with `is` at `pos` yields.
pub open spec fn spec_declaration(tokens: Seq<Token>, pos: int, kind: EndKind) -> Result<
    (Found, int),
    ParseError,
>
    decreases tokens.len() - pos, 1nat,
{
    if let Some(e) = kw_fault(tokens, pos, Keyword::Is) {
        Err(e)
    } else {
        decl_from(tokens, pos + 1, kind, nothing())
    }
}

/// The index after the subprogram that continues at `pos`: before the
/// semicolon of a mere declaration, or after the `end` of a body.
pub open spec fn subprogram_end(tokens: Seq<Token>, pos: int) -> Result<int, ParseError>
    decreases tokens.len() - pos, 2nat,
{
    if pos < 0 || pos >= tokens.len() {
        Ok(pos)
    } else if kw_at(tokens, pos, Keyword::Is) {
        match spec_declaration(tokens, pos, EndKind::Sub) {
            Err(e) => Err(e),
            Ok((_, end)) => Ok(end),
        }
    } else if delim_at(tokens, pos, Delimiter::Terminator) {
        Ok(pos)
    } else {
        subprogram_end(tokens, pos + 1)
    }
}

/// The references of the package declaration whose declarative part
/// continues at `pos`, on top of `acc`, and the index after the
/// declaration.
///
/// Use clauses and other statements add their references, a nested
/// package those that it holds; components are passed over. The
/// statement that starts with `end` closes the declaration.
pub open spec fn package_rest(tokens: Seq<Token>, pos: int, acc: Seq<ResReference>) -> Result<
    (Seq<ResReference>, int),
    ParseError,
>
    decreases tokens.len() - pos, 0nat,
{
    if pos < 0 || pos >= tokens.len() {
        Ok((acc, pos))
    } else if kw_at(tokens, pos, Keyword::Package) {
        match spec_package(tokens, pos + 1) {
            Err(e) => Err(e),
            Ok((_, more, end)) => if pos < end <= tokens.len() {
                package_rest(tokens, end, acc + more)
            } else {
                Ok((acc, pos))
            },
        }
    } else if kw_at(tokens, pos, Keyword::Component) {
        match spec_component(tokens, pos) {
            Err(e) => Err(e),
            Ok((_, end)) => if pos < end <= tokens.len() {
                package_rest(tokens, end, acc)
            } else {
                Ok((acc, pos))
            },
        }
    } else if kw_at(tokens, pos, Keyword::Use) {
        match spec_use_clause(tokens, pos + 1) {
            Err(e) => Err(e),
            Ok((_, end)) => if pos < end <= tokens.len() {
                package_rest(tokens, end, acc + spec_statement(tokens, pos).0.refs)
            } else {
                Ok((acc, pos))
            },
        }
    } else if kw_at(tokens, pos, Keyword::End) {
        Ok((acc, spec_statement(tokens, pos).1))
    } else {
        let (st, end) = spec_statement(tokens, pos);
        if pos < end <= tokens.len() {
            package_rest(tokens, end, acc + st.refs)
        } else {
            Ok((acc, pos))
        }
    }
}

/// The name of the package declared at `pos`, where the name stands, the
/// references found in the declaration, and the index after it.
pub open spec fn spec_package(tokens: Seq<Token>, pos: int) -> Result<
    (Identifier, Seq<ResReference>, int),
    ParseError,
>
    decreases tokens.len() - pos, 1nat,
{
    if let Some(e) = name_fault(tokens, pos) {
        Err(e)
    } else if let Some(e) = kw_fault(tokens, pos + 1, Keyword::Is) {
        Err(e)
    } else {
        match package_rest(tokens, pos + 2, Seq::empty()) {
            Err(e) => Err(e),
            Ok((refs, end)) => Ok((ident_of(tokens, pos), refs, end)),
        }
    }
}

/// The package whose body starts at `pos`, where `body` stands, the
/// references found in the body, and the index after it.
pub open spec fn spec_package_body(tokens: Seq<Token>, pos: int) -> Result<
    (Identifier, Seq<ResReference>, int),
    ParseError,
>
    decreases tokens.len() - pos, 1nat,
{
    if pos < 0 || pos >= tokens.len() {
        Err(ends_at(pos))
    } else if let Some(e) = name_fault(tokens, pos + 1) {
        Err(e)
    } else if let Some(e) = kw_fault(tokens, pos + 2, Keyword::Is) {
        Err(e)
    } else {
        match body_from(tokens, pos + 3, EndKind::Primary, nothing()) {
            Err(e) => Err(e),
            Ok((found, end)) => Ok((ident_of(tokens, pos + 1), found.refs, end)),
        }
    }
}

/// The package or package body that follows the keyword `package`, and the
/// index after it: a body if `body` stands at `pos`.
pub open spec fn spec_route(tokens: Seq<Token>, pos: int) -> Result<(Unit, int), ParseError>
    decreases tokens.len() - pos, 2nat,
{
    if pos < 0 || pos >= tokens.len() {
        Err(ends_at(pos))
    } else if kw_at(tokens, pos, Keyword::Body) {
        match spec_package_body(tokens, pos) {
            Err(e) => Err(e),
            Ok((owner, refs, end)) => Ok((Unit::PackageBody { owner, refs }, end)),
        }
    } else {
        match spec_package(tokens, pos) {
            Err(e) => Err(e),
            Ok((name, refs, end)) => Ok((Unit::Package { name, body: None, refs }, end)),
        }
    }
}

/// The name of the unit that owns the one being read: the identifier after
/// `of`, which stands at `pos`.
pub open spec fn spec_owner(tokens: Seq<Token>, pos: int) -> Result<Identifier, ParseError> {
    if let Some(e) = kw_fault(tokens, pos, Keyword::Of) {
        Err(e)
    } else if let Some(e) = name_fault(tokens, pos + 1) {
        Err(e)
    } else {
        Ok(ident_of(tokens, pos + 1))
    }
}

/// The architecture whose name stands at `pos`, and the index after it.
pub open spec fn spec_architecture(tokens: Seq<Token>, pos: int) -> Result<(Unit, int), ParseError> {
    if let Some(e) = name_fault(tokens, pos) {
        Err(e)
    } else {
        match spec_owner(tokens, pos + 1) {
            Err(e) => Err(e),
            Ok(owner) => match spec_declaration(tokens, pos + 3, EndKind::Primary) {
                Err(e) => Err(e),
                Ok((found, end)) => Ok(
                    (
                        Unit::Architecture {
                            name: ident_of(tokens, pos),
                            owner,
                            deps: found.deps,
                            refs: found.refs,
                        },
                        end,
                    ),
                ),
            },
        }
    }
}

/// The references of the first `n` of the statements `stmts`, in order.
pub open spec fn list_refs(stmts: Seq<Stmt>, n: int) -> Seq<ResReference>
    decreases n,
{
    if n <= 0 {
        Seq::empty()
    } else {
        list_refs(stmts, n - 1) + stmts[n - 1].refs
    }
}

/// The references of the entity whose declarative part continues at
/// `pos`, on top of `acc`, and the index after the entity.
///
/// Each statement adds its references, a nested package those that it
/// holds, and the statement part after `begin` those found in it. The
/// `end` of the entity closes it.
pub open spec fn entity_rest(tokens: Seq<Token>, pos: int, acc: Seq<ResReference>) -> Result<
    (Seq<ResReference>, int),
    ParseError,
>
    decreases tokens.len() - pos,
{
    if pos < 0 || pos >= tokens.len() {
        Ok((acc, pos))
    } else if kw_at(tokens, pos, Keyword::Begin) {
        match body_from(tokens, pos + 1, EndKind::Primary, nothing()) {
            Err(e) => Err(e),
            Ok((found, end)) => Ok((acc + found.refs, end)),
        }
    } else if kw_at(tokens, pos, Keyword::End) {
        let (st, end) = spec_statement(tokens, pos);
        if spec_primary_ending(st.tokens) {
            Ok((acc, end))
        } else if pos < end <= tokens.len() {
            entity_rest(tokens, end, acc)
        } else {
            Ok((acc, pos))
        }
    } else if kw_at(tokens, pos, Keyword::Package) {
        match spec_route(tokens, pos + 1) {
            Err(e) => Err(e),
            Ok((unit, end)) => if pos < end <= tokens.len() {
                entity_rest(tokens, end, acc + unit.refs())
            } else {
                Ok((acc, pos))
            },
        }
    } else {
        let (st, end) = spec_statement(tokens, pos);
        if pos < end <= tokens.len() {
            entity_rest(tokens, end, acc + st.refs)
        } else {
            Ok((acc, pos))
        }
    }
}

/// The interface list after the keyword `kw`, if `kw` stands at `pos`;
/// no items otherwise.
pub open spec fn optional_list(tokens: Seq<Token>, pos: int, kw: Keyword) -> Result<
    (Seq<Stmt>, int),
    ParseError,
> {
    if pos < 0 || pos >= tokens.len() {
        Err(ends_at(pos))
    } else if kw_at(tokens, pos, kw) {
        spec_interface_list(tokens, pos + 1)
    } else {
        Ok((Seq::empty(), pos))
    }
}

/// The generics and ports of the entity whose `is` stands at `pos`, as
/// the items of its two interface lists, the references found in the
/// entity, those of the two lists first, and the index after the entity.
pub open spec fn spec_entity_declaration(tokens: Seq<Token>, pos: int) -> Result<
    (Seq<Stmt>, Seq<Stmt>, Seq<ResReference>, int),
    ParseError,
> {
    if let Some(e) = kw_fault(tokens, pos, Keyword::Is) {
        Err(e)
    } else {
        match optional_list(tokens, pos + 1, Keyword::Generic) {
            Err(e) => Err(e),
            Ok((generics, p1)) => match optional_list(tokens, p1, Keyword::Port) {
                Err(e) => Err(e),
                Ok((ports, p2)) => match entity_rest(
                    tokens,
                    p2,
                    list_refs(generics, generics.len() as int) + list_refs(
                        ports,
                        ports.len() as int,
                    ),
                ) {
                    Err(e) => Err(e),
                    Ok((refs, end)) => Ok((generics, ports, refs, end)),
                },
            },
        }
    }
}

/// The entity whose name stands at `pos`, and the index after it.
pub open spec fn spec_entity(tokens: Seq<Token>, pos: int) -> Result<(Unit, int), ParseError> {
    if let Some(e) = name_fault(tokens, pos) {
        Err(e)
    } else {
        match spec_entity_declaration(tokens, pos + 1) {
            Err(e) => Err(e),
            Ok((generics, ports, refs, end)) => Ok(
                (
                    Unit::Entity {
                        name: ident_of(tokens, pos),
                        generics: list_decls(generics, generics.len() as int),
                        ports: list_decls(ports, ports.len() as int),
                        architectures: Seq::empty(),
                        refs,
                    },
                    end,
                ),
            ),
        }
    }
}

/// The index after the parenthesis that closes the one opened `depth`
/// levels up, looking from `pos`; the number of tokens if none closes it.
pub open spec fn paren_close(tokens: Seq<Token>, pos: int, depth: nat) -> int
    decreases tokens.len() - pos,
{
    if pos < 0 || pos >= tokens.len() {
        pos
    } else if delim_at(tokens, pos, Delimiter::ParenL) {
        paren_close(tokens, pos + 1, depth + 1)
    } else if delim_at(tokens, pos, Delimiter::ParenR) {
        if depth <= 1 {
            pos + 1
        } else {
            paren_close(tokens, pos + 1, (depth - 1) as nat)
        }
    } else {
        paren_close(tokens, pos + 1, depth)
    }
}

/// What the block configuration that continues at `pos` yields on top of
/// `acc`, and the index after the `end for` that closes the block.
///
/// Each configuration specification adds the unit it binds and is followed
/// by its own `end for`, which is passed over; any other statement adds
/// its references.
pub open spec fn block_from(tokens: Seq<Token>, pos: int, acc: Found) -> (Found, int)
    decreases tokens.len() - pos,
{
    if pos < 0 || pos >= tokens.len() {
        (acc, pos)
    } else if kw_at(tokens, pos, Keyword::End) {
        let (st, end) = spec_statement(tokens, pos);
        if !spec_primary_ending(st.tokens) {
            (acc, end)
        } else if pos < end <= tokens.len() {
            block_from(tokens, end, acc)
        } else {
            (acc, pos)
        }
    } else {
        let (st, end) = spec_statement(tokens, pos);
        match spec_configuration_spec(st.tokens) {
            Some(id) => {
                let after = spec_statement(tokens, end).1;
                if pos < after <= tokens.len() {
                    block_from(tokens, after, Found { deps: acc.deps.push(id), refs: acc.refs })
                } else {
                    (acc, pos)
                }
            },
            None => if pos < end <= tokens.len() {
                block_from(tokens, end, Found { deps: acc.deps, refs: acc.refs + st.refs })
            } else {
                (acc, pos)
            },
        }
    }
}

/// What the block configuration whose name stands at `pos`, after `for`,
/// yields: the units bound in it and the references found in it; and
/// the index after the block.
pub open spec fn spec_block_configuration(tokens: Seq<Token>, pos: int) -> Result<
    (Found, int),
    ParseError,
> {
    if pos < 0 || pos >= tokens.len() {
        Err(ends_at(pos))
    } else if pos + 1 >= tokens.len() {
        Err(ends_at(pos + 1))
    } else {
        let start = if delim_at(tokens, pos + 1, Delimiter::ParenL) {
            paren_close(tokens, pos + 2, 1)
        } else {
            pos + 1
        };
        Ok(block_from(tokens, start, nothing()))
    }
}

/// What the configuration whose declarative part continues at `pos`
/// yields on top of `acc`, and the index after the configuration: each
/// block configuration adds what it yields, any other statement its
/// references.
pub open spec fn configuration_rest(tokens: Seq<Token>, pos: int, acc: Found) -> Result<
    (Found, int),
    ParseError,
>
    decreases tokens.len() - pos,
{
    if pos < 0 || pos >= tokens.len() {
        Ok((acc, pos))
    } else if kw_at(tokens, pos, Keyword::End) {
        let (st, end) = spec_statement(tokens, pos);
        if spec_primary_ending(st.tokens) {
            Ok((acc, end))
        } else if pos < end <= tokens.len() {
            configuration_rest(tokens, end, acc)
        } else {
            Ok((acc, pos))
        }
    } else if kw_at(tokens, pos, Keyword::For) {
        match spec_block_configuration(tokens, pos + 1) {
            Err(e) => Err(e),
            Ok((more, end)) => if pos < end <= tokens.len() {
                configuration_rest(
                    tokens,
                    end,
                    Found { deps: acc.deps + more.deps, refs: acc.refs + more.refs },
                )
            } else {
                Ok((acc, pos))
            },
        }
    } else {
        let (st, end) = spec_statement(tokens, pos);
        if pos < end <= tokens.len() {
            configuration_rest(tokens, end, Found { deps: acc.deps, refs: acc.refs + st.refs })
        } else {
            Ok((acc, pos))
        }
    }
}

/// The configuration whose name stands at `pos`, and the index after it.
pub open spec fn spec_configuration(tokens: Seq<Token>, pos: int) -> Result<(Unit, int), ParseError> {
    if let Some(e) = name_fault(tokens, pos) {
        Err(e)
    } else {
        match spec_owner(tokens, pos + 1) {
            Err(e) => Err(e),
            Ok(owner) => if let Some(e) = kw_fault(tokens, pos + 3, Keyword::Is) {
                Err(e)
            } else {
                match configuration_rest(tokens, pos + 4, nothing()) {
                    Err(e) => Err(e),
                    Ok((found, end)) => Ok(
                        (
                            Unit::Configuration {
                                name: ident_of(tokens, pos),
                                owner,
                                deps: found.deps,
                                refs: found.refs,
                            },
                            end,
                        ),
                    ),
                }
            },
        }
    }
}

/// The references of the context declaration that continues at `pos`, on
/// top of `acc`, and the index after the declaration.
///
/// Each statement is read after its first token; the statement whose first
/// token is `end` closes the declaration.
pub open spec fn context_from(tokens: Seq<Token>, pos: int, acc: Seq<ResReference>) -> (
    Seq<ResReference>,
    int,
)
    decreases tokens.len() - pos,
{
    if pos < 0 || pos >= tokens.len() {
        (acc, pos)
    } else {
        let (st, end) = spec_statement(tokens, pos + 1);
        if kw_at(tokens, pos, Keyword::End) {
            if spec_primary_ending(st.tokens) {
                (acc, end)
            } else if pos < end <= tokens.len() {
                context_from(tokens, end, acc)
            } else {
                (acc, pos)
            }
        } else if pos < end <= tokens.len() {
            context_from(tokens, end, acc + st.refs)
        } else {
            (acc, pos)
        }
    }
}

/// The index after the first semicolon at or after `pos`, or the number of
/// tokens if there is none.
pub open spec fn after_terminator(tokens: Seq<Token>, pos: int) -> int
    decreases tokens.len() - pos,
{
    if pos < 0 || pos >= tokens.len() {
        if pos < 0 {
            pos
        } else {
            tokens.len() as int
        }
    } else if delim_at(tokens, pos, Delimiter::Terminator) {
        pos + 1
    } else {
        after_terminator(tokens, pos + 1)
    }
}

/// What follows the keyword `context`.
pub enum ContextFound {
    /// A declaration: its name and its references.
    Declaration(Identifier, Seq<ResReference>),
    /// A reference to other contexts: the references of that statement.
    Reference(Seq<ResReference>),
}

/// What follows the keyword `context`, the name after which stands at
/// `pos`: a declaration if `is` comes next, else a reference, which runs
/// to the next semicolon.
pub open spec fn spec_context(tokens: Seq<Token>, pos: int) -> Result<
    (ContextFound, int),
    ParseError,
> {
    if let Some(e) = name_fault(tokens, pos) {
        Err(e)
    } else if pos + 1 >= tokens.len() {
        Err(ends_at(pos + 1))
    } else if kw_at(tokens, pos + 1, Keyword::Is) {
        let (refs, end) = context_from(tokens, pos + 1, Seq::empty());
        Ok((ContextFound::Declaration(ident_of(tokens, pos), refs), end))
    } else {
        Ok(
            (
                ContextFound::Reference(spec_statement(tokens, pos).0.refs),
                after_terminator(tokens, pos + 1),
            ),
        )
    }
}

/// Whether a result of the parser is the one that the model gives.
pub open spec fn same_end(r: Result<usize, ParseError>, s: Result<int, ParseError>) -> bool {
    match (r, s) {
        (Ok(a), Ok(b)) => a == b,
        (Err(x), Err(y)) => x == y,
        _ => false,
    }
}

/// Whether a result of the parser is the one that the model gives.
pub open spec fn same_name(
    r: Result<(Identifier, usize), ParseError>,
    s: Result<(Identifier, int), ParseError>,
) -> bool {
    match (r, s) {
        (Ok((a, e)), Ok((b, f))) => a == b && e == f,
        (Err(x), Err(y)) => x == y,
        _ => false,
    }
}

/// Whether a result of the parser is the one that the model gives.
pub open spec fn same_found(
    r: Result<(Vec<Identifier>, Vec<ResReference>, usize), ParseError>,
    s: Result<(Found, int), ParseError>,
) -> bool {
    match (r, s) {
        (Ok((deps, refs, e)), Ok((found, f))) => deps@ == found.deps && refs@ == found.refs && e
            == f,
        (Err(x), Err(y)) => x == y,
        _ => false,
    }
}

/// Whether a result of the parser is the one that the model gives.
pub open spec fn same_unit(
    r: Result<(VHDLSymbol, usize), ParseError>,
    s: Result<(Unit, int), ParseError>,
) -> bool {
    match (r, s) {
        (Ok((a, e)), Ok((b, f))) => a@ == b && e == f,
        (Err(x), Err(y)) => x == y,
        _ => false,
    }
}

/// Whether the keyword `kw` stands at `pos`.
pub fn peek_keyword(tokens: &Vec<Token>, pos: usize, kw: Keyword) -> (r: bool)
    ensures
        r == kw_at(tokens@, pos as int, kw),
{
    pos < tokens.len() && tokens[pos].as_type().check_keyword(&kw)
}

/// Whether the delimiter `d` stands at `pos`.
pub fn peek_delimiter(tokens: &Vec<Token>, pos: usize, d: Delimiter) -> (r: bool)
    ensures
        r == delim_at(tokens@, pos as int, d),
{
    pos < tokens.len() && tokens[pos].as_type().check_delimiter(&d)
}

/// Takes the identifier that stands at `pos`.
pub fn expect_name(tokens: &Vec<Token>, pos: usize) -> (r: Result<Identifier, ParseError>)
    ensures
        match r {
            Ok(id) => name_fault(tokens@, pos as int) is None && id == ident_of(
                tokens@,
                pos as int,
            ) && pos < tokens.len(),
            Err(e) => name_fault(tokens@, pos as int) == Some(e),
        },
{
    if pos >= tokens.len() {
        return Err(ParseError { index: pos, kind: ParseErrorKind::UnexpectedEnd });
    }
    match tokens[pos].as_type().get_identifier() {
        Some(id) => Ok(id.clone()),
        None => Err(ParseError { index: pos, kind: ParseErrorKind::ExpectedIdentifier }),
    }
}

/// Checks that the keyword `kw` stands at `pos`.
pub fn expect_keyword(tokens: &Vec<Token>, pos: usize, kw: Keyword) -> (r: Result<(), ParseError>)
    ensures
        match r {
            Ok(_) => kw_fault(tokens@, pos as int, kw) is None && pos < tokens.len(),
            Err(e) => kw_fault(tokens@, pos as int, kw) == Some(e),
        },
{
    if pos >= tokens.len() {
        return Err(ParseError { index: pos, kind: ParseErrorKind::UnexpectedEnd });
    }
    if tokens[pos].as_type().check_keyword(&kw) {
        Ok(())
    } else {
        Err(ParseError { index: pos, kind: ParseErrorKind::ExpectedKeyword(kw) })
    }
}

impl VHDLSymbol {
    /// Reads a component declaration; `component` stands at `pos`.
    ///
    /// Returns the name of the component and the index after its `end`.
    #[verifier::loop_isolation(false)]
    pub fn parse_component(tokens: &Vec<Token>, pos: usize) -> (r: Result<
        (Identifier, usize),
        ParseError,
    >)
        ensures
            same_name(r, spec_component(tokens@, pos as int)),
            r is Ok ==> pos < r->Ok_0.1 <= tokens.len(),
    {
        match expect_keyword(tokens, pos, Keyword::Component) {
            Err(e) => {
                return Err(e);
            },
            Ok(_) => {},
        }
        let name = match expect_name(tokens, pos + 1) {
            Err(e) => {
                return Err(e);
            },
            Ok(id) => id,
        };
        if tokens.len() - pos <= 2 {
            return Err(ParseError { index: pos + 2, kind: ParseErrorKind::UnexpectedEnd });
        }
        let mut i: usize = if peek_keyword(tokens, pos + 2, Keyword::Is) {
            pos + 3
        } else {
            pos + 2
        };
        let ghost start = i;
        while i < tokens.len()
            invariant
                pos < i <= tokens.len(),
                component_rest(tokens@, i as int) == component_rest(tokens@, start as int),
            decreases tokens.len() - i,
        {
            if peek_keyword(tokens, i, Keyword::End) {
                let (_, end) = Self::compose_statement(tokens, i);
                return Ok((name, end));
            } else if peek_keyword(tokens, i, Keyword::Generic) || peek_keyword(
                tokens,
                i,
                Keyword::Port,
            ) {
                match Self::parse_interface_list(tokens, i + 1) {
                    Err(e) => {
                        return Err(e);
                    },
                    Ok((_, end)) => {
                        i = end;
                    },
                }
            } else {
                let (_, end) = Self::compose_statement(tokens, i);
                i = end;
            }
        }
        Ok((name, i))
    }

    /// Reads a statement part up to the `end` that closes it; `pos` is the
    /// index after `begin`.
    ///
    /// Returns the units instantiated, the references found, and the index
    /// after the closing `end` statement.
    #[verifier::loop_isolation(false)]
    pub fn parse_body(tokens: &Vec<Token>, pos: usize, kind: EndKind) -> (r: Result<
        (Vec<Identifier>, Vec<ResReference>, usize),
        ParseError,
    >)
        ensures
            same_found(r, body_from(tokens@, pos as int, kind, nothing())),
            r is Ok ==> pos <= r->Ok_0.2 && (pos <= tokens.len() ==> r->Ok_0.2 <= tokens.len()),
        decreases tokens.len() - pos, 0nat,
    {
        let mut deps: Vec<Identifier> = Vec::new();
        let mut refs: Vec<ResReference> = Vec::new();
        let mut i: usize = pos;
        assert(deps@ =~= nothing().deps && refs@ =~= nothing().refs);
        if pos >= tokens.len() {
            return Ok((deps, refs, pos));
        }
        while i < tokens.len()
            invariant
                pos <= i <= tokens.len(),
                body_from(tokens@, i as int, kind, Found { deps: deps@, refs: refs@ })
                    == body_from(tokens@, pos as int, kind, nothing()),
            decreases tokens.len() - i,
        {
            if peek_keyword(tokens, i, Keyword::End) {
                let (st, end) = Self::compose_statement(tokens, i);
                let done = match kind {
                    EndKind::Primary => Self::is_primary_ending(&st),
                    EndKind::Sub => Self::is_sub_ending(&st),
                };
                if done {
                    return Ok((deps, refs, end));
                }
                i = end;
            } else if peek_keyword(tokens, i, Keyword::Function) || peek_keyword(
                tokens,
                i,
                Keyword::Begin,
            ) {
                let (_, start) = Self::compose_statement(tokens, i);
                match Self::parse_body(tokens, start, EndKind::Sub) {
                    Err(e) => {
                        return Err(e);
                    },
                    Ok((_, mut inner, end)) => {
                        refs.append(&mut inner);
                        i = end;
                    },
                }
            } else if peek_keyword(tokens, i, Keyword::Component) {
                match Self::parse_component(tokens, i) {
                    Err(e) => {
                        return Err(e);
                    },
                    Ok((_, end)) => {
                        i = end;
                    },
                }
            } else if peek_keyword(tokens, i, Keyword::Package) {
                match Self::route_package_parse(tokens, i + 1) {
                    Err(e) => {
                        return Err(e);
                    },
                    Ok((_, end)) => {
                        i = end;
                    },
                }
            } else {
                let (st, end) = Self::compose_statement(tokens, i);
                let Statement(toks, mut found) = st;
                refs.append(&mut found);
                match Self::parse_instantiation(Statement(toks, Vec::new())) {
                    Some(id) => {
                        deps.push(id);
                    },
                    None => {},
                }
                i = end;
            }
        }
        Ok((deps, refs, i))
    }

    /// Reads a declarative part and the statement part that may follow it;
    /// `is` stands at `pos`.
    ///
    /// Returns the units bound or instantiated, the references found, and
    /// the index after the closing `end` statement.
    #[verifier::loop_isolation(false)]
    pub fn parse_declaration(tokens: &Vec<Token>, pos: usize, kind: EndKind) -> (r: Result<
        (Vec<Identifier>, Vec<ResReference>, usize),
        ParseError,
    >)
        ensures
            same_found(r, spec_declaration(tokens@, pos as int, kind)),
            r is Ok ==> pos < r->Ok_0.2 <= tokens.len(),
        decreases tokens.len() - pos, 1nat,
    {
        match expect_keyword(tokens, pos, Keyword::Is) {
            Err(e) => {
                return Err(e);
            },
            Ok(_) => {},
        }
        let mut deps: Vec<Identifier> = Vec::new();
        let mut refs: Vec<ResReference> = Vec::new();
        let mut i: usize = pos + 1;
        while i < tokens.len()
            invariant
                pos < i <= tokens.len(),
                decl_from(tokens@, i as int, kind, Found { deps: deps@, refs: refs@ })
                    == decl_from(tokens@, pos + 1, kind, nothing()),
            decreases tokens.len() - i,
        {
            let sub = match tokens[i].as_type().as_keyword() {
                Some(kw) => Self::is_subprogram(kw),
                None => false,
            };
            if peek_keyword(tokens, i, Keyword::Begin) {
                match Self::parse_body(tokens, i + 1, EndKind::Primary) {
                    Err(e) => {
                        return Err(e);
                    },
                    Ok((mut body_deps, mut body_refs, end)) => {
                        deps.append(&mut body_deps);
                        refs.append(&mut body_refs);
                        return Ok((deps, refs, end));
                    },
                }
            } else if peek_keyword(tokens, i, Keyword::End) {
                let (st, end) = Self::compose_statement(tokens, i);
                let done = match kind {
                    EndKind::Primary => Self::is_primary_ending(&st),
                    EndKind::Sub => Self::is_sub_ending(&st),
                };
                if done {
                    return Ok((deps, refs, end));
                }
                i = end;
            } else if peek_keyword(tokens, i, Keyword::Component) {
                match Self::parse_component(tokens, i) {
                    Err(e) => {
                        return Err(e);
                    },
                    Ok((_, end)) => {
                        i = end;
                    },
                }
            } else if peek_keyword(tokens, i, Keyword::Package) {
                match Self::route_package_parse(tokens, i + 1) {
                    Err(e) => {
                        return Err(e);
                    },
                    Ok((_, end)) => {
                        i = end;
                    },
                }
            } else if sub {
                match Self::parse_subprogram(tokens, i + 1) {
                    Err(e) => {
                        return Err(e);
                    },
                    Ok(end) => {
                        i = end;
                    },
                }
            } else {
                let (st, end) = Self::compose_statement(tokens, i);
                let Statement(toks, mut found) = st;
                match Self::parse_configuration_spec(Statement(toks, Vec::new())) {
                    Some(id) => {
                        deps.push(id);
                    },
                    None => {
                        refs.append(&mut found);
                    },
                }
                i = end;
            }
        }
        Ok((deps, refs, i))
    }

    /// Passes over a subprogram; `pos` is an index inside its header.
    ///
    /// Returns the index of the semicolon that ends a mere declaration, or
    /// the index after the `end` of a body.
    #[verifier::loop_isolation(false)]
    pub fn parse_subprogram(tokens: &Vec<Token>, pos: usize) -> (r: Result<usize, ParseError>)
        ensures
            same_end(r, subprogram_end(tokens@, pos as int)),
            r is Ok ==> pos <= r->Ok_0 && (pos <= tokens.len() ==> r->Ok_0 <= tokens.len()),
        decreases tokens.len() - pos, 2nat,
    {
        let mut i: usize = pos;
        if pos >= tokens.len() {
            return Ok(pos);
        }
        while i < tokens.len()
            invariant
                pos <= i <= tokens.len(),
                subprogram_end(tokens@, i as int) == subprogram_end(tokens@, pos as int),
            decreases tokens.len() - i,
        {
            if peek_keyword(tokens, i, Keyword::Is) {
                return match Self::parse_declaration(tokens, i, EndKind::Sub) {
                    Err(e) => Err(e),
                    Ok((_, _, end)) => Ok(end),
                };
            } else if peek_delimiter(tokens, i, Delimiter::Terminator) {
                return Ok(i);
            }
            i += 1;
        }
        Ok(i)
    }

    /// Reads a package declaration; the name of the package stands at `pos`.
    ///
    /// Returns the package, with the references found in it, and the index
    /// after its `end`.
    #[verifier::loop_isolation(false)]
    pub fn parse_package_declaration(tokens: &Vec<Token>, pos: usize) -> (r: Result<
        (VHDLSymbol, usize),
        ParseError,
    >)
        ensures
            match (r, spec_package(tokens@, pos as int)) {
                (Ok((sym, e)), Ok((name, refs, f))) => sym@ == (Unit::Package {
                    name,
                    body: None,
                    refs,
                }) && e == f,
                (Err(x), Err(y)) => x == y,
                _ => false,
            },
            r is Ok ==> pos < r->Ok_0.1 <= tokens.len(),
        decreases tokens.len() - pos, 1nat,
    {
        let name = match expect_name(tokens, pos) {
            Err(e) => {
                return Err(e);
            },
            Ok(id) => id,
        };
        match expect_keyword(tokens, pos + 1, Keyword::Is) {
            Err(e) => {
                return Err(e);
            },
            Ok(_) => {},
        }
        let mut refs: Vec<ResReference> = Vec::new();
        let mut i: usize = pos + 2;
        let mut end_found: Option<usize> = None;
        let ghost whole = package_rest(tokens@, pos + 2, Seq::empty());
        assert(refs@ =~= Seq::<ResReference>::empty());
        while i < tokens.len() && end_found.is_none()
            invariant
                pos < i <= tokens.len(),
                match end_found {
                    Some(e) => whole == Ok::<(Seq<ResReference>, int), ParseError>(
                        (refs@, e as int),
                    ) && i == e,
                    None => package_rest(tokens@, i as int, refs@) == whole,
                },
            decreases tokens.len() - i,
        {
            if peek_keyword(tokens, i, Keyword::Package) {
                match Self::parse_package_declaration(tokens, i + 1) {
                    Err(e) => {
                        return Err(e);
                    },
                    Ok((sym, end)) => {
                        match sym {
                            VHDLSymbol::Package(inner) => {
                                let mut more = inner.refs;
                                refs.append(&mut more);
                            },
                            _ => {},
                        }
                        i = end;
                    },
                }
            } else if peek_keyword(tokens, i, Keyword::Component) {
                match Self::parse_component(tokens, i) {
                    Err(e) => {
                        return Err(e);
                    },
                    Ok((_, end)) => {
                        i = end;
                    },
                }
            } else if peek_keyword(tokens, i, Keyword::Use) {
                match Self::parse_use_clause(tokens, i + 1) {
                    Err(e) => {
                        return Err(e);
                    },
                    Ok((_, end)) => {
                        let mut more = Self::compose_statement(tokens, i).0.take_refs();
                        refs.append(&mut more);
                        i = end;
                    },
                }
            } else if peek_keyword(tokens, i, Keyword::End) {
                let (_, end) = Self::compose_statement(tokens, i);
                i = end;
                end_found = Some(end);
            } else {
                let (st, end) = Self::compose_statement(tokens, i);
                let mut more = st.take_refs();
                refs.append(&mut more);
                i = end;
            }
        }
        let sym = VHDLSymbol::Package(Package { name, body: None, refs });
        Ok((sym, i))
    }

    /// Reads a package body; `body` stands at `pos`.
    ///
    /// Returns the package body, with the references found in it, and the
    /// index after its `end`.
    pub fn parse_package_body(tokens: &Vec<Token>, pos: usize) -> (r: Result<
        (PackageBody, usize),
        ParseError,
    >)
        ensures
            match (r, spec_package_body(tokens@, pos as int)) {
                (Ok((b, e)), Ok((owner, refs, f))) => b.owner == owner && b.refs@ == refs && e == f,
                (Err(x), Err(y)) => x == y,
                _ => false,
            },
            r is Ok ==> pos < r->Ok_0.1 <= tokens.len(),
        decreases tokens.len() - pos, 1nat,
    {
        if pos >= tokens.len() {
            return Err(ParseError { index: pos, kind: ParseErrorKind::UnexpectedEnd });
        }
        let owner = match expect_name(tokens, pos + 1) {
            Err(e) => {
                return Err(e);
            },
            Ok(id) => id,
        };
        match expect_keyword(tokens, pos + 2, Keyword::Is) {
            Err(e) => {
                return Err(e);
            },
            Ok(_) => {},
        }
        match Self::parse_body(tokens, pos + 3, EndKind::Primary) {
            Err(e) => Err(e),
            Ok((_, refs, end)) => Ok((PackageBody { owner, refs }, end)),
        }
    }

    /// Reads what follows the keyword `package`: a package body if `body`
    /// stands at `pos`, else a package declaration.
    pub fn route_package_parse(tokens: &Vec<Token>, pos: usize) -> (r: Result<
        (VHDLSymbol, usize),
        ParseError,
    >)
        ensures
            same_unit(r, spec_route(tokens@, pos as int)),
            r is Ok ==> pos < r->Ok_0.1 <= tokens.len(),
        decreases tokens.len() - pos, 2nat,
    {
        if pos >= tokens.len() {
            return Err(ParseError { index: pos, kind: ParseErrorKind::UnexpectedEnd });
        }
        if peek_keyword(tokens, pos, Keyword::Body) {
            match Self::parse_package_body(tokens, pos) {
                Err(e) => Err(e),
                Ok((b, end)) => Ok((VHDLSymbol::PackageBody(b), end)),
            }
        } else {
            Self::parse_package_declaration(tokens, pos)
        }
    }

    /// Reads `of <name>`; `of` stands at `pos`. Returns the name.
    pub fn parse_owner_design_unit(tokens: &Vec<Token>, pos: usize) -> (r: Result<
        Identifier,
        ParseError,
    >)
        ensures
            r == spec_owner(tokens@, pos as int),
            r is Ok ==> pos + 1 < tokens.len(),
    {
        match expect_keyword(tokens, pos, Keyword::Of) {
            Err(e) => {
                return Err(e);
            },
            Ok(_) => {},
        }
        expect_name(tokens, pos + 1)
    }

    /// Reads an architecture; its name stands at `pos`.
    pub fn parse_architecture(tokens: &Vec<Token>, pos: usize) -> (r: Result<
        (VHDLSymbol, usize),
        ParseError,
    >)
        ensures
            same_unit(r, spec_architecture(tokens@, pos as int)),
            r is Ok ==> pos < r->Ok_0.1 <= tokens.len(),
    {
        let name = match expect_name(tokens, pos) {
            Err(e) => {
                return Err(e);
            },
            Ok(id) => id,
        };
        let owner = match Self::parse_owner_design_unit(tokens, pos + 1) {
            Err(e) => {
                return Err(e);
            },
            Ok(id) => id,
        };
        match Self::parse_declaration(tokens, pos + 3, EndKind::Primary) {
            Err(e) => Err(e),
            Ok((deps, refs, end)) => Ok(
                (
                    VHDLSymbol::Architecture(Architecture { name, owner, dependencies: deps, refs }),
                    end,
                ),
            ),
        }
    }

    /// Reads the interface list after `kw`, if `kw` stands at `pos`.
    fn parse_optional_list(tokens: &Vec<Token>, pos: usize, kw: Keyword) -> (r: Result<
        (Vec<Statement>, usize),
        ParseError,
    >)
        ensures
            match (r, optional_list(tokens@, pos as int, kw)) {
                (Ok((items, end)), Ok((stmts, e))) => stmts_view(items@) == stmts && end == e,
                (Err(x), Err(y)) => x == y,
                _ => false,
            },
            r is Ok ==> pos <= r->Ok_0.1 <= tokens.len(),
    {
        if pos >= tokens.len() {
            return Err(ParseError { index: pos, kind: ParseErrorKind::UnexpectedEnd });
        }
        if peek_keyword(tokens, pos, kw) {
            Self::parse_interface_list(tokens, pos + 1)
        } else {
            let items: Vec<Statement> = Vec::new();
            assert(stmts_view(items@) =~= Seq::<Stmt>::empty());
            Ok((items, pos))
        }
    }

    /// The references of the statements `items`, in order.
    pub fn refs_of_list(items: &Vec<Statement>) -> (r: Vec<ResReference>)
        ensures
            r@ == list_refs(stmts_view(items@), items@.len() as int),
    {
        let mut out: Vec<ResReference> = Vec::new();
        let mut i: usize = 0;
        assert(out@ =~= list_refs(stmts_view(items@), 0));
        while i < items.len()
            invariant
                i <= items.len(),
                out@ == list_refs(stmts_view(items@), i as int),
            decreases items.len() - i,
        {
            let ghost before = out@;
            let item = &items[i];
            let mut k: usize = 0;
            assert(stmts_view(items@)[i as int].refs == item.1@);
            assert(before + item.1@.take(0) =~= before);
            while k < item.1.len()
                invariant
                    k <= item.1.len(),
                    out@ == before + item.1@.take(k as int),
                decreases item.1.len() - k,
            {
                out.push(item.1[k].clone());
                assert(out@ =~= before + item.1@.take(k + 1));
                k += 1;
            }
            assert(item.1@.take(item.1@.len() as int) =~= item.1@);
            i += 1;
        }
        out
    }

    /// Reads an entity from its `is`, which stands at `pos`, to its `end`.
    ///
    /// Returns the items of the generic list, those of the port list, the
    /// references found in the entity, and the index after the entity.
    #[verifier::loop_isolation(false)]
    pub fn parse_entity_declaration(tokens: &Vec<Token>, pos: usize) -> (r: Result<
        (Vec<Statement>, Vec<Statement>, Vec<ResReference>, usize),
        ParseError,
    >)
        ensures
            match (r, spec_entity_declaration(tokens@, pos as int)) {
                (Ok((generics, ports, refs, end)), Ok((g, p, found, e))) => stmts_view(generics@)
                    == g && stmts_view(ports@) == p && refs@ == found && end == e,
                (Err(x), Err(y)) => x == y,
                _ => false,
            },
            r is Ok ==> pos < r->Ok_0.3 <= tokens.len(),
    {
        match expect_keyword(tokens, pos, Keyword::Is) {
            Err(e) => {
                return Err(e);
            },
            Ok(_) => {},
        }
        let (generics, p1) = match Self::parse_optional_list(tokens, pos + 1, Keyword::Generic) {
            Err(e) => {
                return Err(e);
            },
            Ok(r) => r,
        };
        let (ports, p2) = match Self::parse_optional_list(tokens, p1, Keyword::Port) {
            Err(e) => {
                return Err(e);
            },
            Ok(r) => r,
        };
        let mut refs = Self::refs_of_list(&generics);
        let mut more = Self::refs_of_list(&ports);
        refs.append(&mut more);
        let ghost whole = entity_rest(tokens@, p2 as int, refs@);
        let mut i: usize = p2;
        while i < tokens.len()
            invariant
                pos < i <= tokens.len(),
                entity_rest(tokens@, i as int, refs@) == whole,
            decreases tokens.len() - i,
        {
            if peek_keyword(tokens, i, Keyword::Begin) {
                return match Self::parse_body(tokens, i + 1, EndKind::Primary) {
                    Err(e) => Err(e),
                    Ok((_, mut found, end)) => {
                        refs.append(&mut found);
                        Ok((generics, ports, refs, end))
                    },
                };
            } else if peek_keyword(tokens, i, Keyword::End) {
                let (st, end) = Self::compose_statement(tokens, i);
                if Self::is_primary_ending(&st) {
                    return Ok((generics, ports, refs, end));
                }
                i = end;
            } else if peek_keyword(tokens, i, Keyword::Package) {
                match Self::route_package_parse(tokens, i + 1) {
                    Err(e) => {
                        return Err(e);
                    },
                    Ok((sym, end)) => {
                        let mut found = sym.take_refs();
                        refs.append(&mut found);
                        i = end;
                    },
                }
            } else {
                let (st, end) = Self::compose_statement(tokens, i);
                let mut found = st.take_refs();
                refs.append(&mut found);
                i = end;
            }
        }
        Ok((generics, ports, refs, i))
    }

    /// Reads an entity; its name stands at `pos`.
    pub fn parse_entity(tokens: &Vec<Token>, pos: usize) -> (r: Result<
        (VHDLSymbol, usize),
        ParseError,
    >)
        ensures
            same_unit(r, spec_entity(tokens@, pos as int)),
            r is Ok ==> pos < r->Ok_0.1 <= tokens.len(),
    {
        match Entity::from_tokens(tokens, pos) {
            Err(e) => Err(e),
            Ok((ent, end)) => Ok((VHDLSymbol::Entity(ent), end)),
        }
    }

    /// Reads a block configuration; its name stands at `pos`, after `for`.
    ///
    /// Returns the units that the configuration specifications of the
    /// block bind, the references found in its other statements, and the
    /// index after the `end for` of the block.
    #[verifier::loop_isolation(false)]
    pub fn parse_block_configuration(tokens: &Vec<Token>, pos: usize) -> (r: Result<
        (Vec<Identifier>, Vec<ResReference>, usize),
        ParseError,
    >)
        ensures
            same_found(r, spec_block_configuration(tokens@, pos as int)),
            r is Ok ==> pos < r->Ok_0.2 <= tokens.len(),
    {
        if pos >= tokens.len() {
            return Err(ParseError { index: pos, kind: ParseErrorKind::UnexpectedEnd });
        }
        if tokens.len() - pos <= 1 {
            return Err(ParseError { index: pos + 1, kind: ParseErrorKind::UnexpectedEnd });
        }
        let mut i: usize = pos + 1;
        if peek_delimiter(tokens, pos + 1, Delimiter::ParenL) {
            i = pos + 2;
            let mut depth: usize = 1;
            let mut closed = false;
            while i < tokens.len() && !closed
                invariant
                    pos + 2 <= i <= tokens.len(),
                    1 <= depth <= i - pos,
                    !closed ==> paren_close(tokens@, i as int, depth as nat) == paren_close(
                        tokens@,
                        pos + 2,
                        1,
                    ),
                    closed ==> i == paren_close(tokens@, pos + 2, 1),
                decreases tokens.len() - i,
            {
                if peek_delimiter(tokens, i, Delimiter::ParenL) {
                    depth += 1;
                } else if peek_delimiter(tokens, i, Delimiter::ParenR) {
                    if depth <= 1 {
                        closed = true;
                    } else {
                        depth -= 1;
                    }
                }
                i += 1;
            }
        }
        let ghost start = i;
        let mut ids: Vec<Identifier> = Vec::new();
        let mut refs: Vec<ResReference> = Vec::new();
        assert(ids@ =~= nothing().deps && refs@ =~= nothing().refs);
        while i < tokens.len()
            invariant
                pos < i <= tokens.len(),
                block_from(tokens@, i as int, Found { deps: ids@, refs: refs@ }) == block_from(
                    tokens@,
                    start as int,
                    nothing(),
                ),
            decreases tokens.len() - i,
        {
            if peek_keyword(tokens, i, Keyword::End) {
                let (st, end) = Self::compose_statement(tokens, i);
                if Self::is_sub_ending(&st) {
                    return Ok((ids, refs, end));
                }
                i = end;
            } else {
                let (st, end) = Self::compose_statement(tokens, i);
                let Statement(toks, mut found) = st;
                match Self::parse_configuration_spec(Statement(toks, Vec::new())) {
                    Some(id) => {
                        ids.push(id);
                        let (_, after) = Self::compose_statement(tokens, end);
                        i = after;
                    },
                    None => {
                        refs.append(&mut found);
                        i = end;
                    },
                }
            }
        }
        Ok((ids, refs, i))
    }

    /// Reads a configuration; its name stands at `pos`.
    #[verifier::loop_isolation(false)]
    pub fn parse_configuration(tokens: &Vec<Token>, pos: usize) -> (r: Result<
        (VHDLSymbol, usize),
        ParseError,
    >)
        ensures
            same_unit(r, spec_configuration(tokens@, pos as int)),
            r is Ok ==> pos < r->Ok_0.1 <= tokens.len(),
    {
        let name = match expect_name(tokens, pos) {
            Err(e) => {
                return Err(e);
            },
            Ok(id) => id,
        };
        let owner = match Self::parse_owner_design_unit(tokens, pos + 1) {
            Err(e) => {
                return Err(e);
            },
            Ok(id) => id,
        };
        match expect_keyword(tokens, pos + 3, Keyword::Is) {
            Err(e) => {
                return Err(e);
            },
            Ok(_) => {},
        }
        let mut ids: Vec<Identifier> = Vec::new();
        let mut refs: Vec<ResReference> = Vec::new();
        let mut i: usize = pos + 4;
        let mut done = false;
        assert(ids@ =~= nothing().deps && refs@ =~= nothing().refs);
        while i < tokens.len() && !done
            invariant
                pos < i <= tokens.len(),
                !done ==> configuration_rest(
                    tokens@,
                    i as int,
                    Found { deps: ids@, refs: refs@ },
                ) == configuration_rest(tokens@, pos + 4, nothing()),
                done ==> configuration_rest(tokens@, pos + 4, nothing()) == Ok::<
                    (Found, int),
                    ParseError,
                >((Found { deps: ids@, refs: refs@ }, i as int)),
            decreases tokens.len() - i,
        {
            if peek_keyword(tokens, i, Keyword::End) {
                let (st, end) = Self::compose_statement(tokens, i);
                if Self::is_primary_ending(&st) {
                    done = true;
                }
                i = end;
            } else if peek_keyword(tokens, i, Keyword::For) {
                match Self::parse_block_configuration(tokens, i + 1) {
                    Err(e) => {
                        return Err(e);
                    },
                    Ok((mut more, mut found, end)) => {
                        ids.append(&mut more);
                        refs.append(&mut found);
                        i = end;
                    },
                }
            } else {
                let (st, end) = Self::compose_statement(tokens, i);
                let mut found = st.take_refs();
                refs.append(&mut found);
                i = end;
            }
        }
        let sym = VHDLSymbol::Configuration(
            Configuration { name, owner, dependencies: ids, refs },
        );
        Ok((sym, i))
    }

    /// Reads a context declaration from its `is`, which stands at `pos`.
    ///
    /// Returns the references of its statements and the index after its `end`.
    #[verifier::loop_isolation(false)]
    pub fn parse_context_declaration(tokens: &Vec<Token>, pos: usize) -> (r: (
        Vec<ResReference>,
        usize,
    ))
        ensures
            r.0@ == context_from(tokens@, pos as int, Seq::empty()).0,
            r.1 == context_from(tokens@, pos as int, Seq::empty()).1,
            pos <= r.1,
            pos <= tokens.len() ==> r.1 <= tokens.len(),
            pos < tokens.len() ==> pos < r.1,
    {
        let mut refs: Vec<ResReference> = Vec::new();
        let mut i: usize = pos;
        assert(refs@ =~= Seq::<ResReference>::empty());
        if pos >= tokens.len() {
            return (refs, pos);
        }
        while i < tokens.len()
            invariant
                pos <= i <= tokens.len(),
                i == pos ==> refs@ =~= Seq::<ResReference>::empty(),
                context_from(tokens@, i as int, refs@) == context_from(
                    tokens@,
                    pos as int,
                    Seq::empty(),
                ),
            decreases tokens.len() - i,
        {
            let (st, end) = Self::compose_statement(tokens, i + 1);
            if peek_keyword(tokens, i, Keyword::End) {
                if Self::is_primary_ending(&st) {
                    return (refs, end);
                }
            } else {
                let mut found = st.take_refs();
                refs.append(&mut found);
            }
            i = end;
        }
        (refs, i)
    }

    /// Reads what follows the keyword `context`; a name stands at `pos`.
    #[verifier::loop_isolation(false)]
    pub fn parse_context(tokens: &Vec<Token>, pos: usize) -> (r: Result<
        (ContextUsage, usize),
        ParseError,
    >)
        ensures
            match (r, spec_context(tokens@, pos as int)) {
                (
                    Ok((ContextUsage::ContextDeclaration(c), end)),
                    Ok((ContextFound::Declaration(name, refs), e)),
                ) => c.name == name && c.refs@ == refs && end == e,
                (
                    Ok((ContextUsage::ContextReference(found), end)),
                    Ok((ContextFound::Reference(refs), e)),
                ) => found@ == refs && end == e,
                (Err(x), Err(y)) => x == y,
                _ => false,
            },
            r is Ok ==> pos < r->Ok_0.1 <= tokens.len(),
    {
        let name = match expect_name(tokens, pos) {
            Err(e) => {
                return Err(e);
            },
            Ok(id) => id,
        };
        if tokens.len() - pos <= 1 {
            return Err(ParseError { index: pos + 1, kind: ParseErrorKind::UnexpectedEnd });
        }
        if peek_keyword(tokens, pos + 1, Keyword::Is) {
            let (refs, end) = Self::parse_context_declaration(tokens, pos + 1);
            Ok((ContextUsage::ContextDeclaration(Context { name, refs }), end))
        } else {
            let (st, _) = Self::compose_statement(tokens, pos);
            let mut i: usize = pos + 1;
            while i < tokens.len() && !peek_delimiter(tokens, i, Delimiter::Terminator)
                invariant
                    pos < i <= tokens.len(),
                    after_terminator(tokens@, i as int) == after_terminator(tokens@, pos + 1),
                decreases tokens.len() - i,
            {
                i += 1;
            }
            let end = if i < tokens.len() {
                i + 1
            } else {
                i
            };
            Ok((ContextUsage::ContextReference(st.take_refs()), end))
        }
    }
}

impl Entity {
    /// Reads an entity; its name stands at `pos`.
    ///
    /// Returns the entity, with the references found in it, and the index
    /// after its `end`.
    pub fn from_tokens(tokens: &Vec<Token>, pos: usize) -> (r: Result<(Entity, usize), ParseError>)
        ensures
            match (r, spec_entity(tokens@, pos as int)) {
                (Ok((ent, end)), Ok((unit, e))) => VHDLSymbol::Entity(ent)@ == unit && end == e,
                (Err(x), Err(y)) => x == y,
                _ => false,
            },
            r is Ok ==> pos < r->Ok_0.1 <= tokens.len(),
    {
        let name = match expect_name(tokens, pos) {
            Err(e) => {
                return Err(e);
            },
            Ok(id) => id,
        };
        match VHDLSymbol::parse_entity_declaration(tokens, pos + 1) {
            Err(e) => Err(e),
            Ok((generics, ports, refs, end)) => {
                let ent = Entity {
                    name,
                    generics: Generics(InterfaceDeclarations::from_statements(&generics)),
                    ports: Ports(InterfaceDeclarations::from_statements(&ports)),
                    architectures: Vec::new(),
                    refs,
                };
                assert(ent.architectures@ =~= Seq::<Architecture>::empty());
                Ok((ent, end))
            },
        }
    }
}

/// A design unit as the parser hands it out.
#[derive(Debug, PartialEq)]
pub struct Symbol {
    pub stype: VHDLSymbol,
}

impl Symbol {
    /// Wraps a design unit.
    pub fn new(stype: VHDLSymbol) -> (r: Symbol)
        ensures
            r.stype == stype,
    {
        Symbol { stype }
    }

    /// The design unit.
    pub fn as_ref(&self) -> (r: &VHDLSymbol)
        ensures
            *r == self.stype,
    {
        &self.stype
    }

    /// The design unit.
    pub fn take(self) -> (r: VHDLSymbol)
        ensures
            r == self.stype,
    {
        self.stype
    }
}

/// A fault in the structure of a design unit, with the place of the token
/// at which it shows.
#[derive(Debug, Clone, Copy, PartialEq, Eq, Structural)]
pub struct SymbolError {
    pub position: crate::vhdl::token::Position,
    pub error: ParseError,
}

/// The unit that starts with the keyword at `pos`, outside any unit,
/// and the index after it, if a unit other than a context starts there.
pub open spec fn unit_at(tokens: Seq<Token>, pos: int) -> Option<Result<(Unit, int), ParseError>> {
    if kw_at(tokens, pos, Keyword::Entity) {
        Some(spec_entity(tokens, pos + 1))
    } else if kw_at(tokens, pos, Keyword::Architecture) {
        Some(spec_architecture(tokens, pos + 1))
    } else if kw_at(tokens, pos, Keyword::Configuration) {
        Some(spec_configuration(tokens, pos + 1))
    } else if kw_at(tokens, pos, Keyword::Package) {
        Some(spec_route(tokens, pos + 1))
    } else {
        None
    }
}

/// What the parser does at one place outside any unit.
pub enum Step {
    /// A unit was read: the unit, the pool of references after it, and
    /// the index after it.
    Unit(Unit, Seq<ResReference>, int),
    /// A statement was passed over: the pool after it, and the index after it.
    Skip(Seq<ResReference>, int),
    /// The structure of a unit is broken.
    Fault(ParseError),
}

/// What the parser does at `pos`, outside any unit, with the references
/// `pool` gathered from the statements before.
///
/// The pool goes to the next unit that is read, after that unit's own
/// references; a statement outside any unit, read after its first token,
/// adds its references to the pool.
pub open spec fn step_at(tokens: Seq<Token>, pos: int, pool: Seq<ResReference>) -> Step {
    match unit_at(tokens, pos) {
        Some(Err(e)) => Step::Fault(e),
        Some(Ok((unit, end))) => Step::Unit(unit.with_refs(pool), Seq::empty(), end),
        None => if kw_at(tokens, pos, Keyword::Context) {
            match spec_context(tokens, pos + 1) {
                Err(e) => Step::Fault(e),
                Ok((ContextFound::Declaration(name, refs), end)) => Step::Unit(
                    Unit::Context { name, refs: refs + pool },
                    Seq::empty(),
                    end,
                ),
                Ok((ContextFound::Reference(refs), end)) => Step::Skip(pool + refs, end),
            }
        } else {
            let (st, end) = spec_statement(tokens, pos + 1);
            Step::Skip(pool + st.refs, end)
        },
    }
}

/// The design units of the tokens from `pos` on, after the units `out`,
/// and the fault that stopped the parser, if one did.
pub open spec fn parse_from(
    tokens: Seq<Token>,
    pos: int,
    pool: Seq<ResReference>,
    out: Seq<Unit>,
) -> (Seq<Unit>, Option<ParseError>)
    decreases tokens.len() - pos,
{
    if pos < 0 || pos >= tokens.len() {
        (out, None)
    } else {
        match step_at(tokens, pos, pool) {
            Step::Fault(e) => (out, Some(e)),
            Step::Unit(unit, rest, end) => if pos < end <= tokens.len() {
                parse_from(tokens, end, rest, out.push(unit))
            } else {
                (out, None)
            },
            Step::Skip(rest, end) => if pos < end <= tokens.len() {
                parse_from(tokens, end, rest, out)
            } else {
                (out, None)
            },
        }
    }
}

/// The design units of a whole token sequence and the fault that stopped
/// the parser, if one did.
pub open spec fn spec_parse(tokens: Seq<Token>) -> (Seq<Unit>, Option<ParseError>) {
    parse_from(tokens, 0, Seq::empty(), Seq::empty())
}

/// The units among the first `n` results.
pub open spec fn units_of(v: Seq<Result<Symbol, SymbolError>>, n: int) -> Seq<Unit>
    decreases n,
{
    if n <= 0 {
        Seq::empty()
    } else {
        match v[n - 1] {
            Ok(sym) => units_of(v, n - 1).push(sym.stype@),
            Err(_) => units_of(v, n - 1),
        }
    }
}

/// The units of a list of symbols.
pub open spec fn symbols_view(v: Seq<Symbol>) -> Seq<Unit> {
    v.map_values(|s: Symbol| s.stype@)
}

/// The place of the token at `index`, or of the last token if the index
/// lies behind it.
pub fn place_of(tokens: &Vec<Token>, index: usize) -> (r: crate::vhdl::token::Position)
    ensures
        r == place_of_spec(tokens@, index),
{
    if index < tokens.len() {
        *tokens[index].locate()
    } else if tokens.len() > 0 {
        *tokens[tokens.len() - 1].locate()
    } else {
        crate::vhdl::token::Position { line: 0, col: 0, file: 0 }
    }
}

/// The design units read from one source text.
#[derive(Debug, PartialEq)]
pub struct VHDLParser {
    pub symbols: Vec<Symbol>,
}

impl VHDLParser {
    /// Reads what stands at `pos`, outside any unit: a unit, to which the
    /// pool of references may go, or a statement, which adds to the pool.
    ///
    /// Returns the unit, if one was read, and the index after what was read.
    pub fn parse_step(tokens: &Vec<Token>, pos: usize, pool: &mut Vec<ResReference>) -> (r: Result<
        (Option<VHDLSymbol>, usize),
        ParseError,
    >)
        requires
            pos < tokens.len(),
        ensures
            match (r, step_at(tokens@, pos as int, old(pool)@)) {
                (Ok((Some(sym), end)), Step::Unit(unit, rest, e)) => sym@ == unit && final(pool)@
                    == rest && end == e,
                (Ok((None, end)), Step::Skip(rest, e)) => final(pool)@ == rest && end == e,
                (Err(x), Step::Fault(y)) => x == y,
                _ => false,
            },
            r is Ok ==> pos < r->Ok_0.1 <= tokens.len(),
    {
        let t = tokens[pos].as_type();
        if t.check_keyword(&Keyword::Context) {
            return match VHDLSymbol::parse_context(tokens, pos + 1) {
                Err(e) => Err(e),
                Ok((ContextUsage::ContextDeclaration(c), end)) => {
                    let mut sym = VHDLSymbol::Context(c);
                    sym.add_refs(pool);
                    assert(pool@ =~= Seq::<ResReference>::empty());
                    Ok((Some(sym), end))
                },
                Ok((ContextUsage::ContextReference(mut refs), end)) => {
                    pool.append(&mut refs);
                    Ok((None, end))
                },
            };
        }
        let unit = if t.check_keyword(&Keyword::Entity) {
            VHDLSymbol::parse_entity(tokens, pos + 1)
        } else if t.check_keyword(&Keyword::Architecture) {
            VHDLSymbol::parse_architecture(tokens, pos + 1)
        } else if t.check_keyword(&Keyword::Configuration) {
            VHDLSymbol::parse_configuration(tokens, pos + 1)
        } else if t.check_keyword(&Keyword::Package) {
            VHDLSymbol::route_package_parse(tokens, pos + 1)
        } else {
            let (st, end) = VHDLSymbol::compose_statement(tokens, pos + 1);
            let mut refs = st.take_refs();
            pool.append(&mut refs);
            return Ok((None, end));
        };
        match unit {
            Err(e) => Err(e),
            Ok((mut sym, end)) => {
                sym.add_refs(pool);
                assert(pool@ =~= Seq::<ResReference>::empty());
                Ok((Some(sym), end))
            },
        }
    }

    /// Reads the design units of a token sequence.
    ///
    /// The result holds the units in the order of the text. Where the
    /// structure of a unit is broken beyond repair, the parser stops, and
    /// the fault is the last item of the result.
    pub fn parse(tokens: Vec<Token>) -> (r: Vec<Result<Symbol, SymbolError>>)
        ensures
            units_of(r@, r@.len() as int) == spec_parse(tokens@).0,
            match spec_parse(tokens@).1 {
                Some(e) => r@.len() == spec_parse(tokens@).0.len() + 1 && r@.last() == Err::<
                    Symbol,
                    SymbolError,
                >(SymbolError { position: place_of_spec(tokens@, e.index), error: e }),
                None => r@.len() == spec_parse(tokens@).0.len(),
            },
            forall|k: int| 0 <= k < spec_parse(tokens@).0.len() ==> (#[trigger] r@[k]) is Ok,
    {
        let mut out: Vec<Result<Symbol, SymbolError>> = Vec::new();
        let mut pool: Vec<ResReference> = Vec::new();
        let mut i: usize = 0;
        let ghost mut units: Seq<Unit> = Seq::empty();
        assert(pool@ =~= Seq::<ResReference>::empty());
        while i < tokens.len()
            invariant
                i <= tokens.len(),
                parse_from(tokens@, i as int, pool@, units) == spec_parse(tokens@),
                units == units_of(out@, out@.len() as int),
                out@.len() == units.len(),
                forall|k: int| 0 <= k < out@.len() ==> (#[trigger] out@[k]) is Ok,
            decreases tokens.len() - i,
        {
            let ghost before = out@;
            match Self::parse_step(&tokens, i, &mut pool) {
                Err(e) => {
                    out.push(Err(SymbolError { position: place_of(&tokens, e.index), error: e }));
                    proof {
                        assert(out@.drop_last() =~= before);
                        lemma_units_of_prefix(out@, before, before.len() as int);
                    }
                    return out;
                },
                Ok((Some(sym), end)) => {
                    proof {
                        units = units.push(sym@);
                    }
                    out.push(Ok(Symbol::new(sym)));
                    proof {
                        assert(out@.drop_last() =~= before);
                        lemma_units_of_prefix(out@, before, before.len() as int);
                    }
                    i = end;
                },
                Ok((None, end)) => {
                    i = end;
                },
            }
        }
        out
    }

    /// Reads the design units of a source text. A fault of the lexer or of
    /// the parser is dropped; the units read before it stay.
    pub fn read(s: &str) -> (r: VHDLParser)
        ensures
            exists|items: Seq<crate::vhdl::lexer::Lexed>|
                crate::vhdl::lexer::lexed_all(s@, items) && symbols_view(r.symbols@) == spec_parse(
                    crate::vhdl::lexer::tokens_of(items, items.len() as int, false),
                ).0,
    {
        let tokenizer = crate::vhdl::lexer::VHDLTokenizer::from_source_code(s);
        let ghost items = tokenizer.items@;
        let results = Self::parse(tokenizer.into_tokens());
        let ghost all = results@;
        let mut symbols: Vec<Symbol> = Vec::new();
        assert(symbols_view(symbols@) =~= Seq::<Unit>::empty());
        for res in it: results
            invariant
                it.seq() == all,
                symbols_view(symbols@) == units_of(all, it.index() as int),
        {
            match res {
                Ok(sym) => {
                    assert(symbols_view(symbols@.push(sym)) =~= symbols_view(symbols@).push(
                        sym.stype@,
                    ));
                    symbols.push(sym);
                },
                Err(_) => {},
            }
        }
        VHDLParser { symbols }
    }

    /// The design units, in the order of the text.
    pub fn into_symbols(self) -> (r: Vec<VHDLSymbol>)
        ensures
            r@.len() == self.symbols@.len(),
            forall|k: int| 0 <= k < r@.len() ==> r@[k] == self.symbols@[k].stype,
    {
        let mut out: Vec<VHDLSymbol> = Vec::new();
        let ghost all = self.symbols@;
        for sym in it: self.symbols
            invariant
                it.seq() == all,
                out@.len() == it.index(),
                forall|k: int| 0 <= k < out@.len() ==> out@[k] == all[k].stype,
        {
            out.push(sym.take());
        }
        out
    }
}

/// The place of the token at `index`, or of the last token if the index
/// lies behind it.
pub open spec fn place_of_spec(tokens: Seq<Token>, index: usize) -> crate::vhdl::token::Position {
    if index < tokens.len() {
        tokens[index as int].position
    } else if tokens.len() > 0 {
        tokens.last().position
    } else {
        crate::vhdl::token::Position { line: 0, col: 0, file: 0 }
    }
}

/// The units of a list of results are those of any list that starts with
/// the same results.
pub proof fn lemma_units_of_prefix(
    a: Seq<Result<Symbol, SymbolError>>,
    b: Seq<Result<Symbol, SymbolError>>,
    n: int,
)
    requires
        0 <= n <= a.len(),
        n <= b.len(),
        forall|k: int| 0 <= k < n ==> a[k] == b[k],
    ensures
        units_of(a, n) == units_of(b, n),
    decreases n,
{
    if n > 0 {
        lemma_units_of_prefix(a, b, n - 1);
    }
}

} // verus!
