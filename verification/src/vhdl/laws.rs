use crate::vhdl::delimiter::Delimiter;
use crate::vhdl::identifier::Identifier;
use crate::vhdl::interface::{decl_names, item_names, lemma_declared_names, list_decls, list_names};
use crate::vhdl::keyword::Keyword;
use crate::vhdl::parser::{
    body_from, decl_from, entity_rest, list_refs, optional_list, spec_architecture,
    spec_declaration, spec_entity, spec_entity_declaration, EndKind, Found,
};
use crate::vhdl::statement::{
    after_colon, closes_list, delim_at, ident_at, ident_of, interface_rest, is_breaker, kw_at,
    name_rest, paren_balance, spec_configuration_spec, spec_instantiation, spec_interface_list,
    spec_primary_ending, spec_statement, statement_from, suffix_at, Stmt,
};
use crate::vhdl::symbol::Unit;
use crate::vhdl::token::{Token, VHDLToken};
use vstd::prelude::*;

verus! {

/// Whether a token neither ends a statement nor breaks it early.
pub open spec fn plain_token(t: Token) -> bool {
    &&& t.ttype != VHDLToken::Delimiter(Delimiter::Terminator)
    &&& t.ttype != VHDLToken::Keyword(Keyword::Generate)
    &&& t.ttype != VHDLToken::Keyword(Keyword::Begin)
}

/// Whether the tokens can be an item of an interface list: at least one
/// token, none that ends or breaks a statement, parentheses in pairs, and
/// neither `when` nor a closing parenthesis first.
pub open spec fn plain_item(item: Seq<Token>) -> bool {
    &&& item.len() > 0
    &&& item[0].ttype != VHDLToken::Keyword(Keyword::When)
    &&& item[0].ttype != VHDLToken::Delimiter(Delimiter::ParenR)
    &&& forall|i: int| 0 <= i < item.len() ==> plain_token(#[trigger] item[i])
    &&& paren_balance(item, item.len() as int) == 0
}

/// Whether from `pos` on the items `items[k..]` stand in the tokens as the
/// rest of an interface list: a semicolon after each item but the last,
/// after which the closing parenthesis and a semicolon follow.
pub open spec fn items_at(tokens: Seq<Token>, pos: int, items: Seq<Seq<Token>>, k: int) -> bool
    decreases items.len() - k,
{
    if k < 0 || k >= items.len() {
        false
    } else {
        let end = pos + items[k].len();
        &&& 0 <= pos
        &&& end + 1 < tokens.len()
        &&& tokens.subrange(pos, end) == items[k]
        &&& if k == items.len() - 1 {
            tokens[end].ttype == VHDLToken::Delimiter(Delimiter::ParenR) && tokens[end + 1].ttype
                == VHDLToken::Delimiter(Delimiter::Terminator) && end + 2 < tokens.len()
        } else {
            tokens[end].ttype == VHDLToken::Delimiter(Delimiter::Terminator) && items_at(
                tokens,
                end + 1,
                items,
                k + 1,
            )
        }
    }
}

/// The index after the interface list whose items `items[k..]` stand at `pos`.
pub open spec fn items_end(pos: int, items: Seq<Seq<Token>>, k: int) -> int
    decreases items.len() - k,
{
    if k < 0 || k >= items.len() {
        pos
    } else if k == items.len() - 1 {
        pos + items[k].len() + 2
    } else {
        items_end(pos + items[k].len() + 1, items, k + 1)
    }
}

/// The names that the first `n` items declare.
pub open spec fn names_of(items: Seq<Seq<Token>>, n: int) -> Seq<Identifier>
    decreases n,
{
    if n <= 0 {
        Seq::empty()
    } else {
        names_of(items, n - 1) + item_names(items[n - 1])
    }
}

/// A statement takes in every token of a run of plain tokens, up to the
/// semicolon that follows the run.
pub proof fn lemma_statement_run(tokens: Seq<Token>, start: int, k: int, j: int, acc: Stmt)
    requires
        0 <= start,
        0 <= j <= k,
        start + k < tokens.len(),
        forall|i: int| start <= i < start + k ==> plain_token(#[trigger] tokens[i]),
        k > 0 ==> tokens[start].ttype != VHDLToken::Keyword(Keyword::When),
        acc.tokens == tokens.subrange(start, start + j),
        tokens[start + k].ttype == VHDLToken::Delimiter(Delimiter::Terminator),
    ensures
        statement_from(tokens, start + j, acc).0.tokens == tokens.subrange(start, start + k),
        statement_from(tokens, start + j, acc).1 == start + k + 1,
    decreases k - j,
{
    let pos = start + j;
    if j < k {
        let t = tokens[pos];
        assert(plain_token(t));
        if j > 0 {
            assert(acc.tokens[0] == tokens[start]);
        }
        assert(!is_breaker(t, acc.tokens));
        if t.ttype is Identifier && delim_at(tokens, pos + 1, Delimiter::Dot) {
            assert(pos + 1 < start + k);
            let refs = if ident_at(tokens, pos + 2) {
                acc.refs.push(
                    crate::vhdl::statement::ResReference {
                        prefix: ident_of(tokens, pos),
                        suffix: ident_of(tokens, pos + 2),
                    },
                )
            } else {
                acc.refs
            };
            let next = Stmt { tokens: acc.tokens.push(t).push(tokens[pos + 1]), refs };
            assert(next.tokens =~= tokens.subrange(start, start + j + 2));
            lemma_statement_run(tokens, start, k, j + 2, next);
        } else {
            let next = Stmt { tokens: acc.tokens.push(t), refs: acc.refs };
            assert(next.tokens =~= tokens.subrange(start, start + j + 1));
            lemma_statement_run(tokens, start, k, j + 1, next);
        }
    }
}

/// The balance of parentheses of a beginning of a run of tokens does not
/// depend on what follows it.
pub proof fn lemma_balance_prefix(a: Seq<Token>, b: Seq<Token>, n: int)
    requires
        0 <= n <= a.len(),
        n <= b.len(),
        forall|i: int| 0 <= i < n ==> a[i] == b[i],
    ensures
        paren_balance(a, n) == paren_balance(b, n),
    decreases n,
{
    if n > 0 {
        lemma_balance_prefix(a, b, n - 1);
    }
}

/// The items of an interface list are read as they stand: one statement for
/// each item, with the tokens of that item.
pub proof fn lemma_interface_items(
    tokens: Seq<Token>,
    pos: int,
    items: Seq<Seq<Token>>,
    k: int,
    acc: Seq<Stmt>,
)
    requires
        0 <= k < items.len(),
        items_at(tokens, pos, items, k),
        forall|i: int| 0 <= i < items.len() ==> plain_item(#[trigger] items[i]),
        acc.len() == k,
        forall|i: int| 0 <= i < k ==> (#[trigger] acc[i]).tokens == items[i],
    ensures
        match interface_rest(tokens, pos, acc) {
            Ok((stmts, end)) => stmts.len() == items.len() && end == items_end(pos, items, k)
                && pos < end < tokens.len() && forall|i: int|
                0 <= i < items.len() ==> (#[trigger] stmts[i]).tokens == items[i],
            Err(_) => false,
        },
    decreases items.len() - k,
{
    let item = items[k];
    let n = item.len() as int;
    assert(plain_item(item));
    assert(tokens[pos] == tokens.subrange(pos, pos + n)[0]);
    assert forall|i: int| pos <= i < pos + n implies plain_token(#[trigger] tokens[i]) by {
        assert(tokens[i] == item[i - pos]);
    }
    if k > 0 {
        assert(acc.last().tokens == items[k - 1]);
        assert(plain_item(items[k - 1]));
        assert(!closes_list(acc.last()));
    }
    let empty = Stmt { tokens: Seq::empty(), refs: Seq::empty() };
    assert(empty.tokens =~= tokens.subrange(pos, pos));
    if k == items.len() - 1 {
        // the last item is read together with the parenthesis that closes the list
        lemma_statement_run(tokens, pos, n + 1, 0, empty);
        let (st, end) = spec_statement(tokens, pos);
        assert(st.tokens == tokens.subrange(pos, pos + n + 1));
        let next = acc.push(st);
        assert(next.last() == st);
        assert(st.tokens.last() == tokens[pos + n]);
        lemma_balance_prefix(st.tokens, item, n);
        assert(paren_balance(st.tokens, n + 1) == -1);
        assert(closes_list(st));
        assert(st.tokens.drop_last() =~= item);
        let done = next.drop_last().push(Stmt { tokens: st.tokens.drop_last(), refs: st.refs });
        assert(interface_rest(tokens, end, next) == Ok::<
            (Seq<Stmt>, int),
            crate::vhdl::statement::ParseError,
        >((done, end)));
        assert forall|i: int| 0 <= i < items.len() implies (#[trigger] done[i]).tokens
            == items[i] by {
            if i < k {
                assert(done[i] == acc[i]);
            }
        }
    } else {
        lemma_statement_run(tokens, pos, n, 0, empty);
        let (st, end) = spec_statement(tokens, pos);
        let next = acc.push(st);
        assert forall|i: int| 0 <= i < k + 1 implies (#[trigger] next[i]).tokens == items[i] by {
            if i < k {
                assert(next[i] == acc[i]);
            }
        }
        lemma_interface_items(tokens, end, items, k + 1, next);
    }
}

/// The names of the statements of a list are the names of its items.
pub proof fn lemma_names_of(stmts: Seq<Stmt>, items: Seq<Seq<Token>>, n: int)
    requires
        0 <= n <= items.len(),
        stmts.len() == items.len(),
        forall|i: int| 0 <= i < items.len() ==> (#[trigger] stmts[i]).tokens == items[i],
    ensures
        list_names(stmts, n) == names_of(items, n),
    decreases n,
{
    if n > 0 {
        lemma_names_of(stmts, items, n - 1);
        assert(stmts[n - 1].tokens == items[n - 1]);
    }
}

/// Whether an optional interface clause stands at `pos`: with `None`
/// another token than the keyword `kw`; with `Some(items)` the keyword, an
/// opening parenthesis and the items, each of them plain.
pub open spec fn clause_at(
    tokens: Seq<Token>,
    pos: int,
    kw: Keyword,
    list: Option<Seq<Seq<Token>>>,
) -> bool {
    match list {
        None => 0 <= pos < tokens.len() && !kw_at(tokens, pos, kw),
        Some(items) => {
            &&& kw_at(tokens, pos, kw)
            &&& delim_at(tokens, pos + 1, Delimiter::ParenL)
            &&& items.len() > 0
            &&& forall|i: int| 0 <= i < items.len() ==> plain_item(#[trigger] items[i])
            &&& items_at(tokens, pos + 2, items, 0)
        },
    }
}

/// The index after the optional interface clause that stands at `pos`.
pub open spec fn clause_end(pos: int, list: Option<Seq<Seq<Token>>>) -> int {
    match list {
        None => pos,
        Some(items) => items_end(pos + 2, items, 0),
    }
}

/// The names that an optional interface clause declares.
pub open spec fn clause_names(list: Option<Seq<Seq<Token>>>) -> Seq<Identifier> {
    match list {
        None => Seq::empty(),
        Some(items) => names_of(items, items.len() as int),
    }
}

/// An optional interface clause is read as it stands: nothing where the
/// keyword is missing, else one statement for each item.
pub proof fn lemma_clause(tokens: Seq<Token>, pos: int, kw: Keyword, list: Option<Seq<Seq<Token>>>)
    requires
        clause_at(tokens, pos, kw, list),
    ensures
        match optional_list(tokens, pos, kw) {
            Ok((stmts, end)) => end == clause_end(pos, list) && pos <= end < tokens.len()
                && decl_names(list_decls(stmts, stmts.len() as int)) == clause_names(list),
            Err(_) => false,
        },
{
    match list {
        None => {
            let none = Seq::<Stmt>::empty();
            lemma_declared_names(none, 0);
        },
        Some(items) => {
            lemma_interface_items(tokens, pos + 2, items, 0, Seq::empty());
            let found = spec_interface_list(tokens, pos + 1);
            assert(found == interface_rest(tokens, pos + 2, Seq::empty()));
            let stmts = found->Ok_0.0;
            lemma_declared_names(stmts, stmts.len() as int);
            lemma_names_of(stmts, items, items.len() as int);
        },
    }
}

/// The references with which the rest of an entity is read: those of
/// the items of its two interface lists.
pub open spec fn clause_refs(tokens: Seq<Token>, pos: int, generics: Option<Seq<Seq<Token>>>) -> Seq<
    crate::vhdl::statement::ResReference,
> {
    let gs = optional_list(tokens, pos + 2, Keyword::Generic)->Ok_0.0;
    let ps = optional_list(tokens, clause_end(pos + 2, generics), Keyword::Port)->Ok_0.0;
    list_refs(gs, gs.len() as int) + list_refs(ps, ps.len() as int)
}

/// The parser recovers the names of the generics and of the ports of an
/// entity, in the order in which they are written.
///
/// The entity is written as its name, `is`, then `generic` with its list
/// or nothing, then `port` with its list or nothing, and the rest of the
/// entity. The entity is read if and only if its rest can be read, and
/// then with these names. The names that an item declares are the
/// identifiers before its colon; a clause that is left out declares none.
pub proof fn lemma_entity_names(
    tokens: Seq<Token>,
    pos: int,
    generics: Option<Seq<Seq<Token>>>,
    ports: Option<Seq<Seq<Token>>>,
)
    requires
        ident_at(tokens, pos),
        kw_at(tokens, pos + 1, Keyword::Is),
        clause_at(tokens, pos + 2, Keyword::Generic, generics),
        clause_at(tokens, clause_end(pos + 2, generics), Keyword::Port, ports),
    ensures
        ({
            let rest = entity_rest(
                tokens,
                clause_end(clause_end(pos + 2, generics), ports),
                clause_refs(tokens, pos, generics),
            );
            match spec_entity(tokens, pos) {
                Ok((Unit::Entity { name, generics: g, ports: p, refs, .. }, end)) => {
                    &&& name == ident_of(tokens, pos)
                    &&& decl_names(g) == clause_names(generics)
                    &&& decl_names(p) == clause_names(ports)
                    &&& rest == Ok::<
                        (Seq<crate::vhdl::statement::ResReference>, int),
                        crate::vhdl::statement::ParseError,
                    >((refs, end))
                },
                Ok(_) => false,
                Err(e) => rest == Err::<
                    (Seq<crate::vhdl::statement::ResReference>, int),
                    crate::vhdl::statement::ParseError,
                >(e),
            }
        }),
{
    let g_end = clause_end(pos + 2, generics);
    let p_end = clause_end(g_end, ports);
    lemma_clause(tokens, pos + 2, Keyword::Generic, generics);
    lemma_clause(tokens, g_end, Keyword::Port, ports);
    match entity_rest(tokens, p_end, clause_refs(tokens, pos, generics)) {
        Ok(_) => {
            assert(spec_entity_declaration(tokens, pos + 1) is Ok);
        },
        Err(_) => {
            assert(spec_entity_declaration(tokens, pos + 1) is Err);
        },
    }
}

/// An entity whose rest is the statement that closes it is read: the
/// names of its generics and of its ports are recovered.
pub proof fn lemma_closed_entity_names(
    tokens: Seq<Token>,
    pos: int,
    generics: Option<Seq<Seq<Token>>>,
    ports: Option<Seq<Seq<Token>>>,
)
    requires
        ident_at(tokens, pos),
        kw_at(tokens, pos + 1, Keyword::Is),
        clause_at(tokens, pos + 2, Keyword::Generic, generics),
        clause_at(tokens, clause_end(pos + 2, generics), Keyword::Port, ports),
        kw_at(tokens, clause_end(clause_end(pos + 2, generics), ports), Keyword::End),
        spec_primary_ending(
            spec_statement(tokens, clause_end(clause_end(pos + 2, generics), ports)).0.tokens,
        ),
    ensures
        match spec_entity(tokens, pos) {
            Ok((Unit::Entity { name, generics: g, ports: p, .. }, _)) => {
                &&& name == ident_of(tokens, pos)
                &&& decl_names(g) == clause_names(generics)
                &&& decl_names(p) == clause_names(ports)
            },
            _ => false,
        },
{
    lemma_entity_names(tokens, pos, generics, ports);
    assert(entity_rest(
        tokens,
        clause_end(clause_end(pos + 2, generics), ports),
        clause_refs(tokens, pos, generics),
    ) is Ok);
}

/// Whether the names `whole` begin with the names `head`.
pub open spec fn begins(whole: Seq<Identifier>, head: Seq<Identifier>) -> bool {
    head.len() <= whole.len() && forall|i: int| 0 <= i < head.len() ==> whole[i] == head[i]
}

/// The units that a statement part depends on are added to those found
/// before it: none is lost.
pub proof fn lemma_body_keeps(tokens: Seq<Token>, pos: int, kind: EndKind, acc: Found)
    ensures
        match body_from(tokens, pos, kind, acc) {
            Ok((found, _)) => begins(found.deps, acc.deps),
            Err(_) => true,
        },
    decreases tokens.len() - pos,
{
    if pos < 0 || pos >= tokens.len() {
    } else if kw_at(tokens, pos, Keyword::End) {
        let end = spec_statement(tokens, pos).1;
        if pos < end <= tokens.len() {
            lemma_body_keeps(tokens, end, kind, acc);
        }
    } else if kw_at(tokens, pos, Keyword::Function) || kw_at(tokens, pos, Keyword::Begin) {
        let start = spec_statement(tokens, pos).1;
        if pos < start <= tokens.len() {
            match body_from(tokens, start, EndKind::Sub, crate::vhdl::parser::nothing()) {
                Err(_) => {},
                Ok((inner, end)) => {
                    if pos < end <= tokens.len() {
                        lemma_body_keeps(
                            tokens,
                            end,
                            kind,
                            Found { deps: acc.deps, refs: acc.refs + inner.refs },
                        );
                    }
                },
            }
        }
    } else if kw_at(tokens, pos, Keyword::Component) {
        match crate::vhdl::parser::spec_component(tokens, pos) {
            Err(_) => {},
            Ok((_, end)) => {
                if pos < end <= tokens.len() {
                    lemma_body_keeps(tokens, end, kind, acc);
                }
            },
        }
    } else if kw_at(tokens, pos, Keyword::Package) {
        match crate::vhdl::parser::spec_route(tokens, pos + 1) {
            Err(_) => {},
            Ok((_, end)) => {
                if pos < end <= tokens.len() {
                    lemma_body_keeps(tokens, end, kind, acc);
                }
            },
        }
    } else {
        let (st, end) = spec_statement(tokens, pos);
        let deps = match spec_instantiation(st.tokens) {
            Some(id) => acc.deps.push(id),
            None => acc.deps,
        };
        if pos < end <= tokens.len() {
            lemma_body_keeps(tokens, end, kind, Found { deps, refs: acc.refs + st.refs });
        }
    }
}

/// The units that a declarative part and the statement part after it
/// depend on are added to those found before: none is lost.
pub proof fn lemma_declaration_keeps(tokens: Seq<Token>, pos: int, kind: EndKind, acc: Found)
    ensures
        match decl_from(tokens, pos, kind, acc) {
            Ok((found, _)) => begins(found.deps, acc.deps),
            Err(_) => true,
        },
    decreases tokens.len() - pos,
{
    if pos < 0 || pos >= tokens.len() {
    } else if kw_at(tokens, pos, Keyword::Begin) {
    } else if kw_at(tokens, pos, Keyword::End) {
        let end = spec_statement(tokens, pos).1;
        if pos < end <= tokens.len() {
            lemma_declaration_keeps(tokens, end, kind, acc);
        }
    } else if kw_at(tokens, pos, Keyword::Component) {
        match crate::vhdl::parser::spec_component(tokens, pos) {
            Err(_) => {},
            Ok((_, end)) => {
                if pos < end <= tokens.len() {
                    lemma_declaration_keeps(tokens, end, kind, acc);
                }
            },
        }
    } else if kw_at(tokens, pos, Keyword::Package) {
        match crate::vhdl::parser::spec_route(tokens, pos + 1) {
            Err(_) => {},
            Ok((_, end)) => {
                if pos < end <= tokens.len() {
                    lemma_declaration_keeps(tokens, end, kind, acc);
                }
            },
        }
    } else if tokens[pos].ttype is Keyword && crate::vhdl::statement::spec_subprogram(
        tokens[pos].ttype->Keyword_0,
    ) {
        match crate::vhdl::parser::subprogram_end(tokens, pos + 1) {
            Err(_) => {},
            Ok(end) => {
                if pos < end <= tokens.len() {
                    lemma_declaration_keeps(tokens, end, kind, acc);
                }
            },
        }
    } else {
        let (st, end) = spec_statement(tokens, pos);
        let next = match spec_configuration_spec(st.tokens) {
            Some(id) => Found { deps: acc.deps.push(id), refs: acc.refs },
            None => Found { deps: acc.deps, refs: acc.refs + st.refs },
        };
        if pos < end <= tokens.len() {
            lemma_declaration_keeps(tokens, end, kind, next);
        }
    }
}

/// Whether a configuration specification stands at `pos`: `for`, a label
/// or `all` or `others`, a colon, the name of a component, `use`, then
/// `entity` or `configuration`, the name of a unit, and a semicolon.
pub open spec fn binding_at(tokens: Seq<Token>, pos: int) -> bool {
    &&& kw_at(tokens, pos, Keyword::For)
    &&& (ident_at(tokens, pos + 1) || kw_at(tokens, pos + 1, Keyword::All) || kw_at(
        tokens,
        pos + 1,
        Keyword::Others,
    ))
    &&& delim_at(tokens, pos + 2, Delimiter::Colon)
    &&& ident_at(tokens, pos + 3)
    &&& kw_at(tokens, pos + 4, Keyword::Use)
    &&& (kw_at(tokens, pos + 5, Keyword::Entity) || kw_at(tokens, pos + 5, Keyword::Configuration))
    &&& ident_at(tokens, pos + 6)
    &&& delim_at(tokens, pos + 7, Delimiter::Terminator)
}

/// A configuration specification in a declarative part adds the unit
/// that it binds to the units that the part depends on, next after those
/// found before it.
pub proof fn lemma_binding_found(tokens: Seq<Token>, pos: int, kind: EndKind, acc: Found)
    requires
        binding_at(tokens, pos),
    ensures
        match decl_from(tokens, pos, kind, acc) {
            Ok((found, _)) => begins(found.deps, acc.deps.push(ident_of(tokens, pos + 6))),
            Err(_) => true,
        },
{
    let empty = Stmt { tokens: Seq::empty(), refs: Seq::empty() };
    assert(empty.tokens =~= tokens.subrange(pos, pos));
    assert forall|i: int| pos <= i < pos + 7 implies plain_token(#[trigger] tokens[i]) by {
        if i == pos {
        } else if i == pos + 1 {
        } else if i == pos + 2 {
        } else if i == pos + 3 {
        } else if i == pos + 4 {
        } else if i == pos + 5 {
        } else {
            assert(i == pos + 6);
        }
    }
    lemma_statement_run(tokens, pos, 7, 0, empty);
    let (st, end) = spec_statement(tokens, pos);
    let toks = st.tokens;
    assert(toks == tokens.subrange(pos, pos + 7));
    assert(end == pos + 8);
    assert(toks[0] == tokens[pos]);
    assert(toks[1] == tokens[pos + 1]);
    assert(toks[2] == tokens[pos + 2]);
    assert(toks[3] == tokens[pos + 3]);
    assert(toks[4] == tokens[pos + 4]);
    assert(toks[5] == tokens[pos + 5]);
    assert(toks[6] == tokens[pos + 6]);
    assert(after_colon(toks, 2) == 3);
    assert(after_colon(toks, 1) == 3);
    assert(name_rest(toks, 7, seq![ident_of(toks, 6)]) == Ok::<
        (Seq<Identifier>, int),
        crate::vhdl::statement::ParseError,
    >((seq![ident_of(toks, 6)], 7)));
    assert(suffix_at(toks, 6) == Some(ident_of(tokens, pos + 6)));
    assert(spec_configuration_spec(toks) == Some(ident_of(tokens, pos + 6)));
    let next = Found { deps: acc.deps.push(ident_of(tokens, pos + 6)), refs: acc.refs };
    assert(decl_from(tokens, pos, kind, acc) == decl_from(tokens, end, kind, next));
    lemma_declaration_keeps(tokens, end, kind, next);
}

/// An architecture depends on the unit that a configuration specification
/// at the start of its declarative part binds.
///
/// The architecture is written as its name, `of`, the name of its
/// entity, `is`, and the configuration specification; whatever follows,
/// if the architecture can be read, the unit bound is the first that it
/// depends on.
pub proof fn lemma_architecture_binds(tokens: Seq<Token>, pos: int)
    requires
        binding_at(tokens, pos + 4),
    ensures
        match spec_architecture(tokens, pos) {
            Ok((Unit::Architecture { deps, .. }, _)) => deps.len() > 0 && deps[0] == ident_of(
                tokens,
                pos + 10,
            ),
            Ok(_) => false,
            Err(_) => true,
        },
{
    lemma_binding_found(tokens, pos + 4, EndKind::Primary, crate::vhdl::parser::nothing());
    if spec_architecture(tokens, pos) is Ok {
        assert(spec_declaration(tokens, pos + 3, EndKind::Primary) == decl_from(
            tokens,
            pos + 4,
            EndKind::Primary,
            crate::vhdl::parser::nothing(),
        ));
    }
}

} // verus!
