use crate::vhdl::delimiter::Delimiter;
use crate::vhdl::identifier::Identifier;
use crate::vhdl::keyword::Keyword;
use crate::vhdl::statement::{Statement, Stmt};
use crate::vhdl::token::{Token, VHDLToken};
use vstd::prelude::*;
use vstd::string::StringExecFns;

verus! {

/// One name of an interface list with what is declared of it.
#[derive(Debug, PartialEq)]
pub struct InterfaceDeclaration {
    /// The class written before the names (`signal`, `constant`, ...), if any.
    pub keyword: Option<Keyword>,
    pub name: Identifier,
    /// The mode (`in`, `out`, ...), if any.
    pub mode: Option<Keyword>,
    /// The tokens of the subtype indication.
    pub datatype: Vec<Token>,
    /// The tokens of the default expression; empty if there is none.
    pub default: Vec<Token>,
}

/// An interface declaration over plain sequences.
pub struct Decl {
    pub keyword: Option<Keyword>,
    pub name: Identifier,
    pub mode: Option<Keyword>,
    pub datatype: Seq<Token>,
    pub default: Seq<Token>,
}

impl View for InterfaceDeclaration {
    type V = Decl;

    open spec fn view(&self) -> Decl {
        Decl {
            keyword: self.keyword,
            name: self.name,
            mode: self.mode,
            datatype: self.datatype@,
            default: self.default@,
        }
    }
}

/// The declarations of a list over plain sequences.
pub open spec fn decls_view(v: Seq<InterfaceDeclaration>) -> Seq<Decl> {
    v.map_values(|d: InterfaceDeclaration| d@)
}

/// The names that a list declares, in order.
pub open spec fn decl_names(v: Seq<Decl>) -> Seq<Identifier> {
    v.map_values(|d: Decl| d.name)
}

/// Whether `kw` is a mode of an interface declaration.
pub open spec fn is_mode(kw: Keyword) -> bool {
    kw == Keyword::In || kw == Keyword::Out || kw == Keyword::Inout || kw == Keyword::Buffer || kw
        == Keyword::Linkage
}

/// The identifiers among `toks[i..]` that stand before the first colon,
/// appended to `acc`, and the index after that colon (the number of
/// tokens if there is none).
pub open spec fn names_before_colon(toks: Seq<Token>, i: int, acc: Seq<Identifier>) -> (
    Seq<Identifier>,
    int,
)
    decreases toks.len() - i,
{
    if i < 0 || i >= toks.len() {
        (acc, toks.len() as int)
    } else if toks[i].ttype == VHDLToken::Delimiter(Delimiter::Colon) {
        (acc, i + 1)
    } else if toks[i].ttype is Identifier {
        names_before_colon(toks, i + 1, acc.push(toks[i].ttype->Identifier_0))
    } else {
        names_before_colon(toks, i + 1, acc)
    }
}

/// The index of the first `:=` at or after `i`, or the number of tokens.
pub open spec fn assign_index(toks: Seq<Token>, i: int) -> int
    decreases toks.len() - i,
{
    if i < 0 || i >= toks.len() {
        toks.len() as int
    } else if toks[i].ttype == VHDLToken::Delimiter(Delimiter::VarAssign) {
        i
    } else {
        assign_index(toks, i + 1)
    }
}

/// What one item of an interface list declares of its name `name`.
pub open spec fn item_decl(toks: Seq<Token>, name: Identifier) -> Decl {
    let keyword = if toks.len() > 0 && toks[0].ttype is Keyword {
        Some(toks[0].ttype->Keyword_0)
    } else {
        None
    };
    let start: int = if keyword is Some {
        1
    } else {
        0
    };
    let c = names_before_colon(toks, start, Seq::empty()).1;
    let mode = if c < toks.len() && toks[c].ttype is Keyword && is_mode(toks[c].ttype->Keyword_0) {
        Some(toks[c].ttype->Keyword_0)
    } else {
        None
    };
    let t0 = if mode is Some {
        c + 1
    } else {
        c
    };
    let a = assign_index(toks, t0);
    Decl {
        keyword,
        name,
        mode,
        datatype: toks.subrange(t0, a),
        default: if a < toks.len() {
            toks.subrange(a + 1, toks.len() as int)
        } else {
            Seq::empty()
        },
    }
}

/// The names that one item of an interface list declares: the identifiers
/// before its colon, after the class keyword if it starts with one.
pub open spec fn item_names(toks: Seq<Token>) -> Seq<Identifier> {
    let start: int = if toks.len() > 0 && toks[0].ttype is Keyword {
        1
    } else {
        0
    };
    names_before_colon(toks, start, Seq::empty()).0
}

/// The declarations that one item of an interface list makes: one for each
/// of its names, all of the same class, mode, subtype and default.
pub open spec fn item_decls(toks: Seq<Token>) -> Seq<Decl> {
    item_names(toks).map_values(|n: Identifier| item_decl(toks, n))
}

/// The declarations that the first `n` items of an interface list make.
pub open spec fn list_decls(items: Seq<Stmt>, n: int) -> Seq<Decl>
    decreases n,
{
    if n <= 0 {
        Seq::empty()
    } else {
        list_decls(items, n - 1) + item_decls(items[n - 1].tokens)
    }
}

/// The declarations of an interface list.
#[derive(Debug, PartialEq)]
pub struct InterfaceDeclarations(pub Vec<InterfaceDeclaration>);

/// The generics of an entity.
#[derive(Debug, PartialEq)]
pub struct Generics(pub InterfaceDeclarations);

/// The ports of an entity.
#[derive(Debug, PartialEq)]
pub struct Ports(pub InterfaceDeclarations);

/// Copies the tokens `v[from..to]`.
fn copy_tokens(v: &Vec<Token>, from: usize, to: usize) -> (r: Vec<Token>)
    requires
        from <= to <= v.len(),
    ensures
        r@ == v@.subrange(from as int, to as int),
{
    let mut r: Vec<Token> = Vec::new();
    let mut i: usize = from;
    while i < to
        invariant
            from <= i <= to <= v.len(),
            r@ == v@.subrange(from as int, i as int),
        decreases to - i,
    {
        r.push(v[i].clone());
        i += 1;
    }
    r
}

impl InterfaceDeclarations {
    /// An empty list.
    pub fn new() -> (r: InterfaceDeclarations)
        ensures
            r.0@.len() == 0,
    {
        InterfaceDeclarations(Vec::new())
    }

    /// The number of declarations.
    pub fn len(&self) -> (n: usize)
        ensures
            n == self.0@.len(),
    {
        self.0.len()
    }

    /// Reads the declarations that one item of an interface list makes and
    /// appends them to `out`.
    pub fn push_item(out: &mut Vec<InterfaceDeclaration>, toks: &Vec<Token>)
        ensures
            decls_view(final(out)@) == decls_view(old(out)@) + item_decls(toks@),
    {
        let n = toks.len();
        let keyword: Option<Keyword> = if n > 0 {
            match toks[0].as_type() {
                VHDLToken::Keyword(k) => Some(*k),
                _ => None,
            }
        } else {
            None
        };
        let start: usize = if keyword.is_some() {
            1
        } else {
            0
        };
        let mut names: Vec<Identifier> = Vec::new();
        let mut c: usize = start;
        let mut found = false;
        while c < n && !found
            invariant
                n == toks.len(),
                start <= c <= n,
                !found ==> names_before_colon(toks@, c as int, names@) == names_before_colon(
                    toks@,
                    start as int,
                    Seq::empty(),
                ),
                found ==> (names@, c as int) == names_before_colon(
                    toks@,
                    start as int,
                    Seq::empty(),
                ),
            decreases n - c,
        {
            if toks[c].as_type().check_delimiter(&Delimiter::Colon) {
                found = true;
            } else {
                match toks[c].as_type().get_identifier() {
                    Some(id) => {
                        names.push(id.clone());
                    },
                    None => {},
                }
            }
            c += 1;
        }
        let mode: Option<Keyword> = if c < n {
            match toks[c].as_type() {
                VHDLToken::Keyword(k) => {
                    if matches!(
                        k,
                        Keyword::In | Keyword::Out | Keyword::Inout | Keyword::Buffer
                            | Keyword::Linkage
                    ) {
                        Some(*k)
                    } else {
                        None
                    }
                },
                _ => None,
            }
        } else {
            None
        };
        let t0: usize = if mode.is_some() {
            c + 1
        } else {
            c
        };
        let mut a: usize = t0;
        while a < n && !toks[a].as_type().check_delimiter(&Delimiter::VarAssign)
            invariant
                n == toks.len(),
                t0 <= a <= n,
                assign_index(toks@, a as int) == assign_index(toks@, t0 as int),
            decreases n - a,
        {
            a += 1;
        }
        let ghost all = item_decls(toks@);
        let ghost before = decls_view(old(out)@);
        assert(all.len() == names@.len());
        let mut i: usize = 0;
        assert(all.take(0) =~= Seq::<Decl>::empty());
        assert(before + Seq::<Decl>::empty() =~= before);
        while i < names.len()
            invariant
                n == toks.len(),
                t0 <= a <= n,
                i <= names.len(),
                all.len() == names@.len(),
                forall|j: int|
                    0 <= j < all.len() ==> #[trigger] all[j] == (Decl {
                        keyword,
                        name: names@[j],
                        mode,
                        datatype: toks@.subrange(t0 as int, a as int),
                        default: if a < n {
                            toks@.subrange(a + 1, n as int)
                        } else {
                            Seq::empty()
                        },
                    }),
                decls_view(out@) == before + all.take(i as int),
            decreases names.len() - i,
        {
            let default = if a < n {
                copy_tokens(toks, a + 1, n)
            } else {
                Vec::new()
            };
            let decl = InterfaceDeclaration {
                keyword,
                name: names[i].clone(),
                mode,
                datatype: copy_tokens(toks, t0, a),
                default,
            };
            proof {
                assert(decl@.default =~= all[i as int].default);
                assert(decl@ == all[i as int]);
                assert(decls_view(out@.push(decl)) =~= decls_view(out@).push(decl@));
                assert(all.take(i + 1) =~= all.take(i as int).push(all[i as int]));
                assert(before + all.take(i as int).push(all[i as int]) =~= (before + all.take(
                    i as int,
                )).push(all[i as int]));
            }
            out.push(decl);
            i += 1;
        }
        assert(all.take(all.len() as int) =~= all);
    }

    /// Reads the declarations of a whole interface list.
    pub fn from_statements(items: &Vec<Statement>) -> (r: InterfaceDeclarations)
        ensures
            decls_view(r.0@) == list_decls(
                crate::vhdl::statement::stmts_view(items@),
                items@.len() as int,
            ),
    {
        let mut out: Vec<InterfaceDeclaration> = Vec::new();
        let mut i: usize = 0;
        assert(decls_view(out@) =~= Seq::<Decl>::empty());
        while i < items.len()
            invariant
                i <= items.len(),
                decls_view(out@) == list_decls(
                    crate::vhdl::statement::stmts_view(items@),
                    i as int,
                ),
            decreases items.len() - i,
        {
            Self::push_item(&mut out, &items[i].0);
            i += 1;
        }
        InterfaceDeclarations(out)
    }
}

/// The names that the first `n` items of an interface list declare.
pub open spec fn list_names(items: Seq<Stmt>, n: int) -> Seq<Identifier>
    decreases n,
{
    if n <= 0 {
        Seq::empty()
    } else {
        list_names(items, n - 1) + item_names(items[n - 1].tokens)
    }
}

/// The declarations of an interface list declare the names of its items:
/// the identifiers that stand before the colon of each item, item after
/// item, in the order in which they are written.
pub proof fn lemma_declared_names(items: Seq<Stmt>, n: int)
    requires
        0 <= n <= items.len(),
    ensures
        decl_names(list_decls(items, n)) == list_names(items, n),
    decreases n,
{
    if n > 0 {
        lemma_declared_names(items, n - 1);
        let toks = items[n - 1].tokens;
        assert(decl_names(item_decls(toks)) =~= item_names(toks));
        assert(decl_names(list_decls(items, n - 1) + item_decls(toks)) =~= decl_names(
            list_decls(items, n - 1),
        ) + decl_names(item_decls(toks)));
    } else {
        assert(decl_names(list_decls(items, n)) =~= Seq::<Identifier>::empty());
    }
}

/// The token at which the name `i` of a list of names stands.
pub open spec fn name_token(toks: Seq<Token>, i: int) -> Token {
    toks[2 * i]
}

/// The token that follows the name `i` of a list of names.
pub open spec fn comma_token(toks: Seq<Token>, i: int) -> Token {
    toks[2 * i + 1]
}

/// Whether the tokens start with the names `ids` with commas between them.
pub open spec fn is_name_list(toks: Seq<Token>, ids: Seq<Identifier>) -> bool {
    &&& ids.len() > 0
    &&& toks.len() >= 2 * ids.len() - 1
    &&& forall|i: int|
        0 <= i < ids.len() ==> (#[trigger] name_token(toks, i)).ttype == VHDLToken::Identifier(
            ids[i],
        )
    &&& forall|i: int|
        0 <= i < ids.len() - 1 ==> (#[trigger] comma_token(toks, i)).ttype
            == VHDLToken::Delimiter(Delimiter::Comma)
}

/// The identifiers before the colon are found whatever follows the colon.
pub proof fn lemma_names_before_colon(toks: Seq<Token>, ids: Seq<Identifier>, k: int)
    requires
        0 <= k < ids.len(),
        2 * ids.len() - 1 < toks.len(),
        is_name_list(toks, ids),
        toks[2 * ids.len() - 1].ttype == VHDLToken::Delimiter(Delimiter::Colon),
    ensures
        names_before_colon(toks, 2 * k, ids.subrange(0, k)) == (ids, 2 * ids.len() as int),
    decreases ids.len() - k,
{
    let acc = ids.subrange(0, k);
    assert(name_token(toks, k).ttype == VHDLToken::Identifier(ids[k]));
    assert(acc.push(ids[k]) =~= ids.subrange(0, k + 1));
    assert(names_before_colon(toks, 2 * k, acc) == names_before_colon(
        toks,
        2 * k + 1,
        acc.push(ids[k]),
    ));
    if k + 1 < ids.len() {
        assert(comma_token(toks, k).ttype == VHDLToken::Delimiter(Delimiter::Comma));
        assert(names_before_colon(toks, 2 * k + 1, acc.push(ids[k])) == names_before_colon(
            toks,
            2 * k + 2,
            acc.push(ids[k]),
        ));
        lemma_names_before_colon(toks, ids, k + 1);
    } else {
        assert(acc.push(ids[k]) =~= ids);
    }
}

/// An item that is written as names with commas between them, a colon, and
/// whatever else, declares those names, in their order.
pub proof fn lemma_item_names(toks: Seq<Token>, ids: Seq<Identifier>)
    requires
        2 * ids.len() - 1 < toks.len(),
        is_name_list(toks, ids),
        toks[2 * ids.len() - 1].ttype == VHDLToken::Delimiter(Delimiter::Colon),
    ensures
        item_names(toks) == ids,
        decl_names(item_decls(toks)) == ids,
{
    assert(name_token(toks, 0).ttype == VHDLToken::Identifier(ids[0]));
    assert(ids.subrange(0, 0) =~= Seq::<Identifier>::empty());
    lemma_names_before_colon(toks, ids, 0);
    assert(decl_names(item_decls(toks)) =~= item_names(toks));
}

} // verus!
