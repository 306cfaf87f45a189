use crate::vhdl::delimiter::Delimiter;
use crate::vhdl::identifier::Identifier;
use crate::vhdl::keyword::Keyword;
use crate::vhdl::symbol::VHDLSymbol;
use crate::vhdl::token::{Token, VHDLToken};
use vstd::prelude::*;
use vstd::string::StringExecFns;

verus! {

/// A use of `prefix.suffix` in the code: the suffix may name a design unit,
/// the prefix a library or a package.
#[derive(Debug, PartialEq)]
pub struct ResReference {
    pub prefix: Identifier,
    pub suffix: Identifier,
}

impl Clone for ResReference {
    fn clone(&self) -> (r: Self)
        ensures
            r == *self,
    {
        ResReference { prefix: self.prefix.clone(), suffix: self.suffix.clone() }
    }
}

impl ResReference {
    /// A reference from `prefix` to `suffix`.
    pub fn new(prefix: Identifier, suffix: Identifier) -> (r: ResReference)
        ensures
            r.prefix == prefix,
            r.suffix == suffix,
    {
        ResReference { prefix, suffix }
    }

    /// The name after the dot.
    pub fn get_suffix(&self) -> (r: &Identifier)
        ensures
            *r == self.suffix,
    {
        &self.suffix
    }

    /// The name before the dot.
    pub fn get_prefix(&self) -> (r: &Identifier)
        ensures
            *r == self.prefix,
    {
        &self.prefix
    }

    /// The reference as it is written: prefix, dot, suffix.
    pub fn to_string(&self) -> (s: String)
        ensures
            s@ == self.prefix.lexeme() + seq!['.'] + self.suffix.lexeme(),
    {
        let mut out = self.prefix.to_string();
        out.push('.');
        let tail = self.suffix.to_string();
        out.append(tail.as_str());
        out
    }
}

/// A name made of identifiers joined by dots.
#[derive(Debug, PartialEq)]
pub struct SelectedName(pub Vec<Identifier>);

impl SelectedName {
    /// The last identifier of the name.
    pub fn get_suffix(&self) -> (r: &Identifier)
        requires
            self.0@.len() > 0,
        ensures
            *r == self.0@.last(),
    {
        &self.0[self.0.len() - 1]
    }

    /// The last identifier of the name, if the name has any.
    pub fn take_suffix(self) -> (r: Option<Identifier>)
        ensures
            r == if self.0@.len() > 0 {
                Some(self.0@.last())
            } else {
                None
            },
    {
        let mut names = self.0;
        names.pop()
    }
}

/// The names that one `use` clause imports.
#[derive(Debug, PartialEq)]
pub struct UseClause {
    pub imports: Vec<SelectedName>,
}

/// What is wrong with the structure of a design unit.
#[derive(Debug, Clone, Copy, PartialEq, Eq, Structural)]
pub enum ParseErrorKind {
    /// The tokens end where the unit needs one more.
    UnexpectedEnd,
    /// The name of a unit is missing.
    ExpectedIdentifier,
    /// A keyword that the unit cannot do without is missing.
    ExpectedKeyword(Keyword),
    /// A delimiter that the unit cannot do without is missing.
    ExpectedDelimiter(Delimiter),
    /// An interface list holds an item without tokens.
    EmptyInterfaceItem,
}

/// A fault in the structure of a design unit, with the index of the token
/// at which it shows.
#[derive(Debug, Clone, Copy, PartialEq, Eq, Structural)]
pub struct ParseError {
    pub index: usize,
    pub kind: ParseErrorKind,
}

/// A run of tokens up to a semicolon, with the references found in it.
#[derive(Debug, PartialEq)]
pub struct Statement(pub Vec<Token>, pub Vec<ResReference>);

/// A statement over plain sequences.
pub struct Stmt {
    pub tokens: Seq<Token>,
    pub refs: Seq<ResReference>,
}

impl View for Statement {
    type V = Stmt;

    open spec fn view(&self) -> Stmt {
        Stmt { tokens: self.0@, refs: self.1@ }
    }
}

/// Whether the keyword `kw` stands at `pos`.
pub open spec fn kw_at(tokens: Seq<Token>, pos: int, kw: Keyword) -> bool {
    0 <= pos < tokens.len() && tokens[pos].ttype == VHDLToken::Keyword(kw)
}

/// Whether the delimiter `d` stands at `pos`.
pub open spec fn delim_at(tokens: Seq<Token>, pos: int, d: Delimiter) -> bool {
    0 <= pos < tokens.len() && tokens[pos].ttype == VHDLToken::Delimiter(d)
}

/// Whether an identifier stands at `pos`.
pub open spec fn ident_at(tokens: Seq<Token>, pos: int) -> bool {
    0 <= pos < tokens.len() && tokens[pos].ttype is Identifier
}

/// The identifier that stands at `pos`.
pub open spec fn ident_of(tokens: Seq<Token>, pos: int) -> Identifier {
    tokens[pos].ttype->Identifier_0
}

/// Whether `t` ends a statement early and belongs to it: `generate`,
/// `begin`, or the arrow of a statement that starts with `when`.
pub open spec fn is_breaker(t: Token, so_far: Seq<Token>) -> bool {
    ||| t.ttype == VHDLToken::Keyword(Keyword::Generate)
    ||| t.ttype == VHDLToken::Keyword(Keyword::Begin)
    ||| (so_far.len() > 0 && so_far[0].ttype == VHDLToken::Keyword(Keyword::When) && t.ttype
        == VHDLToken::Delimiter(Delimiter::Arrow))
}

/// The statement that starts at `pos`, continued from the tokens and
/// references gathered `so_far`, and the index after it.
///
/// A statement ends before a semicolon, which is skipped, or with a token that
/// breaks it early. Where an identifier is followed by a dot and another
/// identifier, the two make a reference. If the tokens end first, the
/// statement is empty.
pub open spec fn statement_from(tokens: Seq<Token>, pos: int, so_far: Stmt) -> (Stmt, int)
    decreases tokens.len() - pos,
{
    if pos < 0 || pos >= tokens.len() {
        (Stmt { tokens: Seq::empty(), refs: Seq::empty() }, pos)
    } else {
        let t = tokens[pos];
        if t.ttype == VHDLToken::Delimiter(Delimiter::Terminator) {
            (so_far, pos + 1)
        } else if is_breaker(t, so_far.tokens) {
            (Stmt { tokens: so_far.tokens.push(t), refs: so_far.refs }, pos + 1)
        } else if t.ttype is Identifier && delim_at(tokens, pos + 1, Delimiter::Dot) {
            let refs = if ident_at(tokens, pos + 2) {
                so_far.refs.push(
                    ResReference { prefix: ident_of(tokens, pos), suffix: ident_of(tokens, pos + 2) },
                )
            } else {
                so_far.refs
            };
            statement_from(
                tokens,
                pos + 2,
                Stmt { tokens: so_far.tokens.push(t).push(tokens[pos + 1]), refs },
            )
        } else {
            statement_from(tokens, pos + 1, Stmt { tokens: so_far.tokens.push(t), refs: so_far.refs })
        }
    }
}

/// The statement that starts at `pos` and the index after it.
pub open spec fn spec_statement(tokens: Seq<Token>, pos: int) -> (Stmt, int) {
    statement_from(tokens, pos, Stmt { tokens: Seq::empty(), refs: Seq::empty() })
}

/// A statement ends within the tokens, and after `pos` where a token stands there.
pub proof fn lemma_statement_end(tokens: Seq<Token>, pos: int, so_far: Stmt)
    requires
        0 <= pos <= tokens.len(),
    ensures
        pos <= statement_from(tokens, pos, so_far).1 <= tokens.len(),
        pos < tokens.len() ==> pos < statement_from(tokens, pos, so_far).1,
    decreases tokens.len() - pos,
{
    if pos < tokens.len() {
        let t = tokens[pos];
        if t.ttype == VHDLToken::Delimiter(Delimiter::Terminator) {
        } else if is_breaker(t, so_far.tokens) {
        } else if t.ttype is Identifier && delim_at(tokens, pos + 1, Delimiter::Dot) {
            let refs = if ident_at(tokens, pos + 2) {
                so_far.refs.push(
                    ResReference { prefix: ident_of(tokens, pos), suffix: ident_of(tokens, pos + 2) },
                )
            } else {
                so_far.refs
            };
            lemma_statement_end(
                tokens,
                pos + 2,
                Stmt { tokens: so_far.tokens.push(t).push(tokens[pos + 1]), refs },
            );
        } else {
            lemma_statement_end(
                tokens,
                pos + 1,
                Stmt { tokens: so_far.tokens.push(t), refs: so_far.refs },
            );
        }
    }
}

/// The identifiers of the selected name that starts at `pos`, continued from
/// those gathered in `acc`, and the index after the name.
///
/// After each dot comes an identifier, which belongs to the name, or
/// another token, which ends it; the keyword `all` ends it too.
pub open spec fn name_rest(tokens: Seq<Token>, pos: int, acc: Seq<Identifier>) -> Result<
    (Seq<Identifier>, int),
    ParseError,
>
    decreases tokens.len() - pos,
{
    if delim_at(tokens, pos, Delimiter::Dot) {
        if pos + 1 >= tokens.len() {
            Err(ParseError { index: (pos + 1) as usize, kind: ParseErrorKind::UnexpectedEnd })
        } else if ident_at(tokens, pos + 1) {
            name_rest(tokens, pos + 2, acc.push(ident_of(tokens, pos + 1)))
        } else {
            Ok((acc, pos + 2))
        }
    } else {
        Ok((acc, pos))
    }
}

/// The identifiers of the selected name that starts at `pos` and the index
/// after the name.
pub open spec fn spec_name(tokens: Seq<Token>, pos: int) -> Result<(Seq<Identifier>, int), ParseError> {
    if pos < 0 || pos >= tokens.len() {
        Err(ParseError { index: pos as usize, kind: ParseErrorKind::UnexpectedEnd })
    } else if ident_at(tokens, pos) {
        name_rest(tokens, pos + 1, seq![ident_of(tokens, pos)])
    } else {
        name_rest(tokens, pos + 1, Seq::empty())
    }
}

/// A name ends within the tokens and after its start.
pub proof fn lemma_name_rest(tokens: Seq<Token>, pos: int, acc: Seq<Identifier>)
    requires
        0 <= pos <= tokens.len() <= usize::MAX,
    ensures
        match name_rest(tokens, pos, acc) {
            Ok((names, end)) => pos <= end <= tokens.len() && names.len() >= acc.len(),
            Err(e) => pos < e.index == tokens.len(),
        },
    decreases tokens.len() - pos,
{
    if delim_at(tokens, pos, Delimiter::Dot) {
        if pos + 1 >= tokens.len() {
        } else if ident_at(tokens, pos + 1) {
            lemma_name_rest(tokens, pos + 2, acc.push(ident_of(tokens, pos + 1)));
        }
    }
}

/// The names of the use clause whose first name starts at `pos`, continued
/// from those gathered in `acc`: after each comma comes one more name; the
/// clause ends after a semicolon or with the tokens.
pub open spec fn use_rest(tokens: Seq<Token>, pos: int, acc: Seq<Seq<Identifier>>) -> Result<
    (Seq<Seq<Identifier>>, int),
    ParseError,
>
    decreases tokens.len() - pos,
{
    if pos < 0 || pos >= tokens.len() {
        Ok((acc, pos))
    } else if delim_at(tokens, pos, Delimiter::Comma) {
        match spec_name(tokens, pos + 1) {
            Err(e) => Err(e),
            Ok((names, end)) => if pos < end <= tokens.len() {
                use_rest(tokens, end, acc.push(names))
            } else {
                Ok((acc, pos))
            },
        }
    } else if delim_at(tokens, pos, Delimiter::Terminator) {
        Ok((acc, pos + 1))
    } else {
        use_rest(tokens, pos + 1, acc)
    }
}

/// The names of the use clause whose first name starts at `pos` and the
/// index after the clause.
pub open spec fn spec_use_clause(tokens: Seq<Token>, pos: int) -> Result<
    (Seq<Seq<Identifier>>, int),
    ParseError,
> {
    match spec_name(tokens, pos) {
        Err(e) => Err(e),
        Ok((names, end)) => use_rest(tokens, end, seq![names]),
    }
}

/// The names of a use clause, each as a sequence of identifiers.
pub open spec fn imports_view(imports: Seq<SelectedName>) -> Seq<Seq<Identifier>> {
    imports.map_values(|n: SelectedName| n.0@)
}

/// Whether a statement that starts with `end` closes a design unit: it does
/// unless a keyword follows that names an inner construct.
pub open spec fn spec_primary_ending(toks: Seq<Token>) -> bool {
    if toks.len() < 2 {
        true
    } else {
        match toks[1].ttype {
            VHDLToken::Keyword(kw) => !(kw == Keyword::Loop || kw == Keyword::Generate || kw
                == Keyword::Process || kw == Keyword::Postponed || kw == Keyword::If || kw
                == Keyword::Block || kw == Keyword::Protected || kw == Keyword::Record || kw
                == Keyword::Case || kw == Keyword::Component || kw == Keyword::For),
            _ => true,
        }
    }
}

/// Whether `kw` may start a subprogram.
pub open spec fn spec_subprogram(kw: Keyword) -> bool {
    kw == Keyword::Function || kw == Keyword::Procedure || kw == Keyword::Pure || kw
        == Keyword::Impure
}

/// Whether a statement opens the body of a subprogram: it starts with
/// `function` or `procedure` and ends with `begin`.
pub open spec fn spec_sub_declaration(toks: Seq<Token>) -> bool {
    &&& toks.len() > 0
    &&& (toks[0].ttype == VHDLToken::Keyword(Keyword::Function) || toks[0].ttype
        == VHDLToken::Keyword(Keyword::Procedure))
    &&& toks.last().ttype == VHDLToken::Keyword(Keyword::Begin)
}

/// The index after the first colon at or after `i`, or the number of tokens
/// if there is none.
pub open spec fn after_colon(toks: Seq<Token>, i: int) -> int
    decreases toks.len() - i,
{
    if i < 0 || i >= toks.len() {
        toks.len() as int
    } else if toks[i].ttype == VHDLToken::Delimiter(Delimiter::Colon) {
        i + 1
    } else {
        after_colon(toks, i + 1)
    }
}

/// The last identifier of the selected name that starts at `pos`, if the
/// name is complete and has one.
pub open spec fn suffix_at(toks: Seq<Token>, pos: int) -> Option<Identifier> {
    match spec_name(toks, pos) {
        Ok((names, _)) => if names.len() > 0 {
            Some(names.last())
        } else {
            None
        },
        Err(_) => None,
    }
}

/// The unit that a configuration specification binds: in
/// `for <label> : <component> use entity <name>` or `... use configuration
/// <name>`, the last identifier of `<name>`.
pub open spec fn spec_configuration_spec(toks: Seq<Token>) -> Option<Identifier> {
    if !kw_at(toks, 0, Keyword::For) {
        None
    } else {
        let c = after_colon(toks, 1);
        if !ident_at(toks, c) {
            None
        } else if !kw_at(toks, c + 1, Keyword::Use) {
            None
        } else if kw_at(toks, c + 2, Keyword::Entity) || kw_at(toks, c + 2, Keyword::Configuration) {
            suffix_at(toks, c + 3)
        } else {
            None
        }
    }
}

/// The unit that a statement instantiates: in `<label> : <name>`,
/// `<label> : entity <name>`, `<label> : component <name>` or
/// `<label> : configuration <name>`, the last identifier of `<name>`.
pub open spec fn spec_instantiation(toks: Seq<Token>) -> Option<Identifier> {
    if !ident_at(toks, 0) || !delim_at(toks, 1, Delimiter::Colon) {
        None
    } else if ident_at(toks, 2) {
        suffix_at(toks, 2)
    } else if kw_at(toks, 2, Keyword::Component) || kw_at(toks, 2, Keyword::Entity) || kw_at(
        toks,
        2,
        Keyword::Configuration,
    ) {
        if ident_at(toks, 3) {
            suffix_at(toks, 3)
        } else {
            None
        }
    } else {
        None
    }
}

/// Opening minus closing parentheses among the first `n` tokens.
pub open spec fn paren_balance(toks: Seq<Token>, n: int) -> int
    decreases n,
{
    if n <= 0 {
        0
    } else if toks[n - 1].ttype == VHDLToken::Delimiter(Delimiter::ParenL) {
        paren_balance(toks, n - 1) + 1
    } else if toks[n - 1].ttype == VHDLToken::Delimiter(Delimiter::ParenR) {
        paren_balance(toks, n - 1) - 1
    } else {
        paren_balance(toks, n - 1)
    }
}

/// The balance of parentheses stays within the number of tokens counted.
pub proof fn lemma_paren_balance(toks: Seq<Token>, n: int)
    requires
        0 <= n,
    ensures
        -n <= paren_balance(toks, n) <= n,
    decreases n,
{
    if n > 0 {
        lemma_paren_balance(toks, n - 1);
    }
}

/// Whether the statement closes the interface list: its last token is the
/// one closing parenthesis too many.
pub open spec fn closes_list(st: Stmt) -> bool {
    st.tokens.len() > 0 && st.tokens.last().ttype == VHDLToken::Delimiter(Delimiter::ParenR)
        && paren_balance(st.tokens, st.tokens.len() as int) == -1
}

/// The items of the interface list, continued at `pos` from those gathered
/// in `acc`, and the index after the list.
///
/// The list ends with the statement whose last token closes it, which loses
/// that token, or before a statement that starts with a closing
/// parenthesis, which is skipped.
pub open spec fn interface_rest(tokens: Seq<Token>, pos: int, acc: Seq<Stmt>) -> Result<
    (Seq<Stmt>, int),
    ParseError,
>
    decreases tokens.len() - pos,
{
    if pos < 0 || pos >= tokens.len() {
        Ok((acc, pos))
    } else if acc.len() > 0 && acc.last().tokens.len() == 0 {
        Err(ParseError { index: pos as usize, kind: ParseErrorKind::EmptyInterfaceItem })
    } else if acc.len() > 0 && closes_list(acc.last()) {
        Ok(
            (
                acc.drop_last().push(
                    Stmt { tokens: acc.last().tokens.drop_last(), refs: acc.last().refs },
                ),
                pos,
            ),
        )
    } else if delim_at(tokens, pos, Delimiter::ParenR) {
        Ok((acc, spec_statement(tokens, pos).1))
    } else {
        let (st, end) = spec_statement(tokens, pos);
        if pos < end <= tokens.len() {
            interface_rest(tokens, end, acc.push(st))
        } else {
            Ok((acc, pos))
        }
    }
}

/// The items of the interface list whose opening parenthesis stands at `pos`.
pub open spec fn spec_interface_list(tokens: Seq<Token>, pos: int) -> Result<
    (Seq<Stmt>, int),
    ParseError,
> {
    if pos < 0 || pos >= tokens.len() {
        Err(ParseError { index: pos as usize, kind: ParseErrorKind::UnexpectedEnd })
    } else if !delim_at(tokens, pos, Delimiter::ParenL) {
        Err(
            ParseError {
                index: pos as usize,
                kind: ParseErrorKind::ExpectedDelimiter(Delimiter::ParenL),
            },
        )
    } else {
        interface_rest(tokens, pos + 1, Seq::empty())
    }
}

/// The statements of a list over plain sequences.
pub open spec fn stmts_view(v: Seq<Statement>) -> Seq<Stmt> {
    v.map_values(|s: Statement| s@)
}

/// Whether a delimiter is written with blanks around it.
pub open spec fn is_spaced(d: Delimiter) -> bool {
    d != Delimiter::ParenL && d != Delimiter::ParenR
}

/// Whether a blank follows token `i` when a statement is written out.
pub open spec fn trailing_space(toks: Seq<Token>, i: int) -> bool {
    if i + 1 >= toks.len() {
        false
    } else {
        match toks[i].ttype {
            VHDLToken::Delimiter(d) => is_spaced(d),
            _ => match toks[i + 1].ttype {
                VHDLToken::Delimiter(d) => is_spaced(d),
                _ => true,
            },
        }
    }
}

/// The first `n` tokens written out, a blank between two of them unless one
/// is a parenthesis.
pub open spec fn statement_text(toks: Seq<Token>, n: int) -> Seq<char>
    decreases n,
{
    if n <= 0 {
        Seq::empty()
    } else {
        statement_text(toks, n - 1) + toks[n - 1].ttype@.lexeme() + if trailing_space(toks, n - 1) {
            seq![' ']
        } else {
            Seq::empty()
        }
    }
}

impl Statement {
    /// A statement without tokens.
    pub fn new() -> (r: Statement)
        ensures
            r@ == (Stmt { tokens: Seq::empty(), refs: Seq::empty() }),
    {
        let r = Statement(Vec::new(), Vec::new());
        assert(r@.tokens =~= Seq::<Token>::empty());
        assert(r@.refs =~= Seq::<ResReference>::empty());
        r
    }

    /// The tokens without their positions.
    pub fn as_types(&self) -> (r: Vec<&VHDLToken>)
        ensures
            r@.len() == self.0@.len(),
            forall|i: int| 0 <= i < r@.len() ==> *r@[i] == self.0@[i].ttype,
    {
        let mut out: Vec<&VHDLToken> = Vec::new();
        let mut i: usize = 0;
        while i < self.0.len()
            invariant
                i <= self.0.len(),
                out@.len() == i,
                forall|j: int| 0 <= j < i ==> *out@[j] == self.0@[j].ttype,
            decreases self.0.len() - i,
        {
            out.push(self.0[i].as_type());
            i += 1;
        }
        out
    }

    /// The references found in the statement.
    pub fn get_refs(&self) -> (r: Vec<&ResReference>)
        ensures
            r@.len() == self.1@.len(),
            forall|i: int| 0 <= i < r@.len() ==> *r@[i] == self.1@[i],
    {
        refs_of(&self.1)
    }

    /// The references found in the statement; the tokens are dropped.
    pub fn take_refs(self) -> (r: Vec<ResReference>)
        ensures
            r@ == self.1@,
    {
        self.1
    }

    /// The statement written out, a blank between two tokens unless one is a
    /// parenthesis.
    pub fn to_string(&self) -> (s: String)
        ensures
            s@ == statement_text(self.0@, self.0@.len() as int),
    {
        let mut out: Vec<char> = Vec::new();
        push_tokens(&mut out, &self.0);
        crate::text::string_of(&out)
    }
}

/// Appends the tokens written out, a blank between two of them unless one
/// is a parenthesis.
pub fn push_tokens(out: &mut Vec<char>, toks: &Vec<Token>)
    ensures
        final(out)@ == old(out)@ + statement_text(toks@, toks@.len() as int),
{
    let mut i: usize = 0;
    assert(out@ =~= old(out)@ + statement_text(toks@, 0));
    while i < toks.len()
        invariant
            i <= toks.len(),
            out@ == old(out)@ + statement_text(toks@, i as int),
        decreases toks.len() - i,
    {
        let text = toks[i].as_type().to_string();
        let ghost before = out@;
        crate::text::extend_str(out, text.as_str());
        let spaced = if i + 1 < toks.len() {
            match toks[i].as_type() {
                VHDLToken::Delimiter(d) => !matches!(d, Delimiter::ParenL | Delimiter::ParenR),
                _ => match toks[i + 1].as_type() {
                    VHDLToken::Delimiter(d) => !matches!(d, Delimiter::ParenL | Delimiter::ParenR),
                    _ => true,
                },
            }
        } else {
            false
        };
        if spaced {
            out.push(' ');
        }
        assert(out@ =~= old(out)@ + statement_text(toks@, i + 1));
        i += 1;
    }
}

/// References to the items of `refs`, in order.
pub fn refs_of(refs: &Vec<ResReference>) -> (r: Vec<&ResReference>)
    ensures
        r@.len() == refs@.len(),
        forall|i: int| 0 <= i < r@.len() ==> *r@[i] == refs@[i],
{
    let mut out: Vec<&ResReference> = Vec::new();
    let mut i: usize = 0;
    while i < refs.len()
        invariant
            i <= refs.len(),
            out@.len() == i,
            forall|j: int| 0 <= j < i ==> *out@[j] == refs@[j],
        decreases refs.len() - i,
    {
        out.push(&refs[i]);
        i += 1;
    }
    out
}

/// Counts opening minus closing parentheses among the tokens.
fn count_balance(toks: &Vec<Token>) -> (r: i128)
    ensures
        r == paren_balance(toks@, toks@.len() as int),
{
    let mut b: i128 = 0;
    let mut i: usize = 0;
    while i < toks.len()
        invariant
            i <= toks.len(),
            b == paren_balance(toks@, i as int),
        decreases toks.len() - i,
    {
        proof {
            lemma_paren_balance(toks@, i as int);
        }
        if toks[i].as_type().check_delimiter(&Delimiter::ParenL) {
            b += 1;
        } else if toks[i].as_type().check_delimiter(&Delimiter::ParenR) {
            b -= 1;
        }
        i += 1;
    }
    b
}

impl VHDLSymbol {
    /// Gathers the tokens of the statement that starts at `pos`.
    ///
    /// Returns the statement and the index after it. The semicolon that ends
    /// the statement is skipped and is no part of it.
    pub fn compose_statement(tokens: &Vec<Token>, pos: usize) -> (r: (Statement, usize))
        ensures
            r.0@ == spec_statement(tokens@, pos as int).0,
            r.1 == spec_statement(tokens@, pos as int).1,
            pos <= tokens.len() ==> pos <= r.1 <= tokens.len(),
            pos < tokens.len() ==> pos < r.1,
    {
        let mut toks: Vec<Token> = Vec::new();
        let mut refs: Vec<ResReference> = Vec::new();
        let mut i: usize = pos;
        proof {
            if pos <= tokens.len() {
                lemma_statement_end(
                    tokens@,
                    pos as int,
                    Stmt { tokens: Seq::empty(), refs: Seq::empty() },
                );
            }
        }
        while i < tokens.len()
            invariant
                pos <= i,
                pos <= tokens.len() ==> i <= tokens.len(),
                statement_from(tokens@, i as int, Stmt { tokens: toks@, refs: refs@ })
                    == spec_statement(tokens@, pos as int),
            decreases tokens.len() - i,
        {
            let t = &tokens[i];
            let breaks = t.as_type().check_keyword(&Keyword::Generate) || t.as_type().check_keyword(
                &Keyword::Begin,
            ) || (toks.len() > 0 && toks[0].as_type().check_keyword(&Keyword::When)
                && t.as_type().check_delimiter(&Delimiter::Arrow));
            if t.as_type().check_delimiter(&Delimiter::Terminator) {
                return (Statement(toks, refs), i + 1);
            } else if breaks {
                toks.push(t.clone());
                return (Statement(toks, refs), i + 1);
            } else {
                let dotted = tokens.len() - i > 1 && tokens[i + 1].as_type().check_delimiter(
                    &Delimiter::Dot,
                );
                match t.as_type().get_identifier() {
                    Some(id) if dotted => {
                        if tokens.len() - i > 2 {
                            match tokens[i + 2].as_type().get_identifier() {
                                Some(id2) => {
                                    refs.push(ResReference::new(id.clone(), id2.clone()));
                                },
                                None => {},
                            }
                        }
                        toks.push(t.clone());
                        toks.push(tokens[i + 1].clone());
                        i += 2;
                    },
                    _ => {
                        toks.push(t.clone());
                        i += 1;
                    },
                }
            }
        }
        (Statement::new(), i)
    }

    /// Gathers the identifiers of the selected name that starts at `pos`.
    ///
    /// Fails if the tokens end where the name starts or after one of its dots.
    pub fn compose_name(tokens: &Vec<Token>, pos: usize) -> (r: Result<
        (SelectedName, usize),
        ParseError,
    >)
        ensures
            match (r, spec_name(tokens@, pos as int)) {
                (Ok((name, end)), Ok((names, e))) => name.0@ == names && end == e,
                (Err(x), Err(y)) => x == y,
                _ => false,
            },
            r is Ok ==> pos < r->Ok_0.1 <= tokens.len(),
    {
        if pos >= tokens.len() {
            return Err(ParseError { index: pos, kind: ParseErrorKind::UnexpectedEnd });
        }
        let mut names: Vec<Identifier> = Vec::new();
        match tokens[pos].as_type().get_identifier() {
            Some(id) => {
                names.push(id.clone());
            },
            None => {},
        }
        let mut i: usize = pos + 1;
        proof {
            lemma_name_rest(tokens@, i as int, names@);
        }
        while i < tokens.len() && tokens[i].as_type().check_delimiter(&Delimiter::Dot)
            invariant
                pos < i <= tokens.len(),
                name_rest(tokens@, i as int, names@) == spec_name(tokens@, pos as int),
            decreases tokens.len() - i,
        {
            if tokens.len() - i <= 1 {
                return Err(ParseError { index: i + 1, kind: ParseErrorKind::UnexpectedEnd });
            }
            match tokens[i + 1].as_type().get_identifier() {
                Some(id) => {
                    names.push(id.clone());
                    i += 2;
                },
                None => {
                    return Ok((SelectedName(names), i + 2));
                },
            }
        }
        Ok((SelectedName(names), i))
    }

    /// Reads the names of a use clause; `pos` is the index after `use`.
    pub fn parse_use_clause(tokens: &Vec<Token>, pos: usize) -> (r: Result<
        (UseClause, usize),
        ParseError,
    >)
        ensures
            match (r, spec_use_clause(tokens@, pos as int)) {
                (Ok((clause, end)), Ok((names, e))) => imports_view(clause.imports@) == names && end
                    == e,
                (Err(x), Err(y)) => x == y,
                _ => false,
            },
            r is Ok ==> pos < r->Ok_0.1 <= tokens.len(),
    {
        let mut imports: Vec<SelectedName> = Vec::new();
        let mut i: usize = match Self::compose_name(tokens, pos) {
            Err(e) => {
                return Err(e);
            },
            Ok((name, end)) => {
                imports.push(name);
                end
            },
        };
        assert(imports_view(imports@) =~= seq![imports@[0].0@]);
        while i < tokens.len()
            invariant
                pos < i <= tokens.len(),
                use_rest(tokens@, i as int, imports_view(imports@)) == spec_use_clause(
                    tokens@,
                    pos as int,
                ),
            decreases tokens.len() - i,
        {
            if tokens[i].as_type().check_delimiter(&Delimiter::Comma) {
                match Self::compose_name(tokens, i + 1) {
                    Err(e) => {
                        return Err(e);
                    },
                    Ok((name, end)) => {
                        assert(imports_view(imports@.push(name)) =~= imports_view(imports@).push(
                            name.0@,
                        ));
                        imports.push(name);
                        i = end;
                    },
                }
            } else if tokens[i].as_type().check_delimiter(&Delimiter::Terminator) {
                return Ok((UseClause { imports }, i + 1));
            } else {
                i += 1;
            }
        }
        Ok((UseClause { imports }, i))
    }

    /// Whether a statement that starts with `end` closes a design unit.
    pub fn is_primary_ending(stmt: &Statement) -> (r: bool)
        ensures
            r == spec_primary_ending(stmt.0@),
    {
        if stmt.0.len() < 2 {
            return true;
        }
        match stmt.0[1].as_type() {
            VHDLToken::Keyword(kw) => !matches!(
                kw,
                Keyword::Loop | Keyword::Generate | Keyword::Process | Keyword::Postponed
                    | Keyword::If | Keyword::Block | Keyword::Protected | Keyword::Record
                    | Keyword::Case | Keyword::Component | Keyword::For
            ),
            _ => true,
        }
    }

    /// Whether a statement that starts with `end` closes an inner construct.
    pub fn is_sub_ending(stmt: &Statement) -> (r: bool)
        ensures
            r == !spec_primary_ending(stmt.0@),
    {
        !Self::is_primary_ending(stmt)
    }

    /// Whether `kw` may start a subprogram.
    pub fn is_subprogram(kw: &Keyword) -> (r: bool)
        ensures
            r == spec_subprogram(*kw),
    {
        matches!(kw, Keyword::Function | Keyword::Procedure | Keyword::Pure | Keyword::Impure)
    }

    /// Whether `kw` opens a subprogram.
    pub fn enter_subprogram(kw: &Keyword) -> (r: bool)
        ensures
            r == spec_subprogram(*kw),
    {
        matches!(kw, Keyword::Function | Keyword::Procedure | Keyword::Impure | Keyword::Pure)
    }

    /// Whether a statement opens the body of a subprogram.
    pub fn is_sub_declaration(stmt: &Statement) -> (r: bool)
        ensures
            r == spec_sub_declaration(stmt.0@),
    {
        if stmt.0.len() == 0 {
            return false;
        }
        let first = stmt.0[0].as_type();
        if !(first.check_keyword(&Keyword::Function) || first.check_keyword(&Keyword::Procedure)) {
            return false;
        }
        stmt.0[stmt.0.len() - 1].as_type().check_keyword(&Keyword::Begin)
    }

    /// Finds the unit that a configuration specification binds.
    pub fn parse_configuration_spec(statement: Statement) -> (r: Option<Identifier>)
        ensures
            r == spec_configuration_spec(statement.0@),
    {
        let toks = &statement.0;
        if toks.len() == 0 || !toks[0].as_type().check_keyword(&Keyword::For) {
            return None;
        }
        let mut c: usize = 1;
        while c < toks.len() && !toks[c].as_type().check_delimiter(&Delimiter::Colon)
            invariant
                1 <= c <= toks.len(),
                after_colon(toks@, c as int) == after_colon(toks@, 1),
            decreases toks.len() - c,
        {
            c += 1;
        }
        if c >= toks.len() {
            return None;
        }
        c += 1;
        if c >= toks.len() || toks.len() - c < 3 {
            return None;
        }
        if toks[c].as_type().get_identifier().is_none() {
            return None;
        }
        if !toks[c + 1].as_type().check_keyword(&Keyword::Use) {
            return None;
        }
        if toks[c + 2].as_type().check_keyword(&Keyword::Entity) || toks[c + 2].as_type().check_keyword(
            &Keyword::Configuration,
        ) {
            suffix_of(toks, c + 3)
        } else {
            None
        }
    }

    /// Finds the unit that a statement instantiates.
    pub fn parse_instantiation(statement: Statement) -> (r: Option<Identifier>)
        ensures
            r == spec_instantiation(statement.0@),
    {
        let toks = &statement.0;
        if toks.len() < 3 {
            proof {
                if ident_at(toks@, 0) && delim_at(toks@, 1, Delimiter::Colon) {
                    assert(spec_name(toks@, 2) is Err);
                }
            }
            return None;
        }
        if toks[0].as_type().get_identifier().is_none() {
            return None;
        }
        if !toks[1].as_type().check_delimiter(&Delimiter::Colon) {
            return None;
        }
        match toks[2].as_type() {
            VHDLToken::Identifier(_) => suffix_of(toks, 2),
            VHDLToken::Keyword(kw) => {
                if matches!(kw, Keyword::Component | Keyword::Entity | Keyword::Configuration) {
                    if toks.len() > 3 && toks[3].as_type().get_identifier().is_some() {
                        suffix_of(toks, 3)
                    } else {
                        None
                    }
                } else {
                    None
                }
            },
            _ => None,
        }
    }

    /// Reads the items of an interface list; `pos` is the index of its
    /// opening parenthesis, after `generic` or `port`.
    pub fn parse_interface_list(tokens: &Vec<Token>, pos: usize) -> (r: Result<
        (Vec<Statement>, usize),
        ParseError,
    >)
        ensures
            match (r, spec_interface_list(tokens@, pos as int)) {
                (Ok((items, end)), Ok((stmts, e))) => stmts_view(items@) == stmts && end == e,
                (Err(x), Err(y)) => x == y,
                _ => false,
            },
            r is Ok ==> pos < r->Ok_0.1 <= tokens.len(),
    {
        if pos >= tokens.len() {
            return Err(ParseError { index: pos, kind: ParseErrorKind::UnexpectedEnd });
        }
        if !tokens[pos].as_type().check_delimiter(&Delimiter::ParenL) {
            return Err(
                ParseError { index: pos, kind: ParseErrorKind::ExpectedDelimiter(Delimiter::ParenL) },
            );
        }
        let mut items: Vec<Statement> = Vec::new();
        let mut i: usize = pos + 1;
        assert(stmts_view(items@) =~= Seq::<Stmt>::empty());
        while i < tokens.len()
            invariant
                pos < i <= tokens.len(),
                interface_rest(tokens@, i as int, stmts_view(items@)) == spec_interface_list(
                    tokens@,
                    pos as int,
                ),
            decreases tokens.len() - i,
        {
            let n = items.len();
            if n > 0 {
                let m = items[n - 1].0.len();
                assert(stmts_view(items@).last() == items@[n - 1]@);
                if m == 0 {
                    return Err(ParseError { index: i, kind: ParseErrorKind::EmptyInterfaceItem });
                }
                if items[n - 1].0[m - 1].as_type().check_delimiter(&Delimiter::ParenR)
                    && count_balance(&items[n - 1].0) == -1 {
                    let last = items.pop().unwrap();
                    let Statement(mut toks, refs) = last;
                    toks.pop();
                    let ghost before = items@;
                    items.push(Statement(toks, refs));
                    proof {
                        let acc = stmts_view(before.push(last));
                        assert(acc.drop_last() =~= stmts_view(before));
                        assert(stmts_view(items@) =~= stmts_view(before).push(
                            Stmt { tokens: last@.tokens.drop_last(), refs: last@.refs },
                        ));
                    }
                    return Ok((items, i));
                }
            }
            if tokens[i].as_type().check_delimiter(&Delimiter::ParenR) {
                let (_, end) = Self::compose_statement(tokens, i);
                return Ok((items, end));
            }
            let (st, end) = Self::compose_statement(tokens, i);
            assert(stmts_view(items@.push(st)) =~= stmts_view(items@).push(st@));
            items.push(st);
            i = end;
        }
        Ok((items, i))
    }
}

/// The last identifier of the selected name that starts at `pos`.
fn suffix_of(toks: &Vec<Token>, pos: usize) -> (r: Option<Identifier>)
    ensures
        r == suffix_at(toks@, pos as int),
{
    match VHDLSymbol::compose_name(toks, pos) {
        Ok((name, _)) => name.take_suffix(),
        Err(_) => None,
    }
}

} // verus!
