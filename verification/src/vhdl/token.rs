use crate::text::{doubled, lower_seq, push_doubled};
use crate::vhdl::delimiter::Delimiter;
use crate::vhdl::identifier::Identifier;
use crate::vhdl::keyword::Keyword;
use vstd::prelude::*;
use vstd::string::StringExecFns;

verus! {

/// A comment: to the end of its line, or between `/*` and `*/`.
#[derive(Debug, PartialEq)]
pub enum Comment {
    Single(String),
    Delimited(String),
}

/// An abstract literal: a decimal number or one written in another base.
#[derive(Debug, PartialEq)]
pub enum AbstLiteral {
    Decimal(String),
    Based(String),
}

/// A character literal; the field is the character between the quotes.
#[derive(Debug, PartialEq)]
pub struct Character(pub String);

/// A bit string literal, kept as it is written.
#[derive(Debug, PartialEq)]
pub struct BitStrLiteral(pub String);

/// A lexical element of VHDL.
#[derive(Debug, PartialEq)]
pub enum VHDLToken {
    Comment(Comment),
    Identifier(Identifier),
    AbstLiteral(AbstLiteral),
    CharLiteral(Character),
    StrLiteral(String),
    BitStrLiteral(BitStrLiteral),
    Keyword(Keyword),
    Delimiter(Delimiter),
    EOF,
}

/// What a token is, over plain sequences of characters.
pub enum TokenView {
    CommentSingle(Seq<char>),
    CommentDelimited(Seq<char>),
    Basic(Seq<char>),
    Extended(Seq<char>),
    Decimal(Seq<char>),
    Based(Seq<char>),
    Char(Seq<char>),
    Str(Seq<char>),
    BitStr(Seq<char>),
    Keyword(Keyword),
    Delimiter(Delimiter),
    EOF,
}

impl TokenView {
    /// The text that stands for the token in source code; a keyword is
    /// given in lower case.
    pub open spec fn lexeme(self) -> Seq<char> {
        match self {
            TokenView::CommentSingle(s) => seq!['-', '-'] + s,
            TokenView::CommentDelimited(s) => seq!['/', '*'] + s + seq!['*', '/'],
            TokenView::Basic(s) => s,
            TokenView::Extended(s) => seq!['\\'] + doubled(s, '\\') + seq!['\\'],
            TokenView::Decimal(s) => s,
            TokenView::Based(s) => s,
            TokenView::Char(s) => seq!['\''] + s + seq!['\''],
            TokenView::Str(s) => seq!['"'] + doubled(s, '"') + seq!['"'],
            TokenView::BitStr(s) => s,
            TokenView::Keyword(k) => k.text(),
            TokenView::Delimiter(d) => d.text(),
            TokenView::EOF => Seq::empty(),
        }
    }

    /// Whether `slice` is a spelling of the token: its lexeme, where a
    /// keyword may be written in any case.
    pub open spec fn spelled(self, slice: Seq<char>) -> bool {
        match self {
            TokenView::Keyword(k) => lower_seq(slice) == k.text(),
            _ => slice == self.lexeme(),
        }
    }
}

impl View for VHDLToken {
    type V = TokenView;

    open spec fn view(&self) -> TokenView {
        match self {
            VHDLToken::Comment(Comment::Single(s)) => TokenView::CommentSingle(s@),
            VHDLToken::Comment(Comment::Delimited(s)) => TokenView::CommentDelimited(s@),
            VHDLToken::Identifier(Identifier::Basic(s)) => TokenView::Basic(s@),
            VHDLToken::Identifier(Identifier::Extended(s)) => TokenView::Extended(s@),
            VHDLToken::AbstLiteral(AbstLiteral::Decimal(s)) => TokenView::Decimal(s@),
            VHDLToken::AbstLiteral(AbstLiteral::Based(s)) => TokenView::Based(s@),
            VHDLToken::CharLiteral(c) => TokenView::Char(c.0@),
            VHDLToken::StrLiteral(s) => TokenView::Str(s@),
            VHDLToken::BitStrLiteral(b) => TokenView::BitStr(b.0@),
            VHDLToken::Keyword(k) => TokenView::Keyword(*k),
            VHDLToken::Delimiter(d) => TokenView::Delimiter(*d),
            VHDLToken::EOF => TokenView::EOF,
        }
    }
}

impl Clone for VHDLToken {
    fn clone(&self) -> (r: Self)
        ensures
            r == *self,
    {
        match self {
            VHDLToken::Comment(Comment::Single(s)) => VHDLToken::Comment(
                Comment::Single(s.clone()),
            ),
            VHDLToken::Comment(Comment::Delimited(s)) => VHDLToken::Comment(
                Comment::Delimited(s.clone()),
            ),
            VHDLToken::Identifier(id) => VHDLToken::Identifier(id.clone()),
            VHDLToken::AbstLiteral(AbstLiteral::Decimal(s)) => VHDLToken::AbstLiteral(
                AbstLiteral::Decimal(s.clone()),
            ),
            VHDLToken::AbstLiteral(AbstLiteral::Based(s)) => VHDLToken::AbstLiteral(
                AbstLiteral::Based(s.clone()),
            ),
            VHDLToken::CharLiteral(c) => VHDLToken::CharLiteral(Character(c.0.clone())),
            VHDLToken::StrLiteral(s) => VHDLToken::StrLiteral(s.clone()),
            VHDLToken::BitStrLiteral(b) => VHDLToken::BitStrLiteral(BitStrLiteral(b.0.clone())),
            VHDLToken::Keyword(k) => VHDLToken::Keyword(*k),
            VHDLToken::Delimiter(d) => VHDLToken::Delimiter(*d),
            VHDLToken::EOF => VHDLToken::EOF,
        }
    }
}

impl VHDLToken {
    /// Whether the token is the keyword `kw`.
    pub open spec fn is_keyword(&self, kw: Keyword) -> bool {
        *self == VHDLToken::Keyword(kw)
    }

    /// Whether the token is the delimiter `d`.
    pub open spec fn is_delimiter(&self, d: Delimiter) -> bool {
        *self == VHDLToken::Delimiter(d)
    }

    /// Whether the token is the keyword `kw`.
    pub fn check_keyword(&self, kw: &Keyword) -> (r: bool)
        ensures
            r == self.is_keyword(*kw),
    {
        match self {
            VHDLToken::Keyword(k) => *k == *kw,
            _ => false,
        }
    }

    /// Whether the token is the delimiter `d`.
    pub fn check_delimiter(&self, d: &Delimiter) -> (r: bool)
        ensures
            r == self.is_delimiter(*d),
    {
        match self {
            VHDLToken::Delimiter(x) => *x == *d,
            _ => false,
        }
    }

    /// The keyword, if the token is one.
    pub fn as_keyword(&self) -> (r: Option<&Keyword>)
        ensures
            match r {
                Some(k) => *self == VHDLToken::Keyword(*k),
                None => !(self is Keyword),
            },
    {
        match self {
            VHDLToken::Keyword(k) => Some(k),
            _ => None,
        }
    }

    /// The identifier, if the token is one.
    pub fn get_identifier(&self) -> (r: Option<&Identifier>)
        ensures
            match r {
                Some(id) => *self == VHDLToken::Identifier(*id),
                None => !(self is Identifier),
            },
    {
        match self {
            VHDLToken::Identifier(id) => Some(id),
            _ => None,
        }
    }

    /// The identifier, if the token is one.
    pub fn take_identifier(self) -> (r: Option<Identifier>)
        ensures
            match r {
                Some(id) => self == VHDLToken::Identifier(id),
                None => !(self is Identifier),
            },
    {
        match self {
            VHDLToken::Identifier(id) => Some(id),
            _ => None,
        }
    }

    /// Whether the token is a comment.
    pub fn is_comment(&self) -> (r: bool)
        ensures
            r == (self is Comment),
    {
        match self {
            VHDLToken::Comment(_) => true,
            _ => false,
        }
    }

    /// Whether the token marks the end of the text.
    pub fn is_eof(&self) -> (r: bool)
        ensures
            r == (self is EOF),
    {
        match self {
            VHDLToken::EOF => true,
            _ => false,
        }
    }

    /// The text that stands for the token in source code.
    pub fn to_string(&self) -> (s: String)
        ensures
            s@ == self@.lexeme(),
    {
        match self {
            VHDLToken::Comment(Comment::Single(c)) => {
                let mut out = String::new();
                out.push('-');
                out.push('-');
                out.append(c.as_str());
                assert(out@ =~= seq!['-', '-'] + c@);
                out
            },
            VHDLToken::Comment(Comment::Delimited(c)) => {
                let mut out = String::new();
                out.push('/');
                out.push('*');
                out.append(c.as_str());
                out.push('*');
                out.push('/');
                assert(out@ =~= seq!['/', '*'] + c@ + seq!['*', '/']);
                out
            },
            VHDLToken::Identifier(id) => {
                let s = id.to_string();
                proof {
                    match id {
                        Identifier::Basic(_) => {},
                        Identifier::Extended(_) => {},
                    }
                }
                s
            },
            VHDLToken::AbstLiteral(AbstLiteral::Decimal(s)) => s.clone(),
            VHDLToken::AbstLiteral(AbstLiteral::Based(s)) => s.clone(),
            VHDLToken::CharLiteral(c) => {
                let mut out = String::new();
                out.push('\'');
                out.append(c.0.as_str());
                out.push('\'');
                assert(out@ =~= seq!['\''] + c.0@ + seq!['\'']);
                out
            },
            VHDLToken::StrLiteral(s) => {
                let mut out = String::new();
                out.push('"');
                push_doubled(&mut out, s.as_str(), '"');
                out.push('"');
                assert(out@ =~= seq!['"'] + doubled(s@, '"') + seq!['"']);
                out
            },
            VHDLToken::BitStrLiteral(b) => b.0.clone(),
            VHDLToken::Keyword(k) => String::from_str(k.as_str()),
            VHDLToken::Delimiter(d) => {
                let v = d.chars();
                crate::text::string_of(&v)
            },
            VHDLToken::EOF => String::new(),
        }
    }
}

/// Where a token starts: line and column, both counted from zero, and
/// the index of the file among the files that are read.
#[derive(Debug, Clone, Copy, PartialEq, Eq, Structural)]
pub struct Position {
    pub line: usize,
    pub col: usize,
    pub file: usize,
}

impl Position {
    /// The first column of the first line of the first file.
    pub fn new() -> (r: Position)
        ensures
            r == (Position { line: 0, col: 0, file: 0 }),
    {
        Position { line: 0, col: 0, file: 0 }
    }

    /// The index of the file.
    pub fn file(&self) -> (r: usize)
        ensures
            r == self.file,
    {
        self.file
    }

    /// The line, counted from zero.
    pub fn line(&self) -> (r: usize)
        ensures
            r == self.line,
    {
        self.line
    }

    /// The column, counted from zero.
    pub fn col(&self) -> (r: usize)
        ensures
            r == self.col,
    {
        self.col
    }
}

/// A token with the place where it starts.
#[derive(Debug, PartialEq)]
pub struct Token {
    pub position: Position,
    pub ttype: VHDLToken,
}

impl Clone for Token {
    fn clone(&self) -> (r: Self)
        ensures
            r == *self,
    {
        Token { position: self.position, ttype: self.ttype.clone() }
    }
}

impl Token {
    /// A token `ttype` that starts at `loc`.
    pub fn new(ttype: VHDLToken, loc: Position) -> (r: Token)
        ensures
            r.ttype == ttype,
            r.position == loc,
    {
        Token { position: loc, ttype }
    }

    /// The token itself.
    pub fn as_type(&self) -> (r: &VHDLToken)
        ensures
            *r == self.ttype,
    {
        &self.ttype
    }

    /// The token itself.
    pub fn as_ref(&self) -> (r: &VHDLToken)
        ensures
            *r == self.ttype,
    {
        &self.ttype
    }

    /// The token itself, without its position.
    pub fn take(self) -> (r: VHDLToken)
        ensures
            r == self.ttype,
    {
        self.ttype
    }

    /// Where the token starts.
    pub fn locate(&self) -> (r: &Position)
        ensures
            *r == self.position,
    {
        &self.position
    }
}

} // verus!
