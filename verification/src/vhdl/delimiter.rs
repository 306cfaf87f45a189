use vstd::prelude::*;

verus! {

/// The delimiters of VHDL: one, two or three characters that stand for
/// themselves.
#[derive(Debug, Clone, Copy, PartialEq, Eq, Hash, Structural)]
pub enum Delimiter {
    Ampersand,
    SingleQuote,
    ParenL,
    ParenR,
    Star,
    Plus,
    Comma,
    Dash,
    Dot,
    FwdSlash,
    Colon,
    Terminator,
    Lt,
    Eq,
    Gt,
    BackTick,
    Pipe,
    BrackL,
    BrackR,
    Question,
    AtSymbol,
    Arrow,
    DoubleStar,
    VarAssign,
    Inequality,
    GTE,
    SigAssign,
    Box,
    CondConv,
    MatchEQ,
    MatchLT,
    MatchGT,
    DoubleLT,
    DoubleGT,
    SigAssoc,
    MatchNE,
    MatchLTE,
    MatchGTE,
}

impl Delimiter {
    /// The characters of the delimiter.
    pub open spec fn text(self) -> Seq<char> {
        match self {
            Delimiter::Ampersand => seq!['&'],
            Delimiter::SingleQuote => seq!['\''],
            Delimiter::ParenL => seq!['('],
            Delimiter::ParenR => seq![')'],
            Delimiter::Star => seq!['*'],
            Delimiter::Plus => seq!['+'],
            Delimiter::Comma => seq![','],
            Delimiter::Dash => seq!['-'],
            Delimiter::Dot => seq!['.'],
            Delimiter::FwdSlash => seq!['/'],
            Delimiter::Colon => seq![':'],
            Delimiter::Terminator => seq![';'],
            Delimiter::Lt => seq!['<'],
            Delimiter::Eq => seq!['='],
            Delimiter::Gt => seq!['>'],
            Delimiter::BackTick => seq!['`'],
            Delimiter::Pipe => seq!['|'],
            Delimiter::BrackL => seq!['['],
            Delimiter::BrackR => seq![']'],
            Delimiter::Question => seq!['?'],
            Delimiter::AtSymbol => seq!['@'],
            Delimiter::Arrow => seq!['=', '>'],
            Delimiter::DoubleStar => seq!['*', '*'],
            Delimiter::VarAssign => seq![':', '='],
            Delimiter::Inequality => seq!['/', '='],
            Delimiter::GTE => seq!['>', '='],
            Delimiter::SigAssign => seq!['<', '='],
            Delimiter::Box => seq!['<', '>'],
            Delimiter::CondConv => seq!['?', '?'],
            Delimiter::MatchEQ => seq!['?', '='],
            Delimiter::MatchLT => seq!['?', '<'],
            Delimiter::MatchGT => seq!['?', '>'],
            Delimiter::DoubleLT => seq!['<', '<'],
            Delimiter::DoubleGT => seq!['>', '>'],
            Delimiter::SigAssoc => seq!['<', '=', '>'],
            Delimiter::MatchNE => seq!['?', '/', '='],
            Delimiter::MatchLTE => seq!['?', '<', '='],
            Delimiter::MatchGTE => seq!['?', '>', '='],
        }
    }

    /// The characters of the delimiter.
    pub fn chars(&self) -> (v: Vec<char>)
        ensures
            v@ == self.text(),
    {
        let v = match self {
            Delimiter::Ampersand => vec!['&'],
            Delimiter::SingleQuote => vec!['\''],
            Delimiter::ParenL => vec!['('],
            Delimiter::ParenR => vec![')'],
            Delimiter::Star => vec!['*'],
            Delimiter::Plus => vec!['+'],
            Delimiter::Comma => vec![','],
            Delimiter::Dash => vec!['-'],
            Delimiter::Dot => vec!['.'],
            Delimiter::FwdSlash => vec!['/'],
            Delimiter::Colon => vec![':'],
            Delimiter::Terminator => vec![';'],
            Delimiter::Lt => vec!['<'],
            Delimiter::Eq => vec!['='],
            Delimiter::Gt => vec!['>'],
            Delimiter::BackTick => vec!['`'],
            Delimiter::Pipe => vec!['|'],
            Delimiter::BrackL => vec!['['],
            Delimiter::BrackR => vec![']'],
            Delimiter::Question => vec!['?'],
            Delimiter::AtSymbol => vec!['@'],
            Delimiter::Arrow => vec!['=', '>'],
            Delimiter::DoubleStar => vec!['*', '*'],
            Delimiter::VarAssign => vec![':', '='],
            Delimiter::Inequality => vec!['/', '='],
            Delimiter::GTE => vec!['>', '='],
            Delimiter::SigAssign => vec!['<', '='],
            Delimiter::Box => vec!['<', '>'],
            Delimiter::CondConv => vec!['?', '?'],
            Delimiter::MatchEQ => vec!['?', '='],
            Delimiter::MatchLT => vec!['?', '<'],
            Delimiter::MatchGT => vec!['?', '>'],
            Delimiter::DoubleLT => vec!['<', '<'],
            Delimiter::DoubleGT => vec!['>', '>'],
            Delimiter::SigAssoc => vec!['<', '=', '>'],
            Delimiter::MatchNE => vec!['?', '/', '='],
            Delimiter::MatchLTE => vec!['?', '<', '='],
            Delimiter::MatchGTE => vec!['?', '>', '='],
        };
        assert(v@ =~= self.text());
        v
    }
}

/// Whether the text of `d` stands in `s` at index `i`.
pub open spec fn delimiter_at(s: Seq<char>, i: int, d: Delimiter) -> bool {
    &&& 0 <= i
    &&& i + d.text().len() <= s.len()
    &&& s.subrange(i, i + d.text().len()) == d.text()
}

/// Finds the longest delimiter that stands in `v` at index `i`.
pub fn match_delimiter(v: &Vec<char>, i: usize) -> (r: Option<Delimiter>)
    requires
        i < v.len(),
    ensures
        match r {
            Some(d) => delimiter_at(v@, i as int, d) && forall|e: Delimiter|
                delimiter_at(v@, i as int, e) ==> #[trigger] e.text().len() <= d.text().len(),
            None => forall|e: Delimiter| !#[trigger] delimiter_at(v@, i as int, e),
        },
{
    let c0 = v[i];
    let c1 = if v.len() - i > 1 { Some(v[i + 1]) } else { None };
    let c2 = if v.len() - i > 2 { Some(v[i + 2]) } else { None };
    let r = pick_delimiter(c0, c1, c2);
    proof {
        let s = v@;
        assert forall|e: Delimiter| delimiter_at(s, i as int, e) implies delimiter_fits(
            e,
            c0,
            c1,
            c2,
        ) by {
            let t = e.text();
            assert(s.subrange(i as int, i + t.len())[0] == s[i as int]);
            if t.len() >= 2 {
                assert(s.subrange(i as int, i + t.len())[1] == s[i + 1]);
            }
            if t.len() >= 3 {
                assert(s.subrange(i as int, i + t.len())[2] == s[i + 2]);
            }
        }
        match r {
            Some(d) => {
                assert(s.subrange(i as int, i + d.text().len()) =~= d.text());
            },
            None => {},
        }
    }
    r
}

/// Whether the text of `d` is made of `c0`, then `c1`, then `c2`, as far as it reaches.
pub open spec fn delimiter_fits(d: Delimiter, c0: char, c1: Option<char>, c2: Option<char>) -> bool {
    let t = d.text();
    &&& t[0] == c0
    &&& t.len() >= 2 ==> c1 == Some(t[1])
    &&& t.len() >= 3 ==> c2 == Some(t[2])
}

/// Picks the longest delimiter made of the characters given.
pub fn pick_delimiter(c0: char, c1: Option<char>, c2: Option<char>) -> (r: Option<Delimiter>)
    ensures
        match r {
            Some(d) => delimiter_fits(d, c0, c1, c2) && forall|e: Delimiter|
                delimiter_fits(e, c0, c1, c2) ==> #[trigger] e.text().len() <= d.text().len(),
            None => forall|e: Delimiter| !#[trigger] delimiter_fits(e, c0, c1, c2),
        },
{

    let r = match c0 {
        '&' => Some(Delimiter::Ampersand),
        '\'' => Some(Delimiter::SingleQuote),
        '(' => Some(Delimiter::ParenL),
        ')' => Some(Delimiter::ParenR),
        '*' => match c1 {
            Some('*') => Some(Delimiter::DoubleStar),
            _ => Some(Delimiter::Star),
        },
        '+' => Some(Delimiter::Plus),
        ',' => Some(Delimiter::Comma),
        '-' => Some(Delimiter::Dash),
        '.' => Some(Delimiter::Dot),
        '/' => match c1 {
            Some('=') => Some(Delimiter::Inequality),
            _ => Some(Delimiter::FwdSlash),
        },
        ':' => match c1 {
            Some('=') => Some(Delimiter::VarAssign),
            _ => Some(Delimiter::Colon),
        },
        ';' => Some(Delimiter::Terminator),
        '<' => match c1 {
            Some('=') => match c2 {
                Some('>') => Some(Delimiter::SigAssoc),
                _ => Some(Delimiter::SigAssign),
            },
            Some('>') => Some(Delimiter::Box),
            Some('<') => Some(Delimiter::DoubleLT),
            _ => Some(Delimiter::Lt),
        },
        '=' => match c1 {
            Some('>') => Some(Delimiter::Arrow),
            _ => Some(Delimiter::Eq),
        },
        '>' => match c1 {
            Some('=') => Some(Delimiter::GTE),
            Some('>') => Some(Delimiter::DoubleGT),
            _ => Some(Delimiter::Gt),
        },
        '`' => Some(Delimiter::BackTick),
        '|' => Some(Delimiter::Pipe),
        '[' => Some(Delimiter::BrackL),
        ']' => Some(Delimiter::BrackR),
        '?' => match c1 {
            Some('?') => Some(Delimiter::CondConv),
            Some('=') => Some(Delimiter::MatchEQ),
            Some('<') => match c2 {
                Some('=') => Some(Delimiter::MatchLTE),
                _ => Some(Delimiter::MatchLT),
            },
            Some('>') => match c2 {
                Some('=') => Some(Delimiter::MatchGTE),
                _ => Some(Delimiter::MatchGT),
            },
            Some('/') => match c2 {
                Some('=') => Some(Delimiter::MatchNE),
                _ => Some(Delimiter::Question),
            },
            _ => Some(Delimiter::Question),
        },
        '@' => Some(Delimiter::AtSymbol),
        _ => None,
    };
    proof {
        assert forall|e: Delimiter| delimiter_fits(e, c0, c1, c2) implies r is Some
            && #[trigger] e.text().len() <= r->0.text().len() by {
            lemma_text_len(e);
        }
        if r is Some {
            lemma_text_len(r->0);
        }
    }
    r
}

/// A delimiter has one, two or three characters.
pub proof fn lemma_text_len(d: Delimiter)
    ensures
        1 <= d.text().len() <= 3,
{
}

} // verus!
