use crate::text::{chars_eq, chars_of, doubled, lower_seq, push_doubled, to_lower};
use crate::vhdl::charset::{check_letter, check_word_char, is_letter, is_word_char};
use vstd::prelude::*;
use vstd::std_specs::cmp::PartialEqSpecImpl;
use vstd::string::StringExecFns;

verus! {

/// The name of a design unit, a port, a signal and so on.
///
/// A basic identifier is compared without regard to case; an extended
/// identifier (written between backslashes) is compared character by character.
#[derive(Debug)]
pub enum Identifier {
    Basic(String),
    Extended(String),
}

/// Why a text is no identifier.
#[derive(Debug, Clone, Copy, PartialEq, Eq, Structural)]
pub enum IdentifierError {
    Empty,
    InvalidFirstChar,
    InvalidChar,
    TrailingUnderscore,
    DoubleUnderscore,
    UnclosedExtended,
    LoneBackslash,
}

/// Whether `s` reads as a basic identifier: a letter first, then letters,
/// digits and single underscores, the last character no underscore.
pub open spec fn is_basic_name(s: Seq<char>) -> bool {
    &&& s.len() > 0
    &&& is_letter(s[0])
    &&& forall|i: int| 0 <= i < s.len() ==> is_word_char(#[trigger] s[i])
    &&& s.last() != '_'
    &&& forall|i: int| 0 <= i < s.len() - 1 ==> !(#[trigger] s[i] == '_' && s[i + 1] == '_')
}

impl Identifier {
    /// Whether this is an extended identifier.
    pub open spec fn is_extended(&self) -> bool {
        self is Extended
    }

    /// The characters of the name as written, without the enclosing
    /// backslashes of an extended identifier.
    pub open spec fn name(&self) -> Seq<char> {
        match self {
            Identifier::Basic(s) => s@,
            Identifier::Extended(s) => s@,
        }
    }

    /// The characters that decide equality: lower case for a basic
    /// identifier, as written for an extended one.
    pub open spec fn norm(&self) -> Seq<char> {
        match self {
            Identifier::Basic(s) => lower_seq(s@),
            Identifier::Extended(s) => s@,
        }
    }

    /// Whether two identifiers name the same thing.
    pub open spec fn same(&self, other: &Identifier) -> bool {
        self.is_extended() == other.is_extended() && self.norm() == other.norm()
    }

    /// The identifier as it is written in source text.
    pub open spec fn lexeme(&self) -> Seq<char> {
        match self {
            Identifier::Basic(s) => s@,
            Identifier::Extended(s) => seq!['\\'] + doubled(s@, '\\') + seq!['\\'],
        }
    }

    /// An empty basic identifier.
    pub fn new() -> (r: Identifier)
        ensures
            r is Basic,
            r.name() == Seq::<char>::empty(),
    {
        Identifier::Basic(String::new())
    }

    /// The name without enclosing backslashes.
    pub fn as_str(&self) -> (s: &str)
        ensures
            s@ == self.name(),
    {
        match self {
            Identifier::Basic(s) => s.as_str(),
            Identifier::Extended(s) => s.as_str(),
        }
    }

    /// The number of characters of the name.
    pub fn len(&self) -> (n: usize)
        ensures
            n == self.name().len(),
    {
        self.as_str().unicode_len()
    }

    /// The characters by which the identifier is compared.
    pub fn normalized(&self) -> (v: Vec<char>)
        ensures
            v@ == self.norm(),
    {
        match self {
            Identifier::Basic(s) => {
                let v = chars_of(s.as_str());
                to_lower(&v)
            },
            Identifier::Extended(s) => chars_of(s.as_str()),
        }
    }

    /// Whether two identifiers name the same thing.
    pub fn matches(&self, other: &Identifier) -> (r: bool)
        ensures
            r == self.same(other),
    {
        let a_ext = match self {
            Identifier::Basic(_) => false,
            Identifier::Extended(_) => true,
        };
        let b_ext = match other {
            Identifier::Basic(_) => false,
            Identifier::Extended(_) => true,
        };
        if a_ext != b_ext {
            return false;
        }
        let a = self.normalized();
        let b = other.normalized();
        chars_eq(&a, &b)
    }

    /// Whether the identifier, compared as identifiers are, sorts before `other`:
    /// basic before extended, then by the normalized characters.
    pub fn sorts_before(&self, other: &Identifier) -> (r: bool)
        ensures
            r == spec_sorts_before(self, other),
    {
        let a_ext = match self {
            Identifier::Basic(_) => false,
            Identifier::Extended(_) => true,
        };
        let b_ext = match other {
            Identifier::Basic(_) => false,
            Identifier::Extended(_) => true,
        };
        if a_ext != b_ext {
            return !a_ext;
        }
        let a = self.normalized();
        let b = other.normalized();
        chars_less(&a, &b)
    }

    /// The identifier as it is written in source text.
    pub fn to_string(&self) -> (s: String)
        ensures
            s@ == self.lexeme(),
    {
        match self {
            Identifier::Basic(id) => id.clone(),
            Identifier::Extended(id) => {
                let mut out = String::new();
                out.push('\\');
                push_doubled(&mut out, id.as_str(), '\\');
                out.push('\\');
                assert(out@ =~= seq!['\\'] + doubled(id@, '\\') + seq!['\\']);
                out
            },
        }
    }

    /// Reads an identifier from `s`.
    ///
    /// A text that starts with a backslash must be a well-formed extended
    /// identifier; any other text must be a basic identifier.
    pub fn from_str(s: &str) -> (r: Result<Identifier, IdentifierError>)
        ensures
            match r {
                Ok(id) => if s@.len() > 0 && s@[0] == '\\' {
                    id is Extended && id.lexeme() == s@
                } else {
                    id is Basic && id.name() == s@ && is_basic_name(s@)
                },
                Err(_) => if s@.len() > 0 && s@[0] == '\\' {
                    forall|inner: Seq<char>|
                        s@ != seq!['\\'] + #[trigger] doubled(inner, '\\') + seq!['\\']
                } else {
                    !is_basic_name(s@)
                },
            },
    {
        let v = chars_of(s);
        if v.len() == 0 {
            return Err(IdentifierError::Empty);
        }
        if v[0] == '\\' {
            return read_extended(&v);
        }
        match basic_name_fault(&v) {
            Some(e) => Err(e),
            None => {
                let owned = String::from_str(s);
                Ok(Identifier::Basic(owned))
            },
        }
    }
}

/// Lexicographic order on character sequences.
pub open spec fn seq_less(a: Seq<char>, b: Seq<char>) -> bool
    decreases a.len(),
{
    if b.len() == 0 {
        false
    } else if a.len() == 0 {
        true
    } else if a[0] != b[0] {
        a[0] < b[0]
    } else {
        seq_less(a.drop_first(), b.drop_first())
    }
}

/// The order in which identifiers are listed.
pub open spec fn spec_sorts_before(a: &Identifier, b: &Identifier) -> bool {
    if a.is_extended() != b.is_extended() {
        !a.is_extended()
    } else {
        seq_less(a.norm(), b.norm())
    }
}

/// `seq_less` looks only at what follows a common prefix.
pub proof fn lemma_seq_less_skip(a: Seq<char>, b: Seq<char>, i: int)
    requires
        0 <= i <= a.len(),
        i <= b.len(),
        forall|j: int| 0 <= j < i ==> a[j] == b[j],
    ensures
        seq_less(a, b) == seq_less(a.skip(i), b.skip(i)),
    decreases i,
{
    if i == 0 {
        assert(a.skip(0) =~= a);
        assert(b.skip(0) =~= b);
    } else {
        assert(a[0] == b[0]);
        assert forall|j: int| 0 <= j < i - 1 implies a.drop_first()[j] == b.drop_first()[j] by {
            assert(a[j + 1] == b[j + 1]);
        }
        lemma_seq_less_skip(a.drop_first(), b.drop_first(), i - 1);
        assert(a.drop_first().skip(i - 1) =~= a.skip(i));
        assert(b.drop_first().skip(i - 1) =~= b.skip(i));
    }
}

/// Whether `a` comes before `b` in lexicographic order.
pub fn chars_less(a: &Vec<char>, b: &Vec<char>) -> (r: bool)
    ensures
        r == seq_less(a@, b@),
{
    let mut i: usize = 0;
    while i < a.len() && i < b.len()
        invariant
            i <= a.len(),
            i <= b.len(),
            forall|j: int| 0 <= j < i ==> a@[j] == b@[j],
        decreases a.len() - i,
    {
        if a[i] != b[i] {
            proof {
                lemma_seq_less_skip(a@, b@, i as int);
            }
            return a[i] < b[i];
        }
        i += 1;
    }
    proof {
        lemma_seq_less_skip(a@, b@, i as int);
    }
    i < b.len()
}

/// Finds the first rule of basic identifiers that `v` breaks, if any.
pub fn basic_name_fault(v: &Vec<char>) -> (r: Option<IdentifierError>)
    ensures
        r is None <==> is_basic_name(v@),
{
    if v.len() == 0 {
        return Some(IdentifierError::Empty);
    }
    if !check_letter(v[0]) {
        return Some(IdentifierError::InvalidFirstChar);
    }
    let mut i: usize = 0;
    while i < v.len()
        invariant
            i <= v.len(),
            forall|j: int| 0 <= j < i ==> is_word_char(#[trigger] v@[j]),
            forall|j: int| 0 <= j < i - 1 ==> !(#[trigger] v@[j] == '_' && v@[j + 1] == '_'),
        decreases v.len() - i,
    {
        if !check_word_char(v[i]) {
            return Some(IdentifierError::InvalidChar);
        }
        if i > 0 && v[i] == '_' && v[i - 1] == '_' {
            assert(v@[i - 1] == '_' && v@[i - 1 + 1] == '_');
            return Some(IdentifierError::DoubleUnderscore);
        }
        i += 1;
    }
    if v[v.len() - 1] == '_' {
        return Some(IdentifierError::TrailingUnderscore);
    }
    None
}

/// Where the quoted text that starts at `i` closes: the index of the first
/// `q` at or after `i` that is not the first of a pair, if there is one.
pub open spec fn closing_quote(s: Seq<char>, i: int, q: char) -> Option<int>
    decreases s.len() - i,
{
    if i >= s.len() || i < 0 {
        None
    } else if s[i] != q {
        closing_quote(s, i + 1, q)
    } else if i + 1 < s.len() && s[i + 1] == q {
        closing_quote(s, i + 2, q)
    } else {
        Some(i)
    }
}

/// The content of the quoted text that starts at `i`, every pair of `q` read
/// as one, appended to `acc`.
pub open spec fn unquoted(s: Seq<char>, i: int, q: char, acc: Seq<char>) -> Seq<char>
    decreases s.len() - i,
{
    if i >= s.len() || i < 0 {
        acc
    } else if s[i] != q {
        unquoted(s, i + 1, q, acc.push(s[i]))
    } else if i + 1 < s.len() && s[i + 1] == q {
        unquoted(s, i + 2, q, acc.push(q))
    } else {
        acc
    }
}

/// Writing the content of a quoted text with its quotes doubled gives back
/// the text between the opening and the closing quote.
pub proof fn lemma_unquoted_doubled(s: Seq<char>, i: int, q: char, acc: Seq<char>)
    requires
        0 <= i,
        closing_quote(s, i, q) is Some,
    ensures
        i <= closing_quote(s, i, q)->0 < s.len(),
        s[closing_quote(s, i, q)->0] == q,
        doubled(unquoted(s, i, q, acc), q) == doubled(acc, q) + s.subrange(
            i,
            closing_quote(s, i, q)->0,
        ),
    decreases s.len() - i,
{
    let close = closing_quote(s, i, q)->0;
    if s[i] != q {
        lemma_unquoted_doubled(s, i + 1, q, acc.push(s[i]));
        crate::text::lemma_doubled_push(acc, s[i], q);
        assert(doubled(acc, q).push(s[i]) + s.subrange(i + 1, close) =~= doubled(acc, q)
            + s.subrange(i, close));
    } else if i + 1 < s.len() && s[i + 1] == q {
        lemma_unquoted_doubled(s, i + 2, q, acc.push(q));
        crate::text::lemma_doubled_push(acc, q, q);
        assert(doubled(acc, q).push(q).push(q) + s.subrange(i + 2, close) =~= doubled(acc, q)
            + s.subrange(i, close));
    } else {
        assert(s.subrange(i, i) =~= Seq::<char>::empty());
        assert(doubled(acc, q) + Seq::<char>::empty() =~= doubled(acc, q));
    }
}

/// Reads a quoted text that opens at `start` with the character `q`:
/// returns the unescaped content and the index of the closing `q`.
pub fn read_quoted(v: &Vec<char>, start: usize, q: char) -> (r: Option<(String, usize)>)
    requires
        start < v.len(),
        v@[start as int] == q,
    ensures
        match r {
            Some((content, close)) => {
                &&& start < close < v.len()
                &&& v@[close as int] == q
                &&& doubled(content@, q) == v@.subrange(start + 1, close as int)
                &&& closing_quote(v@, start + 1, q) == Some(close as int)
                &&& content@ == unquoted(v@, start + 1, q, Seq::empty())
            },
            None => closing_quote(v@, start + 1, q) is None,
        },
{
    let mut content = String::new();
    let mut i: usize = start + 1;
    assert(v@.subrange(start + 1, start + 1) =~= Seq::<char>::empty());
    while i < v.len()
        invariant
            start < i <= v.len(),
            doubled(content@, q) == v@.subrange(start + 1, i as int),
            closing_quote(v@, start + 1, q) == closing_quote(v@, i as int, q),
            unquoted(v@, start + 1, q, Seq::empty()) == unquoted(v@, i as int, q, content@),
        decreases v.len() - i,
    {
        let c = v[i];
        if c == q {
            if i + 1 < v.len() && v[i + 1] == q {
                proof {
                    crate::text::lemma_doubled_push(content@, q, q);
                    assert(v@.subrange(start + 1, i as int).push(q).push(q) =~= v@.subrange(
                        start + 1,
                        i + 2,
                    ));
                }
                content.push(q);
                i += 2;
            } else {
                return Some((content, i));
            }
        } else {
            proof {
                crate::text::lemma_doubled_push(content@, c, q);
                assert(v@.subrange(start + 1, i as int).push(c) =~= v@.subrange(
                    start + 1,
                    i + 1,
                ));
            }
            content.push(c);
            i += 1;
        }
    }
    None
}

/// `doubled` text holds `q` only in pairs, so the first lone `q` after it closes it.
pub proof fn lemma_closing_after_doubled(s: Seq<char>, from: int, inner: Seq<char>, q: char)
    requires
        0 <= from,
        from + doubled(inner, q).len() < s.len(),
        s.subrange(from, from + doubled(inner, q).len()) == doubled(inner, q),
        s[from + doubled(inner, q).len()] == q,
        from + doubled(inner, q).len() + 1 == s.len() || s[from + doubled(inner, q).len() + 1]
            != q,
    ensures
        closing_quote(s, from, q) == Some(from + doubled(inner, q).len()),
    decreases inner.len(),
{
    let d = doubled(inner, q);
    if inner.len() == 0 {
    } else {
        let rest = inner.drop_first();
        lemma_doubled_front(inner, q);
        if inner[0] == q {
            assert(d == seq![q, q] + doubled(rest, q));
            assert(s[from] == d[0]);
            assert(s[from + 1] == d[1]);
            assert(s.subrange(from + 2, from + 2 + doubled(rest, q).len()) =~= doubled(rest, q))
                by {
                assert forall|k: int| 0 <= k < doubled(rest, q).len() implies s[from + 2 + k]
                    == doubled(rest, q)[k] by {
                    assert(s[from + 2 + k] == d[2 + k]);
                }
            }
            lemma_closing_after_doubled(s, from + 2, rest, q);
        } else {
            assert(d == seq![inner[0]] + doubled(rest, q));
            assert(s[from] == d[0]);
            assert(s.subrange(from + 1, from + 1 + doubled(rest, q).len()) =~= doubled(rest, q))
                by {
                assert forall|k: int| 0 <= k < doubled(rest, q).len() implies s[from + 1 + k]
                    == doubled(rest, q)[k] by {
                    assert(s[from + 1 + k] == d[1 + k]);
                }
            }
            lemma_closing_after_doubled(s, from + 1, rest, q);
        }
    }
}

/// `doubled` can be unfolded from the front as well as from the back.
pub proof fn lemma_doubled_front(s: Seq<char>, q: char)
    requires
        s.len() > 0,
    ensures
        doubled(s, q) == if s[0] == q {
            seq![q, q] + doubled(s.drop_first(), q)
        } else {
            seq![s[0]] + doubled(s.drop_first(), q)
        },
    decreases s.len(),
{
    if s.len() == 1 {
        assert(s.drop_last() =~= Seq::<char>::empty());
        assert(s.drop_first() =~= Seq::<char>::empty());
        assert(doubled(s.drop_last(), q) =~= Seq::<char>::empty());
        if s[0] == q {
            assert(doubled(s, q) =~= seq![q, q] + doubled(s.drop_first(), q));
        } else {
            assert(doubled(s, q) =~= seq![s[0]] + doubled(s.drop_first(), q));
        }
    } else {
        let init = s.drop_last();
        lemma_doubled_front(init, q);
        assert(init.drop_first() =~= s.drop_first().drop_last());
        assert(init[0] == s[0]);
        assert(s.drop_first().last() == s.last());
        if s[0] == q {
            if s.last() == q {
                assert(doubled(s, q) =~= seq![q, q] + doubled(s.drop_first(), q));
            } else {
                assert(doubled(s, q) =~= seq![q, q] + doubled(s.drop_first(), q));
            }
        } else {
            if s.last() == q {
                assert(doubled(s, q) =~= seq![s[0]] + doubled(s.drop_first(), q));
            } else {
                assert(doubled(s, q) =~= seq![s[0]] + doubled(s.drop_first(), q));
            }
        }
    }
}

/// Reads a whole text as an extended identifier.
fn read_extended(v: &Vec<char>) -> (r: Result<Identifier, IdentifierError>)
    requires
        v.len() > 0,
        v@[0] == '\\',
    ensures
        match r {
            Ok(id) => id is Extended && id.lexeme() == v@,
            Err(_) => forall|inner: Seq<char>|
                v@ != seq!['\\'] + #[trigger] doubled(inner, '\\') + seq!['\\'],
        },
{
    match read_quoted(v, 0, '\\') {
        Some((content, close)) => {
            if close + 1 == v.len() {
                let id = Identifier::Extended(content);
                assert(id.lexeme() =~= v@);
                Ok(id)
            } else {
                proof {
                    assert forall|inner: Seq<char>|
                        v@ != seq!['\\'] + #[trigger] doubled(inner, '\\') + seq!['\\'] by {
                        let d = doubled(inner, '\\');
                        if v@ == seq!['\\'] + d + seq!['\\'] {
                            assert(v@.subrange(1, d.len() as int + 1) =~= d);
                            lemma_closing_after_doubled(v@, 1, inner, '\\');
                        }
                    }
                }
                Err(IdentifierError::LoneBackslash)
            }
        },
        None => {
            proof {
                assert forall|inner: Seq<char>|
                    v@ != seq!['\\'] + #[trigger] doubled(inner, '\\') + seq!['\\'] by {
                    let d = doubled(inner, '\\');
                    if v@ == seq!['\\'] + d + seq!['\\'] {
                        assert(v@.subrange(1, d.len() as int + 1) =~= d);
                        lemma_closing_after_doubled(v@, 1, inner, '\\');
                    }
                }
            }
            Err(IdentifierError::UnclosedExtended)
        },
    }
}

impl Clone for Identifier {
    fn clone(&self) -> (r: Self)
        ensures
            r == *self,
    {
        match self {
            Identifier::Basic(s) => Identifier::Basic(s.clone()),
            Identifier::Extended(s) => Identifier::Extended(s.clone()),
        }
    }
}

impl PartialEq for Identifier {
    fn eq(&self, other: &Self) -> (r: bool) {
        self.matches(other)
    }
}

impl PartialEqSpecImpl for Identifier {
    open spec fn obeys_eq_spec() -> bool {
        true
    }

    open spec fn eq_spec(&self, other: &Self) -> bool {
        self.same(other)
    }
}

impl Eq for Identifier {

}

} // verus!
