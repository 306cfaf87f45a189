use vstd::prelude::*;

verus! {

/// Whether `c` is a decimal digit.
pub open spec fn is_digit(c: char) -> bool {
    '0' <= c && c <= '9'
}

/// Whether `c` is a letter of ISO 8859-1, the alphabet of basic identifiers.
pub open spec fn is_letter(c: char) -> bool {
    ('a' <= c && c <= 'z') || ('A' <= c && c <= 'Z') || ('\u{c0}' <= c && c <= '\u{ff}' && c
        != '\u{d7}' && c != '\u{f7}')
}

/// Whether `c` may stand inside a basic identifier.
pub open spec fn is_word_char(c: char) -> bool {
    is_letter(c) || is_digit(c) || c == '_'
}

/// Whether `c` separates lexical elements: blank, tab, line break and the like.
pub open spec fn is_space(c: char) -> bool {
    c == ' ' || c == '\t' || c == '\n' || c == '\r' || c == '\u{b}' || c == '\u{c}' || c
        == '\u{a0}'
}

/// Whether `c` is a digit of a based literal (`0-9`, `a-z`, `A-Z`).
pub open spec fn is_extended_digit(c: char) -> bool {
    is_digit(c) || ('a' <= c && c <= 'z') || ('A' <= c && c <= 'Z')
}

/// Whether `c` is a decimal digit.
pub fn check_digit(c: char) -> (r: bool)
    ensures
        r == is_digit(c),
{
    '0' <= c && c <= '9'
}

/// Whether `c` is a letter.
pub fn check_letter(c: char) -> (r: bool)
    ensures
        r == is_letter(c),
{
    ('a' <= c && c <= 'z') || ('A' <= c && c <= 'Z') || ('\u{c0}' <= c && c <= '\u{ff}' && c
        != '\u{d7}' && c != '\u{f7}')
}

/// Whether `c` may stand inside a basic identifier.
pub fn check_word_char(c: char) -> (r: bool)
    ensures
        r == is_word_char(c),
{
    check_letter(c) || check_digit(c) || c == '_'
}

/// Whether `c` separates lexical elements.
pub fn check_space(c: char) -> (r: bool)
    ensures
        r == is_space(c),
{
    c == ' ' || c == '\t' || c == '\n' || c == '\r' || c == '\u{b}' || c == '\u{c}' || c
        == '\u{a0}'
}

/// Whether `c` is a digit of a based literal.
pub fn check_extended_digit(c: char) -> (r: bool)
    ensures
        r == is_extended_digit(c),
{
    check_digit(c) || ('a' <= c && c <= 'z') || ('A' <= c && c <= 'Z')
}

/// A set of characters that a run of the lexer is made of.
#[derive(Debug, Clone, Copy, PartialEq, Eq, Structural)]
pub enum CharClass {
    /// Blanks and line breaks.
    Space,
    /// Letters, digits and the underscore.
    Word,
    /// Letters.
    Letter,
    /// Digits and the underscore.
    Digit,
    /// Digits of a based literal, the underscore and the point.
    BasedDigit,
    /// Everything but the line feed.
    UntilNewline,
    /// Everything but the double quote.
    UntilQuote,
    /// Everything but white space and the semicolon.
    UntilSync,
}

/// Whether `c` belongs to `class`.
pub open spec fn in_class(c: char, class: CharClass) -> bool {
    match class {
        CharClass::Space => is_space(c),
        CharClass::Word => is_word_char(c),
        CharClass::Letter => is_letter(c),
        CharClass::Digit => is_digit(c) || c == '_',
        CharClass::BasedDigit => is_extended_digit(c) || c == '_' || c == '.',
        CharClass::UntilNewline => c != '\n',
        CharClass::UntilQuote => c != '"',
        CharClass::UntilSync => !is_space(c) && c != ';',
    }
}

/// The index at which the run of characters of `class` that starts at `i` ends.
pub open spec fn run_end(s: Seq<char>, i: int, class: CharClass) -> int
    decreases s.len() - i,
{
    if 0 <= i < s.len() && in_class(s[i], class) {
        run_end(s, i + 1, class)
    } else {
        i
    }
}

/// A run ends within the text, after characters of the class and before one
/// that is not of it.
pub proof fn lemma_run_end(s: Seq<char>, i: int, class: CharClass)
    requires
        0 <= i <= s.len(),
    ensures
        i <= run_end(s, i, class) <= s.len(),
        forall|j: int| i <= j < run_end(s, i, class) ==> in_class(#[trigger] s[j], class),
        run_end(s, i, class) < s.len() ==> !in_class(s[run_end(s, i, class)], class),
    decreases s.len() - i,
{
    if i < s.len() && in_class(s[i], class) {
        lemma_run_end(s, i + 1, class);
    }
}

/// Whether `c` belongs to `class`.
pub fn check_class(c: char, class: CharClass) -> (r: bool)
    ensures
        r == in_class(c, class),
{
    match class {
        CharClass::Space => check_space(c),
        CharClass::Word => check_word_char(c),
        CharClass::Letter => check_letter(c),
        CharClass::Digit => check_digit(c) || c == '_',
        CharClass::BasedDigit => check_extended_digit(c) || c == '_' || c == '.',
        CharClass::UntilNewline => c != '\n',
        CharClass::UntilQuote => c != '"',
        CharClass::UntilSync => !check_space(c) && c != ';',
    }
}

/// Walks over the run of characters of `class` that starts at `i`.
pub fn scan_run(v: &Vec<char>, i: usize, class: CharClass) -> (end: usize)
    requires
        i <= v.len(),
    ensures
        end == run_end(v@, i as int, class),
        i <= end <= v.len(),
{
    let mut j: usize = i;
    while j < v.len() && check_class(v[j], class)
        invariant
            i <= j <= v.len(),
            run_end(v@, i as int, class) == run_end(v@, j as int, class),
        decreases v.len() - j,
    {
        j += 1;
    }
    j
}

} // verus!
