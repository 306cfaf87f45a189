use crate::text::{lower_seq, substring, to_lower};
use crate::vhdl::charset::{
    check_digit, check_letter, in_class, is_digit, is_letter, is_space, lemma_run_end, run_end,
    scan_run, CharClass,
};
use crate::vhdl::delimiter::{delimiter_at, match_delimiter, Delimiter};
use crate::vhdl::identifier::{
    basic_name_fault, closing_quote, is_basic_name, lemma_unquoted_doubled, read_quoted, unquoted,
    Identifier,
};
use crate::vhdl::keyword::Keyword;
use crate::vhdl::token::{
    AbstLiteral, BitStrLiteral, Character, Comment, Position, Token, TokenView, VHDLToken,
};
use vstd::prelude::*;

verus! {

/// Why a piece of text is no lexical element.
#[derive(Debug, Clone, Copy, PartialEq, Eq, Structural)]
pub enum LexErrorKind {
    UnclosedExtendedIdentifier,
    UnclosedString,
    UnclosedBlockComment,
    InvalidBasedDigit,
    InvalidChar,
    InvalidIdentifier,
}

/// What the lexer made of a piece of text: a token or an error.
pub open spec fn item_view(r: Result<VHDLToken, LexErrorKind>) -> Result<TokenView, LexErrorKind> {
    match r {
        Ok(t) => Ok(t@),
        Err(e) => Err(e),
    }
}

/// Whether `w`, in lower case, is the base specifier of a bit string literal.
pub open spec fn is_base_specifier(w: Seq<char>) -> bool {
    ||| w == seq!['b']
    ||| w == seq!['o']
    ||| w == seq!['x']
    ||| w == seq!['d']
    ||| w == seq!['u', 'b']
    ||| w == seq!['u', 'o']
    ||| w == seq!['u', 'x']
    ||| w == seq!['s', 'b']
    ||| w == seq!['s', 'o']
    ||| w == seq!['s', 'x']
}

/// Where the lexer resumes after an error found in the element that starts
/// at `start`: at the next white space or semicolon.
pub open spec fn sync_end(s: Seq<char>, start: int) -> int {
    run_end(s, start + 1, CharClass::UntilSync)
}

/// Where an exponent that starts at `i` ends; `i` itself if none starts there.
pub open spec fn exponent_end(s: Seq<char>, i: int) -> int {
    if 0 <= i < s.len() && (s[i] == 'e' || s[i] == 'E') {
        let j = if i + 1 < s.len() && (s[i + 1] == '+' || s[i + 1] == '-') {
            i + 2
        } else {
            i + 1
        };
        if j < s.len() && is_digit(s[j]) {
            run_end(s, j, CharClass::Digit)
        } else {
            i
        }
    } else {
        i
    }
}

/// The index of the `*` of the first `*/` at or after `i`, or the length of
/// the text if there is none.
pub open spec fn block_comment_end(s: Seq<char>, i: int) -> int
    decreases s.len() - i,
{
    if i < 0 || i + 1 >= s.len() {
        s.len() as int
    } else if s[i] == '*' && s[i + 1] == '/' {
        i
    } else {
        block_comment_end(s, i + 1)
    }
}

/// What a word is: a keyword if it is spelled like one, else a basic
/// identifier if it is well formed, else an error.
pub open spec fn word_item(word: Seq<char>, r: Result<TokenView, LexErrorKind>) -> bool {
    match r {
        Ok(TokenView::Keyword(k)) => lower_seq(word) == k.text(),
        Ok(TokenView::Basic(s)) => s == word && is_basic_name(word) && forall|k: Keyword|
            #[trigger] k.text() != lower_seq(word),
        Err(LexErrorKind::InvalidIdentifier) => !is_basic_name(word) && forall|k: Keyword|
            #[trigger] k.text() != lower_seq(word),
        _ => false,
    }
}

/// A bit string literal that starts at `start` and whose opening quote
/// stands at `quote`.
pub open spec fn bit_string_item(
    s: Seq<char>,
    start: int,
    quote: int,
    r: Result<TokenView, LexErrorKind>,
    end: int,
) -> bool {
    let close = run_end(s, quote + 1, CharClass::UntilQuote);
    if close < s.len() {
        r == Ok::<TokenView, LexErrorKind>(TokenView::BitStr(s.subrange(start, close + 1)))
            && end == close + 1
    } else {
        r == Err::<TokenView, LexErrorKind>(LexErrorKind::UnclosedString) && end == sync_end(
            s,
            start,
        )
    }
}

/// A literal that starts with a digit at `start`.
pub open spec fn number_item(
    s: Seq<char>,
    start: int,
    r: Result<TokenView, LexErrorKind>,
    end: int,
) -> bool {
    let int_end = run_end(s, start, CharClass::Digit);
    if int_end < s.len() && s[int_end] == '#' {
        let body_end = run_end(s, int_end + 1, CharClass::BasedDigit);
        if body_end < s.len() && s[body_end] == '#' {
            let e = exponent_end(s, body_end + 1);
            r == Ok::<TokenView, LexErrorKind>(TokenView::Based(s.subrange(start, e))) && end == e
        } else {
            r == Err::<TokenView, LexErrorKind>(LexErrorKind::InvalidBasedDigit) && end
                == sync_end(s, start)
        }
    } else {
        let spec_end = run_end(s, int_end, CharClass::Letter);
        if spec_end < s.len() && s[spec_end] == '"' && is_base_specifier(
            lower_seq(s.subrange(int_end, spec_end)),
        ) {
            bit_string_item(s, start, spec_end, r, end)
        } else {
            let frac_end = if int_end + 1 < s.len() && s[int_end] == '.' && is_digit(
                s[int_end + 1],
            ) {
                run_end(s, int_end + 1, CharClass::Digit)
            } else {
                int_end
            };
            let e = exponent_end(s, frac_end);
            r == Ok::<TokenView, LexErrorKind>(TokenView::Decimal(s.subrange(start, e))) && end
                == e
        }
    }
}

/// A quoted element (string literal or extended identifier) that opens at `start`.
pub open spec fn quoted_item(
    s: Seq<char>,
    start: int,
    q: char,
    r: Result<TokenView, LexErrorKind>,
    end: int,
) -> bool {
    match closing_quote(s, start + 1, q) {
        Some(close) => {
            let content = unquoted(s, start + 1, q, Seq::empty());
            &&& end == close + 1
            &&& r == Ok::<TokenView, LexErrorKind>(
                if q == '"' {
                    TokenView::Str(content)
                } else {
                    TokenView::Extended(content)
                },
            )
        },
        None => {
            &&& end == sync_end(s, start)
            &&& r == Err::<TokenView, LexErrorKind>(
                if q == '"' {
                    LexErrorKind::UnclosedString
                } else {
                    LexErrorKind::UnclosedExtendedIdentifier
                },
            )
        },
    }
}

/// Whether the lexical element that starts at `start`, where no white space
/// stands, is `r` and ends before `end`.
pub open spec fn token_at(
    s: Seq<char>,
    start: int,
    r: Result<TokenView, LexErrorKind>,
    end: int,
) -> bool {
    let c = s[start];
    if is_letter(c) {
        let w_end = run_end(s, start, CharClass::Word);
        let word = s.subrange(start, w_end);
        if w_end < s.len() && s[w_end] == '"' && is_base_specifier(lower_seq(word)) {
            bit_string_item(s, start, w_end, r, end)
        } else {
            word_item(word, r) && end == (if r is Ok {
                w_end
            } else {
                sync_end(s, start)
            })
        }
    } else if c == '\\' || c == '"' {
        quoted_item(s, start, c, r, end)
    } else if c == '\'' && start + 2 < s.len() && s[start + 2] == '\'' {
        r == Ok::<TokenView, LexErrorKind>(TokenView::Char(s.subrange(start + 1, start + 2)))
            && end == start + 3
    } else if c == '-' && start + 1 < s.len() && s[start + 1] == '-' {
        let e = run_end(s, start + 2, CharClass::UntilNewline);
        r == Ok::<TokenView, LexErrorKind>(TokenView::CommentSingle(s.subrange(start + 2, e)))
            && end == e
    } else if c == '/' && start + 1 < s.len() && s[start + 1] == '*' {
        let e = block_comment_end(s, start + 2);
        if e < s.len() {
            r == Ok::<TokenView, LexErrorKind>(
                TokenView::CommentDelimited(s.subrange(start + 2, e)),
            ) && end == e + 2
        } else {
            r == Err::<TokenView, LexErrorKind>(LexErrorKind::UnclosedBlockComment) && end
                == sync_end(s, start)
        }
    } else if is_digit(c) {
        number_item(s, start, r, end)
    } else {
        match r {
            Ok(TokenView::Delimiter(d)) => delimiter_at(s, start, d) && end == start
                + d.text().len() && forall|e: Delimiter|
                delimiter_at(s, start, e) ==> #[trigger] e.text().len() <= d.text().len(),
            Err(LexErrorKind::InvalidChar) => end == sync_end(s, start) && forall|e: Delimiter|
                !#[trigger] delimiter_at(s, start, e),
            _ => false,
        }
    }
}

/// The closing of a block comment lies within the text, and `*/` stands there.
pub proof fn lemma_block_comment_end(s: Seq<char>, i: int)
    requires
        0 <= i <= s.len(),
    ensures
        i <= block_comment_end(s, i) <= s.len(),
        block_comment_end(s, i) < s.len() ==> block_comment_end(s, i) + 1 < s.len()
            && s[block_comment_end(s, i)] == '*' && s[block_comment_end(s, i) + 1] == '/',
    decreases s.len() - i,
{
    if i + 1 >= s.len() {
    } else if s[i] == '*' && s[i + 1] == '/' {
    } else {
        lemma_block_comment_end(s, i + 1);
    }
}

/// An exponent ends within the text.
pub proof fn lemma_exponent_end(s: Seq<char>, i: int)
    requires
        0 <= i <= s.len(),
    ensures
        i <= exponent_end(s, i) <= s.len(),
{
    if i < s.len() && (s[i] == 'e' || s[i] == 'E') {
        let j = if i + 1 < s.len() && (s[i + 1] == '+' || s[i + 1] == '-') {
            i + 2
        } else {
            i + 1
        };
        if j < s.len() && is_digit(s[j]) {
            lemma_run_end(s, j, CharClass::Digit);
        }
    }
}

/// Every lexical element is a spelling of the token that the lexer makes of
/// it: writing the tokens out again, a keyword in the case it had, gives
/// the text back but for the white space between the elements.
pub proof fn lemma_token_spelled(
    s: Seq<char>,
    start: int,
    r: Result<TokenView, LexErrorKind>,
    end: int,
)
    requires
        0 <= start < s.len(),
        token_at(s, start, r, end),
    ensures
        start < end <= s.len(),
        match r {
            Ok(t) => t.spelled(s.subrange(start, end)),
            Err(_) => true,
        },
{
    let c = s[start];
    lemma_run_end(s, start + 1, CharClass::UntilSync);
    if is_letter(c) {
        let w_end = run_end(s, start, CharClass::Word);
        lemma_run_end(s, start + 1, CharClass::Word);
        if w_end < s.len() && s[w_end] == '"' && is_base_specifier(
            lower_seq(s.subrange(start, w_end)),
        ) {
            lemma_run_end(s, w_end + 1, CharClass::UntilQuote);
        }
    } else if c == '\\' || c == '"' {
        if closing_quote(s, start + 1, c) is Some {
            let close = closing_quote(s, start + 1, c)->0;
            lemma_unquoted_doubled(s, start + 1, c, Seq::empty());
            let content = unquoted(s, start + 1, c, Seq::empty());
            assert(crate::text::doubled(Seq::<char>::empty(), c) =~= Seq::<char>::empty());
            assert(s.subrange(start, end) =~= seq![c] + (Seq::<char>::empty() + s.subrange(
                start + 1,
                close,
            )) + seq![c]);
        }
    } else if c == '\'' && start + 2 < s.len() && s[start + 2] == '\'' {
        assert(s.subrange(start, end) =~= seq!['\''] + s.subrange(start + 1, start + 2)
            + seq!['\'']);
    } else if c == '-' && start + 1 < s.len() && s[start + 1] == '-' {
        let e = run_end(s, start + 2, CharClass::UntilNewline);
        lemma_run_end(s, start + 2, CharClass::UntilNewline);
        assert(s.subrange(start, end) =~= seq!['-', '-'] + s.subrange(start + 2, e));
    } else if c == '/' && start + 1 < s.len() && s[start + 1] == '*' {
        let e = block_comment_end(s, start + 2);
        lemma_block_comment_end(s, start + 2);
        if e < s.len() {
            assert(s.subrange(start, end) =~= seq!['/', '*'] + s.subrange(start + 2, e)
                + seq!['*', '/']);
        }
    } else if is_digit(c) {
        let int_end = run_end(s, start, CharClass::Digit);
        lemma_run_end(s, start + 1, CharClass::Digit);
        if int_end < s.len() && s[int_end] == '#' {
            let body_end = run_end(s, int_end + 1, CharClass::BasedDigit);
            lemma_run_end(s, int_end + 1, CharClass::BasedDigit);
            if body_end < s.len() && s[body_end] == '#' {
                lemma_exponent_end(s, body_end + 1);
            }
        } else {
            let spec_end = run_end(s, int_end, CharClass::Letter);
            lemma_run_end(s, int_end, CharClass::Letter);
            if spec_end < s.len() && s[spec_end] == '"' && is_base_specifier(
                lower_seq(s.subrange(int_end, spec_end)),
            ) {
                lemma_run_end(s, spec_end + 1, CharClass::UntilQuote);
            } else {
                if int_end + 1 < s.len() && s[int_end] == '.' && is_digit(s[int_end + 1]) {
                    lemma_run_end(s, int_end + 1, CharClass::Digit);
                    lemma_exponent_end(s, run_end(s, int_end + 1, CharClass::Digit));
                } else {
                    lemma_exponent_end(s, int_end);
                }
            }
        }
    } else {
        match r {
            Ok(TokenView::Delimiter(d)) => {
                crate::vhdl::delimiter::lemma_text_len(d);
            },
            _ => {},
        }
    }
}

/// A base specifier, character by character.
pub proof fn lemma_base_specifier(w: Seq<char>)
    ensures
        is_base_specifier(w) <==> (w.len() == 1 && (w[0] == 'b' || w[0] == 'o' || w[0] == 'x'
            || w[0] == 'd')) || (w.len() == 2 && (w[0] == 'u' || w[0] == 's') && (w[1] == 'b'
            || w[1] == 'o' || w[1] == 'x')),
{
    let one = seq!['b', 'o', 'x', 'd'];
    let two = seq!['b', 'o', 'x'];
    assert(seq!['b'].len() == 1 && seq!['b'][0] == 'b');
    assert(seq!['o'].len() == 1 && seq!['o'][0] == 'o');
    assert(seq!['x'].len() == 1 && seq!['x'][0] == 'x');
    assert(seq!['d'].len() == 1 && seq!['d'][0] == 'd');
    assert(seq!['u', 'b'].len() == 2 && seq!['u', 'b'][0] == 'u' && seq!['u', 'b'][1] == 'b');
    assert(seq!['u', 'o'].len() == 2 && seq!['u', 'o'][0] == 'u' && seq!['u', 'o'][1] == 'o');
    assert(seq!['u', 'x'].len() == 2 && seq!['u', 'x'][0] == 'u' && seq!['u', 'x'][1] == 'x');
    assert(seq!['s', 'b'].len() == 2 && seq!['s', 'b'][0] == 's' && seq!['s', 'b'][1] == 'b');
    assert(seq!['s', 'o'].len() == 2 && seq!['s', 'o'][0] == 's' && seq!['s', 'o'][1] == 'o');
    assert(seq!['s', 'x'].len() == 2 && seq!['s', 'x'][0] == 's' && seq!['s', 'x'][1] == 'x');
    if w.len() == 1 {
        assert(w =~= seq![w[0]]);
    }
    if w.len() == 2 {
        assert(w =~= seq![w[0], w[1]]);
    }
}

/// Checks a word against the base specifiers of bit string literals.
fn check_base_specifier(v: &Vec<char>, from: usize, to: usize) -> (r: bool)
    requires
        from <= to <= v.len(),
    ensures
        r == is_base_specifier(lower_seq(v@.subrange(from as int, to as int))),
{
    let ghost w = lower_seq(v@.subrange(from as int, to as int));
    proof {
        lemma_base_specifier(w);
    }
    let n = to - from;
    if n == 1 {
        let a = crate::text::to_lower_char(v[from]);
        assert(w[0] == a);
        a == 'b' || a == 'o' || a == 'x' || a == 'd'
    } else if n == 2 {
        let a = crate::text::to_lower_char(v[from]);
        let b = crate::text::to_lower_char(v[from + 1]);
        assert(w[0] == a && w[1] == b);
        (a == 'u' || a == 's') && (b == 'b' || b == 'o' || b == 'x')
    } else {
        false
    }
}

/// Finds the keyword that `word` spells, in whatever case.
pub fn match_keyword(word: &Vec<char>) -> (r: Option<Keyword>)
    ensures
        match r {
            Some(k) => lower_seq(word@) == k.text(),
            None => forall|k: Keyword| #[trigger] k.text() != lower_seq(word@),
        },
{
    let low = to_lower(word);
    let all = Keyword::all();
    let mut i: usize = 0;
    while i < all.len()
        invariant
            i <= all.len(),
            low@ == lower_seq(word@),
            forall|j: int| 0 <= j < i ==> (#[trigger] all@[j]).text() != low@,
        decreases all.len() - i,
    {
        let k = all[i];
        let t = crate::text::chars_of(k.as_str());
        if crate::text::chars_eq(&t, &low) {
            return Some(k);
        }
        i += 1;
    }
    proof {
        assert forall|k: Keyword| #[trigger] k.text() != lower_seq(word@) by {
            assert(all@.contains(k));
            let j = choose|j: int| 0 <= j < all@.len() && all@[j] == k;
            assert(all@[j].text() != low@);
        }
    }
    None
}

/// Makes a token or an error of the word `v[start..w_end]`.
fn scan_word(v: &Vec<char>, start: usize, w_end: usize) -> (r: Result<VHDLToken, LexErrorKind>)
    requires
        start < w_end <= v.len(),
    ensures
        word_item(v@.subrange(start as int, w_end as int), item_view(r)),
{
    let word = crate::text::subvec(v, start, w_end);
    match match_keyword(&word) {
        Some(k) => Ok(VHDLToken::Keyword(k)),
        None => match basic_name_fault(&word) {
            Some(_) => Err(LexErrorKind::InvalidIdentifier),
            None => Ok(VHDLToken::Identifier(Identifier::Basic(crate::text::string_of(&word)))),
        },
    }
}

/// Reads the bit string literal that starts at `start` and whose opening
/// quote stands at `quote`.
fn scan_bit_string(v: &Vec<char>, start: usize, quote: usize) -> (r: (
    Result<VHDLToken, LexErrorKind>,
    usize,
))
    requires
        start <= quote < v.len(),
    ensures
        bit_string_item(v@, start as int, quote as int, item_view(r.0), r.1 as int),
{
    let close = scan_run(v, quote + 1, CharClass::UntilQuote);
    if close < v.len() {
        (Ok(VHDLToken::BitStrLiteral(BitStrLiteral(substring(v, start, close + 1)))), close + 1)
    } else {
        (Err(LexErrorKind::UnclosedString), scan_run(v, start + 1, CharClass::UntilSync))
    }
}

/// Walks over an exponent, if one starts at `i`.
fn scan_exponent(v: &Vec<char>, i: usize) -> (end: usize)
    requires
        i <= v.len(),
    ensures
        end == exponent_end(v@, i as int),
        i <= end <= v.len(),
{
    if i < v.len() && (v[i] == 'e' || v[i] == 'E') {
        let j: usize = if i + 1 < v.len() && (v[i + 1] == '+' || v[i + 1] == '-') {
            i + 2
        } else {
            i + 1
        };
        if j < v.len() && check_digit(v[j]) {
            scan_run(v, j, CharClass::Digit)
        } else {
            i
        }
    } else {
        i
    }
}

/// Reads the literal that starts with a digit at `start`.
fn scan_number(v: &Vec<char>, start: usize) -> (r: (Result<VHDLToken, LexErrorKind>, usize))
    requires
        start < v.len(),
    ensures
        number_item(v@, start as int, item_view(r.0), r.1 as int),
{
    let int_end = scan_run(v, start, CharClass::Digit);
    if int_end < v.len() && v[int_end] == '#' {
        let body_end = scan_run(v, int_end + 1, CharClass::BasedDigit);
        if body_end < v.len() && v[body_end] == '#' {
            let e = scan_exponent(v, body_end + 1);
            (Ok(VHDLToken::AbstLiteral(AbstLiteral::Based(substring(v, start, e)))), e)
        } else {
            (Err(LexErrorKind::InvalidBasedDigit), scan_run(v, start + 1, CharClass::UntilSync))
        }
    } else {
        let spec_end = scan_run(v, int_end, CharClass::Letter);
        if spec_end < v.len() && v[spec_end] == '"' && check_base_specifier(v, int_end, spec_end) {
            scan_bit_string(v, start, spec_end)
        } else {
            let frac_end = if int_end < v.len() && v.len() - int_end > 1 && v[int_end] == '.'
                && check_digit(v[int_end + 1]) {
                scan_run(v, int_end + 1, CharClass::Digit)
            } else {
                int_end
            };
            let e = scan_exponent(v, frac_end);
            proof {
                lemma_run_end(v@, start as int, CharClass::Digit);
            }
            (Ok(VHDLToken::AbstLiteral(AbstLiteral::Decimal(substring(v, start, e)))), e)
        }
    }
}

/// Finds the closing of the block comment whose content starts at `i`.
fn scan_block_comment(v: &Vec<char>, i: usize) -> (end: usize)
    requires
        i <= v.len(),
    ensures
        end == block_comment_end(v@, i as int),
        i <= end <= v.len(),
        end < v.len() ==> end + 1 < v.len(),
{
    let mut j: usize = i;
    while j < v.len() && v.len() - j > 1
        invariant
            i <= j <= v.len(),
            block_comment_end(v@, i as int) == block_comment_end(v@, j as int),
        decreases v.len() - j,
    {
        if v[j] == '*' && v[j + 1] == '/' {
            return j;
        }
        j += 1;
    }
    v.len()
}

/// Reads the lexical element that starts at `start`.
pub fn scan_token(v: &Vec<char>, start: usize) -> (r: (Result<VHDLToken, LexErrorKind>, usize))
    requires
        start < v.len(),
    ensures
        token_at(v@, start as int, item_view(r.0), r.1 as int),
        start < r.1 <= v.len(),
{
    let c = v[start];
    let r = if check_letter(c) {
        let w_end = scan_run(v, start, CharClass::Word);
        proof {
            lemma_run_end(v@, start + 1, CharClass::Word);
        }
        if w_end < v.len() && v[w_end] == '"' && check_base_specifier(v, start, w_end) {
            scan_bit_string(v, start, w_end)
        } else {
            match scan_word(v, start, w_end) {
                Ok(t) => (Ok(t), w_end),
                Err(e) => (Err(e), scan_run(v, start + 1, CharClass::UntilSync)),
            }
        }
    } else if c == '\\' || c == '"' {
        match read_quoted(v, start, c) {
            Some((content, close)) => {
                if c == '"' {
                    (Ok(VHDLToken::StrLiteral(content)), close + 1)
                } else {
                    (Ok(VHDLToken::Identifier(Identifier::Extended(content))), close + 1)
                }
            },
            None => {
                let e = scan_run(v, start + 1, CharClass::UntilSync);
                if c == '"' {
                    (Err(LexErrorKind::UnclosedString), e)
                } else {
                    (Err(LexErrorKind::UnclosedExtendedIdentifier), e)
                }
            },
        }
    } else if c == '\'' && v.len() - start > 2 && v[start + 2] == '\'' {
        (Ok(VHDLToken::CharLiteral(Character(substring(v, start + 1, start + 2)))), start + 3)
    } else if c == '-' && v.len() - start > 1 && v[start + 1] == '-' {
        let e = scan_run(v, start + 2, CharClass::UntilNewline);
        (Ok(VHDLToken::Comment(Comment::Single(substring(v, start + 2, e)))), e)
    } else if c == '/' && v.len() - start > 1 && v[start + 1] == '*' {
        let e = scan_block_comment(v, start + 2);
        if e < v.len() {
            (Ok(VHDLToken::Comment(Comment::Delimited(substring(v, start + 2, e)))), e + 2)
        } else {
            (Err(LexErrorKind::UnclosedBlockComment), scan_run(v, start + 1, CharClass::UntilSync))
        }
    } else if check_digit(c) {
        scan_number(v, start)
    } else {
        match match_delimiter(v, start) {
            Some(d) => {
                let n = d.chars().len();
                (Ok(VHDLToken::Delimiter(d)), start + n)
            },
            None => (Err(LexErrorKind::InvalidChar), scan_run(v, start + 1, CharClass::UntilSync)),
        }
    };
    proof {
        lemma_token_spelled(v@, start as int, item_view(r.0), r.1 as int);
    }
    r
}

/// The line on which index `i` of the text lies, counted from zero.
pub open spec fn line_at(s: Seq<char>, i: int) -> nat
    decreases i,
{
    if i <= 0 {
        0
    } else if s[i - 1] == '\n' {
        line_at(s, i - 1) + 1
    } else {
        line_at(s, i - 1)
    }
}

/// The column at which index `i` of the text lies, counted from zero.
pub open spec fn col_at(s: Seq<char>, i: int) -> nat
    decreases i,
{
    if i <= 0 {
        0
    } else if s[i - 1] == '\n' {
        0
    } else {
        col_at(s, i - 1) + 1
    }
}

/// Whether `p` is the place of index `i` in the text of its file.
pub open spec fn is_place(s: Seq<char>, i: int, p: Position) -> bool {
    p.line == line_at(s, i) && p.col == col_at(s, i)
}

/// Line and column never exceed the index.
pub proof fn lemma_place_bound(s: Seq<char>, i: int)
    requires
        0 <= i,
    ensures
        line_at(s, i) <= i,
        col_at(s, i) <= i,
    decreases i,
{
    if i > 0 {
        lemma_place_bound(s, i - 1);
    }
}

/// Moves a place from index `from` to index `to`.
pub fn advance(v: &Vec<char>, p: Position, from: usize, to: usize) -> (r: Position)
    requires
        from <= to <= v.len(),
        is_place(v@, from as int, p),
    ensures
        is_place(v@, to as int, r),
        r.file == p.file,
{
    let mut line: usize = p.line;
    let mut col: usize = p.col;
    let mut i: usize = from;
    while i < to
        invariant
            from <= i <= to <= v.len(),
            line == line_at(v@, i as int),
            col == col_at(v@, i as int),
        decreases to - i,
    {
        proof {
            lemma_place_bound(v@, i as int);
        }
        if v[i] == '\n' {
            line += 1;
            col = 0;
        } else {
            col += 1;
        }
        i += 1;
    }
    Position { line, col, file: p.file }
}

/// One lexical element: the text `start..end` that it covers, the place
/// where it starts, and the token or the error that the lexer made of it.
#[derive(Debug)]
pub struct Lexed {
    pub start: usize,
    pub end: usize,
    pub position: Position,
    pub item: Result<VHDLToken, LexErrorKind>,
}

/// Whether `items[k]` is the lexical element that follows the `k` before it.
pub open spec fn lexed_ok(s: Seq<char>, items: Seq<Lexed>, k: int) -> bool {
    let prev_end: int = if k == 0 {
        0
    } else {
        items[k - 1].end as int
    };
    let it = items[k];
    &&& it.start == run_end(s, prev_end, CharClass::Space)
    &&& is_place(s, it.start as int, it.position)
    &&& if it.start < s.len() {
        token_at(s, it.start as int, item_view(it.item), it.end as int)
    } else {
        it.end == it.start && it.item == Ok::<VHDLToken, LexErrorKind>(VHDLToken::EOF)
    }
}

/// Whether `items` are the lexical elements of the text `s`, in order, each
/// separated from the next by white space alone, with the end of the text last.
pub open spec fn lexed_all(s: Seq<char>, items: Seq<Lexed>) -> bool {
    &&& items.len() > 0
    &&& forall|k: int| 0 <= k < items.len() ==> (#[trigger] items[k]).position.file == items[0].position.file
    &&& items.last().start == s.len()
    &&& forall|k: int| 0 <= k < items.len() ==> #[trigger] lexed_ok(s, items, k)
    &&& forall|k: int| 0 <= k < items.len() - 1 ==> (#[trigger] items[k]).start < s.len()
}

/// Where the element before element `k` ends; the start of the text for
/// the first element.
pub open spec fn previous_end(items: Seq<Lexed>, k: int) -> int {
    if k == 0 {
        0
    } else {
        items[k - 1].end as int
    }
}

/// The lexical elements of a text cover it but for white space: each
/// element starts after the one before it, only white space stands
/// between the two, and the text that the element covers is a spelling
/// of its token. So the lexemes of the tokens, written out one after the
/// other, give the text back but for white space and the case of keywords.
pub proof fn lemma_lexemes_reproduce_source(s: Seq<char>, items: Seq<Lexed>, k: int)
    requires
        lexed_all(s, items),
        0 <= k < items.len(),
    ensures
        0 <= previous_end(items, k) <= items[k].start <= items[k].end <= s.len(),
        forall|j: int| previous_end(items, k) <= j < items[k].start ==> is_space(#[trigger] s[j]),
        match items[k].item {
            Ok(t) => t@.spelled(s.subrange(items[k].start as int, items[k].end as int)),
            Err(_) => true,
        },
        k == items.len() - 1 ==> items[k].end == s.len(),
    decreases k,
{
    if k > 0 {
        lemma_lexemes_reproduce_source(s, items, k - 1);
    }
    assert(lexed_ok(s, items, k));
    lemma_run_end(s, previous_end(items, k), CharClass::Space);
    if items[k].start < s.len() {
        lemma_token_spelled(
            s,
            items[k].start as int,
            item_view(items[k].item),
            items[k].end as int,
        );
    } else {
        assert(s.subrange(items[k].start as int, items[k].end as int) =~= Seq::<char>::empty());
    }
}

/// Splits the text of the file `file` into its lexical elements.
pub fn lex(v: &Vec<char>, file: usize) -> (items: Vec<Lexed>)
    ensures
        lexed_all(v@, items@),
        items@[0].position.file == file,
{
    let mut items: Vec<Lexed> = Vec::new();
    let mut i: usize = 0;
    let mut place = Position { line: 0, col: 0, file };
    loop
        invariant
            i <= v.len(),
            is_place(v@, i as int, place),
            place.file == file,
            forall|k: int| 0 <= k < items.len() ==> (#[trigger] items@[k]).position.file == file,
            i == (if items.len() == 0 {
                0
            } else {
                items@.last().end as int
            }),
            forall|k: int| 0 <= k < items.len() ==> #[trigger] lexed_ok(v@, items@, k),
            forall|k: int| 0 <= k < items.len() ==> (#[trigger] items@[k]).start < v.len(),
        decreases v.len() - i,
    {
        let start = scan_run(v, i, CharClass::Space);
        place = advance(v, place, i, start);
        let ghost before = items@;
        if start == v.len() {
            items.push(Lexed { start, end: start, position: place, item: Ok(VHDLToken::EOF) });
            proof {
                assert forall|k: int| 0 <= k < items.len() implies #[trigger] lexed_ok(
                    v@,
                    items@,
                    k,
                ) by {
                    if k < before.len() {
                        assert(lexed_ok(v@, before, k));
                    }
                }
                assert forall|k: int| 0 <= k < items.len() - 1 implies (
                #[trigger] items@[k]).start < v.len() by {
                    assert(items@[k] == before[k]);
                }
            }
            return items;
        }
        let (item, end) = scan_token(v, start);
        items.push(Lexed { start, end, position: place, item });
        proof {
            assert forall|k: int| 0 <= k < items.len() implies #[trigger] lexed_ok(
                v@,
                items@,
                k,
            ) by {
                if k < before.len() {
                    assert(lexed_ok(v@, before, k));
                }
            }
        }
        place = advance(v, place, start, end);
        i = end;
    }
}

/// An error of the lexer with the place where the faulty element starts.
#[derive(Debug, Clone, Copy, PartialEq, Eq, Structural)]
pub struct LexError {
    pub position: Position,
    pub kind: LexErrorKind,
}

/// The tokens among the first `n` of `items`, comments kept or left out.
pub open spec fn tokens_of(items: Seq<Lexed>, n: int, comments: bool) -> Seq<Token>
    decreases n,
{
    if n <= 0 {
        Seq::empty()
    } else {
        let rest = tokens_of(items, n - 1, comments);
        match items[n - 1].item {
            Ok(t) => if t is Comment && !comments {
                rest
            } else {
                rest.push(Token { position: items[n - 1].position, ttype: t })
            },
            Err(_) => rest,
        }
    }
}

/// The errors among the first `n` of `items`.
pub open spec fn errors_of(items: Seq<Lexed>, n: int) -> Seq<LexError>
    decreases n,
{
    if n <= 0 {
        Seq::empty()
    } else {
        let rest = errors_of(items, n - 1);
        match items[n - 1].item {
            Ok(_) => rest,
            Err(e) => rest.push(LexError { position: items[n - 1].position, kind: e }),
        }
    }
}

/// The lexical elements of one source text.
#[derive(Debug)]
pub struct VHDLTokenizer {
    pub source: Vec<char>,
    pub items: Vec<Lexed>,
}

impl VHDLTokenizer {
    /// Whether the elements are those of the source text.
    pub open spec fn wf(&self) -> bool {
        lexed_all(self.source@, self.items@)
    }

    /// Splits the source text `s` into its lexical elements.
    pub fn from_source_code(s: &str) -> (r: VHDLTokenizer)
        ensures
            r.source@ == s@,
            r.wf(),
            r.items@[0].position.file == 0,
    {
        Self::from_source_file(s, 0)
    }

    /// Splits the source text `s` of the file `file` into its lexical elements.
    pub fn from_source_file(s: &str, file: usize) -> (r: VHDLTokenizer)
        ensures
            r.source@ == s@,
            r.wf(),
            r.items@[0].position.file == file,
    {
        let source = crate::text::chars_of(s);
        let items = lex(&source, file);
        VHDLTokenizer { source, items }
    }

    /// The elements, tokens and errors alike, in the order of the text.
    pub fn as_items(&self) -> (r: &Vec<Lexed>)
        ensures
            r@ == self.items@,
    {
        &self.items
    }

    /// The tokens that a parser reads: every token but the comments, in the
    /// order of the text, ending with the end-of-text token.
    pub fn into_tokens(self) -> (r: Vec<Token>)
        ensures
            r@ == tokens_of(self.items@, self.items@.len() as int, false),
    {
        collect_tokens(&self.items, false)
    }

    /// Every token, comments included, in the order of the text.
    pub fn into_tokens_all(self) -> (r: Vec<Token>)
        ensures
            r@ == tokens_of(self.items@, self.items@.len() as int, true),
    {
        collect_tokens(&self.items, true)
    }

    /// The errors, in the order of the text.
    pub fn into_errors(self) -> (r: Vec<LexError>)
        ensures
            r@ == errors_of(self.items@, self.items@.len() as int),
    {
        let mut out: Vec<LexError> = Vec::new();
        let mut i: usize = 0;
        while i < self.items.len()
            invariant
                i <= self.items.len(),
                out@ == errors_of(self.items@, i as int),
            decreases self.items.len() - i,
        {
            match &self.items[i].item {
                Ok(_) => {},
                Err(e) => {
                    out.push(LexError { position: self.items[i].position, kind: *e });
                },
            }
            i += 1;
        }
        out
    }
}

/// Collects the tokens of `items`.
fn collect_tokens(items: &Vec<Lexed>, comments: bool) -> (r: Vec<Token>)
    ensures
        r@ == tokens_of(items@, items@.len() as int, comments),
{
    let mut out: Vec<Token> = Vec::new();
    let mut i: usize = 0;
    while i < items.len()
        invariant
            i <= items.len(),
            out@ == tokens_of(items@, i as int, comments),
        decreases items.len() - i,
    {
        match &items[i].item {
            Ok(t) => {
                if comments || !t.is_comment() {
                    out.push(Token::new(t.clone(), items[i].position));
                }
            },
            Err(_) => {},
        }
        i += 1;
    }
    out
}

} // verus!
