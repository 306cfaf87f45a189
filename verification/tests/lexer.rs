use orbit::vhdl::delimiter::Delimiter;
use orbit::vhdl::identifier::{Identifier, IdentifierError};
use orbit::vhdl::keyword::Keyword;
use orbit::vhdl::lexer::{LexErrorKind, VHDLTokenizer};
use orbit::vhdl::token::{AbstLiteral, BitStrLiteral, Character, Comment, VHDLToken};

fn types_of(s: &str) -> Vec<VHDLToken> {
    VHDLTokenizer::from_source_code(s)
        .into_tokens_all()
        .into_iter()
        .map(|t| t.take())
        .collect()
}

#[test]
fn lex_keywords_in_any_case() {
    assert_eq!(
        types_of("ENTITY Entity entity"),
        vec![
            VHDLToken::Keyword(Keyword::Entity),
            VHDLToken::Keyword(Keyword::Entity),
            VHDLToken::Keyword(Keyword::Entity),
            VHDLToken::EOF
        ]
    );
    assert_eq!(types_of("map")[0], VHDLToken::Keyword(Keyword::MapKw));
}

#[test]
fn lex_identifiers() {
    assert_eq!(
        types_of("nor_gate \\In\\ \\a\\\\b\\"),
        vec![
            VHDLToken::Identifier(Identifier::Basic("nor_gate".to_owned())),
            VHDLToken::Identifier(Identifier::Extended("In".to_owned())),
            VHDLToken::Identifier(Identifier::Extended("a\\b".to_owned())),
            VHDLToken::EOF
        ]
    );
}

#[test]
fn lex_delimiters_longest_first() {
    assert_eq!(
        types_of("<= => := /= ?/= ?<= ** <> ( ) ; ' ?? << >>"),
        vec![
            VHDLToken::Delimiter(Delimiter::SigAssign),
            VHDLToken::Delimiter(Delimiter::Arrow),
            VHDLToken::Delimiter(Delimiter::VarAssign),
            VHDLToken::Delimiter(Delimiter::Inequality),
            VHDLToken::Delimiter(Delimiter::MatchNE),
            VHDLToken::Delimiter(Delimiter::MatchLTE),
            VHDLToken::Delimiter(Delimiter::DoubleStar),
            VHDLToken::Delimiter(Delimiter::Box),
            VHDLToken::Delimiter(Delimiter::ParenL),
            VHDLToken::Delimiter(Delimiter::ParenR),
            VHDLToken::Delimiter(Delimiter::Terminator),
            VHDLToken::Delimiter(Delimiter::SingleQuote),
            VHDLToken::Delimiter(Delimiter::CondConv),
            VHDLToken::Delimiter(Delimiter::DoubleLT),
            VHDLToken::Delimiter(Delimiter::DoubleGT),
            VHDLToken::EOF
        ]
    );
}

#[test]
fn lex_literals() {
    assert_eq!(
        types_of("1_234 2#1010# 2#001_1100.001#E14 1.5e-3 'c' \"a \"\"b\"\"\" x\"FF\" 0sx\"\" 1 ms"),
        vec![
            VHDLToken::AbstLiteral(AbstLiteral::Decimal("1_234".to_owned())),
            VHDLToken::AbstLiteral(AbstLiteral::Based("2#1010#".to_owned())),
            VHDLToken::AbstLiteral(AbstLiteral::Based("2#001_1100.001#E14".to_owned())),
            VHDLToken::AbstLiteral(AbstLiteral::Decimal("1.5e-3".to_owned())),
            VHDLToken::CharLiteral(Character("c".to_owned())),
            VHDLToken::StrLiteral("a \"b\"".to_owned()),
            VHDLToken::BitStrLiteral(BitStrLiteral("x\"FF\"".to_owned())),
            VHDLToken::BitStrLiteral(BitStrLiteral("0sx\"\"".to_owned())),
            VHDLToken::AbstLiteral(AbstLiteral::Decimal("1".to_owned())),
            VHDLToken::Identifier(Identifier::Basic("ms".to_owned())),
            VHDLToken::EOF
        ]
    );
}

#[test]
fn lex_comments_are_kept_by_the_lexer_only() {
    let s = "a -- to the end\nb /* over\nlines */ c";
    assert_eq!(
        types_of(s),
        vec![
            VHDLToken::Identifier(Identifier::Basic("a".to_owned())),
            VHDLToken::Comment(Comment::Single(" to the end".to_owned())),
            VHDLToken::Identifier(Identifier::Basic("b".to_owned())),
            VHDLToken::Comment(Comment::Delimited(" over\nlines ".to_owned())),
            VHDLToken::Identifier(Identifier::Basic("c".to_owned())),
            VHDLToken::EOF
        ]
    );
    assert_eq!(VHDLTokenizer::from_source_code(s).into_tokens().len(), 4);
}

#[test]
fn lex_positions_count_lines_and_columns() {
    let tokens = VHDLTokenizer::from_source_code("entity e\n  is\n\nend;").into_tokens();
    let places: Vec<(usize, usize)> = tokens.iter().map(|t| (t.locate().line(), t.locate().col())).collect();
    assert_eq!(places, vec![(0, 0), (0, 7), (1, 2), (3, 0), (3, 3), (3, 4)]);
}

#[test]
fn lex_errors_of_each_kind() {
    let cases = [
        ("\"never closed", LexErrorKind::UnclosedString),
        ("\\never closed", LexErrorKind::UnclosedExtendedIdentifier),
        ("/* never closed", LexErrorKind::UnclosedBlockComment),
        ("2#10!1#", LexErrorKind::InvalidBasedDigit),
        ("$", LexErrorKind::InvalidChar),
        ("a__b", LexErrorKind::InvalidIdentifier),
        ("x\"FF", LexErrorKind::UnclosedString),
    ];
    for (text, kind) in cases {
        let errors = VHDLTokenizer::from_source_code(text).into_errors();
        assert_eq!(errors.len() >= 1, true, "{}", text);
        assert_eq!(errors[0].kind, kind, "{}", text);
    }
}

#[test]
fn lex_resumes_after_an_error() {
    // the lexer goes on at the next white space or semicolon
    let tokenizer = VHDLTokenizer::from_source_code("a $$$ b; #x;c");
    let items = tokenizer.as_items();
    let spans: Vec<(usize, usize, bool)> = items.iter().map(|i| (i.start, i.end, i.item.is_ok())).collect();
    assert_eq!(
        spans,
        vec![
            (0, 1, true),
            (2, 5, false),
            (6, 7, true),
            (7, 8, true),
            (9, 11, false),
            (11, 12, true),
            (12, 13, true),
            (13, 13, true)
        ]
    );
}

#[test]
fn lexemes_reproduce_the_source() {
    let s = "entity nor_gate is -- c\n  port (a : in bit := '0'; \\b c\\ : out x\"0F\"); /* d */ end \"s\"\"t\" 2#11#e2;";
    let tokenizer = VHDLTokenizer::from_source_code(s);
    let chars: Vec<char> = s.chars().collect();
    let mut end = 0;
    for item in tokenizer.as_items() {
        // between two elements stands white space alone
        assert!(chars[end..item.start].iter().all(|c| c.is_whitespace()));
        let slice: String = chars[item.start..item.end].iter().collect();
        assert_eq!(item.item.as_ref().unwrap().to_string(), slice);
        end = item.end;
    }
    assert_eq!(end, chars.len());
}

#[test]
fn identifier_from_text() {
    assert_eq!(Identifier::from_str("nor_gate").unwrap(), Identifier::Basic("NOR_GATE".to_owned()));
    assert_eq!(Identifier::from_str("\\a b\\").unwrap(), Identifier::Extended("a b".to_owned()));
    assert_ne!(
        Identifier::from_str("\\a\\").unwrap(),
        Identifier::Extended("A".to_owned())
    );
    assert_ne!(Identifier::Basic("a".to_owned()), Identifier::Extended("a".to_owned()));
    assert_eq!(Identifier::from_str(""), Err(IdentifierError::Empty));
    assert_eq!(Identifier::from_str("1a"), Err(IdentifierError::InvalidFirstChar));
    assert_eq!(Identifier::from_str("a-b"), Err(IdentifierError::InvalidChar));
    assert_eq!(Identifier::from_str("a_"), Err(IdentifierError::TrailingUnderscore));
    assert_eq!(Identifier::from_str("a__b"), Err(IdentifierError::DoubleUnderscore));
    assert_eq!(Identifier::from_str("\\ab"), Err(IdentifierError::UnclosedExtended));
    assert_eq!(Identifier::from_str("\\a\\b"), Err(IdentifierError::LoneBackslash));
    assert_eq!(Identifier::Extended("a\\b".to_owned()).to_string(), "\\a\\\\b\\");
    assert_eq!(Identifier::new().len(), 0);
    assert!(Identifier::Basic("Alpha".to_owned()).sorts_before(&Identifier::Basic("beta".to_owned())));
    assert!(!Identifier::Basic("beta".to_owned()).sorts_before(&Identifier::Basic("Beta".to_owned())));
    assert!(Identifier::Basic("z".to_owned()).sorts_before(&Identifier::Extended("a".to_owned())));
}
