//! Tokens.

use acetone_cypher::lex::{lex, TokenKind};
use acetone_cypher::{ParseError, Span};

fn kinds(input: &str) -> Vec<TokenKind> {
    lex(input).unwrap().into_iter().map(|t| t.kind).collect()
}

/// A floating-point token.
fn float(x: f64) -> TokenKind {
    TokenKind::Float(x.to_bits())
}

/// The number that a floating-point token stands for.
fn number(input: &str) -> f64 {
    match &kinds(input)[0] {
        TokenKind::Float(bits) => f64::from_bits(*bits),
        other => panic!("no float: {other:?}"),
    }
}

fn ident(name: &str) -> TokenKind {
    TokenKind::Ident {
        name: name.into(),
        backquoted: false,
    }
}

#[test]
fn lexes_relationship_arrows() {
    assert_eq!(
        kinds("()-->()<--()--()"),
        vec![
            TokenKind::LParen,
            TokenKind::RParen,
            TokenKind::Minus,
            TokenKind::Arrow,
            TokenKind::LParen,
            TokenKind::RParen,
            TokenKind::LArrow,
            TokenKind::Minus,
            TokenKind::LParen,
            TokenKind::RParen,
            TokenKind::Minus,
            TokenKind::Minus,
            TokenKind::LParen,
            TokenKind::RParen,
            TokenKind::Eof,
        ]
    );
}

#[test]
fn lexes_numbers() {
    assert_eq!(kinds("42"), vec![TokenKind::Integer(42), TokenKind::Eof]);
    assert_eq!(kinds("3.25"), vec![float(3.25), TokenKind::Eof]);
    assert_eq!(number("3.25"), 3.25);
    assert_eq!(kinds(".5"), vec![float(0.5), TokenKind::Eof]);
    assert_eq!(number(".5"), 0.5);
    assert_eq!(kinds("1e3"), vec![float(1000.0), TokenKind::Eof]);
    assert_eq!(number("1e3"), 1000.0);
    assert_eq!(kinds("2.5e-1"), vec![float(0.25), TokenKind::Eof]);
    assert_eq!(number("2.5e-1"), 0.25);
    assert_eq!(kinds("0xff"), vec![TokenKind::Integer(255), TokenKind::Eof]);
    assert_eq!(kinds("0o17"), vec![TokenKind::Integer(15), TokenKind::Eof]);
    // Overflowing floats saturate to infinity, matching Neo4j.
    assert_eq!(number("1e999"), f64::INFINITY);
}

#[test]
fn range_after_integer_stays_a_range() {
    assert_eq!(
        kinds("1..3"),
        vec![
            TokenKind::Integer(1),
            TokenKind::DotDot,
            TokenKind::Integer(3),
            TokenKind::Eof
        ]
    );
}

#[test]
fn integer_overflow_is_an_error_not_a_panic() {
    assert!(matches!(
        lex("99999999999999999999"),
        Err(ParseError::Lex { .. })
    ));
}

#[test]
fn lexes_strings_with_escapes() {
    assert_eq!(
        kinds(r#"'a\'b'"#),
        vec![TokenKind::Str("a'b".into()), TokenKind::Eof]
    );
    assert_eq!(
        kinds(r#""tab\there""#),
        vec![TokenKind::Str("tab\there".into()), TokenKind::Eof]
    );
    assert_eq!(
        kinds(r#"'é'"#),
        vec![TokenKind::Str("é".into()), TokenKind::Eof]
    );
    assert_eq!(
        kinds(r#"'\U0001F600'"#),
        vec![TokenKind::Str("😀".into()), TokenKind::Eof]
    );
}

#[test]
fn string_errors_carry_spans() {
    assert!(matches!(lex("'unterminated"), Err(ParseError::Lex { .. })));
    assert!(matches!(lex(r#"'\q'"#), Err(ParseError::Lex { .. })));
    assert!(matches!(lex(r#"'\u12'"#), Err(ParseError::Lex { .. })));
    assert!(matches!(lex(r#"'\uD800'"#), Err(ParseError::Lex { .. })));
}

#[test]
fn lexes_parameters() {
    assert_eq!(
        kinds("$name"),
        vec![TokenKind::Parameter("name".into()), TokenKind::Eof]
    );
    assert_eq!(
        kinds("$0"),
        vec![TokenKind::Parameter("0".into()), TokenKind::Eof]
    );
    assert!(matches!(lex("$ x"), Err(ParseError::Lex { .. })));
}

#[test]
fn lexes_backquoted_names_with_escapes() {
    assert_eq!(
        kinds("`a b`"),
        vec![
            TokenKind::Ident {
                name: "a b".into(),
                backquoted: true
            },
            TokenKind::Eof
        ]
    );
    assert_eq!(
        kinds("`a``b`"),
        vec![
            TokenKind::Ident {
                name: "a`b".into(),
                backquoted: true
            },
            TokenKind::Eof
        ]
    );
    assert!(matches!(lex("`open"), Err(ParseError::Lex { .. })));
}

#[test]
fn comments_are_skipped_and_unterminated_block_comment_errors() {
    assert_eq!(
        kinds("1 // trailing\n2"),
        vec![TokenKind::Integer(1), TokenKind::Integer(2), TokenKind::Eof]
    );
    assert_eq!(
        kinds("1 /* mid */ 2"),
        vec![TokenKind::Integer(1), TokenKind::Integer(2), TokenKind::Eof]
    );
    assert!(matches!(lex("1 /* open"), Err(ParseError::Lex { .. })));
}

#[test]
fn unicode_identifiers_lex() {
    assert_eq!(kinds("häuser"), vec![ident("häuser"), TokenKind::Eof]);
}

#[test]
fn spans_are_byte_accurate() {
    let tokens = lex("MATCH (n)").unwrap();
    assert_eq!(tokens[0].span, Span::new(0, 5));
    assert_eq!(tokens[1].span, Span::new(6, 7));
    assert_eq!(tokens[2].span, Span::new(7, 8));
    assert_eq!(tokens[3].span, Span::new(8, 9));
}

#[test]
fn every_white_space_character_separates_tokens() {
    for c in ['\t', '\n', '\u{b}', '\u{c}', '\r', ' ', '\u{85}', '\u{a0}', '\u{1680}', '\u{2003}',
        '\u{2028}', '\u{2029}', '\u{202f}', '\u{205f}', '\u{3000}']
    {
        assert_eq!(kinds(&format!("1{c}2")), kinds("1 2"), "{c:?}");
    }
    // A zero-width space is no white space.
    assert!(lex("1\u{200b}2").is_err());
}

#[test]
fn names_hold_letters_beyond_ascii() {
    assert_eq!(kinds("caf\u{e9}9 x").len(), 3);
    assert!(lex("\u{e9}").is_ok());
}

#[test]
fn float_literals_stand_for_the_nearest_number() {
    for written in [
        "0.1", "0.2", "0.3", "1.7976931348623157e308", "2.2250738585072014e-308", "5e-324",
        "4.9406564584124654e-324", "2.4703282292062327e-324", "2.4703282292062328e-324",
        "9007199254740993.0", "9007199254740992.999999999999999999", "1e22", "1e23", "123456.789e-3",
        "0.10000000000000000555", "1e-400", "0e999999999999999999999", "1e99999999999999999999999",
        "1e-99999999999999999999999", "00012.500", "8.98846567431158e307", "1.7976931348623159e308",
        "3.141592653589793238462643383279502884197", "6.02214076e23", "1.0e0", "0.000001",
        "2.225073858507201136057409796709131975934819546351645648023426109724822222021076945516529523908135087914149158913039621106870086438694594645527657207407820621743379988141063267329253552286881372149012981122451451889849057222307285255133155755015914397476397983411801999323962548289017107081850690630666655994938275772572015763062690663332647565300009245888316433037779791869612049497390377829704905051080609940730262937128958950003583799967207254304360284078895771796150945516748243471030702609144621572289880258182545180325707018860872113128079512233426288368622321503775666622503982534335974568884423900265498198385487948292206894721689831099698365846814022854243330660339850886445804001034933970427567186443383770486037861622771738545623065874679014086723327636718751234567890123456789012345678901e-308",
    ] {
        let x: f64 = written.parse().unwrap();
        assert_eq!(kinds(written)[0], float(x), "{written}");
    }
    // One number in two ways, and an overflow.
    assert_eq!(kinds("0.1"), kinds("0.10000000000000000555"));
    assert_eq!(kinds("1e400"), kinds("1e500"));
}
