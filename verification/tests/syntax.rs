use std::rc::Rc;

use nakati::ast::{print_tree, Ast};
use nakati::common::OptionalResult;
use nakati::lexer::{LexError, Lexer};
use nakati::parser::{ParseError, Parser};
use nakati::source::Source;
use nakati::token::TokenKind;

fn lexer_for(text: &str) -> Lexer {
    Lexer::new(Rc::new(Source::new("<test>", text)))
}

fn tokens(text: &str) -> Vec<(TokenKind, String)> {
    let mut lexer = lexer_for(text);
    let mut out = vec![];
    loop {
        match lexer.next_token() {
            OptionalResult::Value(t) => out.push((t.kind, t.content())),
            OptionalResult::Error(LexError::UnexpectedCharacter(g)) => {
                out.push((TokenKind::Operator, format!("error {}", g)));
                break;
            }
            OptionalResult::Empty => break,
        }
    }
    out
}

fn kinds_and_texts(items: &[(TokenKind, &str)]) -> Vec<(TokenKind, String)> {
    items.iter().map(|(k, s)| (*k, s.to_string())).collect()
}

#[test]
fn lexer_splits_a_statement() {
    assert_eq!(
        tokens("let x = 5.25; // note\n\"hi there\" => ... @ + a_b true"),
        kinds_and_texts(&[
            (TokenKind::Identifier, "let"),
            (TokenKind::Identifier, "x"),
            (TokenKind::Equals, "="),
            (TokenKind::Float, "5.25"),
            (TokenKind::Semicolon, ";"),
            (TokenKind::String, "hi there"),
            (TokenKind::ThickArrow, "=>"),
            (TokenKind::Ellipsis, "..."),
            (TokenKind::Strudel, "@"),
            (TokenKind::Operator, "+"),
            (TokenKind::Identifier, "a_b"),
            (TokenKind::Boolean, "true"),
        ])
    );
}

#[test]
fn lexer_reads_brackets_and_punctuation() {
    assert_eq!(
        tokens("( { [ ] } ) , : . - / * 42"),
        kinds_and_texts(&[
            (TokenKind::Open, "("),
            (TokenKind::Open, "{"),
            (TokenKind::Open, "["),
            (TokenKind::Close, "]"),
            (TokenKind::Close, "}"),
            (TokenKind::Close, ")"),
            (TokenKind::Comma, ","),
            (TokenKind::Colon, ":"),
            (TokenKind::Dot, "."),
            (TokenKind::Operator, "-"),
            (TokenKind::Operator, "/"),
            (TokenKind::Operator, "*"),
            (TokenKind::Integer, "42"),
        ])
    );
}

#[test]
fn lexer_reports_an_unexpected_character_and_stays() {
    let mut lexer = lexer_for("  ?x");
    for _ in 0..2 {
        match lexer.next_token() {
            OptionalResult::Error(LexError::UnexpectedCharacter(g)) => assert_eq!(g, "?"),
            _ => panic!("expected an error"),
        }
    }
}

#[test]
fn lexer_takes_an_emoji_as_a_name() {
    assert_eq!(
        tokens("🦀 x1"),
        kinds_and_texts(&[(TokenKind::Identifier, "🦀"), (TokenKind::Identifier, "x1")])
    );
}

#[test]
fn lexer_finishes_on_comments_and_space() {
    assert_eq!(tokens("   // only a comment\n  // another"), vec![]);
    assert!(lexer_for("").next_token().is_none());
}

#[test]
fn lexer_span_of_last_token() {
    let mut lexer = lexer_for("ab\ncd");
    let _ = lexer.next_token();
    let _ = lexer.next_token();
    let span = lexer.get_span();
    assert_eq!(span.describe(), "<2:1 length 2>");
}

fn parse(text: &str) -> Result<nakati::ast::AstNode, ParseError> {
    let mut parser = Parser::new(lexer_for(text));
    assert!(parser.current.is_ok());
    assert!(parser.numerals_fit());
    parser.parse()
}

#[test]
fn parser_builds_a_function_with_a_block() {
    let tree = match parse("fn main() { let x = 5; x }") {
        Ok(t) => t,
        Err(_) => panic!("parse failed"),
    };
    assert_eq!(
        print_tree(&tree),
        vec![
            "<Program>",
            "  <Function main>",
            "    public: false",
            "    args:",
            "    type:",
            "      None",
            "    variadic: false",
            "    <Block>",
            "      <Let>",
            "        pattern:",
            "          <VariableAccess x>",
            "        type:",
            "          None",
            "        <Integer 5>",
            "      return:",
            "        <VariableAccess x>",
        ]
    );
}

#[test]
fn parser_reads_declarations() {
    let text = "import Out, In as Input from \"#io\";\n\
                pub static life: Int = 42;\n\
                class Point { }\n\
                pub fn id(a: Int, b: Int): Int = a;";
    let tree = match parse(text) {
        Ok(t) => t,
        Err(_) => panic!("parse failed"),
    };
    assert_eq!(
        print_tree(&tree),
        vec![
            "<Program>",
            "  <Import>",
            "    name:",
            "      Out",
            "      alias: None",
            "      In",
            "      alias: Some(\"Input\")",
            "    module alias: None",
            "    from: \"#io\"",
            "  <Static>",
            "    public: true",
            "    name: \"life\"",
            "    type:",
            "      <TypeName Int>",
            "    body:",
            "      <Integer 42>",
            "  <Class Point>",
            "    public: false",
            "  <Function id>",
            "    public: true",
            "    args:",
            "      arg:",
            "        name: \"a\"",
            "        type:",
            "          <TypeName Int>",
            "      arg:",
            "        name: \"b\"",
            "        type:",
            "          <TypeName Int>",
            "    type:",
            "      <TypeName Int>",
            "    variadic: false",
            "    <VariableAccess a>",
        ]
    );
}

#[test]
fn parser_reads_member_access_and_calls() {
    let tree = match parse("fn main() { io.out(); y = x; }") {
        Ok(t) => t,
        Err(_) => panic!("parse failed"),
    };
    let lines = print_tree(&tree);
    assert_eq!(
        lines[7..].to_vec(),
        vec![
            "    <Block>",
            "      <Call>",
            "        <MemberAccess out>",
            "          <VariableAccess io>",
            "        args:",
            "      <Assignment>",
            "        pattern:",
            "          <VariableAccess y>",
            "        <VariableAccess x>",
            "      return:",
            "        None",
        ]
    );
}

#[test]
fn parser_reports_an_unexpected_token() {
    match parse("fn main() { ) }") {
        Err(ParseError::UnexpectedToken(Some(t))) => {
            assert_eq!(t.kind, TokenKind::Close);
            assert_eq!(t.content(), ")");
        }
        _ => panic!("expected an unexpected token"),
    }
}

#[test]
fn parser_lists_what_a_declaration_may_start_with() {
    match parse("let x = 1;") {
        Err(ParseError::ExpectedTokenGot(expected, Some(got))) => {
            let expected: Vec<(TokenKind, Option<String>)> = expected;
            assert_eq!(
                expected,
                vec![
                    (TokenKind::Identifier, Some("import".to_string())),
                    (TokenKind::Identifier, Some("pub".to_string())),
                    (TokenKind::Identifier, Some("static".to_string())),
                    (TokenKind::Identifier, Some("class".to_string())),
                    (TokenKind::Identifier, Some("fn".to_string())),
                ]
            );
            assert_eq!(got.content(), "let");
        }
        _ => panic!("expected a list of expected tokens"),
    }
}

#[test]
fn parser_expects_a_semicolon() {
    match parse("static a: Int = 1") {
        Err(ParseError::ExpectedTokenGot(expected, None)) => {
            assert_eq!(expected, vec![(TokenKind::Semicolon, None)]);
        }
        _ => panic!("expected a missing semicolon"),
    }
}

#[test]
fn parser_passes_on_lexer_errors() {
    match parse("fn main() { ? }") {
        Err(ParseError::LexError(LexError::UnexpectedCharacter(g))) => assert_eq!(g, "?"),
        _ => panic!("expected a lexer error"),
    }
}

#[test]
fn numerals_that_do_not_fit_are_found_before_parsing() {
    let parser = Parser::new(lexer_for("static a: Int = 340282366920938463463374607431768211456;"));
    assert!(!parser.numerals_fit());
    let parser = Parser::new(lexer_for("static a: Int = 340282366920938463463374607431768211455;"));
    assert!(parser.numerals_fit());
}

#[test]
fn largest_integer_literal_is_read_exactly() {
    let tree = match parse("static a: Int = 340282366920938463463374607431768211455;") {
        Ok(t) => t,
        Err(_) => panic!("parse failed"),
    };
    let lines = print_tree(&tree);
    assert_eq!(lines[7], "      <Integer 340282366920938463463374607431768211455>");
    match &*tree.0.value {
        Ast::Program(nodes) => assert_eq!(nodes.len(), 1),
        _ => panic!("expected a program"),
    }
}

fn error_of(text: &str) -> String {
    match parse(text) {
        Err(e) => e.describe(),
        Ok(_) => panic!("expected a parse error"),
    }
}

#[test]
fn parse_errors_are_written_as_english_lists() {
    assert_eq!(
        error_of("let x = 1;"),
        "expected \"import\", \"pub\", \"static\", \"class\", or \"fn\" but got Identifier \"let\""
    );
    assert_eq!(error_of("fn f() x"), "expected Equals or \"{\" but got Identifier \"x\"");
    assert_eq!(error_of("fn f()"), "expected Equals or \"{\" but got end of file");
    assert_eq!(error_of("static a: Int = 1"), "expected Semicolon but got end of file");
}

#[test]
fn parse_errors_name_unexpected_tokens_and_lexer_errors() {
    assert_eq!(error_of("fn main() { ) }"), "UnexpectedToken(Some(<Close \")\">))");
    assert_eq!(error_of("fn main() { ? }"), "LexError(UnexpectedCharacter(\"?\"))");
}

#[test]
fn parser_drops_a_name_that_no_statement_follows() {
    let tree = match parse("fn main() { x.y z = 1; }") {
        Ok(t) => t,
        Err(e) => panic!("parse failed: {}", e.describe()),
    };
    match &*tree.0.value {
        Ast::Program(nodes) => match &*nodes[0].0.value {
            Ast::Function { body, .. } => match &*body.0.value {
                Ast::Block { statements, return_value } => {
                    assert_eq!(statements.len(), 1);
                    assert!(return_value.is_none());
                    match &*statements[0].0.value {
                        Ast::Assignment { pattern, body } => {
                            match &*pattern.0.value {
                                Ast::VariableAccess(name) => assert_eq!(name, "z"),
                                _ => panic!("expected a variable"),
                            }
                            match &*body.0.value {
                                Ast::Integer(v) => assert_eq!(*v, 1),
                                _ => panic!("expected an integer"),
                            }
                        }
                        _ => panic!("expected an assignment"),
                    }
                }
                _ => panic!("expected a block"),
            },
            _ => panic!("expected a function"),
        },
        _ => panic!("expected a program"),
    }
}

#[test]
fn lexer_skips_every_kind_of_unicode_white_space() {
    assert_eq!(
        tokens("a\u{3000}b\u{2028}c\u{a0}\u{85}d\t\u{b}e"),
        kinds_and_texts(&[
            (TokenKind::Identifier, "a"),
            (TokenKind::Identifier, "b"),
            (TokenKind::Identifier, "c"),
            (TokenKind::Identifier, "d"),
            (TokenKind::Identifier, "e"),
        ])
    );
}

#[test]
fn a_broken_member_access_takes_nothing() {
    assert_eq!(error_of("fn main() { x . 5 }"), "expected \"}\" but got Dot \".\"");
    assert_eq!(error_of("fn main() { f(1) }"), "expected \"}\" but got Open \"(\"");
    assert_eq!(error_of("fn main() { x . ? }"), "LexError(UnexpectedCharacter(\"?\"))");
}

#[test]
fn white_space_is_the_unicode_white_space_property() {
    for c in (0u32..=0x10FFFF).filter_map(char::from_u32) {
        assert_eq!(nakati::chars::char_is_whitespace(c), c.is_whitespace(), "{:?}", c);
    }
}
