use guppty::error::ErrorKind;
use guppty::lexer::lex;
use guppty::syntax::{is_print_function, keyword_token};
use guppty::token::{describe_kind, TokenKind};

fn kinds(source: &str) -> Vec<TokenKind> {
    lex(source).unwrap().into_iter().map(|t| t.kind).collect()
}

#[test]
fn lexes_a_declaration_with_newline_and_eof() {
    assert_eq!(
        kinds("x = 5"),
        vec![
            TokenKind::Identifier("x".to_string()),
            TokenKind::Equal,
            TokenKind::NumberLiteral(5),
            TokenKind::Newline,
            TokenKind::EOF,
        ]
    );
}

#[test]
fn lexes_indented_block_and_closes_it() {
    assert_eq!(
        kinds("if x\n  out(1)\n"),
        vec![
            TokenKind::If,
            TokenKind::Identifier("x".to_string()),
            TokenKind::Newline,
            TokenKind::Indent,
            TokenKind::Identifier("out".to_string()),
            TokenKind::LeftParen,
            TokenKind::NumberLiteral(1),
            TokenKind::RightParen,
            TokenKind::Newline,
            TokenKind::Dedent,
            TokenKind::EOF,
        ]
    );
}

#[test]
fn indents_and_dedents_balance() {
    let ks = kinds("a()\n  b = 1\n  if b\n    out(b)\nout(2)\n");
    let indents = ks.iter().filter(|k| **k == TokenKind::Indent).count();
    let dedents = ks.iter().filter(|k| **k == TokenKind::Dedent).count();
    assert_eq!(indents, 2);
    assert_eq!(indents, dedents);
    assert_eq!(ks.last(), Some(&TokenKind::EOF));
}

#[test]
fn lexes_operators_and_keywords() {
    assert_eq!(
        kinds("a <= b != c and not d"),
        vec![
            TokenKind::Identifier("a".to_string()),
            TokenKind::LessEqual,
            TokenKind::Identifier("b".to_string()),
            TokenKind::BangEqual,
            TokenKind::Identifier("c".to_string()),
            TokenKind::And,
            TokenKind::Not,
            TokenKind::Identifier("d".to_string()),
            TokenKind::Newline,
            TokenKind::EOF,
        ]
    );
}

#[test]
fn lexes_literals() {
    assert_eq!(
        kinds("\"hi\" 'c' 3.25 true"),
        vec![
            TokenKind::StringLiteral("hi".to_string()),
            TokenKind::CharLiteral('c'),
            TokenKind::FloatLiteral("3.25".to_string()),
            TokenKind::True,
            TokenKind::Newline,
            TokenKind::EOF,
        ]
    );
}

#[test]
fn comments_are_skipped() {
    assert_eq!(kinds("// just a note\n"), vec![TokenKind::EOF]);
}

#[test]
fn token_spans_point_at_source() {
    let tokens = lex("x = 42").unwrap();
    assert_eq!(tokens[2].span.line, 1);
    assert_eq!(tokens[2].span.column, 5);
    assert_eq!(tokens[2].span.length, 2);
}

#[test]
fn unknown_character_is_a_syntax_error() {
    let e = lex("x = @").unwrap_err();
    assert_eq!(e.message, "I do not know what to do with '@'.");
    assert_eq!(e.kind, ErrorKind::SyntaxError);
    assert_eq!(e.span.column, 5);
}

#[test]
fn lonely_bang_is_reported() {
    let e = lex("a ! b").unwrap_err();
    assert_eq!(e.message, "Found a lonely '!'. Use '!=' to compare, or 'not' to flip a value.");
}

#[test]
fn unclosed_string_is_reported() {
    let e = lex("out(\"abc").unwrap_err();
    assert_eq!(e.message, "You started a string with \" but never closed it.");
}

#[test]
fn char_of_two_letters_is_reported() {
    let e = lex("c = 'ab'").unwrap_err();
    assert_eq!(e.message, "A char must be exactly one character, like 'a'.");
}

#[test]
fn too_many_decimal_points_is_reported() {
    let e = lex("x = 1.2.3").unwrap_err();
    assert_eq!(e.message, "Too many decimal points in number '1.2.3'.");
}

#[test]
fn number_too_big_is_a_value_error() {
    let e = lex("x = 99999999999999999999").unwrap_err();
    assert_eq!(e.message, "'99999999999999999999' is not a valid whole number.");
    assert_eq!(e.kind, ErrorKind::ValueError);
}

#[test]
fn mismatched_dedent_is_an_indentation_error() {
    let e = lex("if x\n    a = 1\n  b = 2\n").unwrap_err();
    assert_eq!(e.message, "This line's indentation does not match any outer indented block.");
    assert_eq!(e.kind, ErrorKind::IndentationError);
    assert_eq!(e.span.line, 3);
}

#[test]
fn keywords_map_to_their_tokens() {
    assert_eq!(keyword_token("while"), Some(TokenKind::While));
    assert_eq!(keyword_token("through"), Some(TokenKind::Through));
    assert_eq!(keyword_token("false"), Some(TokenKind::False));
    assert_eq!(keyword_token("whilst"), None);
    assert!(is_print_function("out"));
    assert!(!is_print_function("print"));
}

#[test]
fn token_descriptions_read_naturally() {
    assert_eq!(describe_kind(&TokenKind::Identifier("n".to_string())), "name 'n'");
    assert_eq!(describe_kind(&TokenKind::NumberLiteral(-7)), "number -7");
    assert_eq!(describe_kind(&TokenKind::Dedent), "the end of an indented block");
    assert_eq!(describe_kind(&TokenKind::EOF), "end of file");
}

#[test]
fn only_one_eof_and_blocks_never_close_early() {
    let ks = kinds("a()\n  if b\n    out(1)\n  out(2)\nout(3)\n");
    assert_eq!(ks.iter().filter(|k| **k == TokenKind::EOF).count(), 1);
    let mut open = 0i64;
    for k in &ks {
        if *k == TokenKind::Indent {
            open += 1;
        }
        if *k == TokenKind::Dedent {
            open -= 1;
        }
        assert!(open >= 0);
    }
    assert_eq!(open, 0);
}

#[test]
fn inline_comment_adds_no_tokens() {
    assert_eq!(kinds("x = 1 // set x"), kinds("x = 1"));
    assert_eq!(kinds("out(x) // print it"), kinds("out(x)"));
}
