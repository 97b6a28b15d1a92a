use roc_lexer::scanner::Scanner;
use roc_lexer::token::{Lexeme, Token};

fn lex(input: &str) -> Vec<Token> {
    let mut scanner = Scanner::new(input);
    scanner.collect_all()
}

#[test]
fn test_line_comment_span() {
    let tokens = lex("// line comment\n123");
    assert_eq!(tokens.len(), 3);
    assert_eq!(tokens[0].variant, Lexeme::Comment);
    // the span includes the terminating newline
    assert_eq!(tokens[0].idx, 0);
    assert_eq!(tokens[0].len, 16);
    assert_eq!(tokens[0].line, 2);
    assert_eq!(tokens[0].col, 0);
    assert_eq!(tokens[1].variant, Lexeme::Number);
    assert_eq!(tokens[1].idx, 16);
    assert_eq!(tokens[1].len, 3);
    assert_eq!(tokens[1].line, 2);
    assert_eq!(tokens[1].col, 3);
    assert_eq!(tokens[2].variant, Lexeme::Eof);
}

#[test]
fn test_line_comment_at_end_of_input() {
    let tokens = lex("// no newline");
    assert_eq!(tokens.len(), 2);
    assert_eq!(tokens[0].variant, Lexeme::Comment);
    assert_eq!(tokens[0].idx, 0);
    assert_eq!(tokens[0].len, 13);
    assert_eq!(tokens[1].variant, Lexeme::Eof);
}

#[test]
fn test_block_comment() {
    let tokens = lex("/* a\nb */ 1234 fun");
    assert_eq!(tokens.len(), 4);
    assert_eq!(tokens[0].variant, Lexeme::Comment);
    assert_eq!(tokens[0].idx, 0);
    assert_eq!(tokens[0].len, 9);
    assert_eq!(tokens[1].variant, Lexeme::Number);
    assert_eq!(tokens[1].idx, 10);
    assert_eq!(tokens[1].len, 4);
    assert_eq!(tokens[2].variant, Lexeme::Function);
    assert_eq!(tokens[2].idx, 15);
    assert_eq!(tokens[2].len, 3);
    assert_eq!(tokens[3].variant, Lexeme::Eof);
}

#[test]
fn test_block_comment_not_nested() {
    // the first `*/` closes the comment, whatever `/*` stood in between
    let tokens = lex("/* /* */ x");
    assert_eq!(tokens.len(), 3);
    assert_eq!(tokens[0].variant, Lexeme::Comment);
    assert_eq!(tokens[0].len, 8);
    assert_eq!(tokens[1].variant, Lexeme::Identifier);
    assert_eq!(tokens[2].variant, Lexeme::Eof);
}

#[test]
fn test_unterminated_comment() {
    let tokens = lex("/* abc");
    assert_eq!(tokens.len(), 2);
    assert_eq!(
        tokens[0].variant,
        Lexeme::Error("Unterminated comment".to_string())
    );
    // the span covers everything consumed
    assert_eq!(tokens[0].idx, 0);
    assert_eq!(tokens[0].len, 6);
    assert_eq!(tokens[1].variant, Lexeme::Eof);
}

#[test]
fn test_unterminated_string() {
    let tokens = lex("\"abc");
    assert_eq!(tokens.len(), 2);
    assert_eq!(
        tokens[0].variant,
        Lexeme::Error("Unterminated string".to_string())
    );
    assert_eq!(tokens[0].idx, 0);
    assert_eq!(tokens[0].len, 4);
    assert_eq!(tokens[1].variant, Lexeme::Eof);
}

#[test]
fn test_string_literals() {
    let tokens = lex("'abc' \"d\"");
    assert_eq!(tokens.len(), 3);
    assert_eq!(tokens[0].variant, Lexeme::String);
    assert_eq!(tokens[0].idx, 0);
    assert_eq!(tokens[0].len, 5);
    assert_eq!(tokens[1].variant, Lexeme::String);
    assert_eq!(tokens[1].idx, 6);
    assert_eq!(tokens[1].len, 3);
    assert_eq!(tokens[2].variant, Lexeme::Eof);
}

#[test]
fn test_string_with_newline_inside() {
    let tokens = lex("\"a\nb\" x");
    assert_eq!(tokens[0].variant, Lexeme::String);
    assert_eq!(tokens[0].len, 5);
    assert_eq!(tokens[0].line, 2);
    assert_eq!(tokens[1].variant, Lexeme::Identifier);
    assert_eq!(tokens[1].line, 2);
    assert_eq!(tokens[2].variant, Lexeme::Eof);
}

#[test]
fn test_number_lookahead() {
    let tokens = lex("12.");
    assert_eq!(tokens.len(), 3);
    assert_eq!(tokens[0].variant, Lexeme::Number);
    assert_eq!(tokens[0].len, 2);
    assert_eq!(tokens[1].variant, Lexeme::Dot);
    assert_eq!(tokens[2].variant, Lexeme::Eof);

    let tokens = lex("12.5");
    assert_eq!(tokens.len(), 2);
    assert_eq!(tokens[0].variant, Lexeme::Number);
    assert_eq!(tokens[0].len, 4);
    assert_eq!(tokens[1].variant, Lexeme::Eof);
}

#[test]
fn test_number_then_method_like_dot() {
    let tokens = lex("12.x");
    assert_eq!(tokens[0].variant, Lexeme::Number);
    assert_eq!(tokens[0].len, 2);
    assert_eq!(tokens[1].variant, Lexeme::Dot);
    assert_eq!(tokens[2].variant, Lexeme::Identifier);
    assert_eq!(tokens[3].variant, Lexeme::Eof);
}

#[test]
fn test_keyword_boundary() {
    // a keyword prefix continuing into a longer word is one identifier
    let tokens = lex("fortune");
    assert_eq!(tokens.len(), 2);
    assert_eq!(tokens[0].variant, Lexeme::Identifier);
    assert_eq!(tokens[0].idx, 0);
    assert_eq!(tokens[0].len, 7);
    assert_eq!(tokens[1].variant, Lexeme::Eof);
}

#[test]
fn test_keyword_prefix_words() {
    let tokens = lex("iffy andy truex whiler structs");
    for i in 0..5 {
        assert_eq!(tokens[i].variant, Lexeme::Identifier);
    }
    assert_eq!(tokens[5].variant, Lexeme::Eof);
}

#[test]
fn test_keywords_spaced() {
    let tokens = lex("and defer else false for fun if or return struct true var while");
    let expected = vec![
        Lexeme::And,
        Lexeme::Defer,
        Lexeme::Else,
        Lexeme::False,
        Lexeme::For,
        Lexeme::Function,
        Lexeme::If,
        Lexeme::Or,
        Lexeme::Return,
        Lexeme::Struct,
        Lexeme::True,
        Lexeme::Var,
        Lexeme::While,
        Lexeme::Eof,
    ];
    assert_eq!(tokens.len(), expected.len());
    for (i, kind) in expected.into_iter().enumerate() {
        assert_eq!(tokens[i].variant, kind);
    }
}

#[test]
fn test_keyword_at_end_of_input() {
    let tokens = lex("return");
    assert_eq!(tokens.len(), 2);
    assert_eq!(tokens[0].variant, Lexeme::Return);
    assert_eq!(tokens[0].len, 6);
    assert_eq!(tokens[1].variant, Lexeme::Eof);
}

#[test]
fn test_eof_idempotent() {
    let mut scanner = Scanner::new("x ");
    let first = scanner.advance();
    assert_eq!(first.variant, Lexeme::Identifier);
    let eof = scanner.advance();
    assert_eq!(eof.variant, Lexeme::Eof);
    for _ in 0..3 {
        let again = scanner.advance();
        assert_eq!(again.variant, Lexeme::Eof);
        assert_eq!(again.idx, eof.idx);
        assert_eq!(again.len, eof.len);
        assert_eq!(again.line, eof.line);
        assert_eq!(again.col, eof.col);
    }
}

#[test]
fn test_multibyte_identifiers() {
    let tokens = lex("π = 3.14");
    assert_eq!(tokens[0].variant, Lexeme::Identifier);
    assert_eq!(tokens[0].idx, 0);
    assert_eq!(tokens[0].len, 1);
    assert_eq!(tokens[1].variant, Lexeme::Assignment);
    assert_eq!(tokens[2].variant, Lexeme::Number);
    assert_eq!(tokens[2].len, 4);
    assert_eq!(tokens[3].variant, Lexeme::Eof);
}

#[test]
fn test_structural_char_without_token_kind() {
    // `:` is in the structural set but has no token kind of its own: alone it
    // comes out as a one-character identifier, and since only the characters
    // after the first are tested for termination, `:abc` is one identifier
    let tokens = lex(": :: :abc");
    assert_eq!(tokens[0].variant, Lexeme::Identifier);
    assert_eq!(tokens[0].len, 1);
    assert_eq!(tokens[1].variant, Lexeme::Identifier);
    assert_eq!(tokens[1].len, 1);
    assert_eq!(tokens[2].variant, Lexeme::Identifier);
    assert_eq!(tokens[2].len, 1);
    assert_eq!(tokens[3].variant, Lexeme::Identifier);
    assert_eq!(tokens[3].len, 4);
    assert_eq!(tokens[4].variant, Lexeme::Eof);
}

#[test]
fn test_line_and_column_tracking() {
    let tokens = lex("var\nx");
    assert_eq!(tokens[0].variant, Lexeme::Var);
    assert_eq!(tokens[0].line, 1);
    assert_eq!(tokens[0].col, 3);
    assert_eq!(tokens[1].variant, Lexeme::Identifier);
    assert_eq!(tokens[1].line, 2);
    assert_eq!(tokens[1].col, 1);
    assert_eq!(tokens[2].variant, Lexeme::Eof);
}
