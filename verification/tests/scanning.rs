use roc_lexer::scanner::Scanner;
use roc_lexer::token::{Lexeme, Token};

fn lex(input: &str) -> Vec<Token> {
    let mut scanner = Scanner::new(input);
    let mut tokens = vec![];
    loop {
        let token = scanner.advance();
        tokens.push(token.clone());
        match tokens[tokens.len() - 1].variant {
            Lexeme::Eof => break,
            _ => continue,
        }
    }
    tokens
}

#[test]
fn test_scanner() {
    let input = "
() // single line comment
/*
multi line \
comment
 */ 1234
";

    let mut scanner = Scanner::new(input);
    let tokens = scanner.collect_all();
    for token in tokens {
        println!("{:?}", token);
    }
}

#[test]
fn test_scanner_random() {
    let input = "
() // single line comment
/*
multi line \
comment
 */ 1234 fun
    ";

    let mut test = vec![];
    let mut scanner = Scanner::new(input);

    loop {
        let token = scanner.advance();
        test.push(token.clone());

        match token.variant {
            Lexeme::Eof => break,
            _ => continue,
        }
    }

    let compare = vec![
        Lexeme::LeftParens,
        Lexeme::RightParens,
        Lexeme::Comment,
        Lexeme::Comment,
        Lexeme::Number,
        Lexeme::Function,
        Lexeme::Eof,
    ];

    for (t1, t2) in compare.into_iter().zip(test) {
        assert!(t1 == t2.variant);
    }
}

#[test]
fn test_scanner_keywords() {
    let input = "
            and
            defer
            else
            false
            for
            fun
            if
            or
            return
            struct
            true
            var
            while
    ";

    let mut test = vec![];
    let mut scanner = Scanner::new(input);

    loop {
        let token = scanner.advance();
        test.push(token.clone());

        match token.variant {
            Lexeme::Eof => break,
            _ => continue,
        }
    }

    let compare = vec![
        Lexeme::And,
        Lexeme::Defer,
        Lexeme::Else,
        Lexeme::False,
        Lexeme::For,
        Lexeme::Function,
        Lexeme::If,
        Lexeme::Or,
        Lexeme::Return,
        Lexeme::Struct,
        Lexeme::True,
        Lexeme::Var,
        Lexeme::While,
        Lexeme::Eof,
    ];

    for (t1, t2) in compare.into_iter().zip(test) {
        assert!(t1 == t2.variant);
    }
}

#[test]
fn test_unicode() {
    let input = "😄";
    let mut test = vec![];
    let mut scanner = Scanner::new(input);

    loop {
        let token = scanner.advance();
        test.push(token.clone());

        match token.variant {
            Lexeme::Eof => break,
            _ => continue,
        }
    }

    let compare = vec![Lexeme::Identifier, Lexeme::Eof];

    for (t1, t2) in compare.into_iter().zip(test) {
        assert!(t1 == t2.variant);
    }
}

#[test]
fn test_whitespace_only() {
    let tokens = lex(" \t\r\n   ");
    assert_eq!(tokens.len(), 1);
    assert_eq!(tokens[0].variant, Lexeme::Eof);
    assert_eq!(tokens[0].len, 0);
}

#[test]
fn test_empty_input() {
    let tokens = lex("");
    assert_eq!(tokens.len(), 1);
    assert_eq!(tokens[0].variant, Lexeme::Eof);
    assert_eq!(tokens[0].idx, 0);
    assert_eq!(tokens[0].len, 0);
    assert_eq!(tokens[0].line, 1);
}

#[test]
fn test_parens() {
    let tokens = lex("()");
    assert_eq!(tokens.len(), 3);
    assert_eq!(tokens[0].variant, Lexeme::LeftParens);
    assert_eq!(tokens[1].variant, Lexeme::RightParens);
    assert_eq!(tokens[2].variant, Lexeme::Eof);
}

#[test]
fn test_single_char_tokens() {
    let tokens = lex("(){};,.");
    let expected = vec![
        Lexeme::LeftParens,
        Lexeme::RightParens,
        Lexeme::LeftBrace,
        Lexeme::RightBrace,
        Lexeme::SemiColon,
        Lexeme::Comma,
        Lexeme::Dot,
        Lexeme::Eof,
    ];
    for (i, kind) in expected.into_iter().enumerate() {
        assert_eq!(tokens[i].variant, kind);
    }
}

#[test]
fn test_two_char_operators() {
    let tokens = lex("+= -= *= /= == != >= <= + - * / = ! > <");
    let expected = vec![
        Lexeme::PlusEqual,
        Lexeme::MinusEqual,
        Lexeme::StarEqual,
        Lexeme::SlashEqual,
        Lexeme::Equality,
        Lexeme::BangEqual,
        Lexeme::GreaterEqual,
        Lexeme::LessEqual,
        Lexeme::Plus,
        Lexeme::Minus,
        Lexeme::Star,
        Lexeme::Slash,
        Lexeme::Assignment,
        Lexeme::Bang,
        Lexeme::Greater,
        Lexeme::Less,
        Lexeme::Eof,
    ];
    assert_eq!(tokens.len(), expected.len());
    for (i, kind) in expected.into_iter().enumerate() {
        assert_eq!(tokens[i].variant, kind);
    }
}

#[test]
fn test_collect_all_matches_advance() {
    let input = "var x = 12; // set up\nwhile (x > 0) { x -= 1; }";
    let mut one = Scanner::new(input);
    let collected = one.collect_all();
    let stepped = lex(input);
    assert_eq!(collected.len(), stepped.len());
    for (a, b) in collected.iter().zip(stepped.iter()) {
        assert_eq!(a.variant, b.variant);
        assert_eq!(a.idx, b.idx);
        assert_eq!(a.len, b.len);
        assert_eq!(a.line, b.line);
        assert_eq!(a.col, b.col);
    }
}
