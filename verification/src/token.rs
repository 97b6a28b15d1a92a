use vstd::prelude::*;

verus! {

/// The lexical category of a scanned token.
///
/// Single- and double-character operators each get their own variant; the
/// thirteen keywords are closed variants; `Error` carries a diagnostic
/// message for a malformed literal; `Eof` is the sentinel terminal kind.
#[derive(Clone, Debug, PartialEq)]
pub enum Lexeme {
    Eof,
    // single character tokens
    LeftParens,
    RightParens,
    LeftBrace,
    RightBrace,
    Comma,
    Dot,
    SemiColon,
    // one or two character tokens
    Minus,
    MinusEqual,
    Plus,
    PlusEqual,
    Slash,
    SlashEqual,
    Star,
    StarEqual,
    Bang,
    BangEqual,
    Assignment,
    Equality,
    Greater,
    GreaterEqual,
    Less,
    LessEqual,
    // literals
    Identifier,
    String,
    Number,
    // keywords
    And,
    Defer,
    Else,
    False,
    For,
    Function,
    If,
    Or,
    Return,
    Struct,
    True,
    Var,
    While,
    // misc
    Error(std::string::String),
    Comment,
}

/// The mathematical abstraction of a `Lexeme`: identical variants, with the
/// diagnostic message of `Error` abstracted to its character sequence.
pub enum LexemeView {
    Eof,
    LeftParens,
    RightParens,
    LeftBrace,
    RightBrace,
    Comma,
    Dot,
    SemiColon,
    Minus,
    MinusEqual,
    Plus,
    PlusEqual,
    Slash,
    SlashEqual,
    Star,
    StarEqual,
    Bang,
    BangEqual,
    Assignment,
    Equality,
    Greater,
    GreaterEqual,
    Less,
    LessEqual,
    Identifier,
    String,
    Number,
    And,
    Defer,
    Else,
    False,
    For,
    Function,
    If,
    Or,
    Return,
    Struct,
    True,
    Var,
    While,
    Error(Seq<char>),
    Comment,
}

impl View for Lexeme {
    type V = LexemeView;

    open spec fn view(&self) -> LexemeView {
        match self {
            Lexeme::Eof => LexemeView::Eof,
            Lexeme::LeftParens => LexemeView::LeftParens,
            Lexeme::RightParens => LexemeView::RightParens,
            Lexeme::LeftBrace => LexemeView::LeftBrace,
            Lexeme::RightBrace => LexemeView::RightBrace,
            Lexeme::Comma => LexemeView::Comma,
            Lexeme::Dot => LexemeView::Dot,
            Lexeme::SemiColon => LexemeView::SemiColon,
            Lexeme::Minus => LexemeView::Minus,
            Lexeme::MinusEqual => LexemeView::MinusEqual,
            Lexeme::Plus => LexemeView::Plus,
            Lexeme::PlusEqual => LexemeView::PlusEqual,
            Lexeme::Slash => LexemeView::Slash,
            Lexeme::SlashEqual => LexemeView::SlashEqual,
            Lexeme::Star => LexemeView::Star,
            Lexeme::StarEqual => LexemeView::StarEqual,
            Lexeme::Bang => LexemeView::Bang,
            Lexeme::BangEqual => LexemeView::BangEqual,
            Lexeme::Assignment => LexemeView::Assignment,
            Lexeme::Equality => LexemeView::Equality,
            Lexeme::Greater => LexemeView::Greater,
            Lexeme::GreaterEqual => LexemeView::GreaterEqual,
            Lexeme::Less => LexemeView::Less,
            Lexeme::LessEqual => LexemeView::LessEqual,
            Lexeme::Identifier => LexemeView::Identifier,
            Lexeme::String => LexemeView::String,
            Lexeme::Number => LexemeView::Number,
            Lexeme::And => LexemeView::And,
            Lexeme::Defer => LexemeView::Defer,
            Lexeme::Else => LexemeView::Else,
            Lexeme::False => LexemeView::False,
            Lexeme::For => LexemeView::For,
            Lexeme::Function => LexemeView::Function,
            Lexeme::If => LexemeView::If,
            Lexeme::Or => LexemeView::Or,
            Lexeme::Return => LexemeView::Return,
            Lexeme::Struct => LexemeView::Struct,
            Lexeme::True => LexemeView::True,
            Lexeme::Var => LexemeView::Var,
            Lexeme::While => LexemeView::While,
            Lexeme::Error(m) => LexemeView::Error(m@),
            Lexeme::Comment => LexemeView::Comment,
        }
    }
}

/// One classified token: a `Lexeme` together with its source span.
///
/// `idx` is the character offset at which the token begins (leading skipped
/// whitespace is not part of the span), `len` its length in characters, and
/// `line`/`col` the position of the cursor just after the token was consumed,
/// with `line` 1-based and `col` counting characters since the last newline.
#[derive(Clone, Debug)]
pub struct Token {
    pub variant: Lexeme,
    // character offset into the source at which the token starts
    pub idx: usize,
    pub col: usize,
    pub line: usize,
    pub len: usize,
}

/// The mathematical abstraction of a `Token`.
pub struct TokenView {
    pub variant: LexemeView,
    pub idx: nat,
    pub col: nat,
    pub line: nat,
    pub len: nat,
}

impl View for Token {
    type V = TokenView;

    open spec fn view(&self) -> TokenView {
        TokenView {
            variant: self.variant@,
            idx: self.idx as nat,
            col: self.col as nat,
            line: self.line as nat,
            len: self.len as nat,
        }
    }
}

} // verus!
