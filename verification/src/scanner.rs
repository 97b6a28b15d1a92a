use vstd::prelude::*;

use crate::token::{Lexeme, LexemeView, Token, TokenView};

verus! {

// ---------------------------------------------------------------------------
// Character classes
// ---------------------------------------------------------------------------

pub open spec fn spec_is_digit(c: char) -> bool {
    '0' as u32 <= c as u32 <= '9' as u32
}

pub open spec fn spec_is_whitespace(c: char) -> bool {
    c == ' ' || c == '\n' || c == '\t' || c == '\r'
}

/// The fixed structural/operator set. A character of this set never belongs
/// to an identifier; together with whitespace these are the characters that
/// terminate an identifier run.
pub open spec fn spec_is_structural(c: char) -> bool {
    ||| c == '('
    ||| c == ')'
    ||| c == '{'
    ||| c == '}'
    ||| c == '='
    ||| c == '['
    ||| c == ']'
    ||| c == '/'
    ||| c == '+'
    ||| c == '-'
    ||| c == '*'
    ||| c == ','
    ||| c == '.'
    ||| c == ';'
    ||| c == ':'
    ||| c == '>'
    ||| c == '<'
    ||| c == '|'
    ||| c == '\''
    ||| c == '"'
}

/// A character that ends a run of identifier characters: anything in the
/// structural set, or whitespace. Identifier continuation is defined
/// negatively, so every other character — digits, symbols, multi-byte
/// characters — continues an identifier.
pub open spec fn spec_is_terminator(c: char) -> bool {
    spec_is_structural(c) || spec_is_whitespace(c)
}

fn is_digit(c: char) -> (r: bool)
    ensures
        r == spec_is_digit(c),
{
    let u = c as u32;
    48 <= u && u <= 57
}

fn is_whitespace(c: char) -> (r: bool)
    ensures
        r == spec_is_whitespace(c),
{
    c == ' ' || c == '\n' || c == '\t' || c == '\r'
}

fn is_identifier_char(c: char) -> (r: bool)
    ensures
        r == spec_is_structural(c),
{
    c == '(' || c == ')' || c == '{' || c == '}' || c == '=' || c == '[' || c == ']' || c == '/'
        || c == '+' || c == '-' || c == '*' || c == ',' || c == '.' || c == ';' || c == ':'
        || c == '>' || c == '<' || c == '|' || c == '\'' || c == '"'
}

// ---------------------------------------------------------------------------
// Position bookkeeping
// ---------------------------------------------------------------------------

/// The 1-based line number of the cursor after `n` characters of `src` have
/// been consumed: one more than the number of newlines consumed so far.
pub open spec fn line_at(src: Seq<char>, n: nat) -> nat
    decreases n,
{
    if n == 0 {
        1
    } else {
        line_at(src, (n - 1) as nat) + if src[n - 1] == '\n' {
            1nat
        } else {
            0nat
        }
    }
}

/// The column of the cursor after `n` characters of `src` have been consumed:
/// the number of characters consumed since the last newline.
pub open spec fn col_at(src: Seq<char>, n: nat) -> nat
    decreases n,
{
    if n == 0 {
        0
    } else if src[n - 1] == '\n' {
        0
    } else {
        col_at(src, (n - 1) as nat) + 1
    }
}

proof fn lemma_line_col_bounds(src: Seq<char>, n: nat)
    ensures
        line_at(src, n) <= n + 1,
        col_at(src, n) <= n,
    decreases n,
{
    if n > 0 {
        lemma_line_col_bounds(src, (n - 1) as nat);
    }
}

/// Line numbers never go backwards as the cursor moves forward.
pub proof fn lemma_line_at_monotone(src: Seq<char>, a: nat, b: nat)
    requires
        a <= b,
    ensures
        line_at(src, a) <= line_at(src, b),
    decreases b,
{
    if a < b {
        lemma_line_at_monotone(src, a, (b - 1) as nat);
    }
}

// ---------------------------------------------------------------------------
// The scanning model
// ---------------------------------------------------------------------------

/// The end of the whitespace run that starts at `i`: the least position at or
/// after `i` holding a non-whitespace character, or the end of the source.
pub open spec fn ws_end(src: Seq<char>, i: nat) -> nat
    decreases src.len() - i,
{
    if i >= src.len() {
        i
    } else if spec_is_whitespace(src[i as int]) {
        ws_end(src, i + 1)
    } else {
        i
    }
}

/// The least position at or after `i` holding exactly the character `c`, or
/// `src.len()` if no such position exists.
pub open spec fn find_char(src: Seq<char>, i: nat, c: char) -> nat
    decreases src.len() - i,
{
    if i >= src.len() {
        src.len()
    } else if src[i as int] == c {
        i
    } else {
        find_char(src, i + 1, c)
    }
}

/// The least position at or after `i` where a block comment closer `*/`
/// starts, or `src.len()` if the source ends first.
pub open spec fn find_close(src: Seq<char>, i: nat) -> nat
    decreases src.len() - i,
{
    if i + 1 >= src.len() {
        src.len()
    } else if src[i as int] == '*' && src[i + 1 as int] == '/' {
        i
    } else {
        find_close(src, i + 1)
    }
}

/// The end of the maximal digit run that starts at `i`.
pub open spec fn digits_end(src: Seq<char>, i: nat) -> nat
    decreases src.len() - i,
{
    if i >= src.len() || !spec_is_digit(src[i as int]) {
        i
    } else {
        digits_end(src, i + 1)
    }
}

/// The end of a number literal whose first digit stands just before `i`: the
/// maximal digit run from `i`, extended across a `.` only when a further
/// digit follows it, so that `12.` leaves the dot unconsumed.
pub open spec fn number_end(src: Seq<char>, i: nat) -> nat {
    let d = digits_end(src, i);
    if d + 1 < src.len() && src[d as int] == '.' && spec_is_digit(src[d + 1 as int]) {
        digits_end(src, d + 2)
    } else {
        d
    }
}

/// The end of the identifier run whose first character stands just before
/// `i`: the least position at or after `i` holding a terminating character,
/// or the end of the source.
pub open spec fn ident_end(src: Seq<char>, i: nat) -> nat
    decreases src.len() - i,
{
    if i >= src.len() || spec_is_terminator(src[i as int]) {
        i
    } else {
        ident_end(src, i + 1)
    }
}

/// The keyword kind a complete identifier word denotes, or `Identifier` if
/// it is none of the thirteen keywords.
pub open spec fn keyword_lexeme(w: Seq<char>) -> LexemeView {
    if w == "and"@ {
        LexemeView::And
    } else if w == "defer"@ {
        LexemeView::Defer
    } else if w == "else"@ {
        LexemeView::Else
    } else if w == "false"@ {
        LexemeView::False
    } else if w == "for"@ {
        LexemeView::For
    } else if w == "fun"@ {
        LexemeView::Function
    } else if w == "if"@ {
        LexemeView::If
    } else if w == "or"@ {
        LexemeView::Or
    } else if w == "return"@ {
        LexemeView::Return
    } else if w == "struct"@ {
        LexemeView::Struct
    } else if w == "true"@ {
        LexemeView::True
    } else if w == "var"@ {
        LexemeView::Var
    } else if w == "while"@ {
        LexemeView::While
    } else {
        LexemeView::Identifier
    }
}

/// The kind and end position of one token, before position bookkeeping.
pub struct ScanStep {
    pub kind: LexemeView,
    pub end: nat,
}

/// A two-character operator probe: the `double` kind when `=` follows the
/// character at `s`, else the `single` kind.
pub open spec fn op2(src: Seq<char>, s: nat, single: LexemeView, double: LexemeView) -> ScanStep {
    if s + 1 < src.len() && src[s + 1 as int] == '=' {
        ScanStep { kind: double, end: s + 2 }
    } else {
        ScanStep { kind: single, end: s + 1 }
    }
}

/// Classifies the token starting at the non-whitespace position `s` and gives
/// the position just past it. This is the heart of the scanner: one-character
/// tokens, two-character operator probes, the comment forms behind `/`,
/// string and number literals, and the identifier/keyword fallthrough.
pub open spec fn scan_step(src: Seq<char>, s: nat) -> ScanStep
    recommends
        s < src.len(),
{
    let c = src[s as int];
    if c == '(' {
        ScanStep { kind: LexemeView::LeftParens, end: s + 1 }
    } else if c == ')' {
        ScanStep { kind: LexemeView::RightParens, end: s + 1 }
    } else if c == '{' {
        ScanStep { kind: LexemeView::LeftBrace, end: s + 1 }
    } else if c == '}' {
        ScanStep { kind: LexemeView::RightBrace, end: s + 1 }
    } else if c == ';' {
        ScanStep { kind: LexemeView::SemiColon, end: s + 1 }
    } else if c == ',' {
        ScanStep { kind: LexemeView::Comma, end: s + 1 }
    } else if c == '.' {
        ScanStep { kind: LexemeView::Dot, end: s + 1 }
    } else if c == '+' {
        op2(src, s, LexemeView::Plus, LexemeView::PlusEqual)
    } else if c == '-' {
        op2(src, s, LexemeView::Minus, LexemeView::MinusEqual)
    } else if c == '*' {
        op2(src, s, LexemeView::Star, LexemeView::StarEqual)
    } else if c == '!' {
        op2(src, s, LexemeView::Bang, LexemeView::BangEqual)
    } else if c == '=' {
        op2(src, s, LexemeView::Assignment, LexemeView::Equality)
    } else if c == '>' {
        op2(src, s, LexemeView::Greater, LexemeView::GreaterEqual)
    } else if c == '<' {
        op2(src, s, LexemeView::Less, LexemeView::LessEqual)
    } else if c == '/' {
        if s + 1 < src.len() && src[s + 1 as int] == '=' {
            ScanStep { kind: LexemeView::SlashEqual, end: s + 2 }
        } else if s + 1 < src.len() && src[s + 1 as int] == '/' {
            let f = find_char(src, s + 2, '\n');
            ScanStep {
                kind: LexemeView::Comment,
                end: if f == src.len() {
                    src.len()
                } else {
                    f + 1
                },
            }
        } else if s + 1 < src.len() && src[s + 1 as int] == '*' {
            let j = find_close(src, s + 2);
            if j == src.len() {
                ScanStep { kind: LexemeView::Error("Unterminated comment"@), end: src.len() }
            } else {
                ScanStep { kind: LexemeView::Comment, end: j + 2 }
            }
        } else {
            ScanStep { kind: LexemeView::Slash, end: s + 1 }
        }
    } else if c == '"' || c == '\'' {
        let f = find_char(src, s + 1, c);
        if f == src.len() {
            ScanStep { kind: LexemeView::Error("Unterminated string"@), end: src.len() }
        } else {
            ScanStep { kind: LexemeView::String, end: f + 1 }
        }
    } else if spec_is_digit(c) {
        ScanStep { kind: LexemeView::Number, end: number_end(src, s + 1) }
    } else {
        let e = ident_end(src, s + 1);
        ScanStep { kind: keyword_lexeme(src.subrange(s as int, e as int)), end: e }
    }
}

/// The token a scanner at position `pos` produces: whitespace is skipped
/// first, then one lexeme is classified, or `Eof` when the source is
/// exhausted. The span excludes the skipped whitespace; `line` and `col`
/// describe the cursor just after the token.
pub open spec fn spec_advance(src: Seq<char>, pos: nat) -> TokenView
    recommends
        pos <= src.len(),
{
    let s = ws_end(src, pos);
    if s >= src.len() {
        TokenView {
            variant: LexemeView::Eof,
            idx: s,
            len: 0,
            line: line_at(src, s),
            col: col_at(src, s),
        }
    } else {
        let st = scan_step(src, s);
        TokenView {
            variant: st.kind,
            idx: s,
            len: (st.end - s) as nat,
            line: line_at(src, st.end),
            col: col_at(src, st.end),
        }
    }
}

// ---------------------------------------------------------------------------
// Bounds of the scanning model
// ---------------------------------------------------------------------------

proof fn lemma_ws_end_bounds(src: Seq<char>, i: nat)
    requires
        i <= src.len(),
    ensures
        i <= ws_end(src, i) <= src.len(),
    decreases src.len() - i,
{
    if i < src.len() && spec_is_whitespace(src[i as int]) {
        lemma_ws_end_bounds(src, i + 1);
    }
}

proof fn lemma_find_char_bounds(src: Seq<char>, i: nat, c: char)
    requires
        i <= src.len(),
    ensures
        i <= find_char(src, i, c) <= src.len(),
    decreases src.len() - i,
{
    if i < src.len() && src[i as int] != c {
        lemma_find_char_bounds(src, i + 1, c);
    }
}

proof fn lemma_find_close_bounds(src: Seq<char>, i: nat)
    requires
        i <= src.len(),
    ensures
        i <= find_close(src, i),
        find_close(src, i) == src.len() || find_close(src, i) + 2 <= src.len(),
    decreases src.len() - i,
{
    if i + 1 < src.len() && !(src[i as int] == '*' && src[i + 1 as int] == '/') {
        lemma_find_close_bounds(src, i + 1);
    }
}

proof fn lemma_digits_end_bounds(src: Seq<char>, i: nat)
    requires
        i <= src.len(),
    ensures
        i <= digits_end(src, i) <= src.len(),
    decreases src.len() - i,
{
    if i < src.len() && spec_is_digit(src[i as int]) {
        lemma_digits_end_bounds(src, i + 1);
    }
}

proof fn lemma_number_end_bounds(src: Seq<char>, i: nat)
    requires
        i <= src.len(),
    ensures
        i <= number_end(src, i) <= src.len(),
{
    lemma_digits_end_bounds(src, i);
    let d = digits_end(src, i);
    if d + 1 < src.len() && src[d as int] == '.' && spec_is_digit(src[d + 1 as int]) {
        lemma_digits_end_bounds(src, d + 2);
    }
}

proof fn lemma_ident_end_bounds(src: Seq<char>, i: nat)
    requires
        i <= src.len(),
    ensures
        i <= ident_end(src, i) <= src.len(),
    decreases src.len() - i,
{
    if i < src.len() && !spec_is_terminator(src[i as int]) {
        lemma_ident_end_bounds(src, i + 1);
    }
}

/// Every token stays within the source, and every token other than `Eof`
/// consumes at least the character it started at: repeated scanning makes
/// progress and reaches the end of the source.
pub proof fn lemma_advance_progress(src: Seq<char>, pos: nat)
    requires
        pos <= src.len(),
    ensures
        pos <= spec_advance(src, pos).idx,
        spec_advance(src, pos).idx + spec_advance(src, pos).len <= src.len(),
        spec_advance(src, pos).variant != LexemeView::Eof ==> spec_advance(src, pos).idx
            + spec_advance(src, pos).len > pos,
        spec_advance(src, pos).variant == LexemeView::Eof ==> spec_advance(src, pos).idx
            + spec_advance(src, pos).len == src.len(),
{
    lemma_ws_end_bounds(src, pos);
    let s = ws_end(src, pos);
    if s < src.len() {
        let c = src[s as int];
        lemma_find_char_bounds(src, s + 1, c);
        lemma_number_end_bounds(src, s + 1);
        lemma_ident_end_bounds(src, s + 1);
        if s + 2 <= src.len() {
            lemma_find_char_bounds(src, s + 2, '\n');
            lemma_find_close_bounds(src, s + 2);
        }
    }
}

// ---------------------------------------------------------------------------
// The token stream
// ---------------------------------------------------------------------------

/// The whole stream a scanner at position `pos` produces when called until
/// `Eof`: every token in order, the final `Eof` token included.
pub open spec fn token_stream(src: Seq<char>, pos: nat) -> Seq<TokenView>
    decreases src.len() - pos,
        when pos <= src.len()
        via token_stream_decreases
{
    let t = spec_advance(src, pos);
    if t.variant == LexemeView::Eof {
        seq![t]
    } else {
        seq![t] + token_stream(src, (t.idx + t.len) as nat)
    }
}

#[via_fn]
proof fn token_stream_decreases(src: Seq<char>, pos: nat) {
    lemma_advance_progress(src, pos);
}

// ---------------------------------------------------------------------------
// Laws of the scanning model
// ---------------------------------------------------------------------------

proof fn lemma_ws_end_all_whitespace(src: Seq<char>, i: nat)
    requires
        i <= src.len(),
        forall|k: int| 0 <= k < src.len() ==> spec_is_whitespace(src[k]),
    ensures
        ws_end(src, i) == src.len(),
    decreases src.len() - i,
{
    if i < src.len() {
        lemma_ws_end_all_whitespace(src, i + 1);
    }
}

/// An input consisting solely of skippable whitespace produces the token
/// stream `[Eof]` and nothing else.
pub proof fn lemma_whitespace_only_stream(src: Seq<char>)
    requires
        forall|k: int| 0 <= k < src.len() ==> spec_is_whitespace(src[k]),
    ensures
        token_stream(src, 0).len() == 1,
        token_stream(src, 0)[0].variant == LexemeView::Eof,
{
    lemma_ws_end_all_whitespace(src, 0);
}

/// Once `Eof` has been produced the cursor stands at the end of the source,
/// and every further call produces the very same `Eof` token again.
pub proof fn lemma_eof_idempotent(src: Seq<char>, pos: nat)
    requires
        pos <= src.len(),
        spec_advance(src, pos).variant == LexemeView::Eof,
    ensures
        spec_advance(src, pos).idx + spec_advance(src, pos).len == src.len(),
        spec_advance(src, src.len()) == spec_advance(src, pos),
{
    lemma_ws_end_bounds(src, pos);
}

/// A single character outside the ASCII range — and so outside the
/// structural set, which is all ASCII — is classified as one `Identifier`
/// token spanning the whole input, never as an error.
pub proof fn lemma_single_multibyte_identifier(src: Seq<char>)
    requires
        src.len() == 1,
        src[0] as u32 >= 128,
    ensures
        spec_advance(src, 0).variant == LexemeView::Identifier,
        spec_advance(src, 0).idx == 0,
        spec_advance(src, 0).len == 1,
{
    reveal_strlit("and");
    reveal_strlit("defer");
    reveal_strlit("else");
    reveal_strlit("false");
    reveal_strlit("for");
    reveal_strlit("fun");
    reveal_strlit("if");
    reveal_strlit("or");
    reveal_strlit("return");
    reveal_strlit("struct");
    reveal_strlit("true");
    reveal_strlit("var");
    reveal_strlit("while");
    assert(ws_end(src, 0) == 0);
    assert(ident_end(src, 1) == 1);
    assert(src.subrange(0, 1).len() == 1);
}

// ---------------------------------------------------------------------------
// The scanner
// ---------------------------------------------------------------------------

/// The mathematical abstraction of a `Scanner`: the decoded source, the
/// cursor position in characters, the line/column bookkeeping, and the
/// offset at which the token in progress began.
pub struct ScannerView {
    pub src: Seq<char>,
    pub pos: nat,
    pub line: nat,
    pub col: nat,
    pub start: nat,
}

/// A stateful cursor over an immutable source text, producing one classified
/// token per call to `advance`. The source is decoded into characters once,
/// at construction, so that multi-byte input is handled one character at a
/// time.
pub struct Scanner {
    source: Vec<char>,
    curr_idx: usize,
    curr_col: usize,
    curr_line: usize,
    start_idx: usize,
}

impl View for Scanner {
    type V = ScannerView;

    closed spec fn view(&self) -> ScannerView {
        ScannerView {
            src: self.source@,
            pos: self.curr_idx as nat,
            line: self.curr_line as nat,
            col: self.curr_col as nat,
            start: self.start_idx as nat,
        }
    }
}

impl Scanner {
    /// Well-formedness: the cursor stays within the source and the line and
    /// column counters agree with the position.
    pub open spec fn wf(&self) -> bool {
        &&& self@.src.len() < usize::MAX
        &&& self@.pos <= self@.src.len()
        &&& self@.start <= self@.pos
        &&& self@.line == line_at(self@.src, self@.pos)
        &&& self@.col == col_at(self@.src, self@.pos)
    }

    /// Binds a fresh scanner to a source text, with the cursor at the start.
    /// The length bound keeps the position counters from ever overflowing.
    pub fn new(source: &str) -> (s: Scanner)
        requires
            source@.len() < usize::MAX,
        ensures
            s.wf(),
            s@.src == source@,
            s@.pos == 0,
            s@.start == 0,
    {
        let n = source.unicode_len();
        let mut chars: Vec<char> = Vec::new();
        let mut i: usize = 0;
        while i < n
            invariant
                i <= n,
                n == source@.len(),
                chars@ == source@.take(i as int),
            decreases n - i,
        {
            chars.push(source.get_char(i));
            proof {
                assert(chars@ =~= source@.take(i + 1));
            }
            i = i + 1;
        }
        proof {
            assert(chars@ =~= source@);
        }
        Scanner { source: chars, curr_col: 0, curr_idx: 0, curr_line: 1, start_idx: 0 }
    }

    /// Whether the cursor has consumed the whole source.
    fn end(&self) -> (r: bool)
        ensures
            r == (self@.pos == self@.src.len()),
    {
        self.curr_idx == self.source.len()
    }

    /// Returns and consumes the next character, or nothing at end-of-input.
    /// All line/column bookkeeping happens here, so no call site can forget
    /// it: a newline bumps the line and resets the column.
    fn next(&mut self) -> (r: Option<char>)
        requires
            old(self).wf(),
        ensures
            final(self).wf(),
            final(self)@.src == old(self)@.src,
            final(self)@.start == old(self)@.start,
            old(self)@.pos < old(self)@.src.len() ==> {
                &&& r == Some(old(self)@.src[old(self)@.pos as int])
                &&& final(self)@.pos == old(self)@.pos + 1
            },
            old(self)@.pos == old(self)@.src.len() ==> {
                &&& r is None
                &&& final(self)@ == old(self)@
            },
    {
        if self.curr_idx < self.source.len() {
            let c = self.source[self.curr_idx];
            proof {
                lemma_line_col_bounds(self@.src, self@.pos);
            }
            self.curr_idx = self.curr_idx + 1;
            if c == '\n' {
                self.curr_line = self.curr_line + 1;
                self.curr_col = 0;
            } else {
                self.curr_col = self.curr_col + 1;
            }
            Some(c)
        } else {
            None
        }
    }

    /// Consumes the next character and reports true only if it equals
    /// `expected`; otherwise leaves the cursor untouched.
    fn match_next(&mut self, expected: char) -> (r: bool)
        requires
            old(self).wf(),
        ensures
            final(self).wf(),
            final(self)@.src == old(self)@.src,
            final(self)@.start == old(self)@.start,
            r == (old(self)@.pos < old(self)@.src.len() && old(self)@.src[old(self)@.pos as int]
                == expected),
            r ==> final(self)@.pos == old(self)@.pos + 1,
            !r ==> final(self)@ == old(self)@,
    {
        if self.curr_idx < self.source.len() && self.source[self.curr_idx] == expected {
            self.next();
            true
        } else {
            false
        }
    }

    /// Wraps a lexical kind into a token spanning from the recorded token
    /// start to the cursor, stamped with the current line and column.
    fn make_token(&self, variant: Lexeme) -> (t: Token)
        requires
            self.wf(),
        ensures
            t@ == (TokenView {
                variant: variant@,
                idx: self@.start,
                len: (self@.pos - self@.start) as nat,
                line: self@.line,
                col: self@.col,
            }),
    {
        Token {
            variant,
            idx: self.start_idx,
            col: self.curr_col,
            line: self.curr_line,
            len: self.curr_idx - self.start_idx,
        }
    }

    /// Consumes space, tab, carriage-return and newline characters silently,
    /// stopping at the first character that is none of these.
    fn skip_whitespace(&mut self)
        requires
            old(self).wf(),
        ensures
            final(self).wf(),
            final(self)@.src == old(self)@.src,
            final(self)@.start == old(self)@.start,
            final(self)@.pos == ws_end(old(self)@.src, old(self)@.pos),
    {
        while self.curr_idx < self.source.len() && is_whitespace(self.source[self.curr_idx])
            invariant
                self.wf(),
                self@.src == old(self)@.src,
                self@.start == old(self)@.start,
                ws_end(self@.src, old(self)@.pos) == ws_end(self@.src, self@.pos),
            decreases self@.src.len() - self@.pos,
        {
            self.next();
        }
    }

    /// Consumes characters until one equal to `c` has been consumed, or the
    /// source is exhausted.
    fn find_next(&mut self, c: char)
        requires
            old(self).wf(),
        ensures
            final(self).wf(),
            final(self)@.src == old(self)@.src,
            final(self)@.start == old(self)@.start,
            final(self)@.pos == ({
                let f = find_char(old(self)@.src, old(self)@.pos, c);
                if f == old(self)@.src.len() {
                    old(self)@.src.len()
                } else {
                    f + 1
                }
            }),
    {
        while self.curr_idx < self.source.len() && self.source[self.curr_idx] != c
            invariant
                self.wf(),
                self@.src == old(self)@.src,
                self@.start == old(self)@.start,
                find_char(self@.src, old(self)@.pos, c) == find_char(self@.src, self@.pos, c),
            decreases self@.src.len() - self@.pos,
        {
            self.next();
        }
        self.next();
    }

    /// Scans the rest of a string literal whose opening delimiter, the
    /// character `expected`, has just been consumed. Characters are consumed
    /// verbatim, with no escape processing, until the matching delimiter;
    /// if the source ends first the literal is unterminated and an error
    /// lexeme is produced instead.
    fn match_string(&mut self, expected: char) -> (l: Lexeme)
        requires
            old(self).wf(),
        ensures
            final(self).wf(),
            final(self)@.src == old(self)@.src,
            final(self)@.start == old(self)@.start,
            ({
                let f = find_char(old(self)@.src, old(self)@.pos, expected);
                if f == old(self)@.src.len() {
                    &&& final(self)@.pos == old(self)@.src.len()
                    &&& l@ == LexemeView::Error("Unterminated string"@)
                } else {
                    &&& final(self)@.pos == f + 1
                    &&& l@ == LexemeView::String
                }
            }),
    {
        while self.curr_idx < self.source.len() && self.source[self.curr_idx] != expected
            invariant
                self.wf(),
                self@.src == old(self)@.src,
                self@.start == old(self)@.start,
                find_char(self@.src, old(self)@.pos, expected) == find_char(
                    self@.src,
                    self@.pos,
                    expected,
                ),
            decreases self@.src.len() - self@.pos,
        {
            self.next();
        }

        if self.end() {
            return Lexeme::Error("Unterminated string".to_owned());
        }

        // the closing delimiter
        self.next();
        Lexeme::String
    }

    /// Scans the rest of a number literal whose first digit has just been
    /// consumed: a maximal digit run, extended across a `.` only when a
    /// digit follows it, so that `12.` leaves the dot for its own token.
    fn match_number(&mut self) -> (l: Lexeme)
        requires
            old(self).wf(),
        ensures
            final(self).wf(),
            final(self)@.src == old(self)@.src,
            final(self)@.start == old(self)@.start,
            final(self)@.pos == number_end(old(self)@.src, old(self)@.pos),
            l@ == LexemeView::Number,
    {
        while self.curr_idx < self.source.len() && is_digit(self.source[self.curr_idx])
            invariant
                self.wf(),
                self@.src == old(self)@.src,
                self@.start == old(self)@.start,
                digits_end(self@.src, old(self)@.pos) == digits_end(self@.src, self@.pos),
            decreases self@.src.len() - self@.pos,
        {
            self.next();
        }

        // one lookahead: a fractional part only when a digit follows the dot
        if self.curr_idx + 1 < self.source.len() && self.source[self.curr_idx] == '.' && is_digit(
            self.source[self.curr_idx + 1],
        ) {
            self.next();
            self.next();

            while self.curr_idx < self.source.len() && is_digit(self.source[self.curr_idx])
                invariant
                    self.wf(),
                    self@.src == old(self)@.src,
                    self@.start == old(self)@.start,
                    number_end(self@.src, old(self)@.pos) == digits_end(self@.src, self@.pos),
                decreases self@.src.len() - self@.pos,
            {
                self.next();
            }
        }

        Lexeme::Number
    }

    /// Scans the rest of a block comment whose opening `/*` has just been
    /// consumed, searching for the closing `*/`. End-of-input is an explicit
    /// exit: an unterminated comment yields an error lexeme with everything
    /// consumed, rather than a scan that never returns.
    fn match_comment(&mut self) -> (l: Lexeme)
        requires
            old(self).wf(),
        ensures
            final(self).wf(),
            final(self)@.src == old(self)@.src,
            final(self)@.start == old(self)@.start,
            ({
                let j = find_close(old(self)@.src, old(self)@.pos);
                if j == old(self)@.src.len() {
                    &&& final(self)@.pos == old(self)@.src.len()
                    &&& l@ == LexemeView::Error("Unterminated comment"@)
                } else {
                    &&& final(self)@.pos == j + 2
                    &&& l@ == LexemeView::Comment
                }
            }),
    {
        while self.curr_idx + 1 < self.source.len() && !(self.source[self.curr_idx] == '*'
            && self.source[self.curr_idx + 1] == '/')
            invariant
                self.wf(),
                self@.src == old(self)@.src,
                self@.start == old(self)@.start,
                find_close(self@.src, old(self)@.pos) == find_close(self@.src, self@.pos),
            decreases self@.src.len() - self@.pos,
        {
            self.next();
        }

        if self.curr_idx + 1 < self.source.len() {
            // the closing `*/`
            self.next();
            self.next();
            Lexeme::Comment
        } else {
            // at most one character is left, and it cannot open a closer
            self.next();
            Lexeme::Error("Unterminated comment".to_owned())
        }
    }

    /// Consumes the rest of an identifier run: every character up to the
    /// first structural or whitespace character, or end-of-input.
    fn skip_identifier(&mut self)
        requires
            old(self).wf(),
        ensures
            final(self).wf(),
            final(self)@.src == old(self)@.src,
            final(self)@.start == old(self)@.start,
            final(self)@.pos == ident_end(old(self)@.src, old(self)@.pos),
    {
        while self.curr_idx < self.source.len() && !is_identifier_char(self.source[self.curr_idx])
            && !is_whitespace(self.source[self.curr_idx])
            invariant
                self.wf(),
                self@.src == old(self)@.src,
                self@.start == old(self)@.start,
                ident_end(self@.src, old(self)@.pos) == ident_end(self@.src, self@.pos),
            decreases self@.src.len() - self@.pos,
        {
            self.next();
        }
    }

    /// Whether the characters of the span `[from, to)` spell exactly the
    /// word `keyword`.
    fn check_keyword(&self, from: usize, to: usize, keyword: &str) -> (r: bool)
        requires
            self.wf(),
            from <= to <= self@.src.len(),
        ensures
            r == (self@.src.subrange(from as int, to as int) == keyword@),
    {
        let klen = keyword.unicode_len();
        if to - from != klen {
            return false;
        }
        let mut i: usize = 0;
        while i < klen
            invariant
                self.wf(),
                i <= klen,
                klen == keyword@.len(),
                from + klen == to <= self@.src.len(),
                forall|j: int| 0 <= j < i ==> self@.src[from + j] == keyword@[j],
            decreases klen - i,
        {
            if self.source[from + i] != keyword.get_char(i) {
                return false;
            }
            i = i + 1;
        }
        proof {
            assert(self@.src.subrange(from as int, to as int) =~= keyword@);
        }
        true
    }

    /// Classifies the identifier whose first character has just been
    /// consumed: the whole run is consumed, and it is a keyword kind exactly
    /// when the complete word matches a keyword — `fortune` is one
    /// identifier, never `for` and a remainder.
    fn match_identifier(&mut self) -> (l: Lexeme)
        requires
            old(self).wf(),
            old(self)@.start < old(self)@.pos,
        ensures
            final(self).wf(),
            final(self)@.src == old(self)@.src,
            final(self)@.start == old(self)@.start,
            final(self)@.pos == ident_end(old(self)@.src, old(self)@.pos),
            l@ == keyword_lexeme(
                old(self)@.src.subrange(
                    old(self)@.start as int,
                    ident_end(old(self)@.src, old(self)@.pos) as int,
                ),
            ),
    {
        self.skip_identifier();
        let from = self.start_idx;
        let to = self.curr_idx;
        if self.check_keyword(from, to, "and") {
            Lexeme::And
        } else if self.check_keyword(from, to, "defer") {
            Lexeme::Defer
        } else if self.check_keyword(from, to, "else") {
            Lexeme::Else
        } else if self.check_keyword(from, to, "false") {
            Lexeme::False
        } else if self.check_keyword(from, to, "for") {
            Lexeme::For
        } else if self.check_keyword(from, to, "fun") {
            Lexeme::Function
        } else if self.check_keyword(from, to, "if") {
            Lexeme::If
        } else if self.check_keyword(from, to, "or") {
            Lexeme::Or
        } else if self.check_keyword(from, to, "return") {
            Lexeme::Return
        } else if self.check_keyword(from, to, "struct") {
            Lexeme::Struct
        } else if self.check_keyword(from, to, "true") {
            Lexeme::True
        } else if self.check_keyword(from, to, "var") {
            Lexeme::Var
        } else if self.check_keyword(from, to, "while") {
            Lexeme::While
        } else {
            Lexeme::Identifier
        }
    }

    /// Produces the next token: skips whitespace, records the token start,
    /// classifies exactly one lexeme, and stamps it with its span. Once the
    /// source is exhausted every further call yields `Eof` at the same
    /// position.
    pub fn advance(&mut self) -> (t: Token)
        requires
            old(self).wf(),
        ensures
            final(self).wf(),
            final(self)@.src == old(self)@.src,
            t@ == spec_advance(old(self)@.src, old(self)@.pos),
            final(self)@.start == t@.idx,
            final(self)@.pos == t@.idx + t@.len,
            old(self)@.pos <= t@.idx,
            t@.idx + t@.len <= old(self)@.src.len(),
            old(self)@.line <= t@.line,
    {
        proof {
            lemma_advance_progress(old(self)@.src, old(self)@.pos);
            let t_spec = spec_advance(old(self)@.src, old(self)@.pos);
            lemma_line_at_monotone(old(self)@.src, old(self)@.pos, t_spec.idx + t_spec.len);
        }
        self.skip_whitespace();
        self.start_idx = self.curr_idx;

        let variant = match self.next() {
            None => Lexeme::Eof,
            Some(c) => match c {
                '(' => Lexeme::LeftParens,
                ')' => Lexeme::RightParens,
                '{' => Lexeme::LeftBrace,
                '}' => Lexeme::RightBrace,
                ';' => Lexeme::SemiColon,
                ',' => Lexeme::Comma,
                '.' => Lexeme::Dot,
                '+' => if self.match_next('=') {
                    Lexeme::PlusEqual
                } else {
                    Lexeme::Plus
                },
                '-' => if self.match_next('=') {
                    Lexeme::MinusEqual
                } else {
                    Lexeme::Minus
                },
                '*' => if self.match_next('=') {
                    Lexeme::StarEqual
                } else {
                    Lexeme::Star
                },
                '!' => if self.match_next('=') {
                    Lexeme::BangEqual
                } else {
                    Lexeme::Bang
                },
                '=' => if self.match_next('=') {
                    Lexeme::Equality
                } else {
                    Lexeme::Assignment
                },
                '>' => if self.match_next('=') {
                    Lexeme::GreaterEqual
                } else {
                    Lexeme::Greater
                },
                '<' => if self.match_next('=') {
                    Lexeme::LessEqual
                } else {
                    Lexeme::Less
                },
                '/' => if self.match_next('=') {
                    Lexeme::SlashEqual
                } else if self.match_next('/') {
                    self.find_next('\n');
                    Lexeme::Comment
                } else if self.match_next('*') {
                    self.match_comment()
                } else {
                    Lexeme::Slash
                },
                '"' | '\'' => self.match_string(c),
                _ => if is_digit(c) {
                    self.match_number()
                } else {
                    self.match_identifier()
                },
            },
        };

        self.make_token(variant)
    }

    /// Gathers the whole token stream: `advance` is called repeatedly and
    /// every token collected, up to and including the first `Eof`. Afterwards
    /// the cursor stands at the end of the source.
    pub fn collect_all(&mut self) -> (ts: Vec<Token>)
        requires
            old(self).wf(),
        ensures
            final(self).wf(),
            final(self)@.src == old(self)@.src,
            final(self)@.pos == old(self)@.src.len(),
            ts@.len() == token_stream(old(self)@.src, old(self)@.pos).len(),
            forall|i: int|
                0 <= i < ts@.len() ==> ts@[i]@ == token_stream(old(self)@.src, old(self)@.pos)[i],
    {
        let ghost src = old(self)@.src;
        let ghost pos0 = old(self)@.pos;
        let ghost mut produced: Seq<TokenView> = Seq::empty();
        let mut out: Vec<Token> = Vec::new();
        let mut done = false;

        while !done
            invariant
                self.wf(),
                self@.src == src,
                produced.len() == out@.len(),
                forall|i: int| 0 <= i < out@.len() ==> out@[i]@ == produced[i],
                !done ==> pos0 <= self@.pos && token_stream(src, pos0) == produced + token_stream(
                    src,
                    self@.pos,
                ),
                done ==> token_stream(src, pos0) == produced && self@.pos == src.len(),
            decreases src.len() - self@.pos + if done {
                0int
            } else {
                1int
            },
        {
            let ghost pos_before = self@.pos;
            let t = self.advance();
            proof {
                lemma_advance_progress(src, pos_before);
                if t@.variant == LexemeView::Eof {
                    assert(token_stream(src, pos_before) =~= seq![t@]);
                    assert(produced + seq![t@] =~= token_stream(src, pos0));
                } else {
                    assert(token_stream(src, pos_before) =~= seq![t@] + token_stream(
                        src,
                        self@.pos,
                    ));
                    assert((produced + seq![t@]) + token_stream(src, self@.pos) =~= produced
                        + token_stream(src, pos_before));
                }
                produced = produced + seq![t@];
            }
            if matches!(t.variant, Lexeme::Eof) {
                done = true;
            }
            out.push(t);
        }

        proof {
            assert(produced =~= token_stream(src, pos0));
        }
        out
    }
}

} // verus!
