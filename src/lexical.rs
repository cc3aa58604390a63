use crate::token::{LiteralView, TokenView};
use crate::token_type::TokenType;
use vstd::prelude::*;

verus! {

// The bytes that the scanner dispatches on.
pub const BANG: u8 = 33;
pub const CARRIAGE_RETURN: u8 = 13;
pub const COMMA: u8 = 44;
pub const DOT: u8 = 46;
pub const EQUAL: u8 = 61;
pub const GREATER: u8 = 62;
pub const LEFT_BRACE: u8 = 123;
pub const LEFT_PAREN: u8 = 40;
pub const LESS: u8 = 60;
pub const MINUS: u8 = 45;
pub const NEWLINE: u8 = 10;
pub const PLUS: u8 = 43;
pub const QUOTE: u8 = 34;
pub const RIGHT_BRACE: u8 = 125;
pub const RIGHT_PAREN: u8 = 41;
pub const SEMICOLON: u8 = 59;
pub const SLASH: u8 = 47;
pub const SPACE: u8 = 32;
pub const STAR: u8 = 42;
pub const TAB: u8 = 9;

/// What went wrong while scanning one lexeme.
#[derive(Clone, Copy, Debug, PartialEq, Eq, Structural)]
pub enum ScanErrorKind {
    /// A byte outside the recognised symbol set.
    UnexpectedCharacter,
    /// End of input inside a string literal.
    UnterminatedString,
    /// A number literal that a consumer could not convert to a machine float.
    MalformedNumber,
}

/// A scan error, keyed by the 1-based line it was found on.
#[derive(Clone, Copy, Debug, PartialEq, Eq, Structural)]
pub struct ScanError {
    pub kind: ScanErrorKind,
    pub line: usize,
}

/// Mathematical form of a [`ScanError`].
pub struct ErrorView {
    pub kind: ScanErrorKind,
    pub line: nat,
}

impl View for ScanError {
    type V = ErrorView;

    open spec fn view(&self) -> ErrorView {
        ErrorView { kind: self.kind, line: self.line as nat }
    }
}

pub open spec fn is_digit(b: u8) -> bool {
    48 <= b <= 57
}

pub open spec fn is_alpha(b: u8) -> bool {
    (97 <= b <= 122) || (65 <= b <= 90)
}

pub open spec fn is_alnum(b: u8) -> bool {
    is_digit(b) || is_alpha(b)
}

/// The byte at `i`, or NUL outside the source.
pub open spec fn byte_at(src: Seq<u8>, i: int) -> u8 {
    if 0 <= i < src.len() {
        src[i]
    } else {
        0
    }
}

/// A set of bytes that a run of the source may consist of.
pub enum ByteClass {
    /// Every byte but this one.
    AllBut(u8),
    Digit,
    Alnum,
}

pub open spec fn in_class(b: u8, class: ByteClass) -> bool {
    match class {
        ByteClass::AllBut(stop) => b != stop,
        ByteClass::Digit => is_digit(b),
        ByteClass::Alnum => is_alnum(b),
    }
}

/// The end of the longest run of bytes of `class` that starts at `i`.
pub open spec fn run_end(src: Seq<u8>, i: int, class: ByteClass) -> int
    decreases src.len() - i,
{
    if 0 <= i < src.len() && in_class(src[i], class) {
        run_end(src, i + 1, class)
    } else {
        i
    }
}

/// The first position at or after `i` that holds `stop`, or the end of input.
pub open spec fn find_end(src: Seq<u8>, i: int, stop: u8) -> int {
    run_end(src, i, ByteClass::AllBut(stop))
}

pub open spec fn digits_end(src: Seq<u8>, i: int) -> int {
    run_end(src, i, ByteClass::Digit)
}

pub open spec fn alnum_end(src: Seq<u8>, i: int) -> int {
    run_end(src, i, ByteClass::Alnum)
}

/// Number of newline bytes in `s`.
pub open spec fn count_newlines(s: Seq<u8>) -> nat
    decreases s.len(),
{
    if s.len() == 0 {
        0
    } else {
        count_newlines(s.drop_last()) + if s.last() == NEWLINE {
            1nat
        } else {
            0nat
        }
    }
}

/// The kind of a byte that always forms a token on its own.
pub open spec fn punctuation_kind(c: u8) -> Option<TokenType> {
    if c == LEFT_PAREN {
        Some(TokenType::LeftParen)
    } else if c == RIGHT_PAREN {
        Some(TokenType::RightParen)
    } else if c == LEFT_BRACE {
        Some(TokenType::LeftBrace)
    } else if c == RIGHT_BRACE {
        Some(TokenType::RightBrace)
    } else if c == COMMA {
        Some(TokenType::Comma)
    } else if c == DOT {
        Some(TokenType::Dot)
    } else if c == MINUS {
        Some(TokenType::Minus)
    } else if c == PLUS {
        Some(TokenType::Plus)
    } else if c == SEMICOLON {
        Some(TokenType::Semicolon)
    } else if c == STAR {
        Some(TokenType::Star)
    } else {
        None
    }
}

/// For `!`, `=`, `<`, `>`: the kind alone and the kind when followed by `=`.
pub open spec fn operator_kinds(c: u8) -> Option<(TokenType, TokenType)> {
    if c == BANG {
        Some((TokenType::Bang, TokenType::BangEqual))
    } else if c == EQUAL {
        Some((TokenType::Equal, TokenType::EqualEqual))
    } else if c == LESS {
        Some((TokenType::Less, TokenType::LessEqual))
    } else if c == GREATER {
        Some((TokenType::Greater, TokenType::GreaterEqual))
    } else {
        None
    }
}

pub open spec fn is_blank(c: u8) -> bool {
    c == SPACE || c == CARRIAGE_RETURN || c == TAB
}

/// The kind of an identifier-shaped word: a reserved word's kind, else
/// Identifier. Each word is written as its ASCII codes; the kind names it.
pub open spec fn keyword_kind(w: Seq<u8>) -> TokenType {
    if w == seq![97u8, 110, 100] {
        TokenType::And
    } else if w == seq![99u8, 108, 97, 115, 115] {
        TokenType::Class
    } else if w == seq![101u8, 108, 115, 101] {
        TokenType::Else
    } else if w == seq![102u8, 97, 108, 115, 101] {
        TokenType::False
    } else if w == seq![102u8, 111, 114] {
        TokenType::For
    } else if w == seq![102u8, 117, 110] {
        TokenType::Fun
    } else if w == seq![105u8, 102] {
        TokenType::If
    } else if w == seq![110u8, 105, 108] {
        TokenType::Nil
    } else if w == seq![111u8, 114] {
        TokenType::Or
    } else if w == seq![112u8, 114, 105, 110, 116] {
        TokenType::Print
    } else if w == seq![114u8, 101, 116, 117, 114, 110] {
        TokenType::Return
    } else if w == seq![115u8, 117, 112, 101, 114] {
        TokenType::Super
    } else if w == seq![116u8, 104, 105, 115] {
        TokenType::This
    } else if w == seq![116u8, 114, 117, 101] {
        TokenType::True
    } else if w == seq![118u8, 97, 114] {
        TokenType::Var
    } else if w == seq![119u8, 104, 105, 108, 101] {
        TokenType::While
    } else {
        TokenType::Identifier
    }
}

/// What one lexeme amounts to.
pub enum Lexed {
    /// Whitespace, a newline or a comment.
    Skip,
    /// A token of this kind with this literal.
    Emit(TokenType, Option<LiteralView>),
    /// A scan error of this kind.
    Fail(ScanErrorKind),
}

/// The outcome of scanning the lexeme that starts at some position: where it
/// ends, the line reached at its end, and what it amounts to.
pub struct Step {
    pub end: int,
    pub line: nat,
    pub lexed: Lexed,
}

/// Scans the lexeme that starts at `start` (inside the source) on line `line`.
pub open spec fn step(src: Seq<u8>, start: int, line: nat) -> Step {
    let c = src[start];
    let next = start + 1;
    if punctuation_kind(c) is Some {
        Step { end: next, line, lexed: Lexed::Emit(punctuation_kind(c)->0, None) }
    } else if operator_kinds(c) is Some {
        let (one, two) = operator_kinds(c)->0;
        if byte_at(src, next) == EQUAL {
            Step { end: next + 1, line, lexed: Lexed::Emit(two, None) }
        } else {
            Step { end: next, line, lexed: Lexed::Emit(one, None) }
        }
    } else if c == SLASH {
        if byte_at(src, next) == SLASH {
            Step { end: find_end(src, next + 1, NEWLINE), line, lexed: Lexed::Skip }
        } else {
            Step { end: next, line, lexed: Lexed::Emit(TokenType::Slash, None) }
        }
    } else if is_blank(c) {
        Step { end: next, line, lexed: Lexed::Skip }
    } else if c == NEWLINE {
        Step { end: next, line: line + 1, lexed: Lexed::Skip }
    } else if c == QUOTE {
        let close = find_end(src, next, QUOTE);
        let last_line = line + count_newlines(src.subrange(next, close));
        if close >= src.len() {
            Step { end: close, line: last_line, lexed: Lexed::Fail(ScanErrorKind::UnterminatedString) }
        } else {
            Step {
                end: close + 1,
                line: last_line,
                lexed: Lexed::Emit(
                    TokenType::String,
                    Some(LiteralView::Text(src.subrange(next, close))),
                ),
            }
        }
    } else if is_digit(c) {
        let whole_end = digits_end(src, next);
        if byte_at(src, whole_end) == DOT && is_digit(byte_at(src, whole_end + 1)) {
            let end = digits_end(src, whole_end + 1);
            Step {
                end,
                line,
                lexed: Lexed::Emit(
                    TokenType::Number,
                    Some(
                        LiteralView::Number {
                            whole: src.subrange(start, whole_end),
                            fraction: src.subrange(whole_end + 1, end),
                        },
                    ),
                ),
            }
        } else {
            Step {
                end: whole_end,
                line,
                lexed: Lexed::Emit(
                    TokenType::Number,
                    Some(
                        LiteralView::Number {
                            whole: src.subrange(start, whole_end),
                            fraction: Seq::empty(),
                        },
                    ),
                ),
            }
        }
    } else if is_alpha(c) {
        let end = alnum_end(src, next);
        Step { end, line, lexed: Lexed::Emit(keyword_kind(src.subrange(start, end)), None) }
    } else {
        Step { end: next, line, lexed: Lexed::Fail(ScanErrorKind::UnexpectedCharacter) }
    }
}

/// The tokens (none or one) that the lexeme at `start` contributes.
pub open spec fn step_tokens(src: Seq<u8>, start: int, line: nat) -> Seq<TokenView> {
    let s = step(src, start, line);
    match s.lexed {
        Lexed::Emit(kind, literal) => seq![
            TokenView { kind, lexeme: src.subrange(start, s.end), literal, line },
        ],
        _ => Seq::empty(),
    }
}

/// The errors (none or one) that the lexeme at `start` contributes.
pub open spec fn step_errors(src: Seq<u8>, start: int, line: nat) -> Seq<ErrorView> {
    let s = step(src, start, line);
    match s.lexed {
        Lexed::Fail(kind) => seq![ErrorView { kind, line: s.line }],
        _ => Seq::empty(),
    }
}

/// The end-of-input token on line `line`.
pub open spec fn eof_token(line: nat) -> TokenView {
    TokenView { kind: TokenType::EOF, lexeme: Seq::empty(), literal: None, line }
}

/// Everything that scanning produces: the tokens and the errors, each in order.
pub struct Scanned {
    pub tokens: Seq<TokenView>,
    pub errors: Seq<ErrorView>,
}

/// Scans from position `pos` on line `line` to the end of input, resuming
/// after each error at the next unconsumed byte.
pub open spec fn scan_from(src: Seq<u8>, pos: int, line: nat) -> Scanned
    decreases src.len() - pos,
    via scan_from_decreases
{
    if pos < 0 || pos >= src.len() {
        Scanned { tokens: seq![eof_token(line)], errors: Seq::empty() }
    } else {
        let s = step(src, pos, line);
        let rest = scan_from(src, s.end, s.line);
        Scanned {
            tokens: step_tokens(src, pos, line) + rest.tokens,
            errors: step_errors(src, pos, line) + rest.errors,
        }
    }
}

#[via_fn]
proof fn scan_from_decreases(src: Seq<u8>, pos: int, line: nat) {
    if !(pos < 0 || pos >= src.len()) {
        lemma_step_advances(src, pos, line);
    }
}

/// What a whole source scans to.
pub open spec fn scan_spec(src: Seq<u8>) -> Scanned {
    scan_from(src, 0, 1)
}

/// A run ends where its class is first left, or at the end of input.
pub proof fn lemma_run_end(src: Seq<u8>, i: int, class: ByteClass)
    requires
        0 <= i <= src.len(),
    ensures
        i <= run_end(src, i, class) <= src.len(),
        forall|j: int| i <= j < run_end(src, i, class) ==> in_class(#[trigger] src[j], class),
        run_end(src, i, class) < src.len() ==> !in_class(src[run_end(src, i, class)], class),
    decreases src.len() - i,
{
    if i < src.len() && in_class(src[i], class) {
        lemma_run_end(src, i + 1, class);
    }
}

pub proof fn lemma_step_advances(src: Seq<u8>, start: int, line: nat)
    requires
        0 <= start < src.len(),
    ensures
        start < step(src, start, line).end <= src.len(),
        step(src, start, line).line >= line,
{
    let next = start + 1;
    lemma_run_end(src, next, ByteClass::AllBut(NEWLINE));
    lemma_run_end(src, next, ByteClass::AllBut(QUOTE));
    lemma_run_end(src, next, ByteClass::Digit);
    lemma_run_end(src, next, ByteClass::Alnum);
    if next < src.len() {
        lemma_run_end(src, next + 1, ByteClass::AllBut(NEWLINE));
    }
    let w = digits_end(src, next);
    if byte_at(src, w) == DOT && is_digit(byte_at(src, w + 1)) {
        lemma_run_end(src, w + 1, ByteClass::Digit);
    }
}

} // verus!
