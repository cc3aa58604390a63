use crate::lexical::{
    byte_at, count_newlines, digits_end, eof_token, find_end, is_blank, is_digit, lemma_run_end,
    lemma_step_advances, punctuation_kind, scan_from, scan_spec, step, step_tokens, ByteClass,
    ErrorView, ScanError, DOT, NEWLINE, QUOTE, SLASH,
};
use crate::scanner::{result_view, scan_outcome};
use crate::token::{Token, TokenView};
use crate::token_type::TokenType;
use vstd::prelude::*;

verus! {

/// Whether `src[i..]` holds only blanks, newlines and line comments.
pub open spec fn trivia_from(src: Seq<u8>, i: int) -> bool
    decreases src.len() - i,
    via trivia_from_decreases
{
    if i < 0 || i >= src.len() {
        true
    } else if is_blank(src[i]) || src[i] == NEWLINE {
        trivia_from(src, i + 1)
    } else if src[i] == SLASH && byte_at(src, i + 1) == SLASH {
        trivia_from(src, find_end(src, i + 2, NEWLINE))
    } else {
        false
    }
}

#[via_fn]
proof fn trivia_from_decreases(src: Seq<u8>, i: int) {
    if 0 <= i < src.len() && src[i] == SLASH && byte_at(src, i + 1) == SLASH {
        lemma_run_end(src, i + 2, ByteClass::AllBut(NEWLINE));
    }
}

proof fn lemma_trivia_from(src: Seq<u8>, pos: int, line: nat)
    requires
        0 <= pos,
        trivia_from(src, pos),
    ensures
        scan_from(src, pos, line).tokens.len() == 1,
        scan_from(src, pos, line).tokens[0].kind == TokenType::EOF,
        scan_from(src, pos, line).errors.len() == 0,
    decreases src.len() - pos,
{
    if pos < src.len() {
        lemma_step_advances(src, pos, line);
        if src[pos] == SLASH && byte_at(src, pos + 1) == SLASH {
            lemma_run_end(src, pos + 2, ByteClass::AllBut(NEWLINE));
        }
        let s = step(src, pos, line);
        lemma_trivia_from(src, s.end, s.line);
    }
}

/// A source of nothing but whitespace and line comments scans, without
/// error, to the end-of-input token alone.
pub proof fn lemma_trivia_scans_to_end_only(src: Seq<u8>)
    requires
        trivia_from(src, 0),
    ensures
        scan_outcome(src) is Ok,
        scan_outcome(src)->Ok_0.len() == 1,
        scan_outcome(src)->Ok_0[0].kind == TokenType::EOF,
{
    lemma_trivia_from(src, 0, 1);
}

/// A single punctuation byte scans to its own token, whose lexeme is that
/// byte, followed by the end-of-input token.
pub proof fn lemma_single_punctuation(c: u8)
    requires
        punctuation_kind(c) is Some,
    ensures
        scan_outcome(seq![c]) == Ok::<Seq<TokenView>, Seq<ErrorView>>(
            seq![
                TokenView { kind: punctuation_kind(c)->0, lexeme: seq![c], literal: None, line: 1 },
                TokenView { kind: TokenType::EOF, lexeme: Seq::empty(), literal: None, line: 1 },
            ],
        ),
{
    let src = seq![c];
    assert(src.subrange(0, 1) =~= seq![c]);
    let rest = scan_from(src, 1, 1);
    assert(scan_from(src, 0, 1).tokens =~= seq![
        TokenView { kind: punctuation_kind(c)->0, lexeme: seq![c], literal: None, line: 1 },
    ] + rest.tokens);
    assert(scan_from(src, 0, 1).errors =~= Seq::<ErrorView>::empty());
    assert(scan_from(src, 0, 1).tokens =~= seq![
        TokenView { kind: punctuation_kind(c)->0, lexeme: seq![c], literal: None, line: 1 },
        TokenView { kind: TokenType::EOF, lexeme: Seq::empty(), literal: None, line: 1 },
    ]);
}

/// Two scans of the same source, each with a scanner of its own, give
/// equal results.
pub proof fn lemma_scan_repeatable(
    src: Seq<u8>,
    first: Result<Vec<Token>, Vec<ScanError>>,
    second: Result<Vec<Token>, Vec<ScanError>>,
)
    requires
        result_view(first) == scan_outcome(src),
        result_view(second) == scan_outcome(src),
    ensures
        result_view(first) == result_view(second),
{
}

proof fn lemma_count_split(s: Seq<u8>, a: int, b: int, c: int)
    requires
        0 <= a <= b <= c <= s.len(),
    ensures
        count_newlines(s.subrange(a, c)) == count_newlines(s.subrange(a, b)) + count_newlines(
            s.subrange(b, c),
        ),
    decreases c - b,
{
    if b < c {
        lemma_count_split(s, a, b, c - 1);
        assert(s.subrange(a, c).drop_last() =~= s.subrange(a, c - 1));
        assert(s.subrange(b, c).drop_last() =~= s.subrange(b, c - 1));
    } else {
        assert(s.subrange(b, c) =~= Seq::<u8>::empty());
    }
}

proof fn lemma_count_none(s: Seq<u8>, a: int, b: int)
    requires
        0 <= a <= b <= s.len(),
        forall|j: int| a <= j < b ==> s[j] != NEWLINE,
    ensures
        count_newlines(s.subrange(a, b)) == 0,
    decreases b - a,
{
    if a < b {
        lemma_count_none(s, a, b - 1);
        assert(s.subrange(a, b).drop_last() =~= s.subrange(a, b - 1));
    }
}

/// The line reached after a lexeme is the line it started on plus the
/// newlines it holds; and a lexeme that yields a token is never empty and
/// never yields the end-of-input kind.
proof fn lemma_step_shape(src: Seq<u8>, pos: int, line: nat)
    requires
        0 <= pos < src.len(),
    ensures
        step(src, pos, line).line == line + count_newlines(
            src.subrange(pos, step(src, pos, line).end),
        ),
        forall|i: int|
            0 <= i < step_tokens(src, pos, line).len() ==> {
                &&& (#[trigger] step_tokens(src, pos, line)[i]).kind != TokenType::EOF
                &&& step_tokens(src, pos, line)[i].lexeme.len() > 0
            },
{
    let s = step(src, pos, line);
    let c = src[pos];
    let next = pos + 1;
    lemma_step_advances(src, pos, line);
    lemma_count_split(src, pos, next, s.end);
    assert(src.subrange(pos, next).drop_last() =~= Seq::<u8>::empty());
    assert(src.subrange(pos, next).last() == c);
    assert(count_newlines(Seq::<u8>::empty()) == 0);
    assert(src.subrange(next, next) =~= Seq::<u8>::empty());
    if c == QUOTE {
        let close = find_end(src, next, QUOTE);
        lemma_run_end(src, next, ByteClass::AllBut(QUOTE));
        lemma_count_split(src, next, close, s.end);
        if close < src.len() {
            assert(src.subrange(close, close + 1).drop_last() =~= Seq::<u8>::empty());
        } else {
            assert(src.subrange(close, s.end) =~= Seq::<u8>::empty());
        }
    } else if c == SLASH && byte_at(src, next) == SLASH {
        lemma_run_end(src, next + 1, ByteClass::AllBut(NEWLINE));
        lemma_count_none(src, next, s.end);
    } else if c != NEWLINE {
        lemma_run_end(src, next, ByteClass::Digit);
        lemma_run_end(src, next, ByteClass::Alnum);
        let w = digits_end(src, next);
        if byte_at(src, w) == DOT && is_digit(byte_at(src, w + 1)) {
            lemma_run_end(src, w + 1, ByteClass::Digit);
        }
        lemma_count_none(src, next, s.end);
    }
}

proof fn lemma_scan_from_shape(src: Seq<u8>, pos: int, line: nat)
    requires
        0 <= pos <= src.len(),
    ensures
        scan_from(src, pos, line).tokens.len() >= 1,
        scan_from(src, pos, line).tokens.last() == eof_token(
            line + count_newlines(src.subrange(pos, src.len() as int)),
        ),
        forall|i: int|
            0 <= i < scan_from(src, pos, line).tokens.len() - 1 ==> {
                &&& (#[trigger] scan_from(src, pos, line).tokens[i]).kind != TokenType::EOF
                &&& scan_from(src, pos, line).tokens[i].lexeme.len() > 0
            },
    decreases src.len() - pos,
{
    if pos == src.len() {
        assert(src.subrange(pos, pos) =~= Seq::<u8>::empty());
    } else {
        let s = step(src, pos, line);
        lemma_step_advances(src, pos, line);
        lemma_step_shape(src, pos, line);
        lemma_scan_from_shape(src, s.end, s.line);
        lemma_count_split(src, pos, s.end, src.len() as int);
        let head = step_tokens(src, pos, line);
        let rest = scan_from(src, s.end, s.line).tokens;
        assert forall|i: int| 0 <= i < head.len() + rest.len() - 1 implies {
            &&& (#[trigger] (head + rest)[i]).kind != TokenType::EOF
            &&& (head + rest)[i].lexeme.len() > 0
        } by {
            if i >= head.len() {
                assert((head + rest)[i] == rest[i - head.len()]);
            }
        }
    }
}

/// The tokens of any source end with exactly one end-of-input token, whose
/// lexeme is empty and whose line is one more than the number of newlines
/// in the source; every token before it has a non-empty lexeme.
pub proof fn lemma_scan_shape(src: Seq<u8>)
    ensures
        scan_spec(src).tokens.len() >= 1,
        scan_spec(src).tokens.last() == eof_token(1 + count_newlines(src)),
        forall|i: int|
            0 <= i < scan_spec(src).tokens.len() - 1 ==> {
                &&& (#[trigger] scan_spec(src).tokens[i]).kind != TokenType::EOF
                &&& scan_spec(src).tokens[i].lexeme.len() > 0
            },
{
    lemma_scan_from_shape(src, 0, 1);
    assert(src.subrange(0, src.len() as int) =~= src);
}

} // verus!
