use crate::lexical::{
    alnum_end, byte_at, count_newlines, digits_end, find_end, is_alnum, is_alpha,
    is_digit, keyword_kind, lemma_run_end, lemma_step_advances, operator_kinds, punctuation_kind,
    scan_from, scan_spec, step, step_errors, step_tokens, ByteClass, ErrorView, ScanError,
    ScanErrorKind, BANG, CARRIAGE_RETURN, COMMA, DOT, EQUAL, GREATER, LEFT_BRACE, LEFT_PAREN,
    LESS, MINUS, NEWLINE, PLUS, QUOTE, RIGHT_BRACE, RIGHT_PAREN, SEMICOLON, SLASH, SPACE, STAR,
    TAB,
};
use crate::token::{literal_view, Decimal, Literal, Token, TokenView};
use crate::token_type::TokenType;
use vstd::prelude::*;
use vstd::utf8::encode_utf8;

verus! {

/// The mathematical form of a token sequence.
pub open spec fn tokens_view(ts: Seq<Token>) -> Seq<TokenView> {
    ts.map_values(|t: Token| t@)
}

/// The mathematical form of an error sequence.
pub open spec fn errors_view(es: Seq<ScanError>) -> Seq<ErrorView> {
    es.map_values(|e: ScanError| e@)
}

/// Scans one source text into tokens. The source is held as bytes; `start`
/// and `current` delimit the lexeme being scanned and `line` is the 1-based
/// line that `current` stands on.
#[derive(Debug, PartialEq)]
pub struct Scanner {
    source: Vec<u8>,
    tokens: Vec<Token>,
    start: usize,
    current: usize,
    line: usize,
}

fn is_digit_byte(b: u8) -> (r: bool)
    ensures
        r == is_digit(b),
{
    48 <= b && b <= 57
}

fn is_alpha_byte(b: u8) -> (r: bool)
    ensures
        r == is_alpha(b),
{
    (97 <= b && b <= 122) || (65 <= b && b <= 90)
}

fn is_alnum_byte(b: u8) -> (r: bool)
    ensures
        r == is_alnum(b),
{
    is_digit_byte(b) || is_alpha_byte(b)
}

fn punctuation(c: u8) -> (r: Option<TokenType>)
    ensures
        r == punctuation_kind(c),
{
    if c == LEFT_PAREN {
        Some(TokenType::LeftParen)
    } else if c == RIGHT_PAREN {
        Some(TokenType::RightParen)
    } else if c == LEFT_BRACE {
        Some(TokenType::LeftBrace)
    } else if c == RIGHT_BRACE {
        Some(TokenType::RightBrace)
    } else if c == COMMA {
        Some(TokenType::Comma)
    } else if c == DOT {
        Some(TokenType::Dot)
    } else if c == MINUS {
        Some(TokenType::Minus)
    } else if c == PLUS {
        Some(TokenType::Plus)
    } else if c == SEMICOLON {
        Some(TokenType::Semicolon)
    } else if c == STAR {
        Some(TokenType::Star)
    } else {
        None
    }
}

fn operator(c: u8) -> (r: Option<(TokenType, TokenType)>)
    ensures
        r == operator_kinds(c),
{
    if c == BANG {
        Some((TokenType::Bang, TokenType::BangEqual))
    } else if c == EQUAL {
        Some((TokenType::Equal, TokenType::EqualEqual))
    } else if c == LESS {
        Some((TokenType::Less, TokenType::LessEqual))
    } else if c == GREATER {
        Some((TokenType::Greater, TokenType::GreaterEqual))
    } else {
        None
    }
}

/// Whether `text` is exactly `word`.
fn is_word(text: &Vec<u8>, word: &[u8]) -> (r: bool)
    ensures
        r == (text@ == word@),
{
    if text.len() != word.len() {
        return false;
    }
    let mut i: usize = 0;
    while i < text.len()
        invariant
            text@.len() == word@.len(),
            i <= text@.len(),
            forall|j: int| 0 <= j < i ==> text@[j] == word@[j],
        decreases text@.len() - i,
    {
        if text[i] != word[i] {
            return false;
        }
        i = i + 1;
    }
    assert(text@ =~= word@);
    true
}

/// The kind of an identifier-shaped word.
fn keyword(text: &Vec<u8>) -> (r: TokenType)
    ensures
        r == keyword_kind(text@),
{
    if is_word(text, &[97, 110, 100]) {
        TokenType::And
    } else if is_word(text, &[99, 108, 97, 115, 115]) {
        TokenType::Class
    } else if is_word(text, &[101, 108, 115, 101]) {
        TokenType::Else
    } else if is_word(text, &[102, 97, 108, 115, 101]) {
        TokenType::False
    } else if is_word(text, &[102, 111, 114]) {
        TokenType::For
    } else if is_word(text, &[102, 117, 110]) {
        TokenType::Fun
    } else if is_word(text, &[105, 102]) {
        TokenType::If
    } else if is_word(text, &[110, 105, 108]) {
        TokenType::Nil
    } else if is_word(text, &[111, 114]) {
        TokenType::Or
    } else if is_word(text, &[112, 114, 105, 110, 116]) {
        TokenType::Print
    } else if is_word(text, &[114, 101, 116, 117, 114, 110]) {
        TokenType::Return
    } else if is_word(text, &[115, 117, 112, 101, 114]) {
        TokenType::Super
    } else if is_word(text, &[116, 104, 105, 115]) {
        TokenType::This
    } else if is_word(text, &[116, 114, 117, 101]) {
        TokenType::True
    } else if is_word(text, &[118, 97, 114]) {
        TokenType::Var
    } else if is_word(text, &[119, 104, 105, 108, 101]) {
        TokenType::While
    } else {
        TokenType::Identifier
    }
}

/// A copy of `src[from..to]`.
fn copy_range(src: &Vec<u8>, from: usize, to: usize) -> (r: Vec<u8>)
    requires
        from <= to <= src@.len(),
    ensures
        r@ == src@.subrange(from as int, to as int),
{
    let mut r: Vec<u8> = Vec::new();
    let mut i: usize = from;
    while i < to
        invariant
            from <= i <= to <= src@.len(),
            r@ == src@.subrange(from as int, i as int),
        decreases to - i,
    {
        r.push(src[i]);
        i = i + 1;
        assert(r@ =~= src@.subrange(from as int, i as int));
    }
    r
}

proof fn lemma_count_newlines_push(s: Seq<u8>, b: u8)
    ensures
        count_newlines(s.push(b)) == count_newlines(s) + if b == NEWLINE {
            1nat
        } else {
            0nat
        },
{
    assert(s.push(b).drop_last() =~= s);
}

proof fn lemma_count_newlines_bound(s: Seq<u8>)
    ensures
        count_newlines(s) <= s.len(),
    decreases s.len(),
{
    if s.len() > 0 {
        lemma_count_newlines_bound(s.drop_last());
    }
}

impl Scanner {
    /// The source as bytes.
    pub closed spec fn source_bytes(&self) -> Seq<u8> {
        self.source@
    }

    /// The tokens produced so far.
    pub closed spec fn emitted(&self) -> Seq<TokenView> {
        tokens_view(self.tokens@)
    }

    /// The offset of the next unconsumed byte.
    pub closed spec fn position(&self) -> int {
        self.current as int
    }

    /// The line of the next unconsumed byte.
    pub closed spec fn line_number(&self) -> nat {
        self.line as nat
    }

    /// Offsets within the source, and a line count that cannot overflow.
    pub closed spec fn wf(&self) -> bool {
        &&& self.source@.len() < usize::MAX
        &&& self.start <= self.current <= self.source@.len()
        &&& 1 <= self.line <= self.current + 1
    }

    /// Whether the lexeme that started at `start` is scanned to completion in
    /// `self`, from `pre` and with result `r`, as `step` says.
    closed spec fn stepped(self, pre: Scanner, r: Result<(), ScanError>) -> bool {
        let src = pre.source@;
        let s = step(src, pre.start as int, pre.line as nat);
        &&& self.wf()
        &&& self.source@ == src
        &&& self.start == pre.start
        &&& self.current == s.end
        &&& self.line == s.line
        &&& self.emitted() == pre.emitted() + step_tokens(src, pre.start as int, pre.line as nat)
        &&& match r {
            Ok(_) => step_errors(src, pre.start as int, pre.line as nat).len() == 0,
            Err(e) => step_errors(src, pre.start as int, pre.line as nat) == seq![e@],
        }
    }

    /// A scanner at the start of `source`, with no tokens yet.
    pub fn new(source: String) -> (r: Scanner)
        requires
            encode_utf8(source@).len() < usize::MAX,
        ensures
            r.wf(),
            r.source_bytes() == encode_utf8(source@),
            r.emitted() == Seq::<TokenView>::empty(),
            r.position() == 0,
            r.line_number() == 1,
    {
        let r = Scanner {
            start: 0,
            current: 0,
            line: 1,
            tokens: Vec::new(),
            source: source.as_str().as_bytes_vec(),
        };
        assert(r.emitted() =~= Seq::<TokenView>::empty());
        r
    }

    /// Whether the whole source has been consumed.
    pub fn is_at_end(&self) -> (r: bool)
        ensures
            r == (self.position() >= self.source_bytes().len()),
    {
        self.current >= self.source.len()
    }

    fn advance(&mut self) -> (r: u8)
        requires
            old(self).wf(),
            old(self).current < old(self).source@.len(),
        ensures
            final(self).wf(),
            r == old(self).source@[old(self).current as int],
            final(self).current == old(self).current + 1,
            final(self).source == old(self).source,
            final(self).tokens == old(self).tokens,
            final(self).start == old(self).start,
            final(self).line == old(self).line,
    {
        let c = self.source[self.current];
        self.current = self.current + 1;
        c
    }

    fn peek(&self) -> (r: u8)
        ensures
            r == byte_at(self.source@, self.current as int),
    {
        if self.current >= self.source.len() {
            0
        } else {
            self.source[self.current]
        }
    }

    fn peek_next(&self) -> (r: u8)
        requires
            self.wf(),
        ensures
            r == byte_at(self.source@, self.current + 1),
    {
        if self.current + 1 >= self.source.len() {
            0
        } else {
            self.source[self.current + 1]
        }
    }

    /// Consumes the next byte if it is `expected`.
    fn match_next(&mut self, expected: u8) -> (r: bool)
        requires
            old(self).wf(),
        ensures
            final(self).wf(),
            r == (old(self).current < old(self).source@.len()
                && old(self).source@[old(self).current as int] == expected),
            final(self).current == old(self).current + if r {
                1int
            } else {
                0int
            },
            final(self).source == old(self).source,
            final(self).tokens == old(self).tokens,
            final(self).start == old(self).start,
            final(self).line == old(self).line,
    {
        if self.is_at_end() {
            return false;
        }
        if self.source[self.current] != expected {
            return false;
        }
        self.current = self.current + 1;
        true
    }

    /// Appends a token whose lexeme is `source[start..current]`.
    fn add_token(&mut self, token_type: TokenType, literal: Option<Literal>, line: usize)
        requires
            old(self).wf(),
        ensures
            final(self).wf(),
            final(self).emitted() == old(self).emitted().push(
                TokenView {
                    kind: token_type,
                    lexeme: old(self).source@.subrange(
                        old(self).start as int,
                        old(self).current as int,
                    ),
                    literal: literal_view(literal),
                    line: line as nat,
                },
            ),
            final(self).current == old(self).current,
            final(self).source == old(self).source,
            final(self).start == old(self).start,
            final(self).line == old(self).line,
    {
        let lexeme = copy_range(&self.source, self.start, self.current);
        let token = Token { token_type, lexeme, literal, line };
        self.tokens.push(token);
        assert(self.emitted() =~= old(self).emitted().push(token@));
    }

    /// Scans a string literal whose opening quote has just been consumed.
    fn string(&mut self) -> (r: Result<(), ScanError>)
        requires
            old(self).wf(),
            old(self).current == old(self).start + 1,
            old(self).source@[old(self).start as int] == QUOTE,
        ensures
            final(self).stepped(*old(self), r),
    {
        let ghost src = self.source@;
        let ghost first = self.current as int;
        let line = self.line;
        proof {
            lemma_run_end(src, first, ByteClass::AllBut(QUOTE));
            assert(src.subrange(first, first) =~= Seq::<u8>::empty());
        }
        let ghost close = find_end(src, first, QUOTE);
        while self.peek() != QUOTE && !self.is_at_end()
            invariant
                self.wf(),
                self.source@ == src,
                self.tokens == old(self).tokens,
                self.start == old(self).start,
                first == self.start + 1,
                line == old(self).line,
                first <= self.current <= close,
                close == find_end(src, first, QUOTE),
                first <= close <= src.len(),
                forall|j: int| first <= j < close ==> src[j] != QUOTE,
                close < src.len() ==> src[close] == QUOTE,
                self.line == line + count_newlines(src.subrange(first, self.current as int)),
            decreases src.len() - self.current,
        {
            proof {
                lemma_count_newlines_bound(src.subrange(first, self.current as int));
                lemma_count_newlines_push(
                    src.subrange(first, self.current as int),
                    src[self.current as int],
                );
                assert(src.subrange(first, self.current + 1) =~= src.subrange(
                    first,
                    self.current as int,
                ).push(src[self.current as int]));
            }
            let c = self.advance();
            if c == NEWLINE {
                self.line = self.line + 1;
            }
        }
        if self.is_at_end() {
            return Err(ScanError { kind: ScanErrorKind::UnterminatedString, line: self.line });
        }
        self.advance();
        let value = copy_range(&self.source, self.start + 1, self.current - 1);
        self.add_token(TokenType::String, Some(Literal::String(value)), line);
        assert(self.emitted() =~= old(self).emitted() + step_tokens(
            src,
            old(self).start as int,
            line as nat,
        ));
        Ok(())
    }

    /// Consumes the longest run of digits from `current` on.
    fn digits(&mut self)
        requires
            old(self).wf(),
        ensures
            final(self).wf(),
            final(self).current == digits_end(old(self).source@, old(self).current as int),
            old(self).current <= final(self).current <= old(self).source@.len(),
            final(self).source == old(self).source,
            final(self).tokens == old(self).tokens,
            final(self).start == old(self).start,
            final(self).line == old(self).line,
    {
        let ghost src = self.source@;
        let ghost end = digits_end(src, self.current as int);
        proof {
            lemma_run_end(src, self.current as int, ByteClass::Digit);
        }
        while is_digit_byte(self.peek())
            invariant
                self.wf(),
                self.source == old(self).source,
                src == self.source@,
                self.tokens == old(self).tokens,
                self.start == old(self).start,
                self.line == old(self).line,
                old(self).current <= self.current <= end,
                end == digits_end(src, old(self).current as int),
                end <= src.len(),
                forall|j: int| old(self).current <= j < end ==> is_digit(#[trigger] src[j]),
                end < src.len() ==> !is_digit(src[end]),
            decreases src.len() - self.current,
        {
            self.advance();
        }
    }

    /// Scans a number literal whose first digit has just been consumed.
    fn number(&mut self)
        requires
            old(self).wf(),
            old(self).current == old(self).start + 1,
            is_digit(old(self).source@[old(self).start as int]),
        ensures
            final(self).stepped(*old(self), Ok(())),
    {
        self.digits();
        let whole_end = self.current;
        let mut fraction_start = self.current;
        if self.peek() == DOT && is_digit_byte(self.peek_next()) {
            self.advance();
            fraction_start = self.current;
            self.digits();
        }
        let whole = copy_range(&self.source, self.start, whole_end);
        let fraction = copy_range(&self.source, fraction_start, self.current);
        assert(fraction_start == whole_end ==> fraction@ =~= Seq::<u8>::empty());
        let literal = Literal::Number(Decimal { whole, fraction });
        let line = self.line;
        self.add_token(TokenType::Number, Some(literal), line);
        assert(self.emitted() =~= old(self).emitted() + step_tokens(
            self.source@,
            old(self).start as int,
            line as nat,
        ));
    }

    /// Scans an identifier or reserved word whose first letter has just been
    /// consumed.
    fn identifier(&mut self)
        requires
            old(self).wf(),
            old(self).current == old(self).start + 1,
            is_alpha(old(self).source@[old(self).start as int]),
        ensures
            final(self).stepped(*old(self), Ok(())),
    {
        let ghost src = self.source@;
        let ghost end = alnum_end(src, self.current as int);
        proof {
            lemma_run_end(src, self.current as int, ByteClass::Alnum);
        }
        while is_alnum_byte(self.peek())
            invariant
                self.wf(),
                self.source == old(self).source,
                src == self.source@,
                self.tokens == old(self).tokens,
                self.start == old(self).start,
                self.line == old(self).line,
                old(self).current <= self.current <= end,
                end == alnum_end(src, old(self).current as int),
                end <= src.len(),
                forall|j: int| old(self).current <= j < end ==> is_alnum(#[trigger] src[j]),
                end < src.len() ==> !is_alnum(src[end]),
            decreases src.len() - self.current,
        {
            self.advance();
        }
        let text = copy_range(&self.source, self.start, self.current);
        let kind = keyword(&text);
        let line = self.line;
        self.add_token(kind, None, line);
        assert(self.emitted() =~= old(self).emitted() + step_tokens(
            src,
            old(self).start as int,
            line as nat,
        ));
    }

    /// Scans the one lexeme that starts at `current`.
    fn scan_token(&mut self) -> (r: Result<(), ScanError>)
        requires
            old(self).wf(),
            old(self).start == old(self).current,
            old(self).current < old(self).source@.len(),
        ensures
            final(self).stepped(*old(self), r),
    {
        let ghost src = self.source@;
        let line = self.line;
        let c = self.advance();
        if let Some(kind) = punctuation(c) {
            self.add_token(kind, None, line);
        } else if let Some((one, two)) = operator(c) {
            if self.match_next(EQUAL) {
                self.add_token(two, None, line);
            } else {
                self.add_token(one, None, line);
            }
        } else if c == SLASH {
            if self.match_next(SLASH) {
                let ghost first = self.current as int;
                let ghost end = find_end(src, first, NEWLINE);
                proof {
                    lemma_run_end(src, first, ByteClass::AllBut(NEWLINE));
                }
                while self.peek() != NEWLINE && !self.is_at_end()
                    invariant
                        self.wf(),
                        self.source@ == src,
                        self.tokens == old(self).tokens,
                        self.start == old(self).start,
                        self.line == line,
                        first <= self.current <= end,
                        end == find_end(src, first, NEWLINE),
                        end <= src.len(),
                        forall|j: int| first <= j < end ==> src[j] != NEWLINE,
                        end < src.len() ==> src[end] == NEWLINE,
                    decreases src.len() - self.current,
                {
                    self.advance();
                }
            } else {
                self.add_token(TokenType::Slash, None, line);
            }
        } else if c == SPACE || c == CARRIAGE_RETURN || c == TAB {
        } else if c == NEWLINE {
            self.line = self.line + 1;
        } else if c == QUOTE {
            return self.string();
        } else if is_digit_byte(c) {
            self.number();
        } else if is_alpha_byte(c) {
            self.identifier();
        } else {
            return Err(ScanError { kind: ScanErrorKind::UnexpectedCharacter, line });
        }
        assert(self.emitted() =~= old(self).emitted() + step_tokens(
            src,
            old(self).start as int,
            line as nat,
        ));
        Ok(())
    }

    /// Scans from `current` to the end of input, appends the end-of-input
    /// token, and returns all tokens, or every error found on the way.
    /// After an error scanning resumes at the next unconsumed byte.
    pub fn scan_tokens(&mut self) -> (r: Result<&[Token], Vec<ScanError>>)
        requires
            old(self).wf(),
        ensures
            final(self).wf(),
            final(self).source_bytes() == old(self).source_bytes(),
            final(self).emitted() == old(self).emitted() + scan_from(
                old(self).source_bytes(),
                old(self).position(),
                old(self).line_number(),
            ).tokens,
            match r {
                Ok(ts) => scan_from(
                    old(self).source_bytes(),
                    old(self).position(),
                    old(self).line_number(),
                ).errors.len() == 0 && tokens_view(ts@) == final(self).emitted(),
                Err(es) => scan_from(
                    old(self).source_bytes(),
                    old(self).position(),
                    old(self).line_number(),
                ).errors.len() > 0 && errors_view(es@) == scan_from(
                    old(self).source_bytes(),
                    old(self).position(),
                    old(self).line_number(),
                ).errors,
            },
    {
        let ghost src = self.source@;
        let ghost total = scan_from(src, self.current as int, self.line as nat);
        let mut errors: Vec<ScanError> = Vec::new();
        assert(errors_view(errors@) + total.errors =~= total.errors);
        assert(self.emitted() + total.tokens =~= old(self).emitted() + total.tokens);
        while !self.is_at_end()
            invariant
                self.wf(),
                self.source@ == src,
                self.emitted() + scan_from(src, self.current as int, self.line as nat).tokens
                    == old(self).emitted() + total.tokens,
                errors_view(errors@) + scan_from(src, self.current as int, self.line as nat).errors
                    == total.errors,
            decreases src.len() - self.current,
        {
            self.start = self.current;
            let ghost pre = *self;
            let ghost here = scan_from(src, pre.current as int, pre.line as nat);
            let ghost errors_before = errors_view(errors@);
            let res = self.scan_token();
            let ghost rest = scan_from(src, self.current as int, self.line as nat);
            proof {
                lemma_step_advances(src, pre.current as int, pre.line as nat);
                assert(pre.emitted() + step_tokens(src, pre.current as int, pre.line as nat)
                    + rest.tokens =~= pre.emitted() + here.tokens);
            }
            match res {
                Err(e) => {
                    errors.push(e);
                    assert(errors_view(errors@) =~= errors_before.push(e@));
                    assert(errors_view(errors@) + rest.errors =~= errors_before + here.errors);
                },
                Ok(()) => {
                    assert(errors_view(errors@) + rest.errors =~= errors_before + here.errors);
                },
            }
        }
        let line = self.line;
        let ghost before = self.emitted();
        self.tokens.push(Token { token_type: TokenType::EOF, lexeme: Vec::new(), literal: None, line });
        assert(self.emitted() =~= before + scan_from(src, self.current as int, line as nat).tokens);
        assert(errors_view(errors@) =~= total.errors);
        if errors.len() == 0 {
            Ok(self.tokens.as_slice())
        } else {
            Err(errors)
        }
    }
}

/// What scanning a whole source returns: every token, or, where any error
/// was found, every error, each in source order.
pub open spec fn scan_outcome(src: Seq<u8>) -> Result<Seq<TokenView>, Seq<ErrorView>> {
    let s = scan_spec(src);
    if s.errors.len() == 0 {
        Ok(s.tokens)
    } else {
        Err(s.errors)
    }
}

/// The mathematical form of what [`scan`] returns.
pub open spec fn result_view(r: Result<Vec<Token>, Vec<ScanError>>) -> Result<
    Seq<TokenView>,
    Seq<ErrorView>,
> {
    match r {
        Ok(ts) => Ok(tokens_view(ts@)),
        Err(es) => Err(errors_view(es@)),
    }
}

/// Scans a whole source text with a fresh scanner.
pub fn scan(source: String) -> (r: Result<Vec<Token>, Vec<ScanError>>)
    requires
        encode_utf8(source@).len() < usize::MAX,
    ensures
        result_view(r) == scan_outcome(encode_utf8(source@)),
{
    let mut scanner = Scanner::new(source);
    let outcome = scanner.scan_tokens();
    let failed = match outcome {
        Ok(_) => None,
        Err(es) => Some(es),
    };
    match failed {
        None => {
            assert(scanner.emitted() =~= scan_spec(encode_utf8(source@)).tokens);
            Ok(scanner.tokens)
        },
        Some(es) => Err(es),
    }
}

} // verus!
