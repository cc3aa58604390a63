use crate::token_type::TokenType;
use vstd::prelude::*;
use vstd::utf8::encode_utf8;

verus! {

/// A number literal kept exactly as written: the ASCII digits before the
/// decimal point and the ASCII digits after it (empty when there is no
/// fractional part). Its value is `digits_value(whole ++ fraction)` divided by
/// ten to the power of the fraction's length.
#[derive(Debug, PartialEq)]
pub struct Decimal {
    pub whole: Vec<u8>,
    pub fraction: Vec<u8>,
}

/// The decoded value carried by a String or Number token.
#[derive(Debug, PartialEq)]
pub enum Literal {
    /// The raw bytes between the quotes of a string literal.
    String(Vec<u8>),
    /// The digits of a number literal.
    Number(Decimal),
}

/// Mathematical form of a [`Literal`].
pub enum LiteralView {
    Text(Seq<u8>),
    Number { whole: Seq<u8>, fraction: Seq<u8> },
}

impl View for Literal {
    type V = LiteralView;

    open spec fn view(&self) -> LiteralView {
        match self {
            Literal::String(b) => LiteralView::Text(b@),
            Literal::Number(d) => LiteralView::Number { whole: d.whole@, fraction: d.fraction@ },
        }
    }
}

/// The natural number that a sequence of ASCII decimal digits denotes.
pub open spec fn digits_value(s: Seq<u8>) -> nat
    decreases s.len(),
{
    if s.len() == 0 {
        0
    } else {
        digits_value(s.drop_last()) * 10 + (s.last() - 48) as nat
    }
}

/// One classified lexical token.
#[derive(Debug, PartialEq)]
pub struct Token {
    pub token_type: TokenType,
    pub lexeme: Vec<u8>,
    pub literal: Option<Literal>,
    pub line: usize,
}

/// Mathematical form of a [`Token`].
pub struct TokenView {
    pub kind: TokenType,
    pub lexeme: Seq<u8>,
    pub literal: Option<LiteralView>,
    pub line: nat,
}

/// The mathematical form of an optional literal.
pub open spec fn literal_view(l: Option<Literal>) -> Option<LiteralView> {
    match l {
        Some(v) => Some(v@),
        None => None,
    }
}

impl View for Token {
    type V = TokenView;

    open spec fn view(&self) -> TokenView {
        TokenView {
            kind: self.token_type,
            lexeme: self.lexeme@,
            literal: literal_view(self.literal),
            line: self.line as nat,
        }
    }
}

impl Token {
    /// A token whose lexeme is the UTF-8 encoding of `lexeme`.
    pub fn new(token_type: TokenType, lexeme: String, literal: Option<Literal>, line: usize) -> (r:
        Token)
        ensures
            r@ == (TokenView {
                kind: token_type,
                lexeme: encode_utf8(lexeme@),
                literal: literal_view(literal),
                line: line as nat,
            }),
    {
        Token { token_type, lexeme: lexeme.as_str().as_bytes_vec(), literal, line }
    }
}

} // verus!
