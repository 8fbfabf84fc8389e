use vstd::prelude::*;

verus! {

use crate::error::span::Span;
use crate::lexer::raw_token::RawTokenType;
use vstd::string::StrSliceExecFns;
use vstd::string::StringExecFns;

/// The value of a numeric literal, held exactly as a scaled decimal:
/// the value is `mant / 10^scale`. Literals keep at most 18 significant
/// digits of mantissa and at most 18 fractional digits; anything beyond
/// that saturates the mantissa or drops the extra fractional digits.
#[derive(Debug, Clone, Copy, PartialEq, Eq, Structural)]
pub struct Dec {
    pub mant: i64,
    pub scale: u32,
}

/// One step of reading a numeric literal, left to right: a dot switches
/// to the fractional digits; a digit is appended to the mantissa when it
/// fits (and, for a fractional digit, when the scale is still below 18);
/// any digit that does not fit saturates the integer part or is dropped
/// from the fractional part.
pub open spec fn dec_scan(s: Seq<char>, i: int, mant: i64, scale: u32, frac: bool) -> Dec
    decreases s.len() - i when 0 <= i <= s.len()
{
    if i >= s.len() {
        Dec { mant, scale }
    } else {
        let c = s[i];
        if c == '.' {
            dec_scan(s, i + 1, mant, scale, true)
        } else if '0' <= c && c <= '9' {
            let d = c as u32 - '0' as u32;
            if frac {
                if scale < 18 && mant <= (i64::MAX - d) / 10 {
                    dec_scan(s, i + 1, (mant * 10 + d) as i64, (scale + 1) as u32, true)
                } else {
                    dec_scan(s, i + 1, mant, scale, true)
                }
            } else {
                if mant <= (i64::MAX - d) / 10 {
                    dec_scan(s, i + 1, (mant * 10 + d) as i64, scale, false)
                } else {
                    dec_scan(s, i + 1, i64::MAX, scale, false)
                }
            }
        } else {
            dec_scan(s, i + 1, mant, scale, frac)
        }
    }
}

/// The decimal value of a numeric literal's text.
pub open spec fn dec_of_chars(s: Seq<char>) -> Dec {
    dec_scan(s, 0, 0, 0, false)
}

impl Dec {
    /// Reads a numeric literal. Characters other than digits and dots are
    /// passed over without effect; the lexer only hands this function
    /// digits and at most one dot.
    pub fn parse(text: &str) -> (r: Dec)
        ensures
            r == dec_of_chars(text@),
    {
        let n = text.unicode_len();
        let mut i: usize = 0;
        let mut mant: i64 = 0;
        let mut scale: u32 = 0;
        let mut frac: bool = false;
        while i < n
            invariant
                0 <= i <= n,
                n == text@.len(),
                0 <= mant,
                scale <= 18,
                dec_scan(text@, 0, 0, 0, false) == dec_scan(text@, i as int, mant, scale, frac),
            decreases n - i,
        {
            let c = text.get_char(i);
            if c == '.' {
                frac = true;
            } else if '0' <= c && c <= '9' {
                let d = c as u32 - '0' as u32;
                if frac {
                    if scale < 18 && mant <= (i64::MAX - d as i64) / 10 {
                        mant = mant * 10 + d as i64;
                        scale = scale + 1;
                    }
                } else {
                    if mant <= (i64::MAX - d as i64) / 10 {
                        mant = mant * 10 + d as i64;
                    } else {
                        mant = i64::MAX;
                    }
                }
            }
            i += 1;
        }
        Dec { mant, scale }
    }
}

/// The mathematical shape of a [`TokenType`]: the same variants, with the
/// identifier text as a character sequence.
pub ghost enum TokenTypeModel {
    Decimal(Dec),
    Identifier(Seq<char>),
    Add,
    Sub,
    Mul,
    Div,
    Pow,
    GreaterThan,
    LessThan,
    GreaterThanEq,
    LessThanEq,
    Equals,
    NotEquals,
    Pipe,
    Bang,
    Comma,
    Semicolon,
    Colon,
    Tick,
    LBrace,
    RBrace,
    LBracket,
    RBracket,
    LParen,
    RParen,
    Whitespace,
    Eol,
    Eof,
}

/// A token's category, with the payload a numeric literal or an
/// identifier carries. Two token types are `==` when their categories
/// agree; payloads are not compared.
#[derive(Debug)]
pub enum TokenType {
    Decimal(Dec),
    Identifier(String),
    /// +
    Add,
    /// -
    Sub,
    /// *
    Mul,
    /// /
    Div,
    /// ^
    Pow,
    /// >
    GreaterThan,
    /// <
    LessThan,
    /// >=
    GreaterThanEq,
    /// <=
    LessThanEq,
    /// =
    Equals,
    /// !=
    NotEquals,
    /// |
    Pipe,
    /// !
    Bang,
    /// ,
    Comma,
    /// ;
    Semicolon,
    /// :
    Colon,
    /// '
    Tick,
    /// {
    LBrace,
    /// }
    RBrace,
    /// [
    LBracket,
    /// ]
    RBracket,
    /// (
    LParen,
    /// )
    RParen,
    Whitespace,
    Eol,
    Eof,
}

impl View for TokenType {
    type V = TokenTypeModel;

    open spec fn view(&self) -> TokenTypeModel {
        match self {
            TokenType::Decimal(d) => TokenTypeModel::Decimal(*d),
            TokenType::Identifier(s) => TokenTypeModel::Identifier(s@),
            TokenType::Add => TokenTypeModel::Add,
            TokenType::Sub => TokenTypeModel::Sub,
            TokenType::Mul => TokenTypeModel::Mul,
            TokenType::Div => TokenTypeModel::Div,
            TokenType::Pow => TokenTypeModel::Pow,
            TokenType::GreaterThan => TokenTypeModel::GreaterThan,
            TokenType::LessThan => TokenTypeModel::LessThan,
            TokenType::GreaterThanEq => TokenTypeModel::GreaterThanEq,
            TokenType::LessThanEq => TokenTypeModel::LessThanEq,
            TokenType::Equals => TokenTypeModel::Equals,
            TokenType::NotEquals => TokenTypeModel::NotEquals,
            TokenType::Pipe => TokenTypeModel::Pipe,
            TokenType::Bang => TokenTypeModel::Bang,
            TokenType::Comma => TokenTypeModel::Comma,
            TokenType::Semicolon => TokenTypeModel::Semicolon,
            TokenType::Colon => TokenTypeModel::Colon,
            TokenType::Tick => TokenTypeModel::Tick,
            TokenType::LBrace => TokenTypeModel::LBrace,
            TokenType::RBrace => TokenTypeModel::RBrace,
            TokenType::LBracket => TokenTypeModel::LBracket,
            TokenType::RBracket => TokenTypeModel::RBracket,
            TokenType::LParen => TokenTypeModel::LParen,
            TokenType::RParen => TokenTypeModel::RParen,
            TokenType::Whitespace => TokenTypeModel::Whitespace,
            TokenType::Eol => TokenTypeModel::Eol,
            TokenType::Eof => TokenTypeModel::Eof,
        }
    }
}

/// Whether two token types have the same category, whatever their
/// payloads hold.
pub open spec fn same_kind(a: TokenTypeModel, b: TokenTypeModel) -> bool {
    match a {
        TokenTypeModel::Decimal(_) => b is Decimal,
        TokenTypeModel::Identifier(_) => b is Identifier,
        TokenTypeModel::Add => b is Add,
        TokenTypeModel::Sub => b is Sub,
        TokenTypeModel::Mul => b is Mul,
        TokenTypeModel::Div => b is Div,
        TokenTypeModel::Pow => b is Pow,
        TokenTypeModel::GreaterThan => b is GreaterThan,
        TokenTypeModel::LessThan => b is LessThan,
        TokenTypeModel::GreaterThanEq => b is GreaterThanEq,
        TokenTypeModel::LessThanEq => b is LessThanEq,
        TokenTypeModel::Equals => b is Equals,
        TokenTypeModel::NotEquals => b is NotEquals,
        TokenTypeModel::Pipe => b is Pipe,
        TokenTypeModel::Bang => b is Bang,
        TokenTypeModel::Comma => b is Comma,
        TokenTypeModel::Semicolon => b is Semicolon,
        TokenTypeModel::Colon => b is Colon,
        TokenTypeModel::Tick => b is Tick,
        TokenTypeModel::LBrace => b is LBrace,
        TokenTypeModel::RBrace => b is RBrace,
        TokenTypeModel::LBracket => b is LBracket,
        TokenTypeModel::RBracket => b is RBracket,
        TokenTypeModel::LParen => b is LParen,
        TokenTypeModel::RParen => b is RParen,
        TokenTypeModel::Whitespace => b is Whitespace,
        TokenTypeModel::Eol => b is Eol,
        TokenTypeModel::Eof => b is Eof,
    }
}

impl PartialEq for TokenType {
    /// Token types compare by category alone: two numeric literals are
    /// equal whatever their values, and two identifiers are equal
    /// whatever their names.
    fn eq(&self, other: &Self) -> (r: bool) {
        match self {
            TokenType::Decimal(_) => matches!(other, TokenType::Decimal(_)),
            TokenType::Identifier(_) => matches!(other, TokenType::Identifier(_)),
            TokenType::Add => matches!(other, TokenType::Add),
            TokenType::Sub => matches!(other, TokenType::Sub),
            TokenType::Mul => matches!(other, TokenType::Mul),
            TokenType::Div => matches!(other, TokenType::Div),
            TokenType::Pow => matches!(other, TokenType::Pow),
            TokenType::GreaterThan => matches!(other, TokenType::GreaterThan),
            TokenType::LessThan => matches!(other, TokenType::LessThan),
            TokenType::GreaterThanEq => matches!(other, TokenType::GreaterThanEq),
            TokenType::LessThanEq => matches!(other, TokenType::LessThanEq),
            TokenType::Equals => matches!(other, TokenType::Equals),
            TokenType::NotEquals => matches!(other, TokenType::NotEquals),
            TokenType::Pipe => matches!(other, TokenType::Pipe),
            TokenType::Bang => matches!(other, TokenType::Bang),
            TokenType::Comma => matches!(other, TokenType::Comma),
            TokenType::Semicolon => matches!(other, TokenType::Semicolon),
            TokenType::Colon => matches!(other, TokenType::Colon),
            TokenType::Tick => matches!(other, TokenType::Tick),
            TokenType::LBrace => matches!(other, TokenType::LBrace),
            TokenType::RBrace => matches!(other, TokenType::RBrace),
            TokenType::LBracket => matches!(other, TokenType::LBracket),
            TokenType::RBracket => matches!(other, TokenType::RBracket),
            TokenType::LParen => matches!(other, TokenType::LParen),
            TokenType::RParen => matches!(other, TokenType::RParen),
            TokenType::Whitespace => matches!(other, TokenType::Whitespace),
            TokenType::Eol => matches!(other, TokenType::Eol),
            TokenType::Eof => matches!(other, TokenType::Eof),
        }
    }
}

impl vstd::std_specs::cmp::PartialEqSpecImpl for TokenType {
    open spec fn obeys_eq_spec() -> bool {
        true
    }

    open spec fn eq_spec(&self, other: &Self) -> bool {
        same_kind(self@, other@)
    }
}

impl Clone for TokenType {
    /// A clone keeps the category and the payload.
    fn clone(&self) -> (r: Self)
        ensures
            r@ == self@,
    {
        match self {
            TokenType::Decimal(d) => TokenType::Decimal(*d),
            TokenType::Identifier(s) => TokenType::Identifier(s.clone()),
            TokenType::Add => TokenType::Add,
            TokenType::Sub => TokenType::Sub,
            TokenType::Mul => TokenType::Mul,
            TokenType::Div => TokenType::Div,
            TokenType::Pow => TokenType::Pow,
            TokenType::GreaterThan => TokenType::GreaterThan,
            TokenType::LessThan => TokenType::LessThan,
            TokenType::GreaterThanEq => TokenType::GreaterThanEq,
            TokenType::LessThanEq => TokenType::LessThanEq,
            TokenType::Equals => TokenType::Equals,
            TokenType::NotEquals => TokenType::NotEquals,
            TokenType::Pipe => TokenType::Pipe,
            TokenType::Bang => TokenType::Bang,
            TokenType::Comma => TokenType::Comma,
            TokenType::Semicolon => TokenType::Semicolon,
            TokenType::Colon => TokenType::Colon,
            TokenType::Tick => TokenType::Tick,
            TokenType::LBrace => TokenType::LBrace,
            TokenType::RBrace => TokenType::RBrace,
            TokenType::LBracket => TokenType::LBracket,
            TokenType::RBracket => TokenType::RBracket,
            TokenType::LParen => TokenType::LParen,
            TokenType::RParen => TokenType::RParen,
            TokenType::Whitespace => TokenType::Whitespace,
            TokenType::Eol => TokenType::Eol,
            TokenType::Eof => TokenType::Eof,
        }
    }
}

impl TokenType {
    /// The payload-free token type standing for a raw catalog kind: the
    /// numeric-literal kind carries the value zero, the identifier kind
    /// an empty name.
    pub open spec fn of_raw(raw: RawTokenType) -> TokenTypeModel {
        match raw {
            RawTokenType::Decimal => TokenTypeModel::Decimal(Dec { mant: 0, scale: 0 }),
            RawTokenType::Identifier => TokenTypeModel::Identifier(Seq::empty()),
            RawTokenType::Add => TokenTypeModel::Add,
            RawTokenType::Sub => TokenTypeModel::Sub,
            RawTokenType::Mul => TokenTypeModel::Mul,
            RawTokenType::Div => TokenTypeModel::Div,
            RawTokenType::Pow => TokenTypeModel::Pow,
            RawTokenType::GreaterThan => TokenTypeModel::GreaterThan,
            RawTokenType::LessThan => TokenTypeModel::LessThan,
            RawTokenType::GreaterThanEq => TokenTypeModel::GreaterThanEq,
            RawTokenType::LessThanEq => TokenTypeModel::LessThanEq,
            RawTokenType::Equals => TokenTypeModel::Equals,
            RawTokenType::NotEquals => TokenTypeModel::NotEquals,
            RawTokenType::Pipe => TokenTypeModel::Pipe,
            RawTokenType::Bang => TokenTypeModel::Bang,
            RawTokenType::Comma => TokenTypeModel::Comma,
            RawTokenType::Semicolon => TokenTypeModel::Semicolon,
            RawTokenType::Tick => TokenTypeModel::Tick,
            RawTokenType::LBrace => TokenTypeModel::LBrace,
            RawTokenType::RBrace => TokenTypeModel::RBrace,
            RawTokenType::LBracket => TokenTypeModel::LBracket,
            RawTokenType::RBracket => TokenTypeModel::RBracket,
            RawTokenType::LParen => TokenTypeModel::LParen,
            RawTokenType::RParen => TokenTypeModel::RParen,
            RawTokenType::Whitespace => TokenTypeModel::Whitespace,
            RawTokenType::Eol => TokenTypeModel::Eol,
            RawTokenType::Eof => TokenTypeModel::Eof,
        }
    }

    /// The token type standing for a raw catalog kind, with an empty
    /// payload where the kind carries one.
    pub fn from_raw(raw: RawTokenType) -> (r: Self)
        ensures
            r@ == Self::of_raw(raw),
    {
        match raw {
            RawTokenType::Decimal => TokenType::Decimal(Dec { mant: 0, scale: 0 }),
            RawTokenType::Identifier => TokenType::Identifier(String::new()),
            RawTokenType::Add => TokenType::Add,
            RawTokenType::Sub => TokenType::Sub,
            RawTokenType::Mul => TokenType::Mul,
            RawTokenType::Div => TokenType::Div,
            RawTokenType::Pow => TokenType::Pow,
            RawTokenType::GreaterThan => TokenType::GreaterThan,
            RawTokenType::LessThan => TokenType::LessThan,
            RawTokenType::GreaterThanEq => TokenType::GreaterThanEq,
            RawTokenType::LessThanEq => TokenType::LessThanEq,
            RawTokenType::Equals => TokenType::Equals,
            RawTokenType::NotEquals => TokenType::NotEquals,
            RawTokenType::Pipe => TokenType::Pipe,
            RawTokenType::Bang => TokenType::Bang,
            RawTokenType::Comma => TokenType::Comma,
            RawTokenType::Semicolon => TokenType::Semicolon,
            RawTokenType::Tick => TokenType::Tick,
            RawTokenType::LBrace => TokenType::LBrace,
            RawTokenType::RBrace => TokenType::RBrace,
            RawTokenType::LBracket => TokenType::LBracket,
            RawTokenType::RBracket => TokenType::RBracket,
            RawTokenType::LParen => TokenType::LParen,
            RawTokenType::RParen => TokenType::RParen,
            RawTokenType::Whitespace => TokenType::Whitespace,
            RawTokenType::Eol => TokenType::Eol,
            RawTokenType::Eof => TokenType::Eof,
        }
    }
}

/// The mathematical shape of a [`Token`].
pub ghost struct TokenModel {
    pub ty: TokenTypeModel,
    pub span: Span,
}

/// One token of the input: its category with any payload, and the span
/// of the matched text.
#[derive(Debug)]
pub struct Token {
    pub ty: TokenType,
    pub span: Span,
}

impl View for Token {
    type V = TokenModel;

    open spec fn view(&self) -> TokenModel {
        TokenModel { ty: self.ty@, span: self.span }
    }
}

impl Clone for Token {
    /// A clone keeps the category, the payload and the span.
    fn clone(&self) -> (r: Self)
        ensures
            r@ == self@,
    {
        Token { ty: self.ty.clone(), span: self.span }
    }
}

impl Token {
    /// The token a raw kind and its matched text stand for: a numeric
    /// literal carries its parsed decimal value, an identifier carries
    /// the text, and every other kind carries no payload.
    pub open spec fn of_match(raw: RawTokenType, span: Span, text: Seq<char>) -> TokenModel {
        TokenModel {
            ty: match raw {
                RawTokenType::Decimal => TokenTypeModel::Decimal(dec_of_chars(text)),
                RawTokenType::Identifier => TokenTypeModel::Identifier(text),
                _ => TokenType::of_raw(raw),
            },
            span,
        }
    }

    pub fn new(raw: RawTokenType, span: Span, text: &str) -> (r: Self)
        ensures
            r@ == Self::of_match(raw, span, text@),
    {
        let ty = match raw {
            RawTokenType::Decimal => TokenType::Decimal(Dec::parse(text)),
            RawTokenType::Identifier => TokenType::Identifier(String::from_str(text)),
            _ => TokenType::from_raw(raw),
        };
        Self { ty, span }
    }
}

} // verus!
