use vstd::prelude::*;

verus! {

/// The catalog of lexical categories, in declaration order. The order
/// matters: when two patterns tie on both match start and match length,
/// the matcher prefers the kind declared later.
#[derive(Debug, Clone, Copy, PartialEq, Eq, Structural)]
pub enum RawTokenType {
    Decimal,
    Identifier,
    Add,
    Sub,
    Mul,
    Div,
    Pow,
    GreaterThan,
    LessThan,
    GreaterThanEq,
    LessThanEq,
    Equals,
    NotEquals,
    Pipe,
    Bang,
    Comma,
    Semicolon,
    Tick,
    LBrace,
    RBrace,
    LBracket,
    RBracket,
    LParen,
    RParen,
    Whitespace,
    Eol,
    Eof,
}

/// The catalog in declaration order, as a sequence.
pub open spec fn catalog() -> Seq<RawTokenType> {
    seq![
        RawTokenType::Decimal,
        RawTokenType::Identifier,
        RawTokenType::Add,
        RawTokenType::Sub,
        RawTokenType::Mul,
        RawTokenType::Div,
        RawTokenType::Pow,
        RawTokenType::GreaterThan,
        RawTokenType::LessThan,
        RawTokenType::GreaterThanEq,
        RawTokenType::LessThanEq,
        RawTokenType::Equals,
        RawTokenType::NotEquals,
        RawTokenType::Pipe,
        RawTokenType::Bang,
        RawTokenType::Comma,
        RawTokenType::Semicolon,
        RawTokenType::Tick,
        RawTokenType::LBrace,
        RawTokenType::RBrace,
        RawTokenType::LBracket,
        RawTokenType::RBracket,
        RawTokenType::LParen,
        RawTokenType::RParen,
        RawTokenType::Whitespace,
        RawTokenType::Eol,
        RawTokenType::Eof,
    ]
}

impl RawTokenType {
    /// Whether this kind owns a matching pattern. The line-end and
    /// end-of-input markers own none: they are only synthesized.
    pub open spec fn spec_has_pattern(&self) -> bool {
        !(self is Eol || self is Eof)
    }

    /// Whether this kind owns a matching pattern.
    #[verifier::when_used_as_spec(spec_has_pattern)]
    pub fn has_pattern(&self) -> (r: bool)
        ensures
            r == self.spec_has_pattern(),
    {
        !matches!(self, RawTokenType::Eol | RawTokenType::Eof)
    }

    /// Whether tokens of this kind are left out of the token stream.
    pub open spec fn spec_is_ignored(&self) -> bool {
        self is Whitespace || self is Eol || self is Eof
    }

    /// Whether tokens of this kind are left out of the token stream.
    #[verifier::when_used_as_spec(spec_is_ignored)]
    pub fn is_ignored(&self) -> (r: bool)
        ensures
            r == self.spec_is_ignored(),
    {
        matches!(self, RawTokenType::Whitespace | RawTokenType::Eol | RawTokenType::Eof)
    }

    /// The catalog in declaration order, as a static table.
    pub fn iter_fields() -> (r: Vec<RawTokenType>)
        ensures
            r@ == catalog(),
    {
        let r: Vec<RawTokenType> = vec![
            RawTokenType::Decimal,
            RawTokenType::Identifier,
            RawTokenType::Add,
            RawTokenType::Sub,
            RawTokenType::Mul,
            RawTokenType::Div,
            RawTokenType::Pow,
            RawTokenType::GreaterThan,
            RawTokenType::LessThan,
            RawTokenType::GreaterThanEq,
            RawTokenType::LessThanEq,
            RawTokenType::Equals,
            RawTokenType::NotEquals,
            RawTokenType::Pipe,
            RawTokenType::Bang,
            RawTokenType::Comma,
            RawTokenType::Semicolon,
            RawTokenType::Tick,
            RawTokenType::LBrace,
            RawTokenType::RBrace,
            RawTokenType::LBracket,
            RawTokenType::RBracket,
            RawTokenType::LParen,
            RawTokenType::RParen,
            RawTokenType::Whitespace,
            RawTokenType::Eol,
            RawTokenType::Eof,
        ];
        proof {
            assert(r@ =~= catalog());
        }
        r
    }
}

} // verus!
