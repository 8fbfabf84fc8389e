//! The error values shared by every stage of the pipeline, and the source
//! locations they point at.

use vstd::prelude::*;

pub mod position;
pub mod span;

verus! {

use crate::error::span::Span;
use vstd::string::StringSliceAdditionalSpecFns;
use vstd::utf8::encode_utf8;
use vstd::utf8::encode_scalar;

/// Which of the three user-input failures an [`Error`] reports.
#[derive(Debug, Clone, Copy, PartialEq, Eq, Structural)]
pub enum ErrorKind {
    UnknownCharacter,
    Syntax,
    InvalidCall,
}

/// The mathematical shape of an [`Error`]: its kind, its message as a
/// character sequence, and the span it points at.
pub ghost struct ErrorModel {
    pub kind: ErrorKind,
    pub msg: Seq<char>,
    pub span: Span,
}

/// A user-input failure: a character no pattern recognizes, a syntax error,
/// or a built-in called with the wrong number of arguments or parameters.
/// Each carries a human-readable message and the span of the offending
/// token or construct.
#[derive(Debug)]
pub enum Error {
    UnknownCharacter(String, Span),
    Syntax(String, Span),
    InvalidCall(String, Span),
}

impl View for Error {
    type V = ErrorModel;

    open spec fn view(&self) -> ErrorModel {
        match self {
            Error::UnknownCharacter(msg, span) => ErrorModel {
                kind: ErrorKind::UnknownCharacter,
                msg: msg@,
                span: *span,
            },
            Error::Syntax(msg, span) => ErrorModel {
                kind: ErrorKind::Syntax,
                msg: msg@,
                span: *span,
            },
            Error::InvalidCall(msg, span) => ErrorModel {
                kind: ErrorKind::InvalidCall,
                msg: msg@,
                span: *span,
            },
        }
    }
}

impl Error {
    /// The span of the offending token or construct.
    pub fn span(&self) -> (r: Span)
        ensures
            r == self@.span,
    {
        match self {
            Self::UnknownCharacter(_, span) => *span,
            Self::Syntax(_, span) => *span,
            Self::InvalidCall(_, span) => *span,
        }
    }

    /// The same error, pointed at `span` instead.
    pub fn with_span(self, span: Span) -> (r: Self)
        ensures
            r@ == (ErrorModel { span, ..self@ }),
    {
        match self {
            Self::UnknownCharacter(details, _) => Self::UnknownCharacter(details, span),
            Self::Syntax(details, _) => Self::Syntax(details, span),
            Self::InvalidCall(details, _) => Self::InvalidCall(details, span),
        }
    }
}

/// A character sequence never has more characters than its UTF-8 encoding
/// has bytes.
pub proof fn lemma_char_len_le_byte_len_seq(s: Seq<char>)
    ensures
        s.len() <= encode_utf8(s).len(),
    decreases s.len(),
{
    if s.len() > 0 {
        assert(encode_scalar(s[0] as u32).len() >= 1);
        lemma_char_len_le_byte_len_seq(s.drop_first());
    }
}

/// A string slice never has more characters than it has bytes.
pub proof fn lemma_char_len_le_byte_len(s: &str)
    ensures
        s@.len() <= s.spec_bytes().len(),
{
    lemma_char_len_le_byte_len_seq(s@);
}

} // verus!
