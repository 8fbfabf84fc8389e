use vstd::prelude::*;

verus! {

use vstd::string::StrSliceExecFns;
use vstd::string::StringSliceAdditionalSpecFns;

/// A location in the source text: a byte offset together with a 1-based
/// line and column.
#[derive(Debug, Clone, Copy, PartialEq, Eq, Structural)]
pub struct Position {
    pub index: usize,
    pub line: usize,
    pub column: usize,
}

/// True when some character of `s` is a line break.
pub open spec fn has_newline(s: Seq<char>) -> bool {
    exists|i: int| 0 <= i < s.len() && s[i] == '\n'
}

/// The number of characters of `s` that follow its last line break
/// (all of `s` when it has no line break).
pub open spec fn tail_len(s: Seq<char>) -> nat
    decreases s.len(),
{
    if s.len() == 0 {
        0
    } else if s[s.len() - 1] == '\n' {
        0
    } else {
        1 + tail_len(s.drop_last())
    }
}

proof fn lemma_tail_len_no_newline(s: Seq<char>)
    requires
        forall|k: int| 0 <= k < s.len() ==> s[k] != '\n',
    ensures
        tail_len(s) == s.len(),
    decreases s.len(),
{
    if s.len() > 0 {
        lemma_tail_len_no_newline(s.drop_last());
    }
}

proof fn lemma_tail_len_last_newline(s: Seq<char>, j: int)
    requires
        0 <= j < s.len(),
        s[j] == '\n',
        forall|k: int| j < k < s.len() ==> s[k] != '\n',
    ensures
        tail_len(s) == s.len() - 1 - j,
    decreases s.len(),
{
    if j == s.len() - 1 {
    } else {
        lemma_tail_len_last_newline(s.drop_last(), j);
    }
}

/// The characters after the last line break never outnumber the whole
/// sequence, and are strictly fewer when a line break is present.
pub proof fn lemma_tail_len_le(s: Seq<char>)
    ensures
        tail_len(s) <= s.len(),
        has_newline(s) ==> tail_len(s) < s.len(),
    decreases s.len(),
{
    if s.len() > 0 && s[s.len() - 1] != '\n' {
        lemma_tail_len_le(s.drop_last());
        if has_newline(s) {
            let i = choose|i: int| 0 <= i < s.len() && s[i] == '\n';
            assert(s.drop_last()[i] == '\n');
        }
    }
}

impl Position {
    pub fn new(index: usize, line: usize, column: usize) -> (r: Self)
        ensures
            r == (Position { index, line, column }),
    {
        Self { index, line, column }
    }

    /// The location reached from `self` after passing over the characters
    /// `s`: the byte offset grows by the length of their UTF-8 encoding; a
    /// line break moves to the next line, with the column counted from the
    /// last line break; otherwise the column grows by the character count.
    pub open spec fn advanced_chars(self, s: Seq<char>) -> Position {
        Position {
            index: (self.index + vstd::utf8::encode_utf8(s).len()) as usize,
            line: if has_newline(s) {
                (self.line + 1) as usize
            } else {
                self.line
            },
            column: if has_newline(s) {
                (tail_len(s) + 1) as usize
            } else {
                (self.column + s.len()) as usize
            },
        }
    }

    /// The location reached from `self` after passing over `text`.
    pub open spec fn advanced(self, text: &str) -> Position {
        self.advanced_chars(text@)
    }

    /// Advances the position by one given some text.
    pub fn advance(self, text: &str) -> (r: Self)
        requires
            self.index + text.spec_bytes().len() <= usize::MAX,
            has_newline(text@) ==> self.line < usize::MAX,
            !has_newline(text@) ==> self.column + text@.len() <= usize::MAX,
        ensures
            r == self.advanced(text),
    {
        let n = text.unicode_len();
        let nbytes = text.len();
        proof {
            crate::error::lemma_char_len_le_byte_len(text);
        }
        let mut i: usize = 0;
        let mut found: bool = false;
        let mut last_nl: usize = 0;
        while i < n
            invariant
                i <= n,
                n == text@.len(),
                found == (exists|k: int| 0 <= k < i && text@[k] == '\n'),
                found ==> last_nl < i && text@[last_nl as int] == '\n'
                    && forall|k: int| last_nl < k < i ==> text@[k] != '\n',
            decreases n - i,
        {
            if text.get_char(i) == '\n' {
                found = true;
                last_nl = i;
                proof {
                    assert(text@[i as int] == '\n');
                }
            }
            i += 1;
        }
        let index = self.index + nbytes;
        if found {
            proof {
                lemma_tail_len_last_newline(text@, last_nl as int);
            }
            Self { index, line: self.line + 1, column: n - last_nl }
        } else {
            proof {
                lemma_tail_len_no_newline(text@);
            }
            Self { index, line: self.line, column: self.column + n }
        }
    }

    /// Advances the position by one given some text.
    pub fn advance_mut(&mut self, text: &str)
        requires
            old(self).index + text.spec_bytes().len() <= usize::MAX,
            has_newline(text@) ==> old(self).line < usize::MAX,
            !has_newline(text@) ==> old(self).column + text@.len() <= usize::MAX,
        ensures
            *final(self) == old(self).advanced(text),
    {
        *self = self.advance(text);
    }

    /// Advances the position by one column, ignoring anything in the text
    /// (like linebreaks).
    pub fn forward(self) -> (r: Self)
        requires
            self.column < usize::MAX,
        ensures
            r == (Position { column: (self.column + 1) as usize, ..self }),
    {
        Self { column: self.column + 1, ..self }
    }

    /// Advances the position by `amount` columns, ignoring anything in the
    /// text (like linebreaks).
    pub fn forward_by(self, amount: usize) -> (r: Self)
        requires
            self.column + amount <= usize::MAX,
        ensures
            r == (Position { column: (self.column + amount) as usize, ..self }),
    {
        Self { column: self.column + amount, ..self }
    }

    /// Moves the byte offset back over `text` while the line and column
    /// move as [`Position::advance`] moves them.
    pub fn backtrack(self, text: &str) -> (r: Self)
        requires
            self.index >= text.spec_bytes().len(),
            has_newline(text@) ==> self.line < usize::MAX,
            !has_newline(text@) ==> self.column + text@.len() <= usize::MAX,
        ensures
            r == (Position {
                index: (self.index - text.spec_bytes().len()) as usize,
                ..self.advanced(text)
            }),
    {
        let nbytes = text.len();
        let advanced = Self { index: 0, ..self }.advance(text);
        Self { index: self.index - nbytes, ..advanced }
    }

    /// Moves the byte offset forward over `text`, with the line and column
    /// moving as [`Position::advance`] moves them.
    pub fn backtrack_mut(&mut self, text: &str)
        requires
            old(self).index + text.spec_bytes().len() <= usize::MAX,
            has_newline(text@) ==> old(self).line < usize::MAX,
            !has_newline(text@) ==> old(self).column + text@.len() <= usize::MAX,
        ensures
            *final(self) == old(self).advanced(text),
    {
        *self = self.advance(text);
    }

    /// Backtracks the position by one column, ignoring anything in the text
    /// (like linebreaks).
    pub fn backward(self) -> (r: Self)
        requires
            self.column >= 1,
        ensures
            r == (Position { column: (self.column - 1) as usize, ..self }),
    {
        Self { column: self.column - 1, ..self }
    }

    /// Backtracks the position by `amount` columns, ignoring anything in the
    /// text (like linebreaks).
    pub fn backward_by(self, amount: usize) -> (r: Self)
        requires
            self.column >= amount,
        ensures
            r == (Position { column: (self.column - amount) as usize, ..self }),
    {
        Self { column: self.column - amount, ..self }
    }
}

impl Default for Position {
    /// The position of the very first character: offset zero, line one,
    /// column one.
    fn default() -> (r: Self)
        ensures
            r == (Position { index: 0, line: 1, column: 1 }),
    {
        Self { index: 0, line: 1, column: 1 }
    }
}

} // verus!
