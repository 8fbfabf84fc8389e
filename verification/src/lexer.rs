//! The lexer: a catalog-driven matcher with a leftmost/longest tie-break,
//! and the driver that turns source text into a token stream.

use vstd::prelude::*;

pub mod matcher;
pub mod raw_token;
pub mod token;

verus! {

use crate::error::position::Position;
use crate::error::span::Span;
use crate::error::Error;
use crate::error::ErrorKind;
use crate::error::ErrorModel;
use crate::lexer::matcher::lemma_match_ascii;
use crate::lexer::matcher::lemma_winner;
use crate::lexer::matcher::winner;
use crate::lexer::matcher::winner_from;
use crate::lexer::matcher::first_match;
use crate::lexer::matcher::pattern_catalog;
use crate::lexer::raw_token::RawTokenType;
use crate::lexer::token::Token;
use crate::lexer::token::TokenModel;
use crate::lexer::token::TokenType;
use crate::lexer::token::TokenTypeModel;
use vstd::string::StrSliceExecFns;
use vstd::string::StringExecFns;

/// What lexing yields: the token sequence, or the error it stopped on.
pub ghost enum LexOut {
    Toks(Seq<TokenModel>),
    Fail(ErrorModel),
}

/// The message reported for a character no pattern recognizes.
pub open spec fn unknown_msg(c: char) -> Seq<char> {
    "'"@ + seq![c] + "' is not a valid character"@
}

/// The views of a token vector's elements.
pub open spec fn views(ts: Seq<Token>) -> Seq<TokenModel> {
    ts.map_values(|t: Token| t@)
}

/// Prepends tokens already produced to the outcome of lexing the rest.
pub open spec fn lex_append(prefix: Seq<TokenModel>, out: LexOut) -> LexOut {
    match out {
        LexOut::Toks(ts) => LexOut::Toks(prefix + ts),
        LexOut::Fail(e) => LexOut::Fail(e),
    }
}

/// Lexing the characters of `s` from position `c` on, standing at source
/// location `pos`. Each step takes the winning match of the catalog at
/// the current suffix; a match that does not start at the current
/// character, or no match at all, is the unknown-character error; a
/// whitespace match advances without emitting; any other match emits its
/// token. At the end of the input stands a single zero-width end-of-input
/// token.
pub open spec fn lex_from(s: Seq<char>, c: int, pos: Position) -> LexOut
    decreases s.len() - c when 0 <= c <= s.len()
{
    if c >= s.len() {
        LexOut::Toks(
            seq![TokenModel { ty: TokenTypeModel::Eof, span: Span { pos_1: pos, pos_2: pos } }],
        )
    } else {
        let suffix = s.subrange(c, s.len() as int);
        match winner(suffix) {
            None => LexOut::Fail(
                ErrorModel {
                    kind: ErrorKind::UnknownCharacter,
                    msg: unknown_msg(s[c]),
                    span: Span { pos_1: pos, pos_2: pos },
                },
            ),
            Some((k, st, ln)) => if st != 0 {
                LexOut::Fail(
                    ErrorModel {
                        kind: ErrorKind::UnknownCharacter,
                        msg: unknown_msg(s[c]),
                        span: Span { pos_1: pos, pos_2: pos },
                    },
                )
            } else {
                let text = suffix.subrange(0, ln);
                let pos2 = pos.advanced_chars(text);
                proof {
                    lemma_winner(suffix);
                }
                match lex_from(s, c + ln, pos2) {
                    LexOut::Fail(e) => LexOut::Fail(e),
                    LexOut::Toks(ts) => if k.spec_is_ignored() {
                        LexOut::Toks(ts)
                    } else {
                        LexOut::Toks(
                            seq![
                                Token::of_match(k, Span { pos_1: pos, pos_2: pos2 }, text)
                            ] + ts,
                        )
                    },
                }
            },
        }
    }
}

/// Whether the two catalog tables hold exactly the matchable kinds in
/// catalog order, with the ignored ones marked.
pub open spec fn tables_wf(kinds: Seq<RawTokenType>, toks: Seq<Option<RawTokenType>>) -> bool {
    &&& kinds == pattern_catalog()
    &&& toks.len() == pattern_catalog().len()
    &&& forall|i: int|
        0 <= i < pattern_catalog().len() ==> toks[i] == (if pattern_catalog()[i].spec_is_ignored() {
            None
        } else {
            Some(pattern_catalog()[i])
        })
}

/// The unknown-character error at `pos`, quoting the character `ch`.
fn unknown_char_error(ch: &str, pos: Position) -> (r: Error)
    requires
        ch@.len() == 1,
    ensures
        r@ == (ErrorModel {
            kind: ErrorKind::UnknownCharacter,
            msg: unknown_msg(ch@[0]),
            span: Span { pos_1: pos, pos_2: pos },
        }),
{
    let mut msg = String::from_str("'");
    msg.append(ch);
    msg.append("' is not a valid character");
    proof {
        assert(ch@ =~= seq![ch@[0]]);
        assert(msg@ =~= unknown_msg(ch@[0]));
    }
    Error::UnknownCharacter(msg, Span::new_single(pos))
}

/// Drives the matcher over `source` from `start` on and collects the
/// emitted tokens; gives back the tokens (or the error) together with
/// the position reached.
fn lex_text(
    kinds: &Vec<RawTokenType>,
    toks: &Vec<Option<RawTokenType>>,
    source: &str,
    start: Position,
) -> (out: (Result<Vec<Token>, Error>, Position))
    requires
        tables_wf(kinds@, toks@),
        start.index <= source@.len(),
        start.column <= start.index + 1,
        start.line <= start.index + 1,
        source@.len() < usize::MAX,
    ensures
        match lex_from(source@, start.index as int, start) {
            LexOut::Toks(ts) => out.0 matches Ok(v) && views(v@) == ts,
            LexOut::Fail(e) => out.0 matches Err(err) && err@ == e,
        },
{
    let ghost s = source@;
    let n = source.unicode_len();
    proof {
        crate::error::lemma_char_len_le_byte_len(source);
    }
    let mut pos = start;
    let mut tokens: Vec<Token> = Vec::new();
    proof {
        assert(views(tokens@) =~= Seq::<TokenModel>::empty());
        match lex_from(s, start.index as int, start) {
            LexOut::Toks(ts) => {
                assert(views(tokens@) + ts =~= ts);
            },
            LexOut::Fail(_) => {},
        }
    }

    while pos.index < n
        invariant
            tables_wf(kinds@, toks@),
            source@ == s,
            s.len() == n,
            s.len() < usize::MAX,
            pos.index <= n,
            pos.column <= pos.index + 1,
            pos.line <= pos.index + 1,
            lex_append(views(tokens@), lex_from(s, pos.index as int, pos)) == lex_from(
                s,
                start.index as int,
                start,
            ),
        decreases n - pos.index,
    {
        let cursor = pos.index;
        let suffix = source.substring_char(cursor, n);
        let ghost sfx = s.subrange(cursor as int, s.len() as int);
        proof {
            assert(suffix@ =~= sfx);
        }

        // The winning match: earliest start, then longest, then the kind
        // declared last.
        let mut best: Option<(usize, usize, usize)> = None;
        let mut j: usize = 0;
        while j < kinds.len()
            invariant
                tables_wf(kinds@, toks@),
                suffix@ == sfx,
                j <= kinds@.len(),
                match best {
                    None => true,
                    Some((st, ln, ix)) => ix < j && first_match(kinds@[ix as int], sfx) == Some(
                        (st as int, ln as int),
                    ),
                },
                winner_from(
                    sfx,
                    pattern_catalog(),
                    j as int,
                    match best {
                        None => None,
                        Some((st, ln, ix)) => Some((kinds@[ix as int], st as int, ln as int)),
                    },
                ) == winner(sfx),
            decreases kinds@.len() - j,
        {
            let fm = crate::lexer::matcher::find_first(kinds[j], suffix);
            match fm {
                None => {},
                Some((st, ln)) => {
                    match best {
                        None => {
                            best = Some((st, ln, j));
                        },
                        Some((bst, bln, _)) => {
                            if st < bst || (st == bst && ln >= bln) {
                                best = Some((st, ln, j));
                            }
                        },
                    }
                },
            }
            j += 1;
        }
        proof {
            lemma_winner(sfx);
        }

        match best {
            None => {
                let ch = source.substring_char(cursor, cursor + 1);
                proof {
                    assert(ch@ =~= seq![s[cursor as int]]);
                }
                return (Err(unknown_char_error(ch, pos)), pos);
            },
            Some((st, ln, ix)) => {
                if st != 0 {
                    let ch = source.substring_char(cursor, cursor + 1);
                    proof {
                        assert(ch@ =~= seq![s[cursor as int]]);
                    }
                    return (Err(unknown_char_error(ch, pos)), pos);
                }
                let k = kinds[ix];
                let text = source.substring_char(cursor, cursor + ln);
                let ghost tseq = sfx.subrange(0, ln as int);
                proof {
                    assert(text@ =~= tseq);
                    lemma_match_ascii(k, sfx, 0);
                    vstd::utf8::is_ascii_chars_encode_utf8(tseq);
                    crate::error::position::lemma_tail_len_le(tseq);
                }
                let start_pos = pos;
                let end_pos = pos.advance(text);
                let ghost old_views = views(tokens@);
                let ghost tokm = Token::of_match(
                    k,
                    Span { pos_1: start_pos, pos_2: end_pos },
                    tseq,
                );
                match toks[ix] {
                    Some(tok) => {
                        proof {
                            assert(toks@[ix as int] == Some(tok));
                            assert(tok == k && !k.spec_is_ignored());
                        }
                        let t = Token::new(tok, Span::new(start_pos, end_pos), text);
                        tokens.push(t);
                        proof {
                            assert(views(tokens@) =~= old_views.push(tokm));
                        }
                    },
                    None => {
                        proof {
                            assert(toks@[ix as int] == None::<RawTokenType>);
                            assert(k.spec_is_ignored());
                        }
                    },
                }
                pos = end_pos;
                proof {
                    let out = lex_from(s, cursor + ln, end_pos);
                    assert(pos.index as int == cursor + ln);
                    assert(lex_from(s, cursor as int, start_pos) == (match out {
                        LexOut::Fail(e) => LexOut::Fail(e),
                        LexOut::Toks(ts) => if k.spec_is_ignored() {
                            LexOut::Toks(ts)
                        } else {
                            LexOut::Toks(seq![tokm] + ts)
                        },
                    }));
                    match out {
                        LexOut::Toks(ts) => {
                            if !k.spec_is_ignored() {
                                assert(old_views + (seq![tokm] + ts) =~= old_views.push(tokm)
                                    + ts);
                                assert(views(tokens@) + ts =~= old_views.push(tokm) + ts);
                            }
                        },
                        LexOut::Fail(_) => {},
                    }
                }
            },
        }
    }
    tokens.push(Token { ty: TokenType::Eof, span: Span::new_single(pos) });
    proof {
        assert(views(tokens@) =~= views(tokens@.drop_last()) + seq![
            TokenModel {
                ty: TokenTypeModel::Eof,
                span: Span { pos_1: pos, pos_2: pos },
            }
        ]);
    }
    (Ok(tokens), pos)
}

/// The lexer: the catalog of matchable kinds (with the ignored ones
/// marked), the source text, and the current position.
pub struct Lexer<'a> {
    /// For each matchable kind, the kind to emit, or nothing for a kind
    /// that is matched but never emitted.
    pub toks: Vec<Option<RawTokenType>>,
    /// The matchable kinds, in catalog order.
    pub kinds: Vec<RawTokenType>,
    pub source: &'a str,
    pub position: Position,
}

impl<'a> Lexer<'a> {
    /// The catalog tables hold exactly the matchable kinds in catalog
    /// order, with the ignored ones marked.
    pub open spec fn wf(self) -> bool {
        tables_wf(self.kinds@, self.toks@)
    }

    pub fn new(source: &'a str) -> (r: Self)
        ensures
            r.wf(),
            r.source@ == source@,
            r.position == (Position { index: 0, line: 1, column: 1 }),
    {
        let all = RawTokenType::iter_fields();
        let mut kinds: Vec<RawTokenType> = Vec::new();
        let mut toks: Vec<Option<RawTokenType>> = Vec::new();
        let mut i: usize = 0;
        while i < all.len()
            invariant
                i <= all.len(),
                all@ == crate::lexer::raw_token::catalog(),
                kinds@ =~= all@.take(i as int).filter(|k: RawTokenType| k.spec_has_pattern()),
                toks@.len() == kinds@.len(),
                forall|j: int|
                    0 <= j < kinds@.len() ==> toks@[j] == (if kinds@[j].spec_is_ignored() {
                        None
                    } else {
                        Some(kinds@[j])
                    }),
            decreases all.len() - i,
        {
            let k = all[i];
            proof {
                assert(all@.take(i + 1).drop_last() =~= all@.take(i as int));
                assert(all@.take(i + 1).last() == all@[i as int]);
                reveal_with_fuel(Seq::filter, 2);
            }
            if k.has_pattern() {
                kinds.push(k);
                if k.is_ignored() {
                    toks.push(None);
                } else {
                    toks.push(Some(k));
                }
            }
            i += 1;
        }
        proof {
            assert(all@.take(all@.len() as int) =~= all@);
            lemma_catalog_filter();
        }
        Self { toks, kinds, source, position: Position::new(0, 1, 1) }
    }

    /// Turns the whole remaining source into tokens, or reports the first
    /// character no pattern recognizes. Whitespace is matched and passed
    /// over; every other match is emitted with its span; the end of the
    /// input is marked by a zero-width end-of-input token.
    pub fn tokenize(&mut self) -> (r: Result<Vec<Token>, Error>)
        requires
            old(self).wf(),
            old(self).position.index <= old(self).source@.len(),
            old(self).position.column <= old(self).position.index + 1,
            old(self).position.line <= old(self).position.index + 1,
            old(self).source@.len() < usize::MAX,
        ensures
            final(self).wf(),
            final(self).source@ == old(self).source@,
            match lex_from(
                old(self).source@,
                old(self).position.index as int,
                old(self).position,
            ) {
                LexOut::Toks(ts) => r matches Ok(v) && views(v@) == ts,
                LexOut::Fail(e) => r matches Err(err) && err@ == e,
            },
    {
        let (r, end) = lex_text(&self.kinds, &self.toks, self.source, self.position);
        self.position = end;
        r
    }
}

/// A run of whitespace over an all-whitespace sequence reaches its end.
proof fn lemma_ws_run_full(s: Seq<char>, i: int)
    requires
        0 <= i <= s.len(),
        forall|j: int| 0 <= j < s.len() ==> crate::lexer::matcher::is_ws(s[j]),
    ensures
        crate::lexer::matcher::ws_run(s, i) == s.len() - i,
    decreases s.len() - i,
{
    if i < s.len() {
        lemma_ws_run_full(s, i + 1);
    }
}

/// No pattern but the whitespace pattern matches a whitespace character.
proof fn lemma_no_match_on_ws(k: RawTokenType, s: Seq<char>, i: int)
    requires
        0 <= i < s.len(),
        crate::lexer::matcher::is_ws(s[i]),
        !(k is Whitespace),
    ensures
        !crate::lexer::matcher::matches_at(k, s, i),
{
}

/// Where nothing of kind `k` matches, its first match does not exist.
proof fn lemma_first_match_none(k: RawTokenType, s: Seq<char>, i: int)
    requires
        0 <= i <= s.len(),
        forall|j: int| i <= j < s.len() ==> !crate::lexer::matcher::matches_at(k, s, j),
    ensures
        crate::lexer::matcher::first_match_from(k, s, i) is None,
    decreases s.len() - i,
{
    if i < s.len() {
        lemma_first_match_none(k, s, i + 1);
    }
}

/// Folding the selection rule over kinds none of which matches leaves no
/// winner.
proof fn lemma_winner_from_none(s: Seq<char>, kinds: Seq<RawTokenType>, j: int)
    requires
        0 <= j <= kinds.len(),
        forall|jj: int| j <= jj < kinds.len() ==> first_match(#[trigger] kinds[jj], s) is None,
    ensures
        winner_from(s, kinds, j, None) is None,
    decreases kinds.len() - j,
{
    if j < kinds.len() {
        lemma_winner_from_none(s, kinds, j + 1);
    }
}

/// Over an all-whitespace sequence the fold keeps the whitespace match,
/// and nothing else, as its best.
proof fn lemma_winner_from_ws(
    s: Seq<char>,
    kinds: Seq<RawTokenType>,
    j: int,
    best: Option<(RawTokenType, int, int)>,
)
    requires
        s.len() > 0,
        forall|i: int| 0 <= i < s.len() ==> crate::lexer::matcher::is_ws(s[i]),
        0 <= j <= kinds.len(),
        best is None || best == Some(
            (RawTokenType::Whitespace, 0int, crate::lexer::matcher::ws_run(s, 0) as int),
        ),
        best is Some || exists|jj: int| j <= jj < kinds.len() && kinds[jj] is Whitespace,
    ensures
        winner_from(s, kinds, j, best) == Some(
            (RawTokenType::Whitespace, 0int, crate::lexer::matcher::ws_run(s, 0) as int),
        ),
    decreases kinds.len() - j,
{
    let wsm = Some((RawTokenType::Whitespace, 0int, crate::lexer::matcher::ws_run(s, 0) as int));
    if j < kinds.len() {
        let k = kinds[j];
        if k is Whitespace {
            assert(crate::lexer::matcher::matches_at(k, s, 0));
            assert(crate::lexer::matcher::first_match_from(k, s, 0) == Some(
                (0int, crate::lexer::matcher::match_len_at(k, s, 0) as int),
            ));
            lemma_winner_from_ws(s, kinds, j + 1, wsm);
        } else {
            assert forall|i: int| 0 <= i < s.len() implies !crate::lexer::matcher::matches_at(
                k,
                s,
                i,
            ) by {
                lemma_no_match_on_ws(k, s, i);
            }
            lemma_first_match_none(k, s, 0);
            if best is None {
                let jj = choose|jj: int| j <= jj < kinds.len() && kinds[jj] is Whitespace;
                assert(j + 1 <= jj < kinds.len());
            }
            lemma_winner_from_ws(s, kinds, j + 1, best);
        }
    }
}

/// An input of nothing but whitespace lexes to the end-of-input token
/// alone, whatever the starting location.
pub proof fn lemma_whitespace_only_lexes_to_eof(s: Seq<char>, pos: Position)
    requires
        forall|i: int| 0 <= i < s.len() ==> crate::lexer::matcher::is_ws(s[i]),
    ensures
        match lex_from(s, 0, pos) {
            LexOut::Toks(ts) => ts.len() == 1 && ts[0].ty is Eof,
            LexOut::Fail(_) => false,
        },
{
    if s.len() > 0 {
        let sfx = s.subrange(0, s.len() as int);
        assert(sfx =~= s);
        assert(pattern_catalog()[24] is Whitespace);
        lemma_winner_from_ws(s, pattern_catalog(), 0, None);
        lemma_ws_run_full(s, 0);
        let ln = crate::lexer::matcher::ws_run(s, 0) as int;
        assert(winner(sfx) == Some((RawTokenType::Whitespace, 0int, ln)));
        assert(lex_from(s, ln, pos.advanced_chars(s.subrange(0, ln))) == LexOut::Toks(
            seq![
                TokenModel {
                    ty: TokenTypeModel::Eof,
                    span: Span {
                        pos_1: pos.advanced_chars(s.subrange(0, ln)),
                        pos_2: pos.advanced_chars(s.subrange(0, ln)),
                    },
                }
            ],
        ));
    }
}

/// A one-character input on which no pattern matches lexes to the
/// unknown-character error, whose zero-width span sits exactly at the
/// starting location and whose message quotes that character.
pub proof fn lemma_unknown_character(s: Seq<char>, pos: Position)
    requires
        s.len() == 1,
        forall|k: RawTokenType|
            pattern_catalog().contains(k) ==> !crate::lexer::matcher::matches_at(k, s, 0),
    ensures
        lex_from(s, 0, pos) == LexOut::Fail(
            ErrorModel {
                kind: ErrorKind::UnknownCharacter,
                msg: unknown_msg(s[0]),
                span: Span { pos_1: pos, pos_2: pos },
            },
        ),
{
    let sfx = s.subrange(0, s.len() as int);
    assert(sfx =~= s);
    assert forall|jj: int| 0 <= jj < pattern_catalog().len() implies first_match(
        #[trigger] pattern_catalog()[jj],
        s,
    ) is None by {
        assert(pattern_catalog().contains(pattern_catalog()[jj]));
        lemma_first_match_none(pattern_catalog()[jj], s, 0);
    }
    lemma_winner_from_none(s, pattern_catalog(), 0);
    assert(winner(sfx) is None);
}

/// The first twenty-five catalog kinds are exactly those that own a
/// pattern.
proof fn lemma_catalog_filter()
    ensures
        crate::lexer::raw_token::catalog().filter(|k: RawTokenType| k.spec_has_pattern())
            == pattern_catalog(),
{
    reveal_with_fuel(Seq::filter, 30);
    assert(crate::lexer::raw_token::catalog().filter(|k: RawTokenType| k.spec_has_pattern())
        =~= pattern_catalog());
}

} // verus!
