use vstd::prelude::*;

verus! {

use crate::lexer::raw_token::RawTokenType;
use vstd::string::StrSliceExecFns;

/// An ASCII decimal digit.
pub open spec fn is_digit(c: char) -> bool {
    '0' <= c && c <= '9'
}

/// A character that may start an identifier: an ASCII letter or an
/// underscore.
pub open spec fn is_ident_start(c: char) -> bool {
    ('a' <= c && c <= 'z') || ('A' <= c && c <= 'Z') || c == '_'
}

/// A character that may continue an identifier.
pub open spec fn is_ident_cont(c: char) -> bool {
    is_ident_start(c) || is_digit(c)
}

/// A whitespace character: carriage return, line feed, tab, form feed,
/// vertical tab, or space.
pub open spec fn is_ws(c: char) -> bool {
    c == '\r' || c == '\n' || c == '\t' || c == '\u{000C}' || c == '\u{000B}' || c == ' '
}

/// The number of consecutive digits of `s` starting at `i`.
pub open spec fn digit_run(s: Seq<char>, i: int) -> nat
    decreases s.len() - i when i <= s.len()
{
    if i < 0 || i >= s.len() {
        0
    } else if is_digit(s[i]) {
        1 + digit_run(s, i + 1)
    } else {
        0
    }
}

/// The number of consecutive identifier characters of `s` starting at `i`.
pub open spec fn ident_run(s: Seq<char>, i: int) -> nat
    decreases s.len() - i when i <= s.len()
{
    if i < 0 || i >= s.len() {
        0
    } else if is_ident_cont(s[i]) {
        1 + ident_run(s, i + 1)
    } else {
        0
    }
}

/// The number of consecutive whitespace characters of `s` starting at `i`.
pub open spec fn ws_run(s: Seq<char>, i: int) -> nat
    decreases s.len() - i when i <= s.len()
{
    if i < 0 || i >= s.len() {
        0
    } else if is_ws(s[i]) {
        1 + ws_run(s, i + 1)
    } else {
        0
    }
}

/// The single character a one-character pattern matches, if `k` owns one.
pub open spec fn single_char(k: RawTokenType) -> Option<char> {
    match k {
        RawTokenType::Add => Some('+'),
        RawTokenType::Sub => Some('-'),
        RawTokenType::Mul => Some('*'),
        RawTokenType::Div => Some('/'),
        RawTokenType::Pow => Some('^'),
        RawTokenType::GreaterThan => Some('>'),
        RawTokenType::LessThan => Some('<'),
        RawTokenType::Equals => Some('='),
        RawTokenType::Pipe => Some('|'),
        RawTokenType::Bang => Some('!'),
        RawTokenType::Comma => Some(','),
        RawTokenType::Semicolon => Some(';'),
        RawTokenType::Tick => Some('\''),
        RawTokenType::LBrace => Some('{'),
        RawTokenType::RBrace => Some('}'),
        RawTokenType::LBracket => Some('['),
        RawTokenType::RBracket => Some(']'),
        RawTokenType::LParen => Some('('),
        RawTokenType::RParen => Some(')'),
        _ => None,
    }
}

/// The pair of characters a two-character pattern matches, if `k` owns one.
pub open spec fn double_char(k: RawTokenType) -> Option<(char, char)> {
    match k {
        RawTokenType::GreaterThanEq => Some(('>', '=')),
        RawTokenType::LessThanEq => Some(('<', '=')),
        RawTokenType::NotEquals => Some(('!', '=')),
        _ => None,
    }
}

/// Whether the pattern of kind `k` matches `s` at position `i`.
/// A numeric literal starts with a digit, or with a dot followed by a
/// digit; an identifier with a letter or underscore; whitespace with a
/// whitespace character; the fixed symbols with their own text.
pub open spec fn matches_at(k: RawTokenType, s: Seq<char>, i: int) -> bool
    recommends
        0 <= i < s.len(),
{
    match k {
        RawTokenType::Decimal => is_digit(s[i]) || (s[i] == '.' && i + 1 < s.len() && is_digit(
            s[i + 1],
        )),
        RawTokenType::Identifier => is_ident_start(s[i]),
        RawTokenType::Whitespace => is_ws(s[i]),
        _ => match single_char(k) {
            Some(c) => s[i] == c,
            None => match double_char(k) {
                Some((a, b)) => s[i] == a && i + 1 < s.len() && s[i + 1] == b,
                None => false,
            },
        },
    }
}

/// The length of the match of kind `k` at position `i`, assuming the
/// pattern matches there. Each pattern is greedy: a numeric literal takes
/// the whole digit run, then a dot if one follows, then the whole digit
/// run after the dot; identifiers and whitespace take their whole runs.
pub open spec fn match_len_at(k: RawTokenType, s: Seq<char>, i: int) -> nat
    recommends
        0 <= i < s.len(),
        matches_at(k, s, i),
{
    match k {
        RawTokenType::Decimal => if is_digit(s[i]) {
            let d1 = digit_run(s, i);
            if i + d1 < s.len() && s[i + d1] == '.' {
                d1 + 1 + digit_run(s, i + d1 + 1)
            } else {
                d1
            }
        } else {
            1 + digit_run(s, i + 1)
        },
        RawTokenType::Identifier => 1 + ident_run(s, i + 1),
        RawTokenType::Whitespace => ws_run(s, i),
        _ => if single_char(k) is Some {
            1
        } else if double_char(k) is Some {
            2
        } else {
            0
        },
    }
}

/// The first match of kind `k` in `s` at or after position `i`: its start
/// and its length.
pub open spec fn first_match_from(k: RawTokenType, s: Seq<char>, i: int) -> Option<(int, int)>
    decreases s.len() - i when 0 <= i <= s.len()
{
    if i >= s.len() {
        None
    } else if matches_at(k, s, i) {
        Some((i, match_len_at(k, s, i) as int))
    } else {
        first_match_from(k, s, i + 1)
    }
}

/// The first match of kind `k` in `s`.
pub open spec fn first_match(k: RawTokenType, s: Seq<char>) -> Option<(int, int)> {
    first_match_from(k, s, 0)
}

/// The catalog kinds that own a pattern, in declaration order.
pub open spec fn pattern_catalog() -> Seq<RawTokenType> {
    crate::lexer::raw_token::catalog().take(25)
}

/// Folds the selection rule over the kinds from position `j` on: a
/// candidate replaces the best so far when its match starts earlier, or
/// starts at the same place and is at least as long. Scanning in catalog
/// order, a tie on both start and length therefore goes to the kind
/// declared last.
pub open spec fn winner_from(
    s: Seq<char>,
    kinds: Seq<RawTokenType>,
    j: int,
    best: Option<(RawTokenType, int, int)>,
) -> Option<(RawTokenType, int, int)>
    decreases kinds.len() - j when 0 <= j <= kinds.len()
{
    if j >= kinds.len() {
        best
    } else {
        let k = kinds[j];
        let best2 = match first_match(k, s) {
            None => best,
            Some((st, ln)) => match best {
                None => Some((k, st, ln)),
                Some((bk, bst, bln)) => if st < bst || (st == bst && ln >= bln) {
                    Some((k, st, ln))
                } else {
                    best
                },
            },
        };
        winner_from(s, kinds, j + 1, best2)
    }
}

/// The winning match over the whole catalog: the earliest-starting match,
/// the longest among those, and among full ties the kind declared last.
pub open spec fn winner(s: Seq<char>) -> Option<(RawTokenType, int, int)> {
    winner_from(s, pattern_catalog(), 0, None)
}

pub proof fn lemma_digit_run_bound(s: Seq<char>, i: int)
    requires
        0 <= i <= s.len(),
    ensures
        digit_run(s, i) <= s.len() - i,
    decreases s.len() - i,
{
    if i < s.len() && is_digit(s[i]) {
        lemma_digit_run_bound(s, i + 1);
    }
}

pub proof fn lemma_ident_run_bound(s: Seq<char>, i: int)
    requires
        0 <= i <= s.len(),
    ensures
        ident_run(s, i) <= s.len() - i,
    decreases s.len() - i,
{
    if i < s.len() && is_ident_cont(s[i]) {
        lemma_ident_run_bound(s, i + 1);
    }
}

pub proof fn lemma_ws_run_bound(s: Seq<char>, i: int)
    requires
        0 <= i <= s.len(),
    ensures
        ws_run(s, i) <= s.len() - i,
    decreases s.len() - i,
{
    if i < s.len() && is_ws(s[i]) {
        lemma_ws_run_bound(s, i + 1);
    }
}

/// A pattern that matches at `i` matches at least one character and stays
/// inside `s`.
pub proof fn lemma_match_len(k: RawTokenType, s: Seq<char>, i: int)
    requires
        0 <= i < s.len(),
        matches_at(k, s, i),
    ensures
        1 <= match_len_at(k, s, i),
        i + match_len_at(k, s, i) <= s.len(),
{
    match k {
        RawTokenType::Decimal => {
            if is_digit(s[i]) {
                lemma_digit_run_bound(s, i);
                let d1 = digit_run(s, i) as int;
                if i + d1 < s.len() && s[i + d1] == '.' {
                    lemma_digit_run_bound(s, i + d1 + 1);
                }
            } else {
                lemma_digit_run_bound(s, i + 1);
            }
        },
        RawTokenType::Identifier => {
            lemma_ident_run_bound(s, i + 1);
        },
        RawTokenType::Whitespace => {
            lemma_ws_run_bound(s, i);
        },
        _ => {},
    }
}

/// What a first match means: it matches where it says, nothing of this
/// kind matches earlier, and it stays inside `s`.
pub proof fn lemma_first_match_from(k: RawTokenType, s: Seq<char>, i: int)
    requires
        0 <= i <= s.len(),
    ensures
        match first_match_from(k, s, i) {
            Some((st, ln)) => i <= st < s.len() && matches_at(k, s, st) && ln == match_len_at(
                k,
                s,
                st,
            ) && 1 <= ln && st + ln <= s.len() && (forall|j: int|
                i <= j < st ==> !matches_at(k, s, j)),
            None => forall|j: int| i <= j < s.len() ==> !matches_at(k, s, j),
        },
    decreases s.len() - i,
{
    if i >= s.len() {
    } else if matches_at(k, s, i) {
        lemma_match_len(k, s, i);
    } else {
        lemma_first_match_from(k, s, i + 1);
    }
}

/// Whether `cand` holds a true first match of its kind.
pub open spec fn sound_candidate(s: Seq<char>, cand: (RawTokenType, int, int)) -> bool {
    first_match(cand.0, s) == Some((cand.1, cand.2))
}

/// The winner, when there is one, is the first match of some catalog
/// kind; when there is none, no catalog kind matches anywhere in `s`.
pub proof fn lemma_winner_from(
    s: Seq<char>,
    kinds: Seq<RawTokenType>,
    j: int,
    best: Option<(RawTokenType, int, int)>,
)
    requires
        0 <= j <= kinds.len(),
        match best {
            Some(cand) => sound_candidate(s, cand),
            None => true,
        },
    ensures
        match winner_from(s, kinds, j, best) {
            Some(cand) => sound_candidate(s, cand),
            None => best is None && forall|jj: int|
                j <= jj < kinds.len() ==> first_match(kinds[jj], s) is None,
        },
    decreases kinds.len() - j,
{
    if j < kinds.len() {
        let k = kinds[j];
        let best2 = match first_match(k, s) {
            None => best,
            Some((st, ln)) => match best {
                None => Some((k, st, ln)),
                Some((bk, bst, bln)) => if st < bst || (st == bst && ln >= bln) {
                    Some((k, st, ln))
                } else {
                    best
                },
            },
        };
        lemma_winner_from(s, kinds, j + 1, best2);
    }
}

/// Every character inside a digit run is a digit.
pub proof fn lemma_digit_run_chars(s: Seq<char>, i: int)
    requires
        0 <= i <= s.len(),
    ensures
        forall|j: int| i <= j < i + digit_run(s, i) ==> is_digit(s[j]),
    decreases s.len() - i,
{
    if i < s.len() && is_digit(s[i]) {
        lemma_digit_run_chars(s, i + 1);
    }
}

/// Every character inside an identifier run continues an identifier.
pub proof fn lemma_ident_run_chars(s: Seq<char>, i: int)
    requires
        0 <= i <= s.len(),
    ensures
        forall|j: int| i <= j < i + ident_run(s, i) ==> is_ident_cont(s[j]),
    decreases s.len() - i,
{
    if i < s.len() && is_ident_cont(s[i]) {
        lemma_ident_run_chars(s, i + 1);
    }
}

/// Every character inside a whitespace run is whitespace.
pub proof fn lemma_ws_run_chars(s: Seq<char>, i: int)
    requires
        0 <= i <= s.len(),
    ensures
        forall|j: int| i <= j < i + ws_run(s, i) ==> is_ws(s[j]),
    decreases s.len() - i,
{
    if i < s.len() && is_ws(s[i]) {
        lemma_ws_run_chars(s, i + 1);
    }
}

/// Every pattern matches ASCII characters only, so the matched text has
/// as many bytes as characters.
pub proof fn lemma_match_ascii(k: RawTokenType, s: Seq<char>, i: int)
    requires
        0 <= i < s.len(),
        matches_at(k, s, i),
        i + match_len_at(k, s, i) <= s.len(),
    ensures
        vstd::utf8::is_ascii_chars(s.subrange(i, i + match_len_at(k, s, i))),
{
    let ln = match_len_at(k, s, i) as int;
    match k {
        RawTokenType::Decimal => {
            if is_digit(s[i]) {
                let d1 = digit_run(s, i) as int;
                lemma_digit_run_chars(s, i);
                if i + d1 < s.len() && s[i + d1] == '.' {
                    lemma_digit_run_chars(s, i + d1 + 1);
                }
            } else {
                lemma_digit_run_chars(s, i + 1);
            }
        },
        RawTokenType::Identifier => {
            lemma_ident_run_chars(s, i + 1);
        },
        RawTokenType::Whitespace => {
            lemma_ws_run_chars(s, i);
        },
        _ => {},
    }
    assert forall|j: int| 0 <= j < ln implies '\0' <= #[trigger] s.subrange(i, i + ln)[j]
        && s.subrange(i, i + ln)[j] <= '\u{7f}' by {
        assert(s.subrange(i, i + ln)[j] == s[i + j]);
    }
}

/// An ASCII decimal digit.
fn is_digit_e(c: char) -> (r: bool)
    ensures
        r == is_digit(c),
{
    '0' <= c && c <= '9'
}

/// A character that may start an identifier.
fn is_ident_start_e(c: char) -> (r: bool)
    ensures
        r == is_ident_start(c),
{
    ('a' <= c && c <= 'z') || ('A' <= c && c <= 'Z') || c == '_'
}

/// A character that may continue an identifier.
fn is_ident_cont_e(c: char) -> (r: bool)
    ensures
        r == is_ident_cont(c),
{
    is_ident_start_e(c) || is_digit_e(c)
}

/// A whitespace character.
fn is_ws_e(c: char) -> (r: bool)
    ensures
        r == is_ws(c),
{
    c == '\r' || c == '\n' || c == '\t' || c == '\u{000C}' || c == '\u{000B}' || c == ' '
}

fn digit_run_e(s: &str, n: usize, i: usize) -> (r: usize)
    requires
        n == s@.len(),
        i <= n,
    ensures
        r == digit_run(s@, i as int),
        i + r <= n,
{
    let mut j = i;
    while j < n && is_digit_e(s.get_char(j))
        invariant
            i <= j <= n,
            n == s@.len(),
            digit_run(s@, i as int) == (j - i) + digit_run(s@, j as int),
        decreases n - j,
    {
        j += 1;
    }
    j - i
}

fn ident_run_e(s: &str, n: usize, i: usize) -> (r: usize)
    requires
        n == s@.len(),
        i <= n,
    ensures
        r == ident_run(s@, i as int),
        i + r <= n,
{
    let mut j = i;
    while j < n && is_ident_cont_e(s.get_char(j))
        invariant
            i <= j <= n,
            n == s@.len(),
            ident_run(s@, i as int) == (j - i) + ident_run(s@, j as int),
        decreases n - j,
    {
        j += 1;
    }
    j - i
}

fn ws_run_e(s: &str, n: usize, i: usize) -> (r: usize)
    requires
        n == s@.len(),
        i <= n,
    ensures
        r == ws_run(s@, i as int),
        i + r <= n,
{
    let mut j = i;
    while j < n && is_ws_e(s.get_char(j))
        invariant
            i <= j <= n,
            n == s@.len(),
            ws_run(s@, i as int) == (j - i) + ws_run(s@, j as int),
        decreases n - j,
    {
        j += 1;
    }
    j - i
}

/// Whether the pattern of kind `k` matches `s` at position `i`.
fn matches_at_e(k: RawTokenType, s: &str, n: usize, i: usize) -> (r: bool)
    requires
        n == s@.len(),
        i < n,
    ensures
        r == matches_at(k, s@, i as int),
{
    match k {
        RawTokenType::Decimal => {
            let c = s.get_char(i);
            if is_digit_e(c) {
                true
            } else if c == '.' && i + 1 < n {
                is_digit_e(s.get_char(i + 1))
            } else {
                false
            }
        },
        RawTokenType::Identifier => is_ident_start_e(s.get_char(i)),
        RawTokenType::Whitespace => is_ws_e(s.get_char(i)),
        RawTokenType::GreaterThanEq => s.get_char(i) == '>' && i + 1 < n && s.get_char(i + 1)
            == '=',
        RawTokenType::LessThanEq => s.get_char(i) == '<' && i + 1 < n && s.get_char(i + 1) == '=',
        RawTokenType::NotEquals => s.get_char(i) == '!' && i + 1 < n && s.get_char(i + 1) == '=',
        RawTokenType::Add => s.get_char(i) == '+',
        RawTokenType::Sub => s.get_char(i) == '-',
        RawTokenType::Mul => s.get_char(i) == '*',
        RawTokenType::Div => s.get_char(i) == '/',
        RawTokenType::Pow => s.get_char(i) == '^',
        RawTokenType::GreaterThan => s.get_char(i) == '>',
        RawTokenType::LessThan => s.get_char(i) == '<',
        RawTokenType::Equals => s.get_char(i) == '=',
        RawTokenType::Pipe => s.get_char(i) == '|',
        RawTokenType::Bang => s.get_char(i) == '!',
        RawTokenType::Comma => s.get_char(i) == ',',
        RawTokenType::Semicolon => s.get_char(i) == ';',
        RawTokenType::Tick => s.get_char(i) == '\'',
        RawTokenType::LBrace => s.get_char(i) == '{',
        RawTokenType::RBrace => s.get_char(i) == '}',
        RawTokenType::LBracket => s.get_char(i) == '[',
        RawTokenType::RBracket => s.get_char(i) == ']',
        RawTokenType::LParen => s.get_char(i) == '(',
        RawTokenType::RParen => s.get_char(i) == ')',
        RawTokenType::Eol => false,
        RawTokenType::Eof => false,
    }
}

/// The length of the match of kind `k` at position `i`.
fn match_len_e(k: RawTokenType, s: &str, n: usize, i: usize) -> (r: usize)
    requires
        n == s@.len(),
        i < n,
        matches_at(k, s@, i as int),
    ensures
        r == match_len_at(k, s@, i as int),
{
    proof {
        lemma_match_len(k, s@, i as int);
    }
    match k {
        RawTokenType::Decimal => {
            if is_digit_e(s.get_char(i)) {
                let d1 = digit_run_e(s, n, i);
                if i + d1 < n && s.get_char(i + d1) == '.' {
                    let d2 = digit_run_e(s, n, i + d1 + 1);
                    d1 + 1 + d2
                } else {
                    d1
                }
            } else {
                1 + digit_run_e(s, n, i + 1)
            }
        },
        RawTokenType::Identifier => 1 + ident_run_e(s, n, i + 1),
        RawTokenType::Whitespace => ws_run_e(s, n, i),
        RawTokenType::GreaterThanEq => 2,
        RawTokenType::LessThanEq => 2,
        RawTokenType::NotEquals => 2,
        RawTokenType::Eol => 0,
        RawTokenType::Eof => 0,
        _ => 1,
    }
}

/// The first match of kind `k` in `s`, scanning left to right.
pub fn find_first(k: RawTokenType, s: &str) -> (r: Option<(usize, usize)>)
    ensures
        match first_match(k, s@) {
            None => r is None,
            Some((st, ln)) => r matches Some(p) && p.0 == st && p.1 == ln,
        },
{
    let n = s.unicode_len();
    let mut i: usize = 0;
    while i < n
        invariant
            i <= n,
            n == s@.len(),
            first_match(k, s@) == first_match_from(k, s@, i as int),
        decreases n - i,
    {
        if matches_at_e(k, s, n, i) {
            let ln = match_len_e(k, s, n, i);
            return Some((i, ln));
        }
        i += 1;
    }
    None
}

/// What the winning match guarantees: it is a true first match with a
/// positive length that stays inside `s`; and when there is no winner,
/// no pattern matches anywhere.
pub proof fn lemma_winner(s: Seq<char>)
    ensures
        match winner(s) {
            Some((k, st, ln)) => 0 <= st < s.len() && matches_at(k, s, st) && ln == match_len_at(
                k,
                s,
                st,
            ) && 1 <= ln && st + ln <= s.len(),
            None => forall|k: RawTokenType, i: int|
                pattern_catalog().contains(k) && 0 <= i < s.len() ==> !matches_at(k, s, i),
        },
{
    lemma_winner_from(s, pattern_catalog(), 0, None);
    match winner(s) {
        Some((k, st, ln)) => {
            lemma_first_match_from(k, s, 0);
        },
        None => {
            assert forall|k: RawTokenType, i: int|
                pattern_catalog().contains(k) && 0 <= i < s.len() implies !matches_at(
                k,
                s,
                i,
            ) by {
                let jj = choose|jj: int|
                    0 <= jj < pattern_catalog().len() && pattern_catalog()[jj] == k;
                lemma_first_match_from(k, s, 0);
            }
        },
    }
}

} // verus!
