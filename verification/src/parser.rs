//! The recursive-descent parser: one token of lookahead, precedence from
//! comparisons down to atoms, implicit multiplication by juxtaposition,
//! and an optional call grammar on variables.

use vstd::prelude::*;

pub mod node;

verus! {

use crate::error::position::Position;
use crate::error::span::Span;
use crate::error::Error;
use crate::error::ErrorKind;
use crate::error::ErrorModel;
use crate::lexer::token::Token;
use crate::lexer::token::TokenModel;
use crate::lexer::token::TokenType;
use crate::lexer::token::TokenTypeModel;
use crate::lexer::views;
use crate::parser::node::lemma_nodes_view;
use crate::parser::node::node_view;
use crate::parser::node::nodes_view;
use crate::parser::node::Node;
use crate::parser::node::NodeModel;
use vstd::string::StringExecFns;

/// A token stream the parser can run on: nonempty, ending in the
/// end-of-input marker.
pub open spec fn wf_toks(toks: Seq<TokenModel>) -> bool {
    toks.len() >= 1 && toks[toks.len() - 1].ty is Eof
}

/// What a parsing step yields: a syntax-tree node, or the error it
/// stopped on.
pub ghost enum POut {
    Node(NodeModel),
    Fail(ErrorModel),
}

/// What parsing a separated list yields: the items with the next
/// position, or the error it stopped on.
pub ghost enum ListOut {
    Items(Seq<NodeModel>, int),
    Fail(ErrorModel, int),
}

/// How many tokens are left from position `i` on.
pub open spec fn fuel(toks: Seq<TokenModel>, i: int) -> int {
    if 0 <= i <= toks.len() {
        toks.len() - i
    } else {
        0
    }
}

/// Whether the parser stands on a real token.
pub open spec fn ok_state(toks: Seq<TokenModel>, i: int) -> bool {
    wf_toks(toks) && 0 <= i < toks.len()
}

/// A placeholder failure for states no run of the parser reaches: an
/// out-of-range cursor, or a sub-parse that moved backwards.
pub open spec fn dead_err() -> ErrorModel {
    ErrorModel {
        kind: ErrorKind::Syntax,
        msg: Seq::empty(),
        span: Span {
            pos_1: Position { index: 0, line: 1, column: 1 },
            pos_2: Position { index: 0, line: 1, column: 1 },
        },
    }
}

pub open spec fn stuck(i: int) -> (POut, int) {
    (POut::Fail(dead_err()), i)
}

pub open spec fn syn(msg: Seq<char>, span: Span) -> POut {
    POut::Fail(ErrorModel { kind: ErrorKind::Syntax, msg, span })
}

/// The span one column to the left, where the synthesized implicit
/// multiplication operator sits (wrapping at column zero).
pub open spec fn shifted_left(sp: Span) -> Span {
    Span {
        pos_1: Position {
            column: if sp.pos_1.column >= 1 {
                (sp.pos_1.column - 1) as usize
            } else {
                usize::MAX
            },
            ..sp.pos_1
        },
        pos_2: Position {
            column: if sp.pos_2.column >= 1 {
                (sp.pos_2.column - 1) as usize
            } else {
                usize::MAX
            },
            ..sp.pos_2
        },
    }
}

/// An atom: a numeric literal, an identifier, a sign applied to an atom,
/// or a parenthesized additive expression.
pub open spec fn p_atom(toks: Seq<TokenModel>, i: int) -> (POut, int)
    decreases fuel(toks, i), 0int,
{
    if !ok_state(toks, i) {
        stuck(i)
    } else {
        let t = toks[i];
        if t.ty is Decimal {
            (POut::Node(NodeModel::Constant { token: t }), i + 1)
        } else if t.ty is Identifier {
            (POut::Node(NodeModel::Variable { name: t }), i + 1)
        } else if t.ty is Add || t.ty is Sub {
            let (r, j) = p_atom(toks, i + 1);
            match r {
                POut::Node(n) => (
                    POut::Node(NodeModel::UnaryOp { token: t, node: Box::new(n) }),
                    j,
                ),
                POut::Fail(e) => (POut::Fail(e), j),
            }
        } else if t.ty is LParen {
            let (r, j) = p_expr(toks, i + 1);
            match r {
                POut::Fail(e) => (POut::Fail(e), j),
                POut::Node(n) => if 0 <= j < toks.len() {
                    if toks[j].ty is RParen {
                        (POut::Node(n), j + 1)
                    } else {
                        (syn("expected ')'"@, toks[j].span), j)
                    }
                } else {
                    stuck(j)
                },
            }
        } else {
            (syn("expected decimal, '+', '-' or '('"@, t.span), i)
        }
    }
}

/// The `:`-separated parameter list of a call, standing on a colon.
pub open spec fn p_params(toks: Seq<TokenModel>, i: int) -> ListOut
    decreases fuel(toks, i), 8int,
{
    if !ok_state(toks, i) {
        ListOut::Fail(dead_err(), i)
    } else {
        let (r, j) = p_expr(toks, i + 1);
        match r {
            POut::Fail(e) => ListOut::Fail(e, j),
            POut::Node(n) => if i < j && j < toks.len() {
                if toks[j].ty is Colon {
                    match p_params(toks, j) {
                        ListOut::Fail(e, j2) => ListOut::Fail(e, j2),
                        ListOut::Items(rest, j2) => ListOut::Items(seq![n] + rest, j2),
                    }
                } else {
                    ListOut::Items(seq![n], j)
                }
            } else {
                ListOut::Fail(dead_err(), j)
            },
        }
    }
}

/// The comma-separated expressions inside a call's brackets.
pub open spec fn p_args_items(toks: Seq<TokenModel>, i: int) -> ListOut
    decreases fuel(toks, i), 8int,
{
    if !ok_state(toks, i) {
        ListOut::Fail(dead_err(), i)
    } else {
        let (r, j) = p_expr(toks, i);
        match r {
            POut::Fail(e) => ListOut::Fail(e, j),
            POut::Node(n) => if i < j && j < toks.len() {
                if toks[j].ty is Comma {
                    match p_args_items(toks, j + 1) {
                        ListOut::Fail(e, j2) => ListOut::Fail(e, j2),
                        ListOut::Items(rest, j2) => ListOut::Items(seq![n] + rest, j2),
                    }
                } else {
                    ListOut::Items(seq![n], j)
                }
            } else {
                ListOut::Fail(dead_err(), j)
            },
        }
    }
}

/// The bracketed argument list of a call, standing on the opening
/// bracket; the list may be empty.
pub open spec fn p_args(toks: Seq<TokenModel>, i: int) -> ListOut
    decreases fuel(toks, i), 9int,
{
    if !ok_state(toks, i) {
        ListOut::Fail(dead_err(), i)
    } else if !(i + 1 < toks.len()) {
        ListOut::Fail(dead_err(), i + 1)
    } else if toks[i + 1].ty is RBracket {
        ListOut::Items(Seq::empty(), i + 2)
    } else {
        match p_args_items(toks, i + 1) {
            ListOut::Fail(e, j) => ListOut::Fail(e, j),
            ListOut::Items(items, j) => if 0 <= j < toks.len() {
                if toks[j].ty is RBracket {
                    ListOut::Items(items, j + 1)
                } else {
                    ListOut::Fail(
                        ErrorModel {
                            kind: ErrorKind::Syntax,
                            msg: "expected ',' or ']'"@,
                            span: toks[j].span,
                        },
                        j,
                    )
                }
            } else {
                ListOut::Fail(dead_err(), j)
            },
        }
    }
}

/// An atom, followed — only when the atom was a bare variable — by an
/// optional `:`-separated parameter list and a bracketed argument list.
/// A parameter list not followed by an opening bracket is a syntax
/// error; a bare variable with neither is just the variable.
pub open spec fn p_call(toks: Seq<TokenModel>, i: int) -> (POut, int)
    decreases fuel(toks, i), 1int,
{
    if !ok_state(toks, i) {
        stuck(i)
    } else {
        let start = toks[i].span.pos_1;
        let (r, j) = p_atom(toks, i);
        match r {
            POut::Fail(e) => (POut::Fail(e), j),
            POut::Node(a) => match a {
                NodeModel::Variable { name } => if !(i < j && j < toks.len()) {
                    stuck(j)
                } else {
                    if toks[j].ty is Colon {
                        match p_params(toks, j) {
                            ListOut::Fail(e, j2) => (POut::Fail(e), j2),
                            ListOut::Items(ps, j2) => if i < j2 && j2 < toks.len() {
                                if toks[j2].ty is LBracket {
                                    match p_args(toks, j2) {
                                        ListOut::Fail(e, j3) => (POut::Fail(e), j3),
                                        ListOut::Items(args, j3) => if 0 <= j3 < toks.len() {
                                            (
                                                POut::Node(
                                                    NodeModel::Call {
                                                        name,
                                                        params: ps,
                                                        args,
                                                        span: Span {
                                                            pos_1: start,
                                                            pos_2: toks[j3].span.pos_2,
                                                        },
                                                    },
                                                ),
                                                j3,
                                            )
                                        } else {
                                            stuck(j3)
                                        },
                                    }
                                } else {
                                    (syn("expected ':' or '['"@, toks[j2].span), j2)
                                }
                            } else {
                                stuck(j2)
                            },
                        }
                    } else if toks[j].ty is LBracket {
                        match p_args(toks, j) {
                            ListOut::Fail(e, j3) => (POut::Fail(e), j3),
                            ListOut::Items(args, j3) => if 0 <= j3 < toks.len() {
                                (
                                    POut::Node(
                                        NodeModel::Call {
                                            name,
                                            params: Seq::empty(),
                                            args,
                                            span: Span { pos_1: start, pos_2: toks[j3].span.pos_2 },
                                        },
                                    ),
                                    j3,
                                )
                            } else {
                                stuck(j3)
                            },
                        }
                    } else {
                        (POut::Node(NodeModel::Variable { name }), j)
                    }
                },
                _ => (POut::Node(a), j),
            },
        }
    }
}

/// The exponentiation chain over calls, grouping to the left.
pub open spec fn p_factor_loop(toks: Seq<TokenModel>, left: NodeModel, i: int) -> (POut, int)
    decreases fuel(toks, i), 2int,
{
    if !ok_state(toks, i) {
        stuck(i)
    } else {
        let t = toks[i];
        if t.ty is Pow {
            let (r, j) = p_call(toks, i + 1);
            match r {
                POut::Fail(e) => (POut::Fail(e), j),
                POut::Node(right) => {
                    let left2 = NodeModel::BinaryOp {
                        token: t,
                        left: Box::new(left),
                        right: Box::new(right),
                    };
                    if i < j {
                        p_factor_loop(toks, left2, j)
                    } else {
                        stuck(j)
                    }
                },
            }
        } else {
            (POut::Node(left), i)
        }
    }
}

pub open spec fn p_factor(toks: Seq<TokenModel>, i: int) -> (POut, int)
    decreases fuel(toks, i), 3int,
{
    if !ok_state(toks, i) {
        stuck(i)
    } else {
        let (r, j) = p_call(toks, i);
        match r {
            POut::Fail(e) => (POut::Fail(e), j),
            POut::Node(n) => if i <= j {
                p_factor_loop(toks, n, j)
            } else {
                stuck(j)
            },
        }
    }
}

/// The multiplicative chain over factors. An explicit `*` or `/`
/// combines as usual. An additive operator always ends the chain. Any
/// other token is tried as an implicit factor: success combines through
/// a synthesized multiplication token one column to the left; a failure
/// that consumed nothing ends the chain (or retries once after an
/// explicit combination); a failure that consumed tokens is the error.
pub open spec fn p_term_loop(toks: Seq<TokenModel>, left: NodeModel, i: int) -> (POut, int)
    decreases fuel(toks, i), 4int,
{
    if !ok_state(toks, i) {
        stuck(i)
    } else {
        let t = toks[i];
        if t.ty is Mul || t.ty is Div {
            let (r, j) = p_factor(toks, i + 1);
            match r {
                POut::Fail(e) => (POut::Fail(e), j),
                POut::Node(right) => {
                    let left2 = NodeModel::BinaryOp {
                        token: t,
                        left: Box::new(left),
                        right: Box::new(right),
                    };
                    if !(i < j && j < toks.len()) {
                        stuck(j)
                    } else {
                        if toks[j].ty is Add || toks[j].ty is Sub {
                            (POut::Node(left2), j)
                        } else {
                            let (r3, j3) = p_factor(toks, j);
                            match r3 {
                                POut::Node(right3) => {
                                    let left3 = NodeModel::BinaryOp {
                                        token: TokenModel {
                                            ty: TokenTypeModel::Mul,
                                            span: shifted_left(toks[j].span),
                                        },
                                        left: Box::new(left2),
                                        right: Box::new(right3),
                                    };
                                    if j < j3 {
                                        p_term_loop(toks, left3, j3)
                                    } else {
                                        stuck(j3)
                                    }
                                },
                                POut::Fail(e) => if j3 == j {
                                    p_term_loop(toks, left2, j)
                                } else {
                                    (POut::Fail(e), j3)
                                },
                            }
                        }
                    }
                },
            }
        } else if t.ty is Add || t.ty is Sub {
            (POut::Node(left), i)
        } else {
            let (r3, j3) = p_factor(toks, i);
            match r3 {
                POut::Node(right3) => {
                    let left3 = NodeModel::BinaryOp {
                        token: TokenModel {
                            ty: TokenTypeModel::Mul,
                            span: shifted_left(toks[i].span),
                        },
                        left: Box::new(left),
                        right: Box::new(right3),
                    };
                    if i < j3 {
                        p_term_loop(toks, left3, j3)
                    } else {
                        stuck(j3)
                    }
                },
                POut::Fail(e) => if j3 == i {
                    (POut::Node(left), i)
                } else {
                    (POut::Fail(e), j3)
                },
            }
        }
    }
}

pub open spec fn p_term(toks: Seq<TokenModel>, i: int) -> (POut, int)
    decreases fuel(toks, i), 5int,
{
    if !ok_state(toks, i) {
        stuck(i)
    } else {
        let (r, j) = p_factor(toks, i);
        match r {
            POut::Fail(e) => (POut::Fail(e), j),
            POut::Node(n) => if i <= j {
                p_term_loop(toks, n, j)
            } else {
                stuck(j)
            },
        }
    }
}

/// The additive chain over terms, grouping to the left.
pub open spec fn p_expr_loop(toks: Seq<TokenModel>, left: NodeModel, i: int) -> (POut, int)
    decreases fuel(toks, i), 6int,
{
    if !ok_state(toks, i) {
        stuck(i)
    } else {
        let t = toks[i];
        if t.ty is Add || t.ty is Sub {
            let (r, j) = p_term(toks, i + 1);
            match r {
                POut::Fail(e) => (POut::Fail(e), j),
                POut::Node(right) => {
                    let left2 = NodeModel::BinaryOp {
                        token: t,
                        left: Box::new(left),
                        right: Box::new(right),
                    };
                    if i < j {
                        p_expr_loop(toks, left2, j)
                    } else {
                        stuck(j)
                    }
                },
            }
        } else {
            (POut::Node(left), i)
        }
    }
}

pub open spec fn p_expr(toks: Seq<TokenModel>, i: int) -> (POut, int)
    decreases fuel(toks, i), 7int,
{
    if !ok_state(toks, i) {
        stuck(i)
    } else {
        let (r, j) = p_term(toks, i);
        match r {
            POut::Fail(e) => (POut::Fail(e), j),
            POut::Node(n) => if i <= j {
                p_expr_loop(toks, n, j)
            } else {
                stuck(j)
            },
        }
    }
}

/// The chain of comparison operators over additive expressions,
/// grouping to the left.
pub open spec fn p_stmt_loop(toks: Seq<TokenModel>, left: NodeModel, i: int) -> (POut, int)
    decreases fuel(toks, i), 8int,
{
    if !ok_state(toks, i) {
        stuck(i)
    } else {
        let t = toks[i];
        if t.ty is Equals || t.ty is NotEquals || t.ty is GreaterThan || t.ty is LessThan
            || t.ty is GreaterThanEq || t.ty is LessThanEq {
            let (r, j) = p_expr(toks, i + 1);
            match r {
                POut::Fail(e) => (POut::Fail(e), j),
                POut::Node(right) => {
                    let left2 = NodeModel::BinaryOp {
                        token: t,
                        left: Box::new(left),
                        right: Box::new(right),
                    };
                    if i < j {
                        p_stmt_loop(toks, left2, j)
                    } else {
                        stuck(j)
                    }
                },
            }
        } else {
            (POut::Node(left), i)
        }
    }
}

pub open spec fn p_stmt(toks: Seq<TokenModel>, i: int) -> (POut, int)
    decreases fuel(toks, i), 9int,
{
    if !ok_state(toks, i) {
        stuck(i)
    } else {
        let (r, j) = p_expr(toks, i);
        match r {
            POut::Fail(e) => (POut::Fail(e), j),
            POut::Node(n) => if i <= j {
                p_stmt_loop(toks, n, j)
            } else {
                stuck(j)
            },
        }
    }
}

/// A whole statement: a comparison chain that must use up every token
/// before the end-of-input marker.
pub open spec fn p_parse(toks: Seq<TokenModel>, i: int) -> (POut, int)
    decreases fuel(toks, i), 10int,
{
    if !ok_state(toks, i) {
        stuck(i)
    } else {
        let (r, j) = p_stmt(toks, i);
        match r {
            POut::Fail(e) => (POut::Fail(e), j),
            POut::Node(n) => if 0 <= j < toks.len() {
                if toks[j].ty is Eof {
                    (POut::Node(n), j)
                } else {
                    (syn("expected '+', '-', '*', '/', or '^'"@, toks[j].span), j)
                }
            } else {
                stuck(j)
            },
        }
    }
}

/// A token whose kind is not the end-of-input marker cannot be the last.
proof fn lemma_not_eof_not_last(toks: Seq<TokenModel>, i: int)
    requires
        wf_toks(toks),
        0 <= i < toks.len(),
        !(toks[i].ty is Eof),
    ensures
        i + 1 < toks.len(),
{
}

/// How an executable step relates to its mirror: same next position, and
/// the same node or error up to views.
pub open spec fn matches_pout(out: (Result<Node, Error>, usize), m: (POut, int)) -> bool {
    &&& out.1 == m.1
    &&& match m.0 {
        POut::Node(n) => out.0 matches Ok(node) && node@ == n,
        POut::Fail(e) => out.0 matches Err(err) && err@ == e,
    }
}

fn atom(toks: &Vec<Token>, i: usize) -> (out: (Result<Node, Error>, usize))
    requires
        wf_toks(views(toks@)),
        i < toks@.len(),
    ensures
        matches_pout(out, p_atom(views(toks@), i as int)),
        i <= out.1 < toks@.len(),
        out.0 is Ok ==> out.1 > i,
    decreases toks@.len() - i, 0int,
{
    // Binding the length records that it fits a machine word.
    let _n_len = toks.len();
    let ghost tm = views(toks@);
    let t = toks[i].clone();
    proof {
        assert(t@ == tm[i as int]);
    }
    match &t.ty {
        TokenType::Decimal(_) => {
            proof {
                lemma_not_eof_not_last(tm, i as int);
            }
            (Ok(Node::Constant { token: t }), i + 1)
        },
        TokenType::Identifier(_) => {
            proof {
                lemma_not_eof_not_last(tm, i as int);
            }
            (Ok(Node::Variable { name: t }), i + 1)
        },
        TokenType::Add | TokenType::Sub => {
            proof {
                lemma_not_eof_not_last(tm, i as int);
            }
            let (r, j) = atom(toks, i + 1);
            match r {
                Ok(n) => (Ok(Node::UnaryOp { token: t, node: Box::new(n) }), j),
                Err(e) => (Err(e), j),
            }
        },
        TokenType::LParen => {
            proof {
                lemma_not_eof_not_last(tm, i as int);
            }
            let (r, j) = expr(toks, i + 1);
            match r {
                Err(e) => (Err(e), j),
                Ok(n) => {
                    proof {
                        assert(toks@[j as int]@ == tm[j as int]);
                    }
                    if matches!(&toks[j].ty, TokenType::RParen) {
                        proof {
                            lemma_not_eof_not_last(tm, j as int);
                        }
                        (Ok(n), j + 1)
                    } else {
                        (Err(Error::Syntax(String::from_str("expected ')'"), toks[j].span)), j)
                    }
                },
            }
        },
        _ => {
            (Err(Error::Syntax(String::from_str("expected decimal, '+', '-' or '('"), t.span)), i)
        },
    }
}

fn call_params(toks: &Vec<Token>, i: usize) -> (out: (Result<Vec<Node>, Error>, usize))
    requires
        wf_toks(views(toks@)),
        i < toks@.len(),
        !(views(toks@)[i as int].ty is Eof),
    ensures
        i <= out.1 < toks@.len(),
        match p_params(views(toks@), i as int) {
            ListOut::Items(ps, j) => out.0 matches Ok(v) && nodes_view(v@) == ps && out.1 == j
                && out.1 > i,
            ListOut::Fail(e, j) => out.0 matches Err(err) && err@ == e && out.1 == j,
        },
    decreases toks@.len() - i, 8int,
{
    // Binding the length records that it fits a machine word.
    let _n_len = toks.len();
    let ghost tm = views(toks@);
    proof {
        assert(tm[i as int] == toks@[i as int]@);
        lemma_not_eof_not_last(tm, i as int);
    }
    let (r, j) = expr(toks, i + 1);
    match r {
        Err(e) => (Err(e), j),
        Ok(n) => {
            proof {
                assert(toks@[j as int]@ == tm[j as int]);
            }
            if matches!(&toks[j].ty, TokenType::Colon) {
                let (r2, j2) = call_params(toks, j);
                match r2 {
                    Err(e) => (Err(e), j2),
                    Ok(rest) => {
                        let ghost restseq = rest@;
                        let ghost restm = nodes_view(rest@);
                        let mut v = rest;
                        v.insert(0, n);
                        proof {
                            assert(v@.drop_first() =~= restseq);
                            assert(v@ =~= seq![v@[0]] + restseq);
                            lemma_nodes_view(v@);
                            lemma_nodes_view(restseq);
                            assert(nodes_view(v@) =~= seq![node_view(v@[0])] + restm);
                        }
                        (Ok(v), j2)
                    },
                }
            } else {
                let v: Vec<Node> = vec![n];
                proof {
                    lemma_nodes_view(v@);
                    assert(nodes_view(v@) =~= seq![node_view(v@[0])]);
                }
                (Ok(v), j)
            }
        },
    }
}

fn call_args_items(toks: &Vec<Token>, i: usize) -> (out: (Result<Vec<Node>, Error>, usize))
    requires
        wf_toks(views(toks@)),
        i < toks@.len(),
    ensures
        i <= out.1 < toks@.len(),
        match p_args_items(views(toks@), i as int) {
            ListOut::Items(ps, j) => out.0 matches Ok(v) && nodes_view(v@) == ps && out.1 == j
                && out.1 > i,
            ListOut::Fail(e, j) => out.0 matches Err(err) && err@ == e && out.1 == j,
        },
    decreases toks@.len() - i, 8int,
{
    // Binding the length records that it fits a machine word.
    let _n_len = toks.len();
    let ghost tm = views(toks@);
    let (r, j) = expr(toks, i);
    match r {
        Err(e) => (Err(e), j),
        Ok(n) => {
            proof {
                assert(toks@[j as int]@ == tm[j as int]);
            }
            if matches!(&toks[j].ty, TokenType::Comma) {
                proof {
                    lemma_not_eof_not_last(tm, j as int);
                }
                let (r2, j2) = call_args_items(toks, j + 1);
                match r2 {
                    Err(e) => (Err(e), j2),
                    Ok(rest) => {
                        let ghost restseq = rest@;
                        let ghost restm = nodes_view(rest@);
                        let mut v = rest;
                        v.insert(0, n);
                        proof {
                            assert(v@.drop_first() =~= restseq);
                            assert(v@ =~= seq![v@[0]] + restseq);
                            lemma_nodes_view(v@);
                            lemma_nodes_view(restseq);
                            assert(nodes_view(v@) =~= seq![node_view(v@[0])] + restm);
                        }
                        (Ok(v), j2)
                    },
                }
            } else {
                let v: Vec<Node> = vec![n];
                proof {
                    lemma_nodes_view(v@);
                    assert(nodes_view(v@) =~= seq![node_view(v@[0])]);
                }
                (Ok(v), j)
            }
        },
    }
}

fn call_args(toks: &Vec<Token>, i: usize) -> (out: (Result<Vec<Node>, Error>, usize))
    requires
        wf_toks(views(toks@)),
        i < toks@.len(),
        !(views(toks@)[i as int].ty is Eof),
    ensures
        i <= out.1 < toks@.len(),
        match p_args(views(toks@), i as int) {
            ListOut::Items(ps, j) => out.0 matches Ok(v) && nodes_view(v@) == ps && out.1 == j
                && out.1 > i,
            ListOut::Fail(e, j) => out.0 matches Err(err) && err@ == e && out.1 == j,
        },
    decreases toks@.len() - i, 9int,
{
    // Binding the length records that it fits a machine word.
    let _n_len = toks.len();
    let ghost tm = views(toks@);
    proof {
        lemma_not_eof_not_last(tm, i as int);
        assert(toks@[i + 1]@ == tm[i + 1]);
    }
    if matches!(&toks[i + 1].ty, TokenType::RBracket) {
        proof {
            lemma_not_eof_not_last(tm, i + 1);
            assert(nodes_view(Seq::<Node>::empty()) =~= Seq::<NodeModel>::empty());
        }
        let v: Vec<Node> = Vec::new();
        (Ok(v), i + 2)
    } else {
        let (r, j) = call_args_items(toks, i + 1);
        match r {
            Err(e) => (Err(e), j),
            Ok(items) => {
                proof {
                    assert(toks@[j as int]@ == tm[j as int]);
                }
                if matches!(&toks[j].ty, TokenType::RBracket) {
                    proof {
                        lemma_not_eof_not_last(tm, j as int);
                    }
                    (Ok(items), j + 1)
                } else {
                    (Err(Error::Syntax(String::from_str("expected ',' or ']'"), toks[j].span)), j)
                }
            },
        }
    }
}

#[verifier::rlimit(60)]
fn call(toks: &Vec<Token>, i: usize) -> (out: (Result<Node, Error>, usize))
    requires
        wf_toks(views(toks@)),
        i < toks@.len(),
    ensures
        matches_pout(out, p_call(views(toks@), i as int)),
        i <= out.1 < toks@.len(),
        out.0 is Ok ==> out.1 > i,
    decreases toks@.len() - i, 1int,
{
    // Binding the length records that it fits a machine word.
    let _n_len = toks.len();
    let ghost tm = views(toks@);
    let start = toks[i].span.pos_1;
    proof {
        assert(toks@[i as int]@ == tm[i as int]);
    }
    let (r, j) = atom(toks, i);
    match r {
        Err(e) => (Err(e), j),
        Ok(a) => {
            match a {
                Node::Variable { name } => {
                    proof {
                        assert(toks@[j as int]@ == tm[j as int]);
                    }
                    if matches!(&toks[j].ty, TokenType::Colon) {
                        let (r2, j2) = call_params(toks, j);
                        match r2 {
                            Err(e) => (Err(e), j2),
                            Ok(ps) => {
                                proof {
                                    assert(toks@[j2 as int]@ == tm[j2 as int]);
                                }
                                if matches!(&toks[j2].ty, TokenType::LBracket) {
                                    let (r3, j3) = call_args(toks, j2);
                                    match r3 {
                                        Err(e) => (Err(e), j3),
                                        Ok(args) => {
                                            proof {
                                                assert(toks@[j3 as int]@ == tm[j3 as int]);
                                            }
                                            let end = toks[j3].span.pos_2;
                                            (
                                                Ok(
                                                    Node::Call {
                                                        name,
                                                        params: ps,
                                                        args,
                                                        span: Span::new(
                                                            start,
                                                            end,
                                                        ),
                                                    },
                                                ),
                                                j3,
                                            )
                                        },
                                    }
                                } else {
                                    (
                                        Err(
                                            Error::Syntax(
                                                String::from_str("expected ':' or '['"),
                                                toks[j2].span,
                                            ),
                                        ),
                                        j2,
                                    )
                                }
                            },
                        }
                    } else if matches!(&toks[j].ty, TokenType::LBracket) {
                        let (r3, j3) = call_args(toks, j);
                        match r3 {
                            Err(e) => (Err(e), j3),
                            Ok(args) => {
                                proof {
                                    assert(toks@[j3 as int]@ == tm[j3 as int]);
                                    assert(nodes_view(Seq::<Node>::empty())
                                        =~= Seq::<NodeModel>::empty());
                                }
                                let end = toks[j3].span.pos_2;
                                let ps: Vec<Node> = Vec::new();
                                (
                                    Ok(Node::Call { name, params: ps, args, span: Span::new(start, end) }),
                                    j3,
                                )
                            },
                        }
                    } else {
                        (Ok(Node::Variable { name }), j)
                    }
                },
                other => (Ok(other), j),
            }
        },
    }
}

fn factor_loop(toks: &Vec<Token>, left: Node, i: usize) -> (out: (Result<Node, Error>, usize))
    requires
        wf_toks(views(toks@)),
        i < toks@.len(),
    ensures
        matches_pout(out, p_factor_loop(views(toks@), left@, i as int)),
        i <= out.1 < toks@.len(),
    decreases toks@.len() - i, 2int,
{
    // Binding the length records that it fits a machine word.
    let _n_len = toks.len();
    let ghost tm = views(toks@);
    proof {
        assert(toks@[i as int]@ == tm[i as int]);
    }
    if matches!(&toks[i].ty, TokenType::Pow) {
        let t = toks[i].clone();
        proof {
            lemma_not_eof_not_last(tm, i as int);
        }
        let (r, j) = call(toks, i + 1);
        match r {
            Err(e) => (Err(e), j),
            Ok(right) => {
                let left2 = Node::BinaryOp { token: t, left: Box::new(left), right: Box::new(right) };
                factor_loop(toks, left2, j)
            },
        }
    } else {
        (Ok(left), i)
    }
}

fn factor(toks: &Vec<Token>, i: usize) -> (out: (Result<Node, Error>, usize))
    requires
        wf_toks(views(toks@)),
        i < toks@.len(),
    ensures
        matches_pout(out, p_factor(views(toks@), i as int)),
        i <= out.1 < toks@.len(),
        out.0 is Ok ==> out.1 > i,
    decreases toks@.len() - i, 3int,
{
    // Binding the length records that it fits a machine word.
    let _n_len = toks.len();
    let (r, j) = call(toks, i);
    match r {
        Err(e) => (Err(e), j),
        Ok(n) => factor_loop(toks, n, j),
    }
}

/// The synthesized implicit-multiplication token, one column left of the
/// token at `i`.
fn synth_mul(toks: &Vec<Token>, i: usize) -> (t: Token)
    requires
        i < toks@.len(),
    ensures
        t@ == (TokenModel {
            ty: TokenTypeModel::Mul,
            span: shifted_left(views(toks@)[i as int].span),
        }),
{
    proof {
        assert(toks@[i as int]@ == views(toks@)[i as int]);
    }
    let sp = toks[i].span;
    let c1 = if sp.pos_1.column >= 1 { sp.pos_1.column - 1 } else { usize::MAX };
    let c2 = if sp.pos_2.column >= 1 { sp.pos_2.column - 1 } else { usize::MAX };
    let span = Span {
        pos_1: Position { index: sp.pos_1.index, line: sp.pos_1.line, column: c1 },
        pos_2: Position { index: sp.pos_2.index, line: sp.pos_2.line, column: c2 },
    };
    Token { ty: TokenType::Mul, span }
}

#[verifier::rlimit(100)]
fn term_loop(toks: &Vec<Token>, left: Node, i: usize) -> (out: (Result<Node, Error>, usize))
    requires
        wf_toks(views(toks@)),
        i < toks@.len(),
    ensures
        matches_pout(out, p_term_loop(views(toks@), left@, i as int)),
        i <= out.1 < toks@.len(),
    decreases toks@.len() - i, 4int,
{
    // Binding the length records that it fits a machine word.
    let _n_len = toks.len();
    let ghost tm = views(toks@);
    proof {
        assert(toks@[i as int]@ == tm[i as int]);
    }
    if matches!(&toks[i].ty, TokenType::Mul | TokenType::Div) {
        let t = toks[i].clone();
        proof {
            lemma_not_eof_not_last(tm, i as int);
        }
        let (r, j) = factor(toks, i + 1);
        match r {
            Err(e) => (Err(e), j),
            Ok(right) => {
                let left2 = Node::BinaryOp { token: t, left: Box::new(left), right: Box::new(right) };
                proof {
                    assert(toks@[j as int]@ == tm[j as int]);
                }
                if matches!(&toks[j].ty, TokenType::Add | TokenType::Sub) {
                    (Ok(left2), j)
                } else {
                    let synth = synth_mul(toks, j);
                    let (r3, j3) = factor(toks, j);
                    match r3 {
                        Ok(right3) => {
                            let left3 = Node::BinaryOp {
                                token: synth,
                                left: Box::new(left2),
                                right: Box::new(right3),
                            };
                            term_loop(toks, left3, j3)
                        },
                        Err(e) => {
                            if j3 == j {
                                term_loop(toks, left2, j)
                            } else {
                                (Err(e), j3)
                            }
                        },
                    }
                }
            },
        }
    } else if matches!(&toks[i].ty, TokenType::Add | TokenType::Sub) {
        (Ok(left), i)
    } else {
        let synth = synth_mul(toks, i);
        let (r3, j3) = factor(toks, i);
        match r3 {
            Ok(right3) => {
                let left3 = Node::BinaryOp {
                    token: synth,
                    left: Box::new(left),
                    right: Box::new(right3),
                };
                term_loop(toks, left3, j3)
            },
            Err(e) => {
                if j3 == i {
                    (Ok(left), i)
                } else {
                    (Err(e), j3)
                }
            },
        }
    }
}

fn term(toks: &Vec<Token>, i: usize) -> (out: (Result<Node, Error>, usize))
    requires
        wf_toks(views(toks@)),
        i < toks@.len(),
    ensures
        matches_pout(out, p_term(views(toks@), i as int)),
        i <= out.1 < toks@.len(),
        out.0 is Ok ==> out.1 > i,
    decreases toks@.len() - i, 5int,
{
    // Binding the length records that it fits a machine word.
    let _n_len = toks.len();
    let (r, j) = factor(toks, i);
    match r {
        Err(e) => (Err(e), j),
        Ok(n) => term_loop(toks, n, j),
    }
}

fn expr_loop(toks: &Vec<Token>, left: Node, i: usize) -> (out: (Result<Node, Error>, usize))
    requires
        wf_toks(views(toks@)),
        i < toks@.len(),
    ensures
        matches_pout(out, p_expr_loop(views(toks@), left@, i as int)),
        i <= out.1 < toks@.len(),
    decreases toks@.len() - i, 6int,
{
    // Binding the length records that it fits a machine word.
    let _n_len = toks.len();
    let ghost tm = views(toks@);
    proof {
        assert(toks@[i as int]@ == tm[i as int]);
    }
    if matches!(&toks[i].ty, TokenType::Add | TokenType::Sub) {
        let t = toks[i].clone();
        proof {
            lemma_not_eof_not_last(tm, i as int);
        }
        let (r, j) = term(toks, i + 1);
        match r {
            Err(e) => (Err(e), j),
            Ok(right) => {
                let left2 = Node::BinaryOp { token: t, left: Box::new(left), right: Box::new(right) };
                expr_loop(toks, left2, j)
            },
        }
    } else {
        (Ok(left), i)
    }
}

fn expr(toks: &Vec<Token>, i: usize) -> (out: (Result<Node, Error>, usize))
    requires
        wf_toks(views(toks@)),
        i < toks@.len(),
    ensures
        matches_pout(out, p_expr(views(toks@), i as int)),
        i <= out.1 < toks@.len(),
        out.0 is Ok ==> out.1 > i,
    decreases toks@.len() - i, 7int,
{
    // Binding the length records that it fits a machine word.
    let _n_len = toks.len();
    let (r, j) = term(toks, i);
    match r {
        Err(e) => (Err(e), j),
        Ok(n) => expr_loop(toks, n, j),
    }
}

fn stmt_loop(toks: &Vec<Token>, left: Node, i: usize) -> (out: (Result<Node, Error>, usize))
    requires
        wf_toks(views(toks@)),
        i < toks@.len(),
    ensures
        matches_pout(out, p_stmt_loop(views(toks@), left@, i as int)),
        i <= out.1 < toks@.len(),
    decreases toks@.len() - i, 8int,
{
    // Binding the length records that it fits a machine word.
    let _n_len = toks.len();
    let ghost tm = views(toks@);
    proof {
        assert(toks@[i as int]@ == tm[i as int]);
    }
    if matches!(
        &toks[i].ty,
        TokenType::Equals
            | TokenType::NotEquals
            | TokenType::GreaterThan
            | TokenType::LessThan
            | TokenType::GreaterThanEq
            | TokenType::LessThanEq
    ) {
        let t = toks[i].clone();
        proof {
            lemma_not_eof_not_last(tm, i as int);
        }
        let (r, j) = expr(toks, i + 1);
        match r {
            Err(e) => (Err(e), j),
            Ok(right) => {
                let left2 = Node::BinaryOp { token: t, left: Box::new(left), right: Box::new(right) };
                stmt_loop(toks, left2, j)
            },
        }
    } else {
        (Ok(left), i)
    }
}

fn stmt(toks: &Vec<Token>, i: usize) -> (out: (Result<Node, Error>, usize))
    requires
        wf_toks(views(toks@)),
        i < toks@.len(),
    ensures
        matches_pout(out, p_stmt(views(toks@), i as int)),
        i <= out.1 < toks@.len(),
        out.0 is Ok ==> out.1 > i,
    decreases toks@.len() - i, 9int,
{
    // Binding the length records that it fits a machine word.
    let _n_len = toks.len();
    let (r, j) = expr(toks, i);
    match r {
        Err(e) => (Err(e), j),
        Ok(n) => stmt_loop(toks, n, j),
    }
}

fn parse_at(toks: &Vec<Token>, i: usize) -> (out: (Result<Node, Error>, usize))
    requires
        wf_toks(views(toks@)),
        i < toks@.len(),
    ensures
        matches_pout(out, p_parse(views(toks@), i as int)),
        i <= out.1 < toks@.len(),
    decreases toks@.len() - i, 10int,
{
    // Binding the length records that it fits a machine word.
    let _n_len = toks.len();
    let ghost tm = views(toks@);
    let (r, j) = stmt(toks, i);
    match r {
        Err(e) => (Err(e), j),
        Ok(n) => {
            proof {
                assert(toks@[j as int]@ == tm[j as int]);
            }
            if matches!(&toks[j].ty, TokenType::Eof) {
                (Ok(n), j)
            } else {
                (
                    Err(
                        Error::Syntax(
                            String::from_str("expected '+', '-', '*', '/', or '^'"),
                            toks[j].span,
                        ),
                    ),
                    j,
                )
            }
        },
    }
}

/// The parser's state: the token stream, the cursor, and a copy of the
/// token under the cursor.
pub struct Parser {
    pub tokens: Vec<Token>,
    pub token_index: usize,
    pub current_token: Token,
}

impl Parser {
    /// The parser stands on a real token of a stream that ends in the
    /// end-of-input marker, and its copy of the current token is true.
    pub open spec fn wf(self) -> bool {
        &&& wf_toks(views(self.tokens@))
        &&& self.token_index < self.tokens@.len()
        &&& self.current_token@ == self.tokens@[self.token_index as int]@
    }

    /// A parser standing on the first of the given tokens.
    pub fn new(tokens: Vec<Token>) -> (r: Parser)
        requires
            tokens@.len() >= 1,
        ensures
            r.tokens@ == tokens@,
            r.token_index == 0,
            r.current_token@ == tokens@[0]@,
    {
        Self { current_token: tokens[0].clone(), tokens, token_index: 0 }
    }

    /// Parses one whole statement from the current cursor on. The
    /// grammar, loosest first: a chain of comparisons over additive
    /// expressions, over multiplicative chains (with implicit
    /// multiplication by juxtaposition), over left-grouped
    /// exponentiations, over calls, over atoms. Every token before the
    /// end-of-input marker must be used, else the leftover token is a
    /// syntax error.
    pub fn parse(&mut self) -> (r: Result<Node, Error>)
        requires
            old(self).wf(),
        ensures
            final(self).wf(),
            final(self).tokens@ == old(self).tokens@,
            ({
                let (r0, j0) = p_parse(views(old(self).tokens@), old(self).token_index as int);
                &&& final(self).token_index == j0
                &&& match r0 {
                    POut::Node(n) => r matches Ok(node) && node@ == n,
                    POut::Fail(e) => r matches Err(err) && err@ == e,
                }
            }),
    {
        let (r, j) = parse_at(&self.tokens, self.token_index);
        self.token_index = j;
        self.current_token = self.tokens[j].clone();
        r
    }
}

} // verus!
