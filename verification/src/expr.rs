//! The semantic expression tree, the lowering pass that builds it from a
//! syntax tree, and its text rendering.

use vstd::prelude::*;

pub mod gcd;
pub mod simplify;

verus! {

use crate::error::span::Span;
use crate::error::Error;
use crate::error::ErrorKind;
use crate::error::ErrorModel;
use crate::lexer::token::Dec;
use crate::lexer::token::TokenType;
use crate::lexer::token::TokenTypeModel;
use crate::parser::node::Node;
use crate::parser::node::NodeModel;
use crate::utils::dec_digits;
use crate::utils::u64_to_string;
use vstd::string::StringExecFns;

/// The mathematical shape of an [`Expr`], with variable names as
/// character sequences.
pub ghost enum ExprModel {
    Integer(i64),
    Decimal(Dec),
    Variable(Seq<char>),
    Negation(Box<ExprModel>),
    Sum { left: Box<ExprModel>, right: Box<ExprModel> },
    Difference { left: Box<ExprModel>, right: Box<ExprModel> },
    Product { left: Box<ExprModel>, right: Box<ExprModel> },
    Ratio { numerator: Box<ExprModel>, denominator: Box<ExprModel> },
    Power { base: Box<ExprModel>, exp: Box<ExprModel> },
    Root { index: Box<ExprModel>, radicand: Box<ExprModel> },
    Equals { left: Box<ExprModel>, right: Box<ExprModel> },
    NotEquals { left: Box<ExprModel>, right: Box<ExprModel> },
    GreaterThan { left: Box<ExprModel>, right: Box<ExprModel> },
    LessThan { left: Box<ExprModel>, right: Box<ExprModel> },
    GreaterThanEq { left: Box<ExprModel>, right: Box<ExprModel> },
    LessThanEq { left: Box<ExprModel>, right: Box<ExprModel> },
}

/// A symbolic expression: exact integers, exact scaled decimals,
/// variables, and the arithmetic, rational, power, root and comparison
/// shapes over them. Every composite variant owns its children.
#[derive(Debug, PartialEq)]
pub enum Expr {
    Integer(i64),
    Decimal(Dec),
    Variable(String),
    Negation(Box<Expr>),
    Sum { left: Box<Expr>, right: Box<Expr> },
    Difference { left: Box<Expr>, right: Box<Expr> },
    Product { left: Box<Expr>, right: Box<Expr> },
    Ratio { numerator: Box<Expr>, denominator: Box<Expr> },
    Power { base: Box<Expr>, exp: Box<Expr> },
    Root { index: Box<Expr>, radicand: Box<Expr> },
    Equals { left: Box<Expr>, right: Box<Expr> },
    NotEquals { left: Box<Expr>, right: Box<Expr> },
    GreaterThan { left: Box<Expr>, right: Box<Expr> },
    LessThan { left: Box<Expr>, right: Box<Expr> },
    GreaterThanEq { left: Box<Expr>, right: Box<Expr> },
    LessThanEq { left: Box<Expr>, right: Box<Expr> },
}

/// The mathematical shape of an expression.
pub open spec fn expr_view(e: Expr) -> ExprModel
    decreases e,
{
    match e {
        Expr::Integer(c) => ExprModel::Integer(c),
        Expr::Decimal(d) => ExprModel::Decimal(d),
        Expr::Variable(s) => ExprModel::Variable(s@),
        Expr::Negation(v) => ExprModel::Negation(Box::new(expr_view(*v))),
        Expr::Sum { left, right } => ExprModel::Sum {
            left: Box::new(expr_view(*left)),
            right: Box::new(expr_view(*right)),
        },
        Expr::Difference { left, right } => ExprModel::Difference {
            left: Box::new(expr_view(*left)),
            right: Box::new(expr_view(*right)),
        },
        Expr::Product { left, right } => ExprModel::Product {
            left: Box::new(expr_view(*left)),
            right: Box::new(expr_view(*right)),
        },
        Expr::Ratio { numerator, denominator } => ExprModel::Ratio {
            numerator: Box::new(expr_view(*numerator)),
            denominator: Box::new(expr_view(*denominator)),
        },
        Expr::Power { base, exp } => ExprModel::Power {
            base: Box::new(expr_view(*base)),
            exp: Box::new(expr_view(*exp)),
        },
        Expr::Root { index, radicand } => ExprModel::Root {
            index: Box::new(expr_view(*index)),
            radicand: Box::new(expr_view(*radicand)),
        },
        Expr::Equals { left, right } => ExprModel::Equals {
            left: Box::new(expr_view(*left)),
            right: Box::new(expr_view(*right)),
        },
        Expr::NotEquals { left, right } => ExprModel::NotEquals {
            left: Box::new(expr_view(*left)),
            right: Box::new(expr_view(*right)),
        },
        Expr::GreaterThan { left, right } => ExprModel::GreaterThan {
            left: Box::new(expr_view(*left)),
            right: Box::new(expr_view(*right)),
        },
        Expr::LessThan { left, right } => ExprModel::LessThan {
            left: Box::new(expr_view(*left)),
            right: Box::new(expr_view(*right)),
        },
        Expr::GreaterThanEq { left, right } => ExprModel::GreaterThanEq {
            left: Box::new(expr_view(*left)),
            right: Box::new(expr_view(*right)),
        },
        Expr::LessThanEq { left, right } => ExprModel::LessThanEq {
            left: Box::new(expr_view(*left)),
            right: Box::new(expr_view(*right)),
        },
    }
}

impl View for Expr {
    type V = ExprModel;

    open spec fn view(&self) -> ExprModel {
        expr_view(*self)
    }
}

/// What lowering yields: an expression, or the error it stopped on.
pub ghost enum LowOut {
    Expr(ExprModel),
    Fail(ErrorModel),
}

/// Ten to the given power.
pub open spec fn pow10(n: nat) -> int
    decreases n,
{
    if n == 0 {
        1
    } else {
        10 * pow10((n - 1) as nat)
    }
}

/// How a numeric literal lowers: when its fractional part is below two
/// millionths, it becomes the nearest exact integer; otherwise it stays
/// an exact decimal.
pub open spec fn lower_dec(d: Dec) -> ExprModel {
    let p = pow10(d.scale as nat);
    let m = d.mant as int;
    if 500000 * (m % p) < p {
        ExprModel::Integer((m / p) as i64)
    } else {
        ExprModel::Decimal(d)
    }
}

/// Whether a binary-operator token lowers to an expression shape.
pub open spec fn is_bin_op(t: TokenTypeModel) -> bool {
    ||| t is Add
    ||| t is Sub
    ||| t is Mul
    ||| t is Div
    ||| t is Pow
    ||| t is GreaterThan
    ||| t is LessThan
    ||| t is GreaterThanEq
    ||| t is LessThanEq
    ||| t is Equals
    ||| t is NotEquals
}

/// The expression shape a binary-operator token lowers to.
pub open spec fn bin_shape(t: TokenTypeModel, l: ExprModel, r: ExprModel) -> ExprModel {
    let left = Box::new(l);
    let right = Box::new(r);
    match t {
        TokenTypeModel::Add => ExprModel::Sum { left, right },
        TokenTypeModel::Sub => ExprModel::Difference { left, right },
        TokenTypeModel::Mul => ExprModel::Product { left, right },
        TokenTypeModel::Div => ExprModel::Ratio { numerator: left, denominator: right },
        TokenTypeModel::Pow => ExprModel::Power { base: left, exp: right },
        TokenTypeModel::GreaterThan => ExprModel::GreaterThan { left, right },
        TokenTypeModel::LessThan => ExprModel::LessThan { left, right },
        TokenTypeModel::GreaterThanEq => ExprModel::GreaterThanEq { left, right },
        TokenTypeModel::LessThanEq => ExprModel::LessThanEq { left, right },
        TokenTypeModel::Equals => ExprModel::Equals { left, right },
        _ => ExprModel::NotEquals { left, right },
    }
}

/// The error for a syntax tree whose tokens do not fit their nodes; no
/// tree built by the parser holds one.
pub open spec fn malformed(span: Span) -> ErrorModel {
    ErrorModel { kind: ErrorKind::Syntax, msg: "malformed syntax tree"@, span }
}

/// The arity error for a built-in call.
pub open spec fn arity_err(prefix: Seq<char>, got: int, span: Span) -> ErrorModel {
    ErrorModel { kind: ErrorKind::InvalidCall, msg: prefix + dec_digits(got), span }
}

/// The error for a call of a name that is not a built-in.
pub open spec fn unimplemented_err(name: Seq<char>, span: Span) -> ErrorModel {
    ErrorModel {
        kind: ErrorKind::InvalidCall,
        msg: "unimplemented identifier '"@ + name + "'"@,
        span,
    }
}

/// How a syntax tree lowers to an expression. Numeric literals lower by
/// [`lower_dec`]; variables keep their names; both unary signs lower to
/// negation; binary operators map one-to-one to expression shapes; the
/// built-ins `sqrt`, `cbrt` and `root` lower to root expressions after
/// their argument and parameter counts are checked; any other called
/// name is reported as unimplemented.
pub open spec fn lower_node(n: NodeModel) -> LowOut
    decreases n,
{
    match n {
        NodeModel::Constant { token } => match token.ty {
            TokenTypeModel::Decimal(d) => LowOut::Expr(lower_dec(d)),
            _ => LowOut::Fail(malformed(token.span)),
        },
        NodeModel::Variable { name } => match name.ty {
            TokenTypeModel::Identifier(s) => LowOut::Expr(ExprModel::Variable(s)),
            _ => LowOut::Fail(malformed(name.span)),
        },
        NodeModel::UnaryOp { token, node } => match lower_node(*node) {
            LowOut::Fail(e) => LowOut::Fail(e),
            LowOut::Expr(v) => LowOut::Expr(ExprModel::Negation(Box::new(v))),
        },
        NodeModel::BinaryOp { token, left, right } => if !is_bin_op(token.ty) {
            LowOut::Fail(malformed(token.span))
        } else {
            match lower_node(*left) {
                LowOut::Fail(e) => LowOut::Fail(e),
                LowOut::Expr(l) => match lower_node(*right) {
                    LowOut::Fail(e) => LowOut::Fail(e),
                    LowOut::Expr(r) => LowOut::Expr(bin_shape(token.ty, l, r)),
                },
            }
        },
        NodeModel::Call { name, params, args, span } => match name.ty {
            TokenTypeModel::Identifier(s) => if s == "sqrt"@ || s == "cbrt"@ {
                if args.len() != 1 {
                    LowOut::Fail(arity_err("expected 1 argument, got "@, args.len() as int, span))
                } else if params.len() != 0 {
                    LowOut::Fail(
                        arity_err("expected 0 parameters, got "@, params.len() as int, span),
                    )
                } else {
                    match lower_node(args[0]) {
                        LowOut::Fail(e) => LowOut::Fail(e),
                        LowOut::Expr(a) => LowOut::Expr(
                            ExprModel::Root {
                                index: Box::new(
                                    ExprModel::Integer(
                                        if s == "sqrt"@ {
                                            2
                                        } else {
                                            3
                                        },
                                    ),
                                ),
                                radicand: Box::new(a),
                            },
                        ),
                    }
                }
            } else if s == "root"@ {
                if args.len() != 1 {
                    LowOut::Fail(arity_err("expected 1 argument, got "@, args.len() as int, span))
                } else if params.len() != 1 {
                    LowOut::Fail(
                        arity_err("expected 1 parameters, got "@, params.len() as int, span),
                    )
                } else {
                    match lower_node(params[0]) {
                        LowOut::Fail(e) => LowOut::Fail(e),
                        LowOut::Expr(ix) => match lower_node(args[0]) {
                            LowOut::Fail(e) => LowOut::Fail(e),
                            LowOut::Expr(a) => LowOut::Expr(
                                ExprModel::Root { index: Box::new(ix), radicand: Box::new(a) },
                            ),
                        },
                    }
                }
            } else {
                LowOut::Fail(unimplemented_err(s, span))
            },
            _ => LowOut::Fail(malformed(name.span)),
        },
    }
}

/// Ten to the given power, for exponents small enough that the value
/// fits an unsigned 128-bit integer.
pub(crate) fn pow10_u128(n: u32) -> (r: u128)
    requires
        n <= 24,
    ensures
        r == pow10(n as nat),
{
    let mut r: u128 = 1;
    let mut i: u32 = 0;
    while i < n
        invariant
            i <= n <= 24,
            r == pow10(i as nat),
        decreases n - i,
    {
        proof {
            lemma_pow10_mono((i + 1) as nat, 24);
            lemma_pow10_pos(i as nat);
            reveal_with_fuel(pow10, 27);
            assert(pow10(24) == 1_000_000_000_000_000_000_000_000int);
        }
        r = r * 10;
        i += 1;
    }
    r
}

/// Powers of ten are positive and grow with the exponent.
pub(crate) proof fn lemma_pow10_pos(n: nat)
    ensures
        pow10(n) >= 1,
        n >= 1 ==> pow10(n) >= 10,
    decreases n,
{
    if n > 0 {
        lemma_pow10_pos((n - 1) as nat);
    }
}

/// Small powers of ten fit comfortably in wide machine integers.
pub(crate) proof fn lemma_pow10_within(n: nat)
    ensures
        pow10(n) >= 1,
        n <= 19 ==> pow10(n) <= 10_000_000_000_000_000_000int,
{
    lemma_pow10_pos(n);
    if n <= 19 {
        lemma_pow10_mono(n, 19);
        reveal_with_fuel(pow10, 21);
        assert(pow10(19) == 10_000_000_000_000_000_000int);
    }
}

pub(crate) proof fn lemma_pow10_mono(a: nat, b: nat)
    requires
        a <= b,
    ensures
        pow10(a) <= pow10(b),
    decreases b,
{
    lemma_pow10_pos(a);
    if a < b {
        lemma_pow10_mono(a, (b - 1) as nat);
        lemma_pow10_pos((b - 1) as nat);
    }
}

/// Lowers a numeric literal: the nearest integer when the fractional
/// part is below two millionths, else the exact decimal unchanged.
#[verifier::rlimit(60)]
fn lower_dec_exec(d: Dec) -> (r: Expr)
    ensures
        r@ == lower_dec(d),
{
    let ghost p = pow10(d.scale as nat);
    let ghost m = d.mant as int;
    proof {
        lemma_pow10_pos(d.scale as nat);
        reveal_with_fuel(pow10, 27);
        assert(pow10(24) == 1_000_000_000_000_000_000_000_000int);
        assert(pow10(25) == 10_000_000_000_000_000_000_000_000int);
    }
    if d.scale == 0 {
        proof {
            vstd::arithmetic::div_mod::lemma_fundamental_div_mod_converse(m, 1, m, 0);
        }
        Expr::Integer(d.mant)
    } else if d.scale >= 25 {
        // The divisor dwarfs any 64-bit mantissa: a nonnegative mantissa
        // is within two millionths of zero, a negative one never is.
        proof {
            lemma_pow10_mono(25, d.scale as nat);
        }
        if d.mant >= 0 {
            proof {
                vstd::arithmetic::div_mod::lemma_fundamental_div_mod_converse(m, p, 0, m);
            }
            Expr::Integer(0)
        } else {
            proof {
                vstd::arithmetic::div_mod::lemma_fundamental_div_mod_converse(m, p, -1, m + p);
            }
            Expr::Decimal(d)
        }
    } else {
        let pu = pow10_u128(d.scale);
        proof {
            lemma_pow10_mono(d.scale as nat, 24);
        }
        if d.mant >= 0 {
            let mu = d.mant as u128;
            let q = mu / pu;
            let rem = mu % pu;
            proof {
                assert(q as int == m / p);
                assert(rem as int == m % p);
            }
            if 500000 * rem < pu {
                proof {
                    vstd::arithmetic::div_mod::lemma_remainder_lower(m, p);
                    vstd::arithmetic::div_mod::lemma_div_nonincreasing(m, p);
                    vstd::arithmetic::div_mod::lemma_div_pos_is_pos(m, p);
                }
                Expr::Integer(q as i64)
            } else {
                Expr::Decimal(d)
            }
        } else {
            let a = (-(d.mant as i128)) as u128;
            let q0 = a / pu;
            let r0 = a % pu;
            proof {
                vstd::arithmetic::div_mod::lemma_fundamental_div_mod(a as int, pu as int);
                assert(q0 <= 922337203685477581u128) by (nonlinear_arith)
                    requires
                        pu >= 10,
                        (a as int) == (pu as int) * (q0 as int) + (r0 as int),
                        r0 >= 0,
                        (a as int) <= 9223372036854775808int;
                assert(a as int == (pu as int) * ((a as int) / (pu as int)) + (a as int) % (
                pu as int));
                assert(q0 as int == (a as int) / (pu as int));
                assert(r0 as int == (a as int) % (pu as int));
                if r0 == 0 {
                    assert(m == (-(q0 as int)) * p + 0) by (nonlinear_arith)
                        requires
                            m == -(a as int),
                            a as int == p * (q0 as int) + (r0 as int),
                            r0 == 0;
                    vstd::arithmetic::div_mod::lemma_fundamental_div_mod_converse(
                        m,
                        p,
                        -(q0 as int),
                        0,
                    );
                } else {
                    assert(m == (-(q0 as int) - 1) * p + (p - (r0 as int))) by (nonlinear_arith)
                        requires
                            m == -(a as int),
                            a as int == p * (q0 as int) + (r0 as int),
                            0 < (r0 as int),
                            (r0 as int) < p;
                    vstd::arithmetic::div_mod::lemma_fundamental_div_mod_converse(
                        m,
                        p,
                        -(q0 as int) - 1,
                        p - (r0 as int),
                    );
                }
            }
            if r0 == 0 {
                Expr::Integer(-(q0 as i64))
            } else {
                let rem = pu - r0;
                if 500000 * rem < pu {
                    Expr::Integer(-(q0 as i64) - 1)
                } else {
                    Expr::Decimal(d)
                }
            }
        }
    }
}
/// Whether a binary-operator token lowers to an expression shape.
fn is_bin_op_exec(t: &TokenType) -> (r: bool)
    ensures
        r == is_bin_op(t@),
{
    matches!(
        t,
        TokenType::Add
            | TokenType::Sub
            | TokenType::Mul
            | TokenType::Div
            | TokenType::Pow
            | TokenType::GreaterThan
            | TokenType::LessThan
            | TokenType::GreaterThanEq
            | TokenType::LessThanEq
            | TokenType::Equals
            | TokenType::NotEquals
    )
}

/// Builds the expression shape a binary-operator token lowers to.
fn build_bin(t: &TokenType, l: Expr, r: Expr) -> (res: Expr)
    ensures
        res@ == bin_shape(t@, l@, r@),
{
    let left = Box::new(l);
    let right = Box::new(r);
    match t {
        TokenType::Add => Expr::Sum { left, right },
        TokenType::Sub => Expr::Difference { left, right },
        TokenType::Mul => Expr::Product { left, right },
        TokenType::Div => Expr::Ratio { numerator: left, denominator: right },
        TokenType::Pow => Expr::Power { base: left, exp: right },
        TokenType::GreaterThan => Expr::GreaterThan { left, right },
        TokenType::LessThan => Expr::LessThan { left, right },
        TokenType::GreaterThanEq => Expr::GreaterThanEq { left, right },
        TokenType::LessThanEq => Expr::LessThanEq { left, right },
        TokenType::Equals => Expr::Equals { left, right },
        _ => Expr::NotEquals { left, right },
    }
}

/// The arity error for a built-in call.
fn arity_error(prefix: &str, got: usize, span: Span) -> (r: Error)
    ensures
        r@ == arity_err(prefix@, got as int, span),
{
    let mut msg = String::from_str(prefix);
    let digits = u64_to_string(got as u64);
    msg.append(digits.as_str());
    Error::InvalidCall(msg, span)
}

/// Lowers a syntax-tree node, by structural recursion.
fn convert_node(n: &Node) -> (r: Result<Expr, Error>)
    ensures
        match lower_node(crate::parser::node::node_view(*n)) {
            LowOut::Expr(em) => r matches Ok(e) && e@ == em,
            LowOut::Fail(fm) => r matches Err(err) && err@ == fm,
        },
    decreases *n,
{
    match n {
        Node::Constant { token } => match &token.ty {
            TokenType::Decimal(d) => Ok(lower_dec_exec(*d)),
            _ => Err(Error::Syntax(String::from_str("malformed syntax tree"), token.span)),
        },
        Node::Variable { name } => match &name.ty {
            TokenType::Identifier(s) => Ok(Expr::Variable(s.clone())),
            _ => Err(Error::Syntax(String::from_str("malformed syntax tree"), name.span)),
        },
        Node::UnaryOp { token: _, node } => match convert_node(node) {
            Err(e) => Err(e),
            Ok(v) => Ok(Expr::Negation(Box::new(v))),
        },
        Node::BinaryOp { token, left, right } => {
            if !is_bin_op_exec(&token.ty) {
                Err(Error::Syntax(String::from_str("malformed syntax tree"), token.span))
            } else {
                match convert_node(left) {
                    Err(e) => Err(e),
                    Ok(l) => match convert_node(right) {
                        Err(e) => Err(e),
                        Ok(r2) => Ok(build_bin(&token.ty, l, r2)),
                    },
                }
            }
        },
        Node::Call { name, params, args, span } => match &name.ty {
            TokenType::Identifier(s) => {
                proof {
                    crate::parser::node::lemma_nodes_view(params@);
                    crate::parser::node::lemma_nodes_view(args@);
                }
                let sstr = s.as_str();
                let is_sqrt = crate::utils::str_eq(sstr, "sqrt");
                let is_cbrt = crate::utils::str_eq(sstr, "cbrt");
                proof {
                    assert(sstr@ == s@);
                    assert(is_sqrt == (s@ == "sqrt"@));
                    assert(is_cbrt == (s@ == "cbrt"@));
                }
                if is_sqrt || is_cbrt {
                    if args.len() != 1 {
                        Err(arity_error("expected 1 argument, got ", args.len(), *span))
                    } else if params.len() != 0 {
                        Err(arity_error("expected 0 parameters, got ", params.len(), *span))
                    } else {
                        proof {
                            assert(crate::parser::node::nodes_view(args@)[0]
                                == crate::parser::node::node_view(args@[0]));
                        }
                        match convert_node(&args[0]) {
                            Err(e) => Err(e),
                            Ok(a) => {
                                let ix: i64 = if is_sqrt {
                                    2
                                } else {
                                    3
                                };
                                let res = Expr::Root {
                                    index: Box::new(Expr::Integer(ix)),
                                    radicand: Box::new(a),
                                };
                                proof {
                                    assert(expr_view(Expr::Integer(ix)) == ExprModel::Integer(
                                        ix,
                                    ));
                                    assert(res@ == (ExprModel::Root {
                                        index: Box::new(
                                            ExprModel::Integer(
                                                if s@ == "sqrt"@ {
                                                    2
                                                } else {
                                                    3
                                                },
                                            ),
                                        ),
                                        radicand: Box::new(a@),
                                    }));
                                }
                                Ok(res)
                            },
                        }
                    }
                } else if crate::utils::str_eq(s.as_str(), "root") {
                    if args.len() != 1 {
                        Err(arity_error("expected 1 argument, got ", args.len(), *span))
                    } else if params.len() != 1 {
                        Err(arity_error("expected 1 parameters, got ", params.len(), *span))
                    } else {
                        proof {
                            assert(crate::parser::node::nodes_view(args@)[0]
                                == crate::parser::node::node_view(args@[0]));
                            assert(crate::parser::node::nodes_view(params@)[0]
                                == crate::parser::node::node_view(params@[0]));
                        }
                        match convert_node(&params[0]) {
                            Err(e) => Err(e),
                            Ok(ix) => match convert_node(&args[0]) {
                                Err(e) => Err(e),
                                Ok(a) => Ok(
                                    Expr::Root { index: Box::new(ix), radicand: Box::new(a) },
                                ),
                            },
                        }
                    }
                } else {
                    let mut msg = String::from_str("unimplemented identifier '");
                    msg.append(s.as_str());
                    msg.append("'");
                    Err(Error::InvalidCall(msg, *span))
                }
            },
            _ => Err(Error::Syntax(String::from_str("malformed syntax tree"), name.span)),
        },
    }
}

impl Expr {
    /// The expression, boxed.
    pub fn boxed(self) -> (r: Box<Self>)
        ensures
            *r == self,
    {
        Box::new(self)
    }

    /// Lowers a syntax tree to an expression: a pure structural
    /// recursion, fallible only where a call resolves a built-in name.
    pub fn convert(value: Node) -> (r: Result<Self, Error>)
        ensures
            match lower_node(crate::parser::node::node_view(value)) {
                LowOut::Expr(em) => r matches Ok(e) && e@ == em,
                LowOut::Fail(fm) => r matches Err(err) && err@ == fm,
            },
    {
        convert_node(&value)
    }
}


/// The fractional digits with their trailing zeros removed, numerically:
/// factors of ten are stripped while any width remains.
pub open spec fn strip10(f: nat, s: nat) -> (nat, nat)
    decreases s,
{
    if s == 0 || f % 10 != 0 {
        (f, s)
    } else {
        strip10(f / 10, (s - 1) as nat)
    }
}

/// The value `f` written with exactly `w` digits, zero-padded.
pub open spec fn fixed_digits(f: nat, w: nat) -> Seq<char>
    decreases w,
{
    if w == 0 {
        Seq::empty()
    } else {
        fixed_digits(f / 10, (w - 1) as nat).push(crate::utils::digit_char(f as int % 10))
    }
}

/// The magnitude of a signed number.
pub open spec fn mag(x: i64) -> nat {
    if x >= 0 {
        x as nat
    } else {
        (-(x as int)) as nat
    }
}

/// The text of an integer: an optional sign and its digits.
pub open spec fn int_text(c: i64) -> Seq<char> {
    if c < 0 {
        "-"@ + crate::utils::dec_digits(mag(c) as int)
    } else {
        crate::utils::dec_digits(mag(c) as int)
    }
}

/// The text of an exact decimal: sign, integer part, and the fractional
/// digits with trailing zeros removed; a fraction of nothing but zeros
/// leaves a bare integer.
pub open spec fn dec_text(d: Dec) -> Seq<char> {
    let m = mag(d.mant);
    let p = pow10(d.scale as nat);
    let ip = m as int / p;
    let fr = m as int % p;
    let fs = strip10(fr as nat, d.scale as nat);
    (if d.mant < 0 {
        "-"@
    } else {
        Seq::empty()
    }) + crate::utils::dec_digits(ip) + (if fs.1 > 0 {
        "."@ + fixed_digits(fs.0, fs.1)
    } else {
        Seq::empty()
    })
}

/// The text of an expression, in infix form: sums, differences, ratios
/// and powers in parentheses, products as adjacency, roots with a
/// superscripted index before the radical sign, comparisons spelled
/// with their operator between the sides.
pub open spec fn expr_text(e: ExprModel) -> Seq<char>
    decreases e,
{
    match e {
        ExprModel::Integer(c) => int_text(c),
        ExprModel::Decimal(d) => dec_text(d),
        ExprModel::Variable(s) => s,
        ExprModel::Negation(v) => "-"@ + expr_text(*v),
        ExprModel::Sum { left, right } => "("@ + expr_text(*left) + " + "@ + expr_text(*right)
            + ")"@,
        ExprModel::Difference { left, right } => "("@ + expr_text(*left) + " - "@ + expr_text(
            *right,
        ) + ")"@,
        ExprModel::Product { left, right } => expr_text(*left) + expr_text(*right),
        ExprModel::Ratio { numerator, denominator } => "("@ + expr_text(*numerator) + " / "@
            + expr_text(*denominator) + ")"@,
        ExprModel::Power { base, exp } => "("@ + expr_text(*base) + " ^ "@ + expr_text(*exp)
            + ")"@,
        ExprModel::Root { index, radicand } => Seq::new(
            expr_text(*index).len(),
            |i: int| crate::utils::sup_char(expr_text(*index)[i]),
        ) + "\u{221A}"@ + expr_text(*radicand),
        ExprModel::Equals { left, right } => expr_text(*left) + " = "@ + expr_text(*right),
        ExprModel::NotEquals { left, right } => expr_text(*left) + " != "@ + expr_text(*right),
        ExprModel::GreaterThan { left, right } => expr_text(*left) + " > "@ + expr_text(*right),
        ExprModel::LessThan { left, right } => expr_text(*left) + " < "@ + expr_text(*right),
        ExprModel::GreaterThanEq { left, right } => expr_text(*left) + " >= "@ + expr_text(*right),
        ExprModel::LessThanEq { left, right } => expr_text(*left) + " <= "@ + expr_text(*right),
    }
}

/// The magnitude of a signed number.
fn mag_exec(x: i64) -> (r: u64)
    ensures
        r as nat == mag(x),
{
    if x >= 0 {
        x as u64
    } else {
        (-(x as i128)) as u64
    }
}

/// An integer's text.
fn int_text_exec(c: i64) -> (r: String)
    ensures
        r@ == int_text(c),
{
    let digits = u64_to_string(mag_exec(c));
    if c < 0 {
        let mut out = String::from_str("-");
        out.append(digits.as_str());
        proof {
            assert(out@ =~= int_text(c));
        }
        out
    } else {
        digits
    }
}

/// The value `f` written with exactly `w` digits, zero-padded.
fn fixed_digits_exec(f: u64, w: u32) -> (r: String)
    ensures
        r@ == fixed_digits(f as nat, w as nat),
    decreases w,
{
    if w == 0 {
        String::new()
    } else {
        let mut out = fixed_digits_exec(f / 10, w - 1);
        out.append(crate::utils::digit_text((f % 10) as u64));
        proof {
            assert(out@ =~= fixed_digits(f as nat, w as nat));
        }
        out
    }
}

/// An exact decimal's text.
fn dec_text_exec(d: Dec) -> (r: String)
    ensures
        r@ == dec_text(d),
{
    let m = mag_exec(d.mant);
    let ghost p = pow10(d.scale as nat);
    proof {
        lemma_pow10_pos(d.scale as nat);
    }
    let (ip, fr) = if d.scale == 0 {
        proof {
            vstd::arithmetic::div_mod::lemma_fundamental_div_mod_converse(
                m as int,
                1,
                m as int,
                0,
            );
        }
        (m, 0u64)
    } else if d.scale >= 25 {
        proof {
            lemma_pow10_mono(25, d.scale as nat);
            reveal_with_fuel(pow10, 27);
            assert(pow10(25) == 10_000_000_000_000_000_000_000_000int);
            vstd::arithmetic::div_mod::lemma_fundamental_div_mod_converse(
                m as int,
                p,
                0,
                m as int,
            );
        }
        (0u64, m)
    } else {
        let pu = pow10_u128(d.scale);
        let q = (m as u128) / pu;
        let rem = (m as u128) % pu;
        proof {
            vstd::arithmetic::div_mod::lemma_fundamental_div_mod(m as int, pu as int);
            vstd::arithmetic::div_mod::lemma_remainder_lower(m as int, pu as int);
            vstd::arithmetic::div_mod::lemma_div_nonincreasing(m as int, pu as int);
            vstd::arithmetic::div_mod::lemma_div_pos_is_pos(m as int, pu as int);
        }
        (q as u64, rem as u64)
    };
    // Strip the trailing zeros from the fraction.
    let mut f2 = fr;
    let mut s2 = d.scale;
    proof {
        assert(strip10(fr as nat, d.scale as nat) == strip10(f2 as nat, s2 as nat));
    }
    if f2 == 0 {
        proof {
            lemma_strip10_zero(s2 as nat);
        }
        s2 = 0;
    } else {
        while s2 > 0 && f2 % 10 == 0
            invariant
                strip10(fr as nat, d.scale as nat) == strip10(f2 as nat, s2 as nat),
            decreases s2,
        {
            f2 = f2 / 10;
            s2 = s2 - 1;
        }
    }
    let mut out = if d.mant < 0 {
        String::from_str("-")
    } else {
        String::new()
    };
    let ipd = u64_to_string(ip);
    out.append(ipd.as_str());
    if s2 > 0 {
        out.append(".");
        let fd = fixed_digits_exec(f2, s2);
        out.append(fd.as_str());
    }
    proof {
        assert(out@ =~= dec_text(d));
    }
    out
}

proof fn lemma_strip10_zero(s: nat)
    ensures
        strip10(0, s) == (0nat, 0nat),
    decreases s,
{
    if s > 0 {
        lemma_strip10_zero((s - 1) as nat);
    }
}

impl Expr {
    /// The expression as infix text.
    pub fn display(&self) -> (r: String)
        ensures
            r@ == expr_text(self@),
        decreases self,
    {
        match self {
            Expr::Integer(c) => int_text_exec(*c),
            Expr::Decimal(d) => dec_text_exec(*d),
            Expr::Variable(s) => s.clone(),
            Expr::Negation(v) => {
                let mut out = String::from_str("-");
                let inner = v.display();
                out.append(inner.as_str());
                proof {
                    assert(out@ =~= expr_text(self@));
                }
                out
            },
            Expr::Sum { left, right } => {
                let mut out = String::from_str("(");
                let l = left.display();
                let r2 = right.display();
                out.append(l.as_str());
                out.append(" + ");
                out.append(r2.as_str());
                out.append(")");
                proof {
                    assert(out@ =~= expr_text(self@));
                }
                out
            },
            Expr::Difference { left, right } => {
                let mut out = String::from_str("(");
                let l = left.display();
                let r2 = right.display();
                out.append(l.as_str());
                out.append(" - ");
                out.append(r2.as_str());
                out.append(")");
                proof {
                    assert(out@ =~= expr_text(self@));
                }
                out
            },
            Expr::Product { left, right } => {
                let mut out = left.display();
                let r2 = right.display();
                out.append(r2.as_str());
                proof {
                    assert(out@ =~= expr_text(self@));
                }
                out
            },
            Expr::Ratio { numerator, denominator } => {
                let mut out = String::from_str("(");
                let l = numerator.display();
                let r2 = denominator.display();
                out.append(l.as_str());
                out.append(" / ");
                out.append(r2.as_str());
                out.append(")");
                proof {
                    assert(out@ =~= expr_text(self@));
                }
                out
            },
            Expr::Power { base, exp } => {
                let mut out = String::from_str("(");
                let l = base.display();
                let r2 = exp.display();
                out.append(l.as_str());
                out.append(" ^ ");
                out.append(r2.as_str());
                out.append(")");
                proof {
                    assert(out@ =~= expr_text(self@));
                }
                out
            },
            Expr::Root { index, radicand } => {
                let idx = index.display();
                let mut out = crate::utils::superscript(idx.as_str());
                out.append("\u{221A}");
                let r2 = radicand.display();
                out.append(r2.as_str());
                proof {
                    assert(out@ =~= expr_text(self@));
                }
                out
            },
            Expr::Equals { left, right } => {
                let mut out = left.display();
                let r2 = right.display();
                out.append(" = ");
                out.append(r2.as_str());
                proof {
                    assert(out@ =~= expr_text(self@));
                }
                out
            },
            Expr::NotEquals { left, right } => {
                let mut out = left.display();
                let r2 = right.display();
                out.append(" != ");
                out.append(r2.as_str());
                proof {
                    assert(out@ =~= expr_text(self@));
                }
                out
            },
            Expr::GreaterThan { left, right } => {
                let mut out = left.display();
                let r2 = right.display();
                out.append(" > ");
                out.append(r2.as_str());
                proof {
                    assert(out@ =~= expr_text(self@));
                }
                out
            },
            Expr::LessThan { left, right } => {
                let mut out = left.display();
                let r2 = right.display();
                out.append(" < ");
                out.append(r2.as_str());
                proof {
                    assert(out@ =~= expr_text(self@));
                }
                out
            },
            Expr::GreaterThanEq { left, right } => {
                let mut out = left.display();
                let r2 = right.display();
                out.append(" >= ");
                out.append(r2.as_str());
                proof {
                    assert(out@ =~= expr_text(self@));
                }
                out
            },
            Expr::LessThanEq { left, right } => {
                let mut out = left.display();
                let r2 = right.display();
                out.append(" <= ");
                out.append(r2.as_str());
                proof {
                    assert(out@ =~= expr_text(self@));
                }
                out
            },
        }
    }
}

} // verus!

