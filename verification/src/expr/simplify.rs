use vstd::prelude::*;

verus! {

use crate::expr::gcd::abs_n;
use crate::expr::gcd::divides;
use crate::expr::gcd::spec_gcd;
use crate::expr::pow10;
use crate::expr::ExprModel;
use crate::lexer::token::Dec;

/// Whether a mathematical value fits a 64-bit signed integer.
pub open spec fn fits_i64(x: int) -> bool {
    i64::MIN <= x <= i64::MAX
}

/// The weight of an expression: every node counts one, and a ratio
/// counts a little extra, so that folding an integer into a ratio's
/// numerator shrinks the weight.
pub open spec fn wt(e: ExprModel) -> nat
    decreases e,
{
    match e {
        ExprModel::Integer(_) => 1,
        ExprModel::Decimal(_) => 1,
        ExprModel::Variable(_) => 1,
        ExprModel::Negation(v) => wt(*v) + 1,
        ExprModel::Ratio { numerator, denominator } => wt(*numerator) + wt(*denominator) + 3,
        ExprModel::Sum { left, right } => wt(*left) + wt(*right) + 1,
        ExprModel::Difference { left, right } => wt(*left) + wt(*right) + 1,
        ExprModel::Product { left, right } => wt(*left) + wt(*right) + 1,
        ExprModel::Power { base, exp } => wt(*base) + wt(*exp) + 1,
        ExprModel::Root { index, radicand } => wt(*index) + wt(*radicand) + 1,
        ExprModel::Equals { left, right } => wt(*left) + wt(*right) + 1,
        ExprModel::NotEquals { left, right } => wt(*left) + wt(*right) + 1,
        ExprModel::GreaterThan { left, right } => wt(*left) + wt(*right) + 1,
        ExprModel::LessThan { left, right } => wt(*left) + wt(*right) + 1,
        ExprModel::GreaterThanEq { left, right } => wt(*left) + wt(*right) + 1,
        ExprModel::LessThanEq { left, right } => wt(*left) + wt(*right) + 1,
    }
}

/// The exact sum of two scaled decimals, when it is representable: the
/// coarser value is brought to the finer scale (a scale gap above
/// nineteen cannot be bridged) and the mantissas are added.
pub open spec fn dec_add(a: Dec, b: Dec) -> Option<Dec> {
    let (hi, lo) = if a.scale >= b.scale {
        (a, b)
    } else {
        (b, a)
    };
    if lo.mant == 0 {
        Some(hi)
    } else if hi.scale - lo.scale > 19 {
        None
    } else {
        let total = hi.mant + lo.mant * pow10((hi.scale - lo.scale) as nat);
        if fits_i64(total) {
            Some(Dec { mant: total as i64, scale: hi.scale })
        } else {
            None
        }
    }
}

/// The exact product of two scaled decimals, when it is representable
/// with at most eighteen fractional digits.
pub open spec fn dec_mul(a: Dec, b: Dec) -> Option<Dec> {
    if a.scale + b.scale > 18 {
        None
    } else {
        let m = a.mant * b.mant;
        if fits_i64(m) {
            Some(Dec { mant: m as i64, scale: (a.scale + b.scale) as u32 })
        } else {
            None
        }
    }
}

/// The negation of a scaled decimal, when it is representable.
pub open spec fn dec_neg(d: Dec) -> Option<Dec> {
    if fits_i64(-(d.mant as int)) {
        Some(Dec { mant: (-(d.mant as int)) as i64, scale: d.scale })
    } else {
        None
    }
}

/// The decimal standing for an integer.
pub open spec fn dec_of_int(x: i64) -> Dec {
    Dec { mant: x, scale: 0 }
}

/// How a negation combines with an already simplified operand: an exact
/// integer or decimal is negated in place when the negation is
/// representable; anything else stays wrapped in a negation node.
pub open spec fn neg_comb(v: ExprModel) -> ExprModel {
    match v {
        ExprModel::Integer(x) => if fits_i64(-(x as int)) {
            ExprModel::Integer((-(x as int)) as i64)
        } else {
            ExprModel::Negation(Box::new(v))
        },
        ExprModel::Decimal(d) => match dec_neg(d) {
            Some(nd) => ExprModel::Decimal(nd),
            None => ExprModel::Negation(Box::new(v)),
        },
        _ => ExprModel::Negation(Box::new(v)),
    }
}

/// The exact quotient of `nn` by `dd`, as a mathematical number.
pub open spec fn exact_quot(nn: i64, dd: i64) -> int {
    if (nn < 0) != (dd < 0) {
        -((abs_n(nn) / abs_n(dd)) as int)
    } else {
        (abs_n(nn) / abs_n(dd)) as int
    }
}

/// How a ratio combines once both sides are simplified. Two integers
/// reduce: a zero denominator is kept symbolically; a zero numerator is
/// zero; an exact representable quotient is that integer; anything else
/// is brought to lowest terms by the greatest common divisor of the
/// magnitudes, each side keeping its sign. A side that is not an
/// integer leaves the ratio unreduced.
pub open spec fn ratio_comb(n: ExprModel, d: ExprModel) -> ExprModel {
    match (n, d) {
        (ExprModel::Integer(nn), ExprModel::Integer(dd)) => if dd == 0 {
            ExprModel::Ratio { numerator: Box::new(n), denominator: Box::new(d) }
        } else if nn == 0 {
            ExprModel::Integer(0)
        } else if abs_n(nn) % abs_n(dd) == 0 && fits_i64(exact_quot(nn, dd)) {
            ExprModel::Integer(exact_quot(nn, dd) as i64)
        } else {
            let g = spec_gcd(abs_n(nn), abs_n(dd)) as int;
            let ng = if nn < 0 {
                -((abs_n(nn) as int) / g)
            } else {
                (abs_n(nn) as int) / g
            };
            let dg = if dd < 0 {
                -((abs_n(dd) as int) / g)
            } else {
                (abs_n(dd) as int) / g
            };
            ExprModel::Ratio {
                numerator: Box::new(ExprModel::Integer(ng as i64)),
                denominator: Box::new(ExprModel::Integer(dg as i64)),
            }
        },
        _ => ExprModel::Ratio { numerator: Box::new(n), denominator: Box::new(d) },
    }
}

/// How a product combines once both sides are simplified: exact numbers
/// multiply (integers promote to decimals against a decimal); an
/// integer against a ratio scales the numerator; two ratios multiply
/// across; anything else stays an unreduced product.
pub open spec fn prod_comb(a: ExprModel, b: ExprModel) -> ExprModel
    decreases wt(a) + wt(b),
{
    match (a, b) {
        (ExprModel::Integer(x), ExprModel::Integer(y)) => {
            let m = x as int * y as int;
            if fits_i64(m) {
                ExprModel::Integer(m as i64)
            } else {
                ExprModel::Product { left: Box::new(a), right: Box::new(b) }
            }
        },
        (ExprModel::Decimal(p), ExprModel::Decimal(q)) => match dec_mul(p, q) {
            Some(d) => ExprModel::Decimal(d),
            None => ExprModel::Product { left: Box::new(a), right: Box::new(b) },
        },
        (ExprModel::Integer(x), ExprModel::Decimal(q)) => match dec_mul(dec_of_int(x), q) {
            Some(d) => ExprModel::Decimal(d),
            None => ExprModel::Product { left: Box::new(a), right: Box::new(b) },
        },
        (ExprModel::Decimal(q), ExprModel::Integer(x)) => match dec_mul(dec_of_int(x), q) {
            Some(d) => ExprModel::Decimal(d),
            None => ExprModel::Product { left: Box::new(a), right: Box::new(b) },
        },
        (ExprModel::Integer(x), ExprModel::Ratio { numerator, denominator }) => {
            let p = prod_comb(a, *numerator);
            ratio_comb(p, *denominator)
        },
        (ExprModel::Ratio { numerator, denominator }, ExprModel::Integer(x)) => {
            let p = prod_comb(b, *numerator);
            ratio_comb(p, *denominator)
        },
        (
            ExprModel::Ratio { numerator: n1, denominator: d1 },
            ExprModel::Ratio { numerator: n2, denominator: d2 },
        ) => {
            let nn = prod_comb(*n1, *n2);
            let dd = prod_comb(*d1, *d2);
            ratio_comb(nn, dd)
        },
        _ => ExprModel::Product { left: Box::new(a), right: Box::new(b) },
    }
}

/// The weight of an unreduced ratio over the two given sides.
proof fn lemma_ratio_comb_wt(n: ExprModel, d: ExprModel)
    ensures
        wt(ratio_comb(n, d)) <= wt(n) + wt(d) + 3,
{
    assert(forall|x: i64| #[trigger] wt(ExprModel::Integer(x)) == 1);
    match (n, d) {
        (ExprModel::Integer(nn), ExprModel::Integer(dd)) => {
            let r = ratio_comb(n, d);
            match r {
                ExprModel::Integer(_) => {
                    assert(wt(r) == 1);
                },
                ExprModel::Ratio { numerator, denominator } => {
                    assert(wt(r) == wt(*numerator) + wt(*denominator) + 3);
                    assert(wt(*numerator) == 1 && wt(*denominator) == 1);
                },
                _ => {},
            }
        },
        _ => {},
    }
}

/// Combining a product never more than one-ups the weights of its sides.
proof fn lemma_prod_comb_wt(a: ExprModel, b: ExprModel)
    ensures
        wt(prod_comb(a, b)) <= wt(a) + wt(b) + 1,
    decreases wt(a) + wt(b),
{
    match (a, b) {
        (ExprModel::Integer(x), ExprModel::Ratio { numerator, denominator }) => {
            lemma_prod_comb_wt(a, *numerator);
            lemma_ratio_comb_wt(prod_comb(a, *numerator), *denominator);
        },
        (ExprModel::Ratio { numerator, denominator }, ExprModel::Integer(x)) => {
            lemma_prod_comb_wt(b, *numerator);
            lemma_ratio_comb_wt(prod_comb(b, *numerator), *denominator);
        },
        (
            ExprModel::Ratio { numerator: n1, denominator: d1 },
            ExprModel::Ratio { numerator: n2, denominator: d2 },
        ) => {
            lemma_prod_comb_wt(*n1, *n2);
            lemma_prod_comb_wt(*d1, *d2);
            lemma_ratio_comb_wt(prod_comb(*n1, *n2), prod_comb(*d1, *d2));
        },
        _ => {},
    }
}

/// How a sum combines once both sides are simplified: exact numbers add
/// (integers promote to decimals against a decimal); an integer against
/// a ratio folds into the numerator over the same denominator; two
/// ratios cross-multiply; anything else stays an unreduced sum.
pub open spec fn sum_comb(a: ExprModel, b: ExprModel) -> ExprModel
    decreases wt(a) + wt(b) via sum_comb_decreases
{
    match (a, b) {
        (ExprModel::Integer(x), ExprModel::Integer(y)) => {
            let m = x as int + y as int;
            if fits_i64(m) {
                ExprModel::Integer(m as i64)
            } else {
                ExprModel::Sum { left: Box::new(a), right: Box::new(b) }
            }
        },
        (ExprModel::Decimal(p), ExprModel::Decimal(q)) => match dec_add(p, q) {
            Some(d) => ExprModel::Decimal(d),
            None => ExprModel::Sum { left: Box::new(a), right: Box::new(b) },
        },
        (ExprModel::Integer(x), ExprModel::Decimal(q)) => match dec_add(dec_of_int(x), q) {
            Some(d) => ExprModel::Decimal(d),
            None => ExprModel::Sum { left: Box::new(a), right: Box::new(b) },
        },
        (ExprModel::Decimal(q), ExprModel::Integer(x)) => match dec_add(dec_of_int(x), q) {
            Some(d) => ExprModel::Decimal(d),
            None => ExprModel::Sum { left: Box::new(a), right: Box::new(b) },
        },
        (ExprModel::Integer(x), ExprModel::Ratio { numerator, denominator }) => {
            let p = prod_comb(a, *denominator);
            let num = sum_comb(*numerator, p);
            ratio_comb(num, *denominator)
        },
        (ExprModel::Ratio { numerator, denominator }, ExprModel::Integer(x)) => {
            let p = prod_comb(b, *denominator);
            let num = sum_comb(*numerator, p);
            ratio_comb(num, *denominator)
        },
        (
            ExprModel::Ratio { numerator: n1, denominator: d1 },
            ExprModel::Ratio { numerator: n2, denominator: d2 },
        ) => {
            let dd = prod_comb(*d1, *d2);
            let p1 = prod_comb(*n1, *d2);
            let p2 = prod_comb(*n2, *d1);
            let num = sum_comb(p1, p2);
            ratio_comb(num, dd)
        },
        _ => ExprModel::Sum { left: Box::new(a), right: Box::new(b) },
    }
}

#[via_fn]
proof fn sum_comb_decreases(a: ExprModel, b: ExprModel) {
    match (a, b) {
        (ExprModel::Integer(x), ExprModel::Ratio { numerator, denominator }) => {
            lemma_prod_comb_wt(a, *denominator);
        },
        (ExprModel::Ratio { numerator, denominator }, ExprModel::Integer(x)) => {
            lemma_prod_comb_wt(b, *denominator);
        },
        (
            ExprModel::Ratio { numerator: n1, denominator: d1 },
            ExprModel::Ratio { numerator: n2, denominator: d2 },
        ) => {
            lemma_prod_comb_wt(*n1, *d2);
            lemma_prod_comb_wt(*n2, *d1);
        },
        _ => {},
    }
}

/// The simplifier's fixed rewrite, structurally: exact numbers,
/// decimals and variables are already canonical; negations, sums,
/// products and ratios combine their simplified children (a difference
/// becomes a sum with a negated right side); powers, roots and the
/// comparisons are not yet reducible and stay untouched.
pub open spec fn simp(e: ExprModel) -> ExprModel
    decreases e,
{
    match e {
        ExprModel::Integer(_) => e,
        ExprModel::Decimal(_) => e,
        ExprModel::Variable(_) => e,
        ExprModel::Negation(v) => neg_comb(simp(*v)),
        ExprModel::Sum { left, right } => sum_comb(simp(*left), simp(*right)),
        ExprModel::Difference { left, right } => sum_comb(simp(*left), neg_comb(simp(*right))),
        ExprModel::Product { left, right } => prod_comb(simp(*left), simp(*right)),
        ExprModel::Ratio { numerator, denominator } => ratio_comb(
            simp(*numerator),
            simp(*denominator),
        ),
        _ => e,
    }
}

/// An expression the simplifier leaves unchanged.
pub open spec fn canonical(e: ExprModel) -> bool {
    simp(e) == e
}

/// For a positive divisor, a zero remainder and divisibility are the
/// same thing.
proof fn lemma_mod_divides(d: nat, x: nat)
    requires
        d >= 1,
    ensures
        (x % d == 0) <==> divides(d as int, x as int),
{
    vstd::arithmetic::div_mod::lemma_fundamental_div_mod(x as int, d as int);
    if x % d == 0 {
        assert(x as int == (d as int) * ((x as int) / (d as int)));
    }
    if divides(d as int, x as int) {
        let k = choose|kk: int| x as int == #[trigger] ((d as int) * kk);
        vstd::arithmetic::div_mod::lemma_mod_multiples_basic(k, d as int);
        assert(x as int == k * (d as int)) by (nonlinear_arith)
            requires
                x as int == (d as int) * k;
    }
}

/// The parts of a canonical ratio are canonical themselves.
proof fn lemma_ratio_parts(n: ExprModel, d: ExprModel)
    requires
        canonical(ExprModel::Ratio { numerator: Box::new(n), denominator: Box::new(d) }),
    ensures
        canonical(n),
        canonical(d),
{
    let e = ExprModel::Ratio { numerator: Box::new(n), denominator: Box::new(d) };
    assert(simp(e) == ratio_comb(simp(n), simp(d)));
    match (simp(n), simp(d)) {
        (ExprModel::Integer(nn), ExprModel::Integer(dd)) => {
            if dd == 0 {
            } else if nn == 0 {
                assert(false);
            } else if abs_n(nn) % abs_n(dd) == 0 && fits_i64(exact_quot(nn, dd)) {
                assert(false);
            } else {
                // The reduced ratio's sides are integer literals, and an
                // integer literal is its own simplification.
                assert(n is Integer && d is Integer);
            }
        },
        _ => {},
    }
}

/// Negating a canonical expression yields a canonical expression.
proof fn lemma_neg_canonical(v: ExprModel)
    requires
        canonical(v),
    ensures
        canonical(neg_comb(v)),
{
}

/// Facts about reducing a nonzero over nonzero integer ratio by the
/// greatest common divisor of the magnitudes: the sides keep their
/// signs, fit, and come out coprime; and an inexact ratio stays inexact.
proof fn lemma_reduced_ratio(nn: i64, dd: i64)
    requires
        nn != 0,
        dd != 0,
    ensures
        ({
            let na = abs_n(nn);
            let da = abs_n(dd);
            let g = spec_gcd(na, da) as int;
            let nap = (na as int) / g;
            let dap = (da as int) / g;
            &&& g >= 1
            &&& 1 <= nap <= na
            &&& 1 <= dap <= da
            &&& na as int == g * nap
            &&& da as int == g * dap
            &&& spec_gcd(nap as nat, dap as nat) == 1
            &&& (na % da != 0 ==> (nap as nat) % (dap as nat) != 0)
        }),
{
    let na = abs_n(nn);
    let da = abs_n(dd);
    let g = spec_gcd(na, da) as int;
    crate::expr::gcd::lemma_gcd_pos(na, da);
    crate::expr::gcd::lemma_gcd_divides(na, da);
    lemma_mod_divides(g as nat, na);
    lemma_mod_divides(g as nat, da);
    vstd::arithmetic::div_mod::lemma_fundamental_div_mod(na as int, g);
    vstd::arithmetic::div_mod::lemma_fundamental_div_mod(da as int, g);
    let nap = (na as int) / g;
    let dap = (da as int) / g;
    assert(na as int == g * nap);
    assert(da as int == g * dap);
    assert(1 <= nap <= na && 1 <= dap <= da) by (nonlinear_arith)
        requires
            na as int == g * nap,
            da as int == g * dap,
            g >= 1,
            na >= 1,
            da >= 1,
            nap >= 0,
            dap >= 0;
    let c = spec_gcd(nap as nat, dap as nat);
    crate::expr::gcd::lemma_gcd_pos(nap as nat, dap as nat);
    crate::expr::gcd::lemma_gcd_divides(nap as nat, dap as nat);
    let k1 = choose|k: int| nap == #[trigger] ((c as int) * k);
    let k2 = choose|k: int| dap == #[trigger] ((c as int) * k);
    assert(na as int == (g * c) * k1 && da as int == (g * c) * k2) by (nonlinear_arith)
        requires
            na as int == g * nap,
            da as int == g * dap,
            nap == (c as int) * k1,
            dap == (c as int) * k2;
    assert(divides(g * c, na as int));
    assert(divides(g * c, da as int));
    assert(g * c >= 1) by (nonlinear_arith)
        requires
            g >= 1,
            c >= 1;
    crate::expr::gcd::lemma_gcd_largest(na, da, g * c);
    assert(c == 1) by (nonlinear_arith)
        requires
            g * c <= g,
            g >= 1,
            c >= 1;
    if na % da != 0 {
        if (nap as nat) % (dap as nat) == 0 {
            lemma_mod_divides(dap as nat, nap as nat);
            let t = choose|k: int| nap == #[trigger] (dap * k);
            assert(na as int == (da as int) * t) by (nonlinear_arith)
                requires
                    na as int == g * nap,
                    da as int == g * dap,
                    nap == dap * t;
            lemma_mod_divides(da, na);
            assert(false);
        }
    }
}

/// Combining a ratio of canonical sides yields a canonical expression.
#[verifier::rlimit(100)]
proof fn lemma_ratio_canonical(n: ExprModel, d: ExprModel)
    requires
        canonical(n),
        canonical(d),
    ensures
        canonical(ratio_comb(n, d)),
{
    match (n, d) {
        (ExprModel::Integer(nn), ExprModel::Integer(dd)) => {
            if dd == 0 {
            } else if nn == 0 {
            } else if abs_n(nn) % abs_n(dd) == 0 && fits_i64(exact_quot(nn, dd)) {
            } else {
                lemma_reduced_ratio(nn, dd);
                let na = abs_n(nn);
                let da = abs_n(dd);
                let g = spec_gcd(na, da) as int;
                let nap = (na as int) / g;
                let dap = (da as int) / g;
                let ngi = (if nn < 0 {
                    -nap
                } else {
                    nap
                }) as i64;
                let dgi = (if dd < 0 {
                    -dap
                } else {
                    dap
                }) as i64;
                let r = ratio_comb(n, d);
                assert(r == ExprModel::Ratio {
                    numerator: Box::new(ExprModel::Integer(ngi)),
                    denominator: Box::new(ExprModel::Integer(dgi)),
                });
                assert(abs_n(ngi) == nap && abs_n(dgi) == dap);
                assert(ngi != 0 && dgi != 0);
                // Rerunning the reduction on the lowest-terms sides
                // divides by one and changes nothing.
                vstd::arithmetic::div_mod::lemma_fundamental_div_mod_converse(nap, 1, nap, 0);
                vstd::arithmetic::div_mod::lemma_fundamental_div_mod_converse(dap, 1, dap, 0);
                if abs_n(nn) % abs_n(dd) == 0 {
                    // The quotient was exact yet unrepresentable: that
                    // happens only for the most negative value over
                    // minus one, which is already in lowest terms.
                    lemma_mod_divides(da, na);
                    let q = choose|k: int| na as int == #[trigger] ((da as int) * k);
                    assert(na as int <= 9223372036854775808int);
                    if (nn < 0) == (dd < 0) {
                        assert(exact_quot(nn, dd) == (na / da) as int);
                        vstd::arithmetic::div_mod::lemma_fundamental_div_mod(
                            na as int,
                            da as int,
                        );
                        assert((na / da) as int * (da as int) <= na as int) by (nonlinear_arith)
                            requires
                                na as int == (da as int) * ((na / da) as int),
                                da >= 1;
                        assert(fits_i64(exact_quot(nn, dd)) == false);
                        assert((na / da) as int >= 9223372036854775808int);
                        assert(da == 1 && na == 9223372036854775808nat) by (nonlinear_arith)
                            requires
                                na as int == (da as int) * ((na / da) as int),
                                da >= 1,
                                (na / da) as int >= 9223372036854775808int,
                                na as int <= 9223372036854775808int;
                        crate::expr::gcd::lemma_gcd_divides(na, da);
                        crate::expr::gcd::lemma_divides_le(spec_gcd(na, da), da);
                    } else {
                        assert(exact_quot(nn, dd) == -((na / da) as int));
                        vstd::arithmetic::div_mod::lemma_remainder_lower(na as int, da as int);
                        vstd::arithmetic::div_mod::lemma_div_nonincreasing(na as int, da as int);
                        vstd::arithmetic::div_mod::lemma_div_pos_is_pos(na as int, da as int);
                        assert(fits_i64(exact_quot(nn, dd)));
                        assert(false);
                    }
                }
                // Rerunning the combination on the reduced sides takes
                // the same reduction path and divides by a unit gcd.
                let r2 = ratio_comb(ExprModel::Integer(ngi), ExprModel::Integer(dgi));
                assert(simp(ExprModel::Integer(ngi)) == ExprModel::Integer(ngi));
                assert(simp(ExprModel::Integer(dgi)) == ExprModel::Integer(dgi));
                assert(simp(r) == r2);
                assert(spec_gcd(abs_n(ngi), abs_n(dgi)) == 1);
                if abs_n(ngi) % abs_n(dgi) == 0 && fits_i64(exact_quot(ngi, dgi)) {
                    assert(false);
                }
                assert((ngi < 0) == (nn < 0) && (dgi < 0) == (dd < 0));
                vstd::arithmetic::div_mod::lemma_fundamental_div_mod_converse(
                    abs_n(ngi) as int,
                    1,
                    abs_n(ngi) as int,
                    0,
                );
                vstd::arithmetic::div_mod::lemma_fundamental_div_mod_converse(
                    abs_n(dgi) as int,
                    1,
                    abs_n(dgi) as int,
                    0,
                );
                assert(r2 == r);
            }
        },
        _ => {},
    }
}

/// Combining a product of canonical sides yields a canonical expression.
proof fn lemma_prod_canonical(a: ExprModel, b: ExprModel)
    requires
        canonical(a),
        canonical(b),
    ensures
        canonical(prod_comb(a, b)),
    decreases wt(a) + wt(b),
{
    match (a, b) {
        (ExprModel::Integer(x), ExprModel::Ratio { numerator, denominator }) => {
            lemma_ratio_parts(*numerator, *denominator);
            lemma_prod_canonical(a, *numerator);
            lemma_ratio_canonical(prod_comb(a, *numerator), *denominator);
        },
        (ExprModel::Ratio { numerator, denominator }, ExprModel::Integer(x)) => {
            lemma_ratio_parts(*numerator, *denominator);
            lemma_prod_canonical(b, *numerator);
            lemma_ratio_canonical(prod_comb(b, *numerator), *denominator);
        },
        (
            ExprModel::Ratio { numerator: n1, denominator: d1 },
            ExprModel::Ratio { numerator: n2, denominator: d2 },
        ) => {
            lemma_ratio_parts(*n1, *d1);
            lemma_ratio_parts(*n2, *d2);
            lemma_prod_canonical(*n1, *n2);
            lemma_prod_canonical(*d1, *d2);
            lemma_ratio_canonical(prod_comb(*n1, *n2), prod_comb(*d1, *d2));
        },
        _ => {},
    }
}

/// Combining a sum of canonical sides yields a canonical expression.
proof fn lemma_sum_canonical(a: ExprModel, b: ExprModel)
    requires
        canonical(a),
        canonical(b),
    ensures
        canonical(sum_comb(a, b)),
    decreases wt(a) + wt(b),
{
    match (a, b) {
        (ExprModel::Integer(x), ExprModel::Ratio { numerator, denominator }) => {
            lemma_ratio_parts(*numerator, *denominator);
            lemma_prod_comb_wt(a, *denominator);
            lemma_prod_canonical(a, *denominator);
            lemma_sum_canonical(*numerator, prod_comb(a, *denominator));
            lemma_ratio_canonical(
                sum_comb(*numerator, prod_comb(a, *denominator)),
                *denominator,
            );
        },
        (ExprModel::Ratio { numerator, denominator }, ExprModel::Integer(x)) => {
            lemma_ratio_parts(*numerator, *denominator);
            lemma_prod_comb_wt(b, *denominator);
            lemma_prod_canonical(b, *denominator);
            lemma_sum_canonical(*numerator, prod_comb(b, *denominator));
            lemma_ratio_canonical(
                sum_comb(*numerator, prod_comb(b, *denominator)),
                *denominator,
            );
        },
        (
            ExprModel::Ratio { numerator: n1, denominator: d1 },
            ExprModel::Ratio { numerator: n2, denominator: d2 },
        ) => {
            lemma_ratio_parts(*n1, *d1);
            lemma_ratio_parts(*n2, *d2);
            lemma_prod_comb_wt(*n1, *d2);
            lemma_prod_comb_wt(*n2, *d1);
            lemma_prod_canonical(*d1, *d2);
            lemma_prod_canonical(*n1, *d2);
            lemma_prod_canonical(*n2, *d1);
            lemma_sum_canonical(prod_comb(*n1, *d2), prod_comb(*n2, *d1));
            lemma_ratio_canonical(
                sum_comb(prod_comb(*n1, *d2), prod_comb(*n2, *d1)),
                prod_comb(*d1, *d2),
            );
        },
        _ => {},
    }
}

/// Whatever the simplifier returns, it leaves unchanged.
proof fn lemma_simp_canonical(e: ExprModel)
    ensures
        canonical(simp(e)),
    decreases e,
{
    match e {
        ExprModel::Negation(v) => {
            lemma_simp_canonical(*v);
            lemma_neg_canonical(simp(*v));
        },
        ExprModel::Sum { left, right } => {
            lemma_simp_canonical(*left);
            lemma_simp_canonical(*right);
            lemma_sum_canonical(simp(*left), simp(*right));
        },
        ExprModel::Difference { left, right } => {
            lemma_simp_canonical(*left);
            lemma_simp_canonical(*right);
            lemma_neg_canonical(simp(*right));
            lemma_sum_canonical(simp(*left), neg_comb(simp(*right)));
        },
        ExprModel::Product { left, right } => {
            lemma_simp_canonical(*left);
            lemma_simp_canonical(*right);
            lemma_prod_canonical(simp(*left), simp(*right));
        },
        ExprModel::Ratio { numerator, denominator } => {
            lemma_simp_canonical(*numerator);
            lemma_simp_canonical(*denominator);
            lemma_ratio_canonical(simp(*numerator), simp(*denominator));
        },
        _ => {},
    }
}

/// Simplifying twice is the same as simplifying once, for every
/// expression.
pub proof fn lemma_simplify_idempotent(e: ExprModel)
    ensures
        simp(simp(e)) == simp(e),
{
    lemma_simp_canonical(e);
}


/// A clone keeps the whole tree.
impl Clone for crate::expr::Expr {
    fn clone(&self) -> (r: Self)
        ensures
            r@ == self@,
        decreases self,
    {
        match self {
            crate::expr::Expr::Integer(c) => crate::expr::Expr::Integer(*c),
            crate::expr::Expr::Decimal(d) => crate::expr::Expr::Decimal(*d),
            crate::expr::Expr::Variable(s) => crate::expr::Expr::Variable(s.clone()),
            crate::expr::Expr::Negation(v) => crate::expr::Expr::Negation(Box::new((**v).clone())),
            crate::expr::Expr::Sum { left, right } => crate::expr::Expr::Sum {
                left: Box::new((**left).clone()),
                right: Box::new((**right).clone()),
            },
            crate::expr::Expr::Difference { left, right } => crate::expr::Expr::Difference {
                left: Box::new((**left).clone()),
                right: Box::new((**right).clone()),
            },
            crate::expr::Expr::Product { left, right } => crate::expr::Expr::Product {
                left: Box::new((**left).clone()),
                right: Box::new((**right).clone()),
            },
            crate::expr::Expr::Ratio { numerator, denominator } => crate::expr::Expr::Ratio {
                numerator: Box::new((**numerator).clone()),
                denominator: Box::new((**denominator).clone()),
            },
            crate::expr::Expr::Power { base, exp } => crate::expr::Expr::Power {
                base: Box::new((**base).clone()),
                exp: Box::new((**exp).clone()),
            },
            crate::expr::Expr::Root { index, radicand } => crate::expr::Expr::Root {
                index: Box::new((**index).clone()),
                radicand: Box::new((**radicand).clone()),
            },
            crate::expr::Expr::Equals { left, right } => crate::expr::Expr::Equals {
                left: Box::new((**left).clone()),
                right: Box::new((**right).clone()),
            },
            crate::expr::Expr::NotEquals { left, right } => crate::expr::Expr::NotEquals {
                left: Box::new((**left).clone()),
                right: Box::new((**right).clone()),
            },
            crate::expr::Expr::GreaterThan { left, right } => crate::expr::Expr::GreaterThan {
                left: Box::new((**left).clone()),
                right: Box::new((**right).clone()),
            },
            crate::expr::Expr::LessThan { left, right } => crate::expr::Expr::LessThan {
                left: Box::new((**left).clone()),
                right: Box::new((**right).clone()),
            },
            crate::expr::Expr::GreaterThanEq { left, right } => crate::expr::Expr::GreaterThanEq {
                left: Box::new((**left).clone()),
                right: Box::new((**right).clone()),
            },
            crate::expr::Expr::LessThanEq { left, right } => crate::expr::Expr::LessThanEq {
                left: Box::new((**left).clone()),
                right: Box::new((**right).clone()),
            },
        }
    }
}

/// Ten to a small power, as a signed 128-bit value.
fn pow10_small(n: u32) -> (r: i128)
    requires
        n <= 19,
    ensures
        r == pow10(n as nat),
        r >= 1,
{
    let p = crate::expr::pow10_u128(n);
    proof {
        crate::expr::lemma_pow10_within(n as nat);
    }
    p as i128
}

/// The exact sum of two scaled decimals, when it is representable.
fn dec_add_exec(a: Dec, b: Dec) -> (r: Option<Dec>)
    ensures
        r == dec_add(a, b),
{
    let (hi, lo) = if a.scale >= b.scale {
        (a, b)
    } else {
        (b, a)
    };
    if lo.mant == 0 {
        Some(hi)
    } else if hi.scale - lo.scale > 19 {
        None
    } else {
        let p = pow10_small(hi.scale - lo.scale);
        proof {
            crate::expr::lemma_pow10_within((hi.scale - lo.scale) as nat);
        }
        proof {
            assert((lo.mant as i128) * p <= 92233720368547758080000000000000000000int
                && (lo.mant as i128) * p >= -92233720368547758080000000000000000000int)
                by (nonlinear_arith)
                requires
                    -9223372036854775808int <= lo.mant as int <= 9223372036854775807int,
                    1 <= p <= 10000000000000000000int;
        }
        let total = hi.mant as i128 + (lo.mant as i128) * p;
        if total >= i64::MIN as i128 && total <= i64::MAX as i128 {
            Some(Dec { mant: total as i64, scale: hi.scale })
        } else {
            None
        }
    }
}

/// The exact product of two scaled decimals, when it is representable.
fn dec_mul_exec(a: Dec, b: Dec) -> (r: Option<Dec>)
    ensures
        r == dec_mul(a, b),
{
    if (a.scale as u64) + (b.scale as u64) > 18 {
        None
    } else {
        proof {
            assert((a.mant as int) * (b.mant as int) <= 92233720368547758080000000000000000000int
                && (a.mant as int) * (b.mant as int)
                >= -92233720368547758080000000000000000000int) by (nonlinear_arith)
                requires
                    -9223372036854775808int <= a.mant as int <= 9223372036854775807int,
                    -9223372036854775808int <= b.mant as int <= 9223372036854775807int;
        }
        let m = (a.mant as i128) * (b.mant as i128);
        if m >= i64::MIN as i128 && m <= i64::MAX as i128 {
            Some(Dec { mant: m as i64, scale: a.scale + b.scale })
        } else {
            None
        }
    }
}

/// The negation of a scaled decimal, when it is representable.
fn dec_neg_exec(d: Dec) -> (r: Option<Dec>)
    ensures
        r == dec_neg(d),
{
    if d.mant == i64::MIN {
        None
    } else {
        Some(Dec { mant: -d.mant, scale: d.scale })
    }
}

/// Negates an already simplified operand.
fn neg_comb_exec(v: crate::expr::Expr) -> (r: crate::expr::Expr)
    ensures
        r@ == neg_comb(v@),
{
    match v {
        crate::expr::Expr::Integer(x) => {
            if x == i64::MIN {
                crate::expr::Expr::Negation(Box::new(crate::expr::Expr::Integer(x)))
            } else {
                crate::expr::Expr::Integer(-x)
            }
        },
        crate::expr::Expr::Decimal(d) => {
            match dec_neg_exec(d) {
                Some(nd) => crate::expr::Expr::Decimal(nd),
                None => crate::expr::Expr::Negation(Box::new(crate::expr::Expr::Decimal(d))),
            }
        },
        other => crate::expr::Expr::Negation(Box::new(other)),
    }
}

/// The magnitude of a signed number, as an unsigned one.
fn magnitude(x: i64) -> (r: u64)
    ensures
        r as nat == abs_n(x),
{
    if x >= 0 {
        x as u64
    } else {
        (-(x as i128)) as u64
    }
}

/// Reduces a ratio whose sides are already simplified.
#[verifier::rlimit(100)]
fn ratio_comb_exec(n: crate::expr::Expr, d: crate::expr::Expr) -> (r: crate::expr::Expr)
    ensures
        r@ == ratio_comb(n@, d@),
{
    match (n, d) {
        (crate::expr::Expr::Integer(nn), crate::expr::Expr::Integer(dd)) => {
            if dd == 0 {
                proof {
                    assert(crate::expr::expr_view(crate::expr::Expr::Integer(nn))
                        == ExprModel::Integer(nn));
                    assert(crate::expr::expr_view(crate::expr::Expr::Integer(dd))
                        == ExprModel::Integer(dd));
                }
                crate::expr::Expr::Ratio {
                    numerator: Box::new(crate::expr::Expr::Integer(nn)),
                    denominator: Box::new(crate::expr::Expr::Integer(dd)),
                }
            } else if nn == 0 {
                crate::expr::Expr::Integer(0)
            } else {
                let na = magnitude(nn);
                let da = magnitude(dd);
                let mut settled: Option<crate::expr::Expr> = None;
                if na % da == 0 {
                    let q = na / da;
                    if (nn < 0) == (dd < 0) {
                        if q <= 0x7fff_ffff_ffff_ffffu64 {
                            proof {
                                assert(exact_quot(nn, dd) == q as int);
                            }
                            settled = Some(crate::expr::Expr::Integer(q as i64));
                        }
                    } else {
                        proof {
                            vstd::arithmetic::div_mod::lemma_div_nonincreasing(
                                na as int,
                                da as int,
                            );
                            vstd::arithmetic::div_mod::lemma_div_pos_is_pos(na as int, da as int);
                            assert(exact_quot(nn, dd) == -(q as int));
                            assert(fits_i64(exact_quot(nn, dd)));
                        }
                        settled = Some(crate::expr::Expr::Integer((-(q as i128)) as i64));
                    }
                }
                match settled {
                    Some(res) => res,
                    None => {
                        proof {
                            lemma_reduced_ratio(nn, dd);
                            crate::expr::gcd::lemma_gcd_divides(na as nat, da as nat);
                            crate::expr::gcd::lemma_divides_le(
                                spec_gcd(na as nat, da as nat),
                                na as nat,
                            );
                            crate::expr::gcd::lemma_divides_le(
                                spec_gcd(na as nat, da as nat),
                                da as nat,
                            );
                            if spec_gcd(na as nat, da as nat) > i64::MAX {
                                // Only the most negative value over itself could
                                // push the gcd past the signed range, and that
                                // pair reduced exactly above.
                                assert(spec_gcd(na as nat, da as nat) == 9223372036854775808nat);
                                assert(na == 9223372036854775808u64 && da
                                    == 9223372036854775808u64);
                                vstd::arithmetic::div_mod::lemma_mod_self_0(na as int);
                                assert(false);
                            }
                        }
                        let cd = crate::expr::gcd::signed_gcd(nn, dd);
                        let g = cd as u64;
                        let nq = na / g;
                        let dq = da / g;
                        proof {
                            vstd::arithmetic::div_mod::lemma_div_nonincreasing(na as int, g as int);
                            vstd::arithmetic::div_mod::lemma_div_nonincreasing(da as int, g as int);
                            vstd::arithmetic::div_mod::lemma_div_pos_is_pos(na as int, g as int);
                            vstd::arithmetic::div_mod::lemma_div_pos_is_pos(da as int, g as int);
                        }
                        let ng: i64 = if nn < 0 {
                            (-(nq as i128)) as i64
                        } else {
                            nq as i64
                        };
                        let dg: i64 = if dd < 0 {
                            (-(dq as i128)) as i64
                        } else {
                            dq as i64
                        };
                        proof {
                            let gs = spec_gcd(abs_n(nn), abs_n(dd)) as int;
                            assert(g as int == gs);
                            assert(nq as int == (abs_n(nn) as int) / gs);
                            assert(dq as int == (abs_n(dd) as int) / gs);
                            assert(ng as int == (if nn < 0 {
                                -((abs_n(nn) as int) / gs)
                            } else {
                                (abs_n(nn) as int) / gs
                            }));
                            assert(dg as int == (if dd < 0 {
                                -((abs_n(dd) as int) / gs)
                            } else {
                                (abs_n(dd) as int) / gs
                            }));
                        }
                        proof {
                            assert(crate::expr::expr_view(crate::expr::Expr::Integer(ng))
                                == ExprModel::Integer(ng));
                            assert(crate::expr::expr_view(crate::expr::Expr::Integer(dg))
                                == ExprModel::Integer(dg));
                        }
                        crate::expr::Expr::Ratio {
                            numerator: Box::new(crate::expr::Expr::Integer(ng)),
                            denominator: Box::new(crate::expr::Expr::Integer(dg)),
                        }
                    },
                }
            }
        },
        (other_n, other_d) => crate::expr::Expr::Ratio {
            numerator: Box::new(other_n),
            denominator: Box::new(other_d),
        },
    }
}

/// Combines a product whose sides are already simplified.
fn prod_comb_exec(a: crate::expr::Expr, b: crate::expr::Expr) -> (r: crate::expr::Expr)
    ensures
        r@ == prod_comb(a@, b@),
    decreases wt(a@) + wt(b@),
{
    match (a, b) {
        (crate::expr::Expr::Integer(x), crate::expr::Expr::Integer(y)) => {
            proof {
                assert((x as int) * (y as int) <= 92233720368547758080000000000000000000int
                    && (x as int) * (y as int) >= -92233720368547758080000000000000000000int)
                    by (nonlinear_arith)
                    requires
                        -9223372036854775808int <= x as int <= 9223372036854775807int,
                        -9223372036854775808int <= y as int <= 9223372036854775807int;
            }
            let m = (x as i128) * (y as i128);
            if m >= i64::MIN as i128 && m <= i64::MAX as i128 {
                crate::expr::Expr::Integer(m as i64)
            } else {
                crate::expr::Expr::Product {
                    left: Box::new(crate::expr::Expr::Integer(x)),
                    right: Box::new(crate::expr::Expr::Integer(y)),
                }
            }
        },
        (crate::expr::Expr::Decimal(p), crate::expr::Expr::Decimal(q)) => {
            match dec_mul_exec(p, q) {
                Some(dm) => crate::expr::Expr::Decimal(dm),
                None => crate::expr::Expr::Product {
                    left: Box::new(crate::expr::Expr::Decimal(p)),
                    right: Box::new(crate::expr::Expr::Decimal(q)),
                },
            }
        },
        (crate::expr::Expr::Integer(x), crate::expr::Expr::Decimal(q)) => {
            match dec_mul_exec(Dec { mant: x, scale: 0 }, q) {
                Some(dm) => crate::expr::Expr::Decimal(dm),
                None => crate::expr::Expr::Product {
                    left: Box::new(crate::expr::Expr::Integer(x)),
                    right: Box::new(crate::expr::Expr::Decimal(q)),
                },
            }
        },
        (crate::expr::Expr::Decimal(q), crate::expr::Expr::Integer(x)) => {
            match dec_mul_exec(Dec { mant: x, scale: 0 }, q) {
                Some(dm) => crate::expr::Expr::Decimal(dm),
                None => crate::expr::Expr::Product {
                    left: Box::new(crate::expr::Expr::Decimal(q)),
                    right: Box::new(crate::expr::Expr::Integer(x)),
                },
            }
        },
        (crate::expr::Expr::Integer(x), crate::expr::Expr::Ratio { numerator, denominator }) => {
            let p = prod_comb_exec(crate::expr::Expr::Integer(x), *numerator);
            ratio_comb_exec(p, *denominator)
        },
        (crate::expr::Expr::Ratio { numerator, denominator }, crate::expr::Expr::Integer(x)) => {
            let p = prod_comb_exec(crate::expr::Expr::Integer(x), *numerator);
            ratio_comb_exec(p, *denominator)
        },
        (
            crate::expr::Expr::Ratio { numerator: n1, denominator: d1 },
            crate::expr::Expr::Ratio { numerator: n2, denominator: d2 },
        ) => {
            let nn = prod_comb_exec(*n1, *n2);
            let dd = prod_comb_exec(*d1, *d2);
            ratio_comb_exec(nn, dd)
        },
        (aa, bb) => crate::expr::Expr::Product { left: Box::new(aa), right: Box::new(bb) },
    }
}

/// Combines a sum whose sides are already simplified.
fn sum_comb_exec(a: crate::expr::Expr, b: crate::expr::Expr) -> (r: crate::expr::Expr)
    ensures
        r@ == sum_comb(a@, b@),
    decreases wt(a@) + wt(b@),
{
    match (a, b) {
        (crate::expr::Expr::Integer(x), crate::expr::Expr::Integer(y)) => {
            let m = (x as i128) + (y as i128);
            if m >= i64::MIN as i128 && m <= i64::MAX as i128 {
                crate::expr::Expr::Integer(m as i64)
            } else {
                crate::expr::Expr::Sum {
                    left: Box::new(crate::expr::Expr::Integer(x)),
                    right: Box::new(crate::expr::Expr::Integer(y)),
                }
            }
        },
        (crate::expr::Expr::Decimal(p), crate::expr::Expr::Decimal(q)) => {
            match dec_add_exec(p, q) {
                Some(dm) => crate::expr::Expr::Decimal(dm),
                None => crate::expr::Expr::Sum {
                    left: Box::new(crate::expr::Expr::Decimal(p)),
                    right: Box::new(crate::expr::Expr::Decimal(q)),
                },
            }
        },
        (crate::expr::Expr::Integer(x), crate::expr::Expr::Decimal(q)) => {
            match dec_add_exec(Dec { mant: x, scale: 0 }, q) {
                Some(dm) => crate::expr::Expr::Decimal(dm),
                None => crate::expr::Expr::Sum {
                    left: Box::new(crate::expr::Expr::Integer(x)),
                    right: Box::new(crate::expr::Expr::Decimal(q)),
                },
            }
        },
        (crate::expr::Expr::Decimal(q), crate::expr::Expr::Integer(x)) => {
            match dec_add_exec(Dec { mant: x, scale: 0 }, q) {
                Some(dm) => crate::expr::Expr::Decimal(dm),
                None => crate::expr::Expr::Sum {
                    left: Box::new(crate::expr::Expr::Decimal(q)),
                    right: Box::new(crate::expr::Expr::Integer(x)),
                },
            }
        },
        (crate::expr::Expr::Integer(x), crate::expr::Expr::Ratio { numerator, denominator }) => {
            let den2 = (*denominator).clone();
            proof {
                lemma_prod_comb_wt(crate::expr::Expr::Integer(x)@, den2@);
            }
            let p = prod_comb_exec(crate::expr::Expr::Integer(x), *denominator);
            let num = sum_comb_exec(*numerator, p);
            ratio_comb_exec(num, den2)
        },
        (crate::expr::Expr::Ratio { numerator, denominator }, crate::expr::Expr::Integer(x)) => {
            let den2 = (*denominator).clone();
            proof {
                lemma_prod_comb_wt(crate::expr::Expr::Integer(x)@, den2@);
            }
            let p = prod_comb_exec(crate::expr::Expr::Integer(x), *denominator);
            let num = sum_comb_exec(*numerator, p);
            ratio_comb_exec(num, den2)
        },
        (
            crate::expr::Expr::Ratio { numerator: n1, denominator: d1 },
            crate::expr::Expr::Ratio { numerator: n2, denominator: d2 },
        ) => {
            let d1b = (*d1).clone();
            let d2b = (*d2).clone();
            let dd = prod_comb_exec(*d1, *d2);
            proof {
                lemma_prod_comb_wt(n1@, d2b@);
                lemma_prod_comb_wt(n2@, d1b@);
            }
            let p1 = prod_comb_exec(*n1, d2b);
            let p2 = prod_comb_exec(*n2, d1b);
            let num = sum_comb_exec(p1, p2);
            ratio_comb_exec(num, dd)
        },
        (aa, bb) => crate::expr::Expr::Sum { left: Box::new(aa), right: Box::new(bb) },
    }
}

impl crate::expr::Expr {
    /// Rewrites the expression toward its canonical form with exact
    /// integer and rational arithmetic: negations fold into numbers,
    /// sums and products combine exact operands, differences become
    /// sums of negations, and integer ratios reduce to lowest terms
    /// (a zero denominator is kept symbolically). Powers, roots and
    /// comparisons are not yet reducible and come back unchanged.
    pub fn simplify(self) -> (r: Self)
        ensures
            r@ == simp(self@),
        decreases self,
    {
        match self {
            crate::expr::Expr::Integer(c) => crate::expr::Expr::Integer(c),
            crate::expr::Expr::Decimal(d) => crate::expr::Expr::Decimal(d),
            crate::expr::Expr::Variable(s) => crate::expr::Expr::Variable(s),
            crate::expr::Expr::Negation(v) => neg_comb_exec((*v).simplify()),
            crate::expr::Expr::Sum { left, right } => sum_comb_exec(
                (*left).simplify(),
                (*right).simplify(),
            ),
            crate::expr::Expr::Difference { left, right } => sum_comb_exec(
                (*left).simplify(),
                neg_comb_exec((*right).simplify()),
            ),
            crate::expr::Expr::Product { left, right } => prod_comb_exec(
                (*left).simplify(),
                (*right).simplify(),
            ),
            crate::expr::Expr::Ratio { numerator, denominator } => ratio_comb_exec(
                (*numerator).simplify(),
                (*denominator).simplify(),
            ),
            crate::expr::Expr::Power { base, exp } => crate::expr::Expr::Power { base, exp },
            crate::expr::Expr::Root { index, radicand } => crate::expr::Expr::Root {
                index,
                radicand,
            },
            crate::expr::Expr::Equals { left, right } => crate::expr::Expr::Equals { left, right },
            crate::expr::Expr::NotEquals { left, right } => crate::expr::Expr::NotEquals {
                left,
                right,
            },
            crate::expr::Expr::GreaterThan { left, right } => crate::expr::Expr::GreaterThan {
                left,
                right,
            },
            crate::expr::Expr::LessThan { left, right } => crate::expr::Expr::LessThan {
                left,
                right,
            },
            crate::expr::Expr::GreaterThanEq { left, right } => crate::expr::Expr::GreaterThanEq {
                left,
                right,
            },
            crate::expr::Expr::LessThanEq { left, right } => crate::expr::Expr::LessThanEq {
                left,
                right,
            },
        }
    }
}

} // verus!

