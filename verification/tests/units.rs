use symcalc::error::position::Position;
use symcalc::error::span::Span;
use symcalc::error::Error;
use symcalc::expr::Expr;
use symcalc::lexer::token::Dec;
use symcalc::lexer::token::TokenType;
use symcalc::utils::superscript;
use symcalc::utils::u64_to_string;

#[test]
fn advance_counts_bytes_lines_and_columns() {
    let p = Position::new(0, 1, 1).advance("ab");
    assert_eq!(p, Position::new(2, 1, 3));
    let q = Position::new(0, 1, 1).advance("ab\ncd");
    assert_eq!(q, Position::new(5, 2, 3));
}

#[test]
fn forward_and_backward_move_columns_only() {
    let p = Position::new(3, 2, 7);
    assert_eq!(p.forward(), Position::new(3, 2, 8));
    assert_eq!(p.forward_by(4), Position::new(3, 2, 11));
    assert_eq!(p.backward(), Position::new(3, 2, 6));
    assert_eq!(p.backward_by(5), Position::new(3, 2, 2));
}

#[test]
fn span_extend_and_lines() {
    let a = Span::new(Position::new(0, 1, 1), Position::new(2, 1, 3));
    let b = Span::new(Position::new(4, 2, 1), Position::new(6, 2, 3));
    let c = a.extend(b);
    assert_eq!(c.pos_1, a.pos_1);
    assert_eq!(c.pos_2, b.pos_2);
    let lines = c.lines();
    assert_eq!(lines.start, 1);
    assert_eq!(lines.end, 3);
}

#[test]
fn span_add_by_and_move_by() {
    let s = Span::new(Position::new(0, 1, 2), Position::new(2, 1, 4));
    let widened = s.add_by(2);
    assert_eq!(widened.pos_2.column, 6);
    assert_eq!(widened.pos_1.column, 2);
    let moved = s.move_by(-1);
    assert_eq!(moved.pos_1.column, 1);
    assert_eq!(moved.pos_2.column, 3);
}

#[test]
fn error_span_and_with_span() {
    let s1 = Span::new_single(Position::new(0, 1, 1));
    let s2 = Span::new_single(Position::new(5, 1, 6));
    let e = Error::Syntax(String::from("expected ')'"), s1);
    assert_eq!(e.span(), s1);
    let e2 = e.with_span(s2);
    assert_eq!(e2.span(), s2);
    match e2 {
        Error::Syntax(msg, _) => assert_eq!(msg, "expected ')'"),
        other => panic!("the kind must be kept, got {:?}", other),
    }
}

#[test]
fn token_types_compare_by_kind_alone() {
    let a = TokenType::Decimal(Dec { mant: 10, scale: 0 });
    let b = TokenType::Decimal(Dec { mant: 999, scale: 2 });
    assert!(a == b);
    let x = TokenType::Identifier(String::from("x"));
    let y = TokenType::Identifier(String::from("y"));
    assert!(x == y);
    assert!(TokenType::Add != TokenType::Sub);
    assert!(a != x);
}

#[test]
fn dec_parse_reads_digits_and_dot() {
    assert_eq!(Dec::parse("12.5"), Dec { mant: 125, scale: 1 });
    assert_eq!(Dec::parse("007"), Dec { mant: 7, scale: 0 });
    assert_eq!(Dec::parse("0.050"), Dec { mant: 50, scale: 3 });
    assert_eq!(Dec::parse(""), Dec { mant: 0, scale: 0 });
}

#[test]
fn superscript_maps_digits_and_keeps_strangers() {
    assert_eq!(superscript("123"), "¹²³");
    assert_eq!(superscript("2x"), "²ˣ");
    assert_eq!(superscript("a+b"), "ᵃ⁺ᵇ");
    assert_eq!(superscript("q#"), "q#");
}

#[test]
fn numbers_print_in_decimal() {
    assert_eq!(u64_to_string(0), "0");
    assert_eq!(u64_to_string(42), "42");
    assert_eq!(u64_to_string(90210), "90210");
}

#[test]
fn display_renders_infix_text() {
    let half = Expr::Ratio {
        numerator: Box::new(Expr::Integer(1)),
        denominator: Box::new(Expr::Integer(2)),
    };
    assert_eq!(half.display(), "(1 / 2)");
    let root = Expr::Root {
        index: Box::new(Expr::Integer(2)),
        radicand: Box::new(Expr::Integer(9)),
    };
    assert_eq!(root.display(), "²√9");
    let dec = Expr::Decimal(Dec { mant: 55, scale: 1 });
    assert_eq!(dec.display(), "5.5");
    let neg_dec = Expr::Decimal(Dec { mant: -450, scale: 2 });
    assert_eq!(neg_dec.display(), "-4.5");
    let neg = Expr::Negation(Box::new(Expr::Variable(String::from("x"))));
    assert_eq!(neg.display(), "-x");
    let prod = Expr::Product {
        left: Box::new(Expr::Integer(2)),
        right: Box::new(Expr::Variable(String::from("x"))),
    };
    assert_eq!(prod.display(), "2x");
    let cmp = Expr::LessThanEq {
        left: Box::new(Expr::Integer(1)),
        right: Box::new(Expr::Integer(2)),
    };
    assert_eq!(cmp.display(), "1 <= 2");
}

#[test]
fn display_trims_fraction_zeros() {
    assert_eq!(Expr::Decimal(Dec { mant: 500, scale: 2 }).display(), "5");
    assert_eq!(Expr::Decimal(Dec { mant: 550, scale: 2 }).display(), "5.5");
    assert_eq!(Expr::Decimal(Dec { mant: 505, scale: 2 }).display(), "5.05");
}

#[test]
fn decimal_times_decimal_stays_exact() {
    let a = Expr::Decimal(Dec { mant: 15, scale: 1 });
    let b = Expr::Decimal(Dec { mant: 25, scale: 1 });
    let prod = Expr::Product {
        left: Box::new(a),
        right: Box::new(b),
    };
    assert_eq!(prod.simplify(), Expr::Decimal(Dec { mant: 375, scale: 2 }));
}

#[test]
fn negation_folds_into_numbers() {
    let e = Expr::Negation(Box::new(Expr::Integer(7)));
    assert_eq!(e.simplify(), Expr::Integer(-7));
    let d = Expr::Negation(Box::new(Expr::Decimal(Dec { mant: 55, scale: 1 })));
    assert_eq!(d.simplify(), Expr::Decimal(Dec { mant: -55, scale: 1 }));
}

#[test]
fn overflowing_sum_stays_unreduced() {
    let e = Expr::Sum {
        left: Box::new(Expr::Integer(i64::MAX)),
        right: Box::new(Expr::Integer(1)),
    };
    let simplified = e.simplify();
    assert_eq!(
        simplified,
        Expr::Sum {
            left: Box::new(Expr::Integer(i64::MAX)),
            right: Box::new(Expr::Integer(1)),
        }
    );
    let again = simplified.clone().simplify();
    assert_eq!(again, simplified);
}
