use symcalc::error::position::Position;
use symcalc::error::span::Span;
use symcalc::error::Error;
use symcalc::expr::Expr;
use symcalc::lexer::token::Dec;
use symcalc::lexer::token::Token;
use symcalc::lexer::token::TokenType;
use symcalc::lexer::Lexer;
use symcalc::parser::Parser;

fn tokens_of(input: &str) -> Vec<Token> {
    let mut lexer = Lexer::new(input);
    lexer.tokenize().unwrap()
}

fn run(input: &str) -> Expr {
    let mut parser = Parser::new(tokens_of(input));
    let ast = parser.parse().unwrap();
    Expr::convert(ast).unwrap().simplify()
}

fn lower(input: &str) -> Result<Expr, Error> {
    let mut parser = Parser::new(tokens_of(input));
    let ast = parser.parse().unwrap();
    Expr::convert(ast)
}

fn whole(c: i64) -> Expr {
    Expr::Integer(c)
}

fn ratio(n: Expr, d: Expr) -> Expr {
    Expr::Ratio {
        numerator: Box::new(n),
        denominator: Box::new(d),
    }
}

fn sum(l: Expr, r: Expr) -> Expr {
    Expr::Sum {
        left: Box::new(l),
        right: Box::new(r),
    }
}

#[test]
fn whitespace_only_yields_eof_alone() {
    for input in ["", " ", "   \t \r\n  ", "\u{b}\u{c}"] {
        let toks = tokens_of(input);
        assert_eq!(toks.len(), 1);
        assert!(matches!(toks[0].ty, TokenType::Eof));
    }
}

#[test]
fn unknown_character_is_reported_with_its_span() {
    let mut lexer = Lexer::new("@");
    match lexer.tokenize() {
        Err(Error::UnknownCharacter(msg, span)) => {
            assert_eq!(msg, "'@' is not a valid character");
            assert_eq!(span, Span::new_single(Position::new(0, 1, 1)));
        }
        other => panic!("expected an unknown-character error, got {:?}", other),
    }
}

#[test]
fn unknown_character_mid_input() {
    let mut lexer = Lexer::new("1 ~ 2");
    match lexer.tokenize() {
        Err(Error::UnknownCharacter(msg, span)) => {
            assert_eq!(msg, "'~' is not a valid character");
            assert_eq!(span.pos_1.index, 2);
        }
        other => panic!("expected an unknown-character error, got {:?}", other),
    }
}

#[test]
fn maximal_munch_lexes_decimal_whole() {
    let toks = tokens_of("12.5");
    assert_eq!(toks.len(), 2);
    match &toks[0].ty {
        TokenType::Decimal(d) => assert_eq!(*d, Dec { mant: 125, scale: 1 }),
        other => panic!("expected a numeric literal, got {:?}", other),
    }
    assert!(matches!(toks[1].ty, TokenType::Eof));
}

#[test]
fn maximal_munch_prefers_two_char_operators() {
    let toks = tokens_of("1>=2");
    assert_eq!(toks.len(), 4);
    assert!(matches!(toks[1].ty, TokenType::GreaterThanEq));
}

#[test]
fn trailing_dot_literal() {
    let toks = tokens_of("1.");
    assert_eq!(toks.len(), 2);
    match &toks[0].ty {
        TokenType::Decimal(d) => assert_eq!(*d, Dec { mant: 1, scale: 0 }),
        other => panic!("expected a numeric literal, got {:?}", other),
    }
}

#[test]
fn leading_dot_literal() {
    let toks = tokens_of(".5");
    assert_eq!(toks.len(), 2);
    match &toks[0].ty {
        TokenType::Decimal(d) => assert_eq!(*d, Dec { mant: 5, scale: 1 }),
        other => panic!("expected a numeric literal, got {:?}", other),
    }
}

#[test]
fn implicit_multiplication_by_juxtaposition() {
    let got = run("2x");
    let want = Expr::Product {
        left: Box::new(whole(2)),
        right: Box::new(Expr::Variable(String::from("x"))),
    };
    assert_eq!(got, want);
}

#[test]
fn additive_operator_never_starts_an_implicit_factor() {
    assert_eq!(run("2 + 3"), whole(5));
    assert_eq!(run("2 - 3"), whole(-1));
}

#[test]
fn juxtaposed_numbers_multiply() {
    assert_eq!(run("2 3"), whole(6));
}

#[test]
fn parenthesized_grouping() {
    assert_eq!(run("(1+2)*3"), whole(9));
}

#[test]
fn sqrt_with_two_arguments_is_an_invalid_call() {
    match lower("sqrt[4,5]") {
        Err(Error::InvalidCall(msg, _)) => {
            assert_eq!(msg, "expected 1 argument, got 2");
        }
        other => panic!("expected an invalid-call error, got {:?}", other),
    }
}

#[test]
fn sqrt_lowers_to_a_square_root() {
    let got = lower("sqrt[9]").unwrap();
    let want = Expr::Root {
        index: Box::new(whole(2)),
        radicand: Box::new(whole(9)),
    };
    assert_eq!(got, want);
}

#[test]
fn cbrt_lowers_to_a_cube_root() {
    let got = lower("cbrt[8]").unwrap();
    let want = Expr::Root {
        index: Box::new(whole(3)),
        radicand: Box::new(whole(8)),
    };
    assert_eq!(got, want);
}

#[test]
fn unknown_call_name_is_reported() {
    match lower("foo[1]") {
        Err(Error::InvalidCall(msg, _)) => {
            assert_eq!(msg, "unimplemented identifier 'foo'");
        }
        other => panic!("expected an invalid-call error, got {:?}", other),
    }
}

#[test]
fn root_call_with_a_parameter() {
    // The lexical catalog owns no colon pattern, so a parameterized call
    // can only come from a hand-built token stream.
    let span = Span::new_single(Position::new(0, 1, 1));
    let toks = vec![
        Token {
            ty: TokenType::Identifier(String::from("root")),
            span,
        },
        Token {
            ty: TokenType::Colon,
            span,
        },
        Token {
            ty: TokenType::Decimal(Dec { mant: 3, scale: 0 }),
            span,
        },
        Token {
            ty: TokenType::LBracket,
            span,
        },
        Token {
            ty: TokenType::Decimal(Dec { mant: 8, scale: 0 }),
            span,
        },
        Token {
            ty: TokenType::RBracket,
            span,
        },
        Token {
            ty: TokenType::Eof,
            span,
        },
    ];
    let mut parser = Parser::new(toks);
    let ast = parser.parse().unwrap();
    let got = Expr::convert(ast).unwrap();
    let want = Expr::Root {
        index: Box::new(whole(3)),
        radicand: Box::new(whole(8)),
    };
    assert_eq!(got, want);
}

#[test]
fn colon_is_not_lexable() {
    let mut lexer = Lexer::new("root:2[9]");
    match lexer.tokenize() {
        Err(Error::UnknownCharacter(msg, _)) => {
            assert_eq!(msg, "':' is not a valid character");
        }
        other => panic!("expected an unknown-character error, got {:?}", other),
    }
}

#[test]
fn syntax_error_on_dangling_operator() {
    let mut parser = Parser::new(tokens_of("2+"));
    match parser.parse() {
        Err(Error::Syntax(msg, _)) => {
            assert_eq!(msg, "expected decimal, '+', '-' or '('");
        }
        other => panic!("expected a syntax error, got {:?}", other),
    }
}

#[test]
fn syntax_error_on_missing_close_paren() {
    let mut parser = Parser::new(tokens_of("(1+2"));
    match parser.parse() {
        Err(Error::Syntax(msg, _)) => {
            assert_eq!(msg, "expected ')'");
        }
        other => panic!("expected a syntax error, got {:?}", other),
    }
}

#[test]
fn rational_sum_reduces_to_lowest_terms() {
    let e = sum(ratio(whole(1), whole(3)), ratio(whole(1), whole(6)));
    assert_eq!(e.simplify(), ratio(whole(1), whole(2)));
}

#[test]
fn rational_pipeline_sum() {
    assert_eq!(run("1/3 + 1/6"), ratio(whole(1), whole(2)));
}

#[test]
fn division_by_zero_is_kept_symbolically() {
    let e = ratio(whole(5), whole(0));
    assert_eq!(e.simplify(), ratio(whole(5), whole(0)));
}

#[test]
fn integer_promotes_to_decimal_in_a_sum() {
    let e = sum(whole(2), Expr::Decimal(Dec { mant: 35, scale: 1 }));
    assert_eq!(e.simplify(), Expr::Decimal(Dec { mant: 55, scale: 1 }));
}

#[test]
fn decimal_pipeline_sum() {
    assert_eq!(
        run("2 + 3.5"),
        Expr::Decimal(Dec { mant: 55, scale: 1 })
    );
}

#[test]
fn gcd_values() {
    assert_eq!(symcalc::expr::gcd::gcd(12, 18), 6);
    assert_eq!(symcalc::expr::gcd::gcd(17, 5), 1);
    assert_eq!(symcalc::expr::gcd::gcd(0, 9), 9);
    assert_eq!(symcalc::expr::gcd::gcd(9, 0), 9);
    assert_eq!(symcalc::expr::gcd::gcd(48, 36), 12);
    assert_eq!(symcalc::expr::gcd::signed_gcd(-48, 36), 12);
    assert_eq!(symcalc::expr::gcd::signed_gcd(48, -36), 12);
}

#[test]
fn simplify_is_idempotent_on_samples() {
    let samples = [
        "1/3 + 1/6",
        "2x",
        "2 + 3.5",
        "5/0",
        "2 3 4",
        "1 - 2/4",
        "(1+2)*3/9",
    ];
    for input in samples {
        let once = run(input);
        let twice = once.clone().simplify();
        assert_eq!(twice, once);
    }
}

#[test]
fn exact_division_becomes_an_integer() {
    assert_eq!(run("6/3"), whole(2));
    assert_eq!(run("6/4"), ratio(whole(3), whole(2)));
    assert_eq!(run("0/7"), whole(0));
}

#[test]
fn both_unary_signs_lower_to_negation() {
    assert_eq!(run("-5"), whole(-5));
    // A unary plus lowers to a negation, the same as a unary minus.
    assert_eq!(run("+5"), whole(-5));
}

#[test]
fn power_chain_groups_to_the_left() {
    let got = lower("2^3^2").unwrap();
    let want = Expr::Power {
        base: Box::new(Expr::Power {
            base: Box::new(whole(2)),
            exp: Box::new(whole(3)),
        }),
        exp: Box::new(whole(2)),
    };
    assert_eq!(got, want);
}

#[test]
fn comparison_lowers_and_stays_unreduced() {
    let got = run("1+1 = 2");
    let want = Expr::Equals {
        left: Box::new(sum(whole(1), whole(1))),
        right: Box::new(whole(2)),
    };
    assert_eq!(got, want);
}

#[test]
fn trailing_token_is_a_syntax_error() {
    let mut parser = Parser::new(tokens_of("1 ]"));
    match parser.parse() {
        Err(Error::Syntax(msg, _)) => {
            assert_eq!(msg, "expected '+', '-', '*', '/', or '^'");
        }
        other => panic!("expected a syntax error, got {:?}", other),
    }
}
