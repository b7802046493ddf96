use calc_core::ast::{AngleMode, BinOp, Expr, Func1};
use calc_core::errors::{CombKind, EvalError};
use calc_core::parser::parse;

use std::f64::consts::{E, PI};

// The numeric fold over the parsed tree, as the calculator front end
// performs it: plain IEEE double arithmetic over the verified structure.
fn eval_expr(e: &Expr, mode: AngleMode) -> Result<f64, String> {
    match e {
        Expr::Bin(op, a, b) => {
            let l = eval_expr(a, mode)?;
            let r = eval_expr(b, mode)?;
            match op {
                BinOp::Add => Ok(l + r),
                BinOp::Sub => Ok(l - r),
                BinOp::Mul => Ok(l * r),
                BinOp::Div => {
                    if r == 0.0 {
                        Err("Division by zero".to_string())
                    } else {
                        Ok(l / r)
                    }
                }
                BinOp::Mod => Ok(l % r),
                BinOp::Pow => Ok(l.powf(r)),
            }
        }
        Expr::Call(f, a) => {
            let v = eval_expr(a, mode)?;
            match f {
                Func1::Sqrt => Ok(v.sqrt()),
                Func1::Sin | Func1::Cos | Func1::Tan => {
                    let angle = match mode {
                        AngleMode::Degrees => v * PI / 180.0,
                        AngleMode::Radians => v,
                    };
                    Ok(match f {
                        Func1::Sin => angle.sin(),
                        Func1::Cos => angle.cos(),
                        _ => angle.tan(),
                    })
                }
                Func1::Log => Ok(v.log10()),
                Func1::Ln => Ok(v.ln()),
                Func1::Fact => Ok(factorial_f64(v)),
            }
        }
        Expr::Comb(k, a, b) => {
            let n = eval_expr(a, mode)?;
            let r = eval_expr(b, mode)?;
            let name = match k {
                CombKind::Perm => "nPr",
                CombKind::Comb => "nCr",
            };
            if n < 0.0 || r < 0.0 || r > n || n.fract() != 0.0 || r.fract() != 0.0 {
                return Err(format!("Invalid {} arguments", name));
            }
            if n > 170.0 {
                return Err("n too large (max 170)".to_string());
            }
            let mut result = 1.0_f64;
            match k {
                CombKind::Perm => {
                    for i in 0..(r as i32) {
                        result *= n - i as f64;
                    }
                }
                CombKind::Comb => {
                    let r_use = if r > n - r { n - r } else { r };
                    for i in 0..(r_use as i32) {
                        result *= (n - i as f64) / (i as f64 + 1.0);
                    }
                }
            }
            Ok(result)
        }
        Expr::ConstPi => Ok(PI),
        Expr::ConstE => Ok(E),
        Expr::Num(t) => t
            .parse::<f64>()
            .map_err(|_| format!("Invalid expression: {}", t)),
    }
}

fn factorial_f64(n: f64) -> f64 {
    if n < 0.0 || n.fract() != 0.0 {
        return f64::NAN;
    }
    if n > 170.0 {
        return f64::INFINITY;
    }
    let mut result = 1.0;
    for i in 2..=(n as i64) {
        result *= i as f64;
    }
    result
}

fn evaluate(expr: &str) -> Result<f64, String> {
    match parse(expr) {
        Ok(tree) => eval_expr(&tree, AngleMode::Degrees),
        Err(e) => Err(e.message()),
    }
}

#[test]
fn two_operand_expressions() {
    assert_eq!(evaluate("7+4"), Ok(11.0));
    assert_eq!(evaluate("7-4"), Ok(3.0));
    assert_eq!(evaluate("7*4"), Ok(28.0));
    assert_eq!(evaluate("8/4"), Ok(2.0));
    assert_eq!(evaluate("7%4"), Ok(3.0));
    assert_eq!(evaluate("2^10"), Ok(1024.0));
    assert_eq!(evaluate("7+0"), Ok(7.0));
    assert_eq!(evaluate("7-0"), Ok(7.0));
    assert_eq!(evaluate("7*0"), Ok(0.0));
}

#[test]
fn division_by_zero_is_reported() {
    assert_eq!(evaluate("1/0"), Err("Division by zero".to_string()));
}

#[test]
fn parenthesized_division_by_zero_fails_identically() {
    assert_eq!(evaluate("1/0"), evaluate("(1/0)"));
    assert_eq!(evaluate("(1/0)"), Err("Division by zero".to_string()));
}

#[test]
fn implicit_multiplication() {
    assert_eq!(evaluate("2(3)"), Ok(6.0));
    assert_eq!(evaluate("(2)(3)"), Ok(6.0));
    assert_eq!(evaluate("(2)3"), Ok(6.0));
}

#[test]
fn implicit_multiplication_tree_shape() {
    let tree = parse("2(3)").unwrap();
    assert_eq!(
        tree,
        Expr::Bin(
            BinOp::Mul,
            Box::new(Expr::Num("2".to_string())),
            Box::new(Expr::Num("3".to_string())),
        )
    );
}

#[test]
fn subtraction_associates_left() {
    assert_eq!(evaluate("10-3-2"), Ok(5.0));
}

#[test]
fn subtraction_tree_shape() {
    let tree = parse("10-3-2").unwrap();
    assert_eq!(
        tree,
        Expr::Bin(
            BinOp::Sub,
            Box::new(Expr::Bin(
                BinOp::Sub,
                Box::new(Expr::Num("10".to_string())),
                Box::new(Expr::Num("3".to_string())),
            )),
            Box::new(Expr::Num("2".to_string())),
        )
    );
}

#[test]
fn precedence_orders_operators() {
    assert_eq!(evaluate("2+3*4"), Ok(14.0));
    assert_eq!(evaluate("2*3+4"), Ok(10.0));
    assert_eq!(evaluate("2*(3+4)"), Ok(14.0));
    assert_eq!(evaluate("2^3*4"), Ok(32.0));
}

#[test]
fn named_functions() {
    assert_eq!(evaluate("sqrt(16)"), Ok(4.0));
    assert_eq!(evaluate("log(100)"), Ok(2.0));
    assert_eq!(evaluate("ln(1)"), Ok(0.0));
    assert_eq!(evaluate("factorial(5)"), Ok(120.0));
    assert_eq!(evaluate("fact(5)"), Ok(120.0));
    assert_eq!(evaluate("sin(0)"), Ok(0.0));
    let s90 = evaluate("sin(90)").unwrap();
    assert!((s90 - 1.0).abs() < 1e-12);
    let c60 = evaluate("cos(60)").unwrap();
    assert!((c60 - 0.5).abs() < 1e-12);
}

#[test]
fn combinatorial_functions_in_expressions() {
    assert_eq!(evaluate("nPr(5,2)"), Ok(20.0));
    assert_eq!(evaluate("nCr(5,2)"), Ok(10.0));
    assert_eq!(evaluate("nCr(10,3)"), evaluate("nCr(10,7)"));
    assert_eq!(
        evaluate("nPr(2,3)"),
        Err("Invalid nPr arguments".to_string())
    );
    assert_eq!(
        evaluate("nCr(200,1)"),
        Err("n too large (max 170)".to_string())
    );
    assert_eq!(
        evaluate("nPr(5)"),
        Err("nPr requires two arguments: nPr(n,r)".to_string())
    );
    assert_eq!(
        evaluate("nCr(5)"),
        Err("nCr requires two arguments: nCr(n,r)".to_string())
    );
}

#[test]
fn named_constants() {
    assert_eq!(evaluate("pi"), Ok(PI));
    assert_eq!(evaluate("e"), Ok(E));
    let area = evaluate("pi*2^2").unwrap();
    assert!((area - 4.0 * PI).abs() < 1e-12);
}

#[test]
fn whitespace_is_removed() {
    assert_eq!(evaluate(" 1 + 2 "), Ok(3.0));
    assert_eq!(evaluate("1\t+\t2"), Ok(3.0));
}

#[test]
fn invalid_expressions_name_the_token() {
    assert_eq!(evaluate("abc"), Err("Invalid expression: abc".to_string()));
    assert_eq!(evaluate(""), Err("Invalid expression: ".to_string()));
    assert_eq!(
        evaluate("2+abc"),
        Err("Invalid expression: abc".to_string())
    );
}

#[test]
fn missing_comma_is_a_parse_error() {
    let res = parse("nPr(5)");
    assert_eq!(res, Err(EvalError::CombMissingComma(CombKind::Perm)));
}

#[test]
fn literal_grammar_matches_standard_parsing() {
    let cases = [
        "1", "1.5", ".5", "5.", "1e5", "1.e5", "2.5e10", "1E3", "inf", "INF", "iNf",
        "infinity", "Infinity", "nan", "NaN", "+5", "-5", "-5.25", "+.5", "-inf",
        "1e", "e5", "1.2.3", "..5", ".", "+", "-", "1e+", "1e-", "abc", "0x10", "1_000",
        " 1", "1 ", "", "1e05", "007",
    ];
    for s in cases {
        let v: Vec<char> = s.chars().collect();
        let ours = calc_core::literal::is_float_literal(&v, 0, v.len());
        let std_ok = s.parse::<f64>().is_ok();
        assert_eq!(ours, std_ok, "literal grammar disagrees on {:?}", s);
    }
}

#[test]
fn signed_literals_survive_as_leaves() {
    assert_eq!(evaluate("-5"), Ok(-5.0));
    assert_eq!(evaluate("-5+3"), Ok(-2.0));
    assert_eq!(evaluate("5*-2"), Ok(-10.0));
}

#[test]
fn unparenthesized_function_names_fail() {
    assert_eq!(
        evaluate("sqrt"),
        Err("Invalid expression: sqrt".to_string())
    );
}

#[test]
fn error_messages_render_exactly() {
    assert_eq!(
        EvalError::DivisionByZero.message(),
        "Division by zero".to_string()
    );
    assert_eq!(
        EvalError::NTooLarge.message(),
        "n too large (max 170)".to_string()
    );
    assert_eq!(
        EvalError::InvalidExpression("xy".to_string()).message(),
        "Invalid expression: xy".to_string()
    );
    assert_eq!(
        EvalError::InvalidCombArgs(CombKind::Comb).message(),
        "Invalid nCr arguments".to_string()
    );
}
