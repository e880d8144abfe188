use ruli::evaluator::{eval, EvalError};
use ruli::expr::{Expr, Num, Op};

fn widen(n: Num) -> f64 {
    match n {
        Num::Int(i) => i as f64,
        Num::Float(b) => f64::from_bits(b),
    }
}

fn arith(op: Op, a: Num, b: Num) -> u64 {
    let (x, y) = (widen(a), widen(b));
    let r = match op {
        Op::Add => x + y,
        Op::Sub => x - y,
        Op::Mul => x * y,
        Op::Div => x / y,
    };
    r.to_bits()
}

fn float(x: f64) -> Expr {
    Expr::Float(x.to_bits())
}

fn sym(s: &str) -> Expr {
    Expr::Symbol(s.to_string())
}

#[test]
fn test_eval_number() {
    assert_eq!(eval(&Expr::Number(42), &arith), Ok(Expr::Number(42)));
    assert_eq!(eval(&float(3.14), &arith), Ok(float(3.14)));
    assert_eq!(eval(&Expr::Number(-42), &arith), Ok(Expr::Number(-42)));
}

#[test]
fn test_eval_addition() {
    assert_eq!(
        eval(&Expr::List(vec![sym("+"), Expr::Number(1), Expr::Number(2)]), &arith),
        Ok(float(3.0))
    );
}

#[test]
fn test_eval_multiplication() {
    assert_eq!(
        eval(&Expr::List(vec![sym("*"), Expr::Number(3), Expr::Number(4)]), &arith),
        Ok(float(12.0))
    );
}

#[test]
fn test_eval_subtraction() {
    assert_eq!(
        eval(
            &Expr::List(vec![sym("-"), Expr::Number(10), Expr::Number(5), Expr::Number(2)]),
            &arith
        ),
        Ok(float(3.0))
    );
}

#[test]
fn test_eval_division() {
    assert_eq!(
        eval(&Expr::List(vec![sym("/"), Expr::Number(10), Expr::Number(2)]), &arith),
        Ok(float(5.0))
    );
}

#[test]
fn test_eval_division_by_zero() {
    assert!(eval(&Expr::List(vec![sym("/"), Expr::Number(10), Expr::Number(0)]), &arith).is_err());
}

#[test]
fn test_eval_empty_list() {
    assert!(eval(&Expr::List(vec![]), &arith).is_err());
}

#[test]
fn test_eval_unknown_function() {
    assert!(eval(&Expr::List(vec![sym("unknown"), Expr::Number(1), Expr::Number(2)]), &arith).is_err());
}

#[test]
fn test_eval_nested_expressions() {
    assert_eq!(
        eval(
            &Expr::List(vec![
                sym("+"),
                Expr::List(vec![sym("*"), Expr::Number(2), Expr::Number(3)]),
                Expr::Number(4),
            ]),
            &arith
        ),
        Ok(float(10.0))
    );
}

#[test]
fn binary_calls_on_integers() {
    let call = |op: &str, a: i64, b: i64| eval(&Expr::List(vec![sym(op), Expr::Number(a), Expr::Number(b)]), &arith);
    assert_eq!(call("+", -7, 3), Ok(float(-4.0)));
    assert_eq!(call("-", 3, 10), Ok(float(-7.0)));
    assert_eq!(call("*", -6, 7), Ok(float(-42.0)));
    assert_eq!(call("/", 1, 4), Ok(float(0.25)));
    assert_eq!(call("/", 1, 3), Ok(float(1.0 / 3.0)));
}

#[test]
fn single_argument_keeps_its_kind() {
    assert_eq!(eval(&Expr::List(vec![sym("+"), Expr::Number(5)]), &arith), Ok(Expr::Number(5)));
    assert_eq!(eval(&Expr::List(vec![sym("/"), Expr::Number(0)]), &arith), Ok(Expr::Number(0)));
    assert_eq!(eval(&Expr::List(vec![sym("*"), float(2.5)]), &arith), Ok(float(2.5)));
}

#[test]
fn division_by_zero_of_each_kind() {
    let div = |z: Expr| eval(&Expr::List(vec![sym("/"), Expr::Number(10), z]), &arith);
    assert_eq!(div(Expr::Number(0)), Err(EvalError::DivisionByZero));
    assert_eq!(div(float(0.0)), Err(EvalError::DivisionByZero));
    assert_eq!(div(float(-0.0)), Err(EvalError::DivisionByZero));
    assert_eq!(
        eval(
            &Expr::List(vec![
                sym("/"),
                Expr::Number(1),
                Expr::List(vec![sym("-"), Expr::Number(2), Expr::Number(2)]),
            ]),
            &arith
        ),
        Err(EvalError::DivisionByZero)
    );
}

#[test]
fn errors_are_classified() {
    assert_eq!(eval(&Expr::List(vec![]), &arith), Err(EvalError::EmptyList));
    assert_eq!(
        eval(&Expr::List(vec![sym("foo"), Expr::Number(1), Expr::Number(2)]), &arith),
        Err(EvalError::UnknownFunction(sym("foo")))
    );
    assert_eq!(
        eval(&Expr::List(vec![Expr::Number(1), Expr::Number(2)]), &arith),
        Err(EvalError::UnknownFunction(Expr::Number(1)))
    );
    assert_eq!(eval(&sym("x"), &arith), Err(EvalError::UndefinedSymbol("x".to_string())));
    assert_eq!(eval(&Expr::List(vec![sym("+")]), &arith), Err(EvalError::MissingArgument));
}

#[test]
fn first_failure_wins() {
    assert_eq!(
        eval(
            &Expr::List(vec![
                sym("+"),
                Expr::List(vec![sym("/"), Expr::Number(1), Expr::Number(0)]),
                Expr::List(vec![]),
            ]),
            &arith
        ),
        Err(EvalError::DivisionByZero)
    );
    assert_eq!(
        eval(
            &Expr::List(vec![sym("/"), Expr::Number(1), Expr::Number(0), sym("y")]),
            &arith
        ),
        Err(EvalError::DivisionByZero)
    );
    assert_eq!(
        eval(&Expr::List(vec![sym("+"), Expr::Number(1), sym("y")]), &arith),
        Err(EvalError::UndefinedSymbol("y".to_string()))
    );
}

#[test]
fn float_operands_mix_with_integers() {
    assert_eq!(
        eval(&Expr::List(vec![sym("+"), float(0.5), Expr::Number(2), float(0.25)]), &arith),
        Ok(float(2.75))
    );
}

#[test]
fn duplicate_copies_the_tree() {
    let e = Expr::List(vec![sym("+"), Expr::List(vec![float(1.5)]), Expr::Number(3)]);
    assert_eq!(e.duplicate(), e);
}
