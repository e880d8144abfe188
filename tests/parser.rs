use ruli::expr::Expr;
use ruli::parser::{parse_expr, parse_float, parse_list, parse_number, parse_symbol, SyntaxError};

fn to_double(t: String) -> u64 {
    t.parse::<f64>().unwrap().to_bits()
}

fn float(x: f64) -> Expr {
    Expr::Float(x.to_bits())
}

#[test]
fn test_parse_number() {
    assert_eq!(parse_number("123"), Ok(("", Expr::Number(123))));
    assert_eq!(parse_number("-456"), Ok(("", Expr::Number(-456))));
}

#[test]
fn test_parse_float() {
    assert_eq!(parse_float("123.456", &to_double), Ok(("", float(123.456))));
    assert_eq!(parse_float("-456.789", &to_double), Ok(("", float(-456.789))));
}

#[test]
fn test_parse_symbol() {
    assert_eq!(parse_symbol("foo"), Ok(("", Expr::Symbol("foo".to_string()))));
    assert_eq!(parse_symbol("bar123"), Ok(("", Expr::Symbol("bar123".to_string()))));
    assert_eq!(parse_symbol("+"), Ok(("", Expr::Symbol("+".to_string()))));
    assert_eq!(parse_symbol("++"), Ok(("", Expr::Symbol("++".to_string()))));
    assert_eq!(parse_symbol("-"), Ok(("", Expr::Symbol("-".to_string()))));
}

#[test]
fn test_parse_list() {
    assert_eq!(
        parse_list("(+ 1 2)", &to_double),
        Ok((
            "",
            Expr::List(vec![
                Expr::Symbol("+".to_string()),
                Expr::Number(1),
                Expr::Number(2)
            ])
        ))
    );
    assert_eq!(
        parse_list("(* 3 4)", &to_double),
        Ok((
            "",
            Expr::List(vec![
                Expr::Symbol("*".to_string()),
                Expr::Number(3),
                Expr::Number(4),
            ])
        ))
    );
    assert_eq!(
        parse_list("(- 10 5 2)", &to_double),
        Ok((
            "",
            Expr::List(vec![
                Expr::Symbol("-".to_string()),
                Expr::Number(10),
                Expr::Number(5),
                Expr::Number(2),
            ])
        ))
    );
}

#[test]
fn parse_expr_examples() {
    assert_eq!(
        parse_expr("(+ 1 2)", &to_double),
        Ok((
            "",
            Expr::List(vec![
                Expr::Symbol("+".to_string()),
                Expr::Number(1),
                Expr::Number(2)
            ])
        ))
    );
    assert_eq!(parse_expr("123.456", &to_double), Ok(("", float(123.456))));
    assert_eq!(parse_expr("-456", &to_double), Ok(("", Expr::Number(-456))));
}

#[test]
fn parse_expr_keeps_the_rest() {
    assert_eq!(parse_expr("42 rest", &to_double), Ok((" rest", Expr::Number(42))));
    assert_eq!(parse_expr("abc)", &to_double), Ok((")", Expr::Symbol("abc".to_string()))));
    assert_eq!(parse_expr("1.", &to_double), Ok((".", Expr::Number(1))));
}

#[test]
fn parse_empty_and_nested_lists() {
    assert_eq!(parse_expr("()", &to_double), Ok(("", Expr::List(vec![]))));
    assert_eq!(parse_expr("  ( )", &to_double), Ok(("", Expr::List(vec![]))));
    assert_eq!(
        parse_expr("(+ (* 2 3) 4.5)", &to_double),
        Ok((
            "",
            Expr::List(vec![
                Expr::Symbol("+".to_string()),
                Expr::List(vec![
                    Expr::Symbol("*".to_string()),
                    Expr::Number(2),
                    Expr::Number(3),
                ]),
                float(4.5),
            ])
        ))
    );
}

#[test]
fn parse_failures() {
    assert_eq!(parse_expr("", &to_double), Err(SyntaxError));
    assert_eq!(parse_expr("(+ 1 2", &to_double), Err(SyntaxError));
    assert_eq!(parse_expr(")", &to_double), Err(SyntaxError));
    assert_eq!(parse_expr(" 1", &to_double), Err(SyntaxError));
    assert_eq!(parse_number("abc"), Err(SyntaxError));
    assert_eq!(parse_float("12", &to_double), Err(SyntaxError));
    assert_eq!(parse_symbol("1a"), Err(SyntaxError));
}

#[test]
fn parse_number_limits() {
    assert_eq!(parse_number("9223372036854775807"), Ok(("", Expr::Number(i64::MAX))));
    assert_eq!(parse_number("-9223372036854775808"), Ok(("", Expr::Number(i64::MIN))));
    assert_eq!(parse_number("9223372036854775808"), Err(SyntaxError));
    assert_eq!(parse_number("-9223372036854775809"), Err(SyntaxError));
    assert_eq!(
        parse_expr("-9223372036854775809", &to_double),
        Ok(("9223372036854775809", Expr::Symbol("-".to_string())))
    );
}
