use vstd::prelude::*;
use vstd::string::*;
use crate::expr::{Expr, Num, Op, num_of, is_zero, op_of, head_op, same, head_op_of, num_of_expr, num_is_zero};

verus! {

/// Why an evaluation failed.
#[derive(Debug, PartialEq)]
pub enum EvalError {
    EmptyList,
    UndefinedSymbol(String),
    UnknownFunction(Expr),
    MissingArgument,
    ExpectedNumber,
    DivisionByZero,
}

/// The bits that `arith` gives for `a op b`.
pub open spec fn apply<F: Fn(Op, Num, Num) -> u64>(arith: F, op: Op, a: Num, b: Num) -> u64 {
    choose|bits: u64| arith.ensures((op, a, b), bits)
}

/// `arith` gives one result for each triple of arguments.
pub open spec fn deterministic<F: Fn(Op, Num, Num) -> u64>(arith: F) -> bool {
    forall|op: Op, a: Num, b: Num, x: u64, y: u64|
        #[trigger] arith.ensures((op, a, b), x) && #[trigger] arith.ensures((op, a, b), y) ==> x == y
}

/// The result of evaluating `e`, where `apply(arith, op, a, b)` gives the bits of the
/// double `a op b` (both operands taken as doubles).
pub open spec fn eval_of<F: Fn(Op, Num, Num) -> u64>(e: Expr, arith: F) -> Result<Expr, EvalError>
    decreases e, 0int, 0nat,
{
    match e {
        Expr::Number(n) => Ok(Expr::Number(n)),
        Expr::Float(b) => Ok(Expr::Float(b)),
        Expr::Symbol(s) => Err(EvalError::UndefinedSymbol(s)),
        Expr::List(v) => {
            if v@.len() == 0 {
                Err(EvalError::EmptyList)
            } else {
                match head_op(v@[0]) {
                    None => Err(EvalError::UnknownFunction(v@[0])),
                    Some(op) => {
                        if v@.len() == 1 {
                            Err(EvalError::MissingArgument)
                        } else {
                            match eval_of(v@[1], arith) {
                                Err(err) => Err(err),
                                Ok(first) => fold_of(op, first, v@, 2, arith),
                            }
                        }
                    },
                }
            }
        },
    }
}

/// The result of folding the arguments `args[i..]`, evaluated from left to right, into
/// the accumulator `acc` with `op`.
pub open spec fn fold_of<F: Fn(Op, Num, Num) -> u64>(
    op: Op,
    acc: Expr,
    args: Seq<Expr>,
    i: int,
    arith: F,
) -> Result<Expr, EvalError>
    decreases args, args.len() - i, 1nat,
{
    if i < 0 || i >= args.len() {
        Ok(acc)
    } else {
        let rx = eval_of(args[i], arith);
        match num_of(acc) {
            None => Err(EvalError::ExpectedNumber),
            Some(a) => match rx {
                Err(err) => Err(err),
                Ok(x) => match num_of(x) {
                    None => Err(EvalError::ExpectedNumber),
                    Some(b) => {
                        if op == Op::Div && is_zero(b) {
                            Err(EvalError::DivisionByZero)
                        } else {
                            fold_of(op, Expr::Float(apply(arith, op, a, b)), args, i + 1, arith)
                        }
                    },
                },
            },
        }
    }
}

/// Equal results, but that the expression in an unknown-function error need only be
/// structurally equal.
pub open spec fn agrees(r: Result<Expr, EvalError>, s: Result<Expr, EvalError>) -> bool {
    match (r, s) {
        (Err(EvalError::UnknownFunction(x)), Err(EvalError::UnknownFunction(y))) => same(x, y),
        _ => r == s,
    }
}

/// Evaluates `expr`. Literals evaluate to themselves; a call `(op a1 a2 ...)` evaluates
/// its arguments from left to right, keeps the first result as it is, and folds each
/// further one into it with `arith`, which gives the bits of the double `a op b`.
/// The first failure ends the evaluation.
pub fn eval<F: Fn(Op, Num, Num) -> u64>(expr: &Expr, arith: &F) -> (r: Result<Expr, EvalError>)
    requires
        forall|op: Op, a: Num, b: Num| #[trigger] arith.requires((op, a, b)),
        deterministic(*arith),
    ensures
        agrees(r, eval_of(*expr, *arith)),
        r is Ok ==> r->Ok_0.is_literal(),
    decreases expr, 0int, 0nat,
{
    match expr {
        Expr::Number(n) => Ok(Expr::Number(*n)),
        Expr::Float(b) => Ok(Expr::Float(*b)),
        Expr::Symbol(s) => Err(EvalError::UndefinedSymbol(s.clone())),
        Expr::List(v) => {
            if v.len() == 0 {
                return Err(EvalError::EmptyList);
            }
            match head_op_of(&v[0]) {
                None => Err(EvalError::UnknownFunction(v[0].duplicate())),
                Some(op) => {
                    if v.len() == 1 {
                        return Err(EvalError::MissingArgument);
                    }
                    proof {
                        assert(decreases_to!(*expr => (*expr)->List_0));
                        assert(decreases_to!(*v => v@));
                    }
                    match eval(&v[1], arith) {
                        Err(err) => Err(err),
                        Ok(first) => fold_args(op, first, v, 2, arith),
                    }
                },
            }
        },
    }
}

/// Folds `args[i..]`, evaluated from left to right, into the accumulator `acc` with `op`.
fn fold_args<F: Fn(Op, Num, Num) -> u64>(
    op: Op,
    acc: Expr,
    args: &Vec<Expr>,
    i: usize,
    arith: &F,
) -> (r: Result<Expr, EvalError>)
    requires
        forall|op: Op, a: Num, b: Num| #[trigger] arith.requires((op, a, b)),
        deterministic(*arith),
        acc.is_literal(),
    ensures
        agrees(r, fold_of(op, acc, args@, i as int, *arith)),
        r is Ok ==> r->Ok_0.is_literal(),
    decreases args@, args@.len() - i, 1nat,
{
    if i >= args.len() {
        return Ok(acc);
    }
    proof {
        assert(decreases_to!(args@ => args@[i as int]));
    }
    let rx = eval(&args[i], arith);
    let a = match num_of_expr(&acc) {
        None => return Err(EvalError::ExpectedNumber),
        Some(a) => a,
    };
    let x = match rx {
        Err(err) => return Err(err),
        Ok(x) => x,
    };
    let b = match num_of_expr(&x) {
        None => return Err(EvalError::ExpectedNumber),
        Some(b) => b,
    };
    if matches!(op, Op::Div) && num_is_zero(b) {
        return Err(EvalError::DivisionByZero);
    }
    let bits = arith(op, a, b);
    assert(bits == apply(*arith, op, a, b));
    fold_args(op, Expr::Float(bits), args, i + 1, arith)
}

/// Evaluating a literal gives back the same literal, integer or float.
pub proof fn lemma_literal_evaluates_to_itself<F: Fn(Op, Num, Num) -> u64>(e: Expr, arith: F)
    requires
        e.is_literal(),
    ensures
        eval_of(e, arith) == Ok::<Expr, EvalError>(e),
{
}

/// A call with a single argument returns that argument's literal unchanged: `(+ 5)` is
/// the integer 5, not a float.
pub proof fn lemma_single_argument<F: Fn(Op, Num, Num) -> u64>(
    list: Vec<Expr>,
    s: String,
    lit: Expr,
    arith: F,
)
    requires
        op_of(s@) is Some,
        lit.is_literal(),
        list@ == seq![Expr::Symbol(s), lit],
    ensures
        eval_of(Expr::List(list), arith) == Ok::<Expr, EvalError>(lit),
{
    assert(list@[1] == lit);
    assert(eval_of(list@[1], arith) == Ok::<Expr, EvalError>(lit));
    assert(fold_of(op_of(s@)->Some_0, lit, list@, 2, arith) == Ok::<Expr, EvalError>(lit));
}

/// A call on two integers `(op a b)` is the float that the arithmetic gives for `a op b`,
/// unless it divides by zero.
pub proof fn lemma_two_integers<F: Fn(Op, Num, Num) -> u64>(
    list: Vec<Expr>,
    s: String,
    a: i64,
    b: i64,
    arith: F,
)
    requires
        op_of(s@) is Some,
        !(op_of(s@) == Some(Op::Div) && b == 0),
        list@ == seq![Expr::Symbol(s), Expr::Number(a), Expr::Number(b)],
    ensures
        eval_of(Expr::List(list), arith) == Ok::<Expr, EvalError>(
            Expr::Float(apply(arith, op_of(s@)->Some_0, Num::Int(a), Num::Int(b))),
        ),
{
    let op = op_of(s@)->Some_0;
    let bits = apply(arith, op, Num::Int(a), Num::Int(b));
    assert(eval_of(list@[1], arith) == Ok::<Expr, EvalError>(Expr::Number(a)));
    assert(eval_of(list@[2], arith) == Ok::<Expr, EvalError>(Expr::Number(b)));
    assert(fold_of(op, Expr::Float(bits), list@, 3, arith) == Ok::<Expr, EvalError>(Expr::Float(bits)));
    assert(fold_of(op, Expr::Number(a), list@, 2, arith) == Ok::<Expr, EvalError>(Expr::Float(bits)));
}

/// Arguments fold from the left: `(op a b c)` is `(a op b) op c`.
pub proof fn lemma_left_fold<F: Fn(Op, Num, Num) -> u64>(
    list: Vec<Expr>,
    s: String,
    a: i64,
    b: i64,
    c: i64,
    arith: F,
)
    requires
        op_of(s@) is Some,
        !(op_of(s@) == Some(Op::Div) && (b == 0 || c == 0)),
        list@ == seq![Expr::Symbol(s), Expr::Number(a), Expr::Number(b), Expr::Number(c)],
    ensures
        eval_of(Expr::List(list), arith) == Ok::<Expr, EvalError>(
            Expr::Float(
                apply(
                    arith,
                    op_of(s@)->Some_0,
                    Num::Float(apply(arith, op_of(s@)->Some_0, Num::Int(a), Num::Int(b))),
                    Num::Int(c),
                ),
            ),
        ),
{
    let op = op_of(s@)->Some_0;
    let ab = apply(arith, op, Num::Int(a), Num::Int(b));
    let abc = apply(arith, op, Num::Float(ab), Num::Int(c));
    assert(eval_of(list@[1], arith) == Ok::<Expr, EvalError>(Expr::Number(a)));
    assert(eval_of(list@[2], arith) == Ok::<Expr, EvalError>(Expr::Number(b)));
    assert(eval_of(list@[3], arith) == Ok::<Expr, EvalError>(Expr::Number(c)));
    assert(fold_of(op, Expr::Float(abc), list@, 4, arith) == Ok::<Expr, EvalError>(Expr::Float(abc)));
    assert(fold_of(op, Expr::Float(ab), list@, 3, arith) == Ok::<Expr, EvalError>(Expr::Float(abc)));
    assert(fold_of(op, Expr::Number(a), list@, 2, arith) == Ok::<Expr, EvalError>(Expr::Float(abc)));
}

/// Dividing by an operand that is zero, integer or float of either sign, fails.
pub proof fn lemma_division_by_zero<F: Fn(Op, Num, Num) -> u64>(
    list: Vec<Expr>,
    s: String,
    x: Expr,
    z: Expr,
    arith: F,
)
    requires
        s@ == seq!['/'],
        x.is_literal(),
        z.is_literal(),
        is_zero(num_of(z)->Some_0),
        list@ == seq![Expr::Symbol(s), x, z],
    ensures
        eval_of(Expr::List(list), arith) == Err::<Expr, EvalError>(EvalError::DivisionByZero),
{
    assert(s@ != seq!['+']) by {
        assert(s@[0] != seq!['+'][0]);
    }
    assert(s@ != seq!['-']) by {
        assert(s@[0] != seq!['-'][0]);
    }
    assert(s@ != seq!['*']) by {
        assert(s@[0] != seq!['*'][0]);
    }
    assert(op_of(s@) == Some(Op::Div));
    assert(eval_of(list@[1], arith) == Ok::<Expr, EvalError>(x));
    assert(eval_of(list@[2], arith) == Ok::<Expr, EvalError>(z));
    assert(fold_of(Op::Div, x, list@, 2, arith) == Err::<Expr, EvalError>(EvalError::DivisionByZero));
}

} // verus!
