use vstd::prelude::*;
use vstd::string::*;

verus! {

/// A parsed or computed expression.
///
/// `Float` holds the bit pattern of an IEEE-754 binary64 value (the bits that
/// `f64::to_bits` gives), so that the library itself handles no floating point.
#[derive(Debug, PartialEq)]
pub enum Expr {
    Number(i64),
    Float(u64),
    Symbol(String),
    List(Vec<Expr>),
}

/// An operand of an arithmetic call: an integer, or binary64 bits.
#[derive(Clone, Copy, Debug, PartialEq)]
pub enum Num {
    Int(i64),
    Float(u64),
}

/// The four arithmetic operators.
#[derive(Clone, Copy, Debug, PartialEq)]
pub enum Op {
    Add,
    Sub,
    Mul,
    Div,
}

impl Expr {
    pub open spec fn is_literal(self) -> bool {
        self is Number || self is Float
    }

    /// A copy of the whole tree, with every child list copied too.
    pub fn duplicate(&self) -> (r: Expr)
        ensures
            same(r, *self),
        decreases self,
    {
        match self {
            Expr::Number(n) => Expr::Number(*n),
            Expr::Float(b) => Expr::Float(*b),
            Expr::Symbol(s) => Expr::Symbol(s.clone()),
            Expr::List(v) => {
                let mut w: Vec<Expr> = Vec::new();
                let mut i: usize = 0;
                while i < v.len()
                    invariant
                        *self == Expr::List(*v),
                        i <= v@.len(),
                        w@.len() == i,
                        forall|j: int| 0 <= j < i ==> same(#[trigger] w@[j], v@[j]),
                    decreases v@.len() - i,
                {
                    proof {
                        assert(decreases_to!(*self => (*self)->List_0));
                        assert(decreases_to!(*v => v[i as int]));
                    }
                    let c = v[i].duplicate();
                    w.push(c);
                    i = i + 1;
                }
                Expr::List(w)
            },
        }
    }
}

/// Structural equality: the same variant, with equal payloads, and lists that hold
/// pairwise equal children in the same order.
pub open spec fn same(a: Expr, b: Expr) -> bool
    decreases a,
{
    match (a, b) {
        (Expr::Number(x), Expr::Number(y)) => x == y,
        (Expr::Float(x), Expr::Float(y)) => x == y,
        (Expr::Symbol(x), Expr::Symbol(y)) => x@ == y@,
        (Expr::List(x), Expr::List(y)) => x@.len() == y@.len() && forall|i: int|
            0 <= i < x@.len() ==> same(#[trigger] x@[i], y@[i]),
        _ => false,
    }
}

/// The operator named by a symbol expression, if any.
pub fn head_op_of(e: &Expr) -> (r: Option<Op>)
    ensures
        r == head_op(*e),
{
    match e {
        Expr::Symbol(s) => {
            let t = s.as_str();
            if t.unicode_len() != 1 {
                proof {
                    assert(t@ != seq!['+']);
                    assert(t@ != seq!['-']);
                    assert(t@ != seq!['*']);
                    assert(t@ != seq!['/']);
                }
                return None;
            }
            let c = t.get_char(0);
            proof {
                assert(t@ == seq![c]);
            }
            if c == '+' {
                Some(Op::Add)
            } else if c == '-' {
                Some(Op::Sub)
            } else if c == '*' {
                Some(Op::Mul)
            } else if c == '/' {
                Some(Op::Div)
            } else {
                proof {
                    assert(seq![c] != seq!['+']) by {
                        assert(seq![c][0] != seq!['+'][0]);
                    }
                    assert(seq![c] != seq!['-']) by {
                        assert(seq![c][0] != seq!['-'][0]);
                    }
                    assert(seq![c] != seq!['*']) by {
                        assert(seq![c][0] != seq!['*'][0]);
                    }
                    assert(seq![c] != seq!['/']) by {
                        assert(seq![c][0] != seq!['/'][0]);
                    }
                }
                None
            }
        },
        _ => None,
    }
}

/// The numeric value of a literal expression.
pub fn num_of_expr(e: &Expr) -> (r: Option<Num>)
    ensures
        r == num_of(*e),
{
    match e {
        Expr::Number(n) => Some(Num::Int(*n)),
        Expr::Float(b) => Some(Num::Float(*b)),
        _ => None,
    }
}

/// Whether the operand is zero as a double.
pub fn num_is_zero(n: Num) -> (r: bool)
    ensures
        r == is_zero(n),
{
    match n {
        Num::Int(i) => i == 0,
        Num::Float(b) => b == 0 || b == 0x8000_0000_0000_0000u64,
    }
}

/// The numeric value of a literal; `None` for a symbol or a list.
pub open spec fn num_of(e: Expr) -> Option<Num> {
    match e {
        Expr::Number(n) => Some(Num::Int(n)),
        Expr::Float(b) => Some(Num::Float(b)),
        _ => None,
    }
}

/// Whether the operand equals zero once taken as a double: integer 0, or +0.0 / -0.0.
pub open spec fn is_zero(n: Num) -> bool {
    match n {
        Num::Int(i) => i == 0,
        Num::Float(b) => b == 0 || b == 0x8000_0000_0000_0000u64,
    }
}

/// The operator that a symbol names, if it is one of `+ - * /`.
pub open spec fn op_of(s: Seq<char>) -> Option<Op> {
    if s == seq!['+'] {
        Some(Op::Add)
    } else if s == seq!['-'] {
        Some(Op::Sub)
    } else if s == seq!['*'] {
        Some(Op::Mul)
    } else if s == seq!['/'] {
        Some(Op::Div)
    } else {
        None
    }
}

/// The operator at the head of a call, if the expression is an operator symbol.
pub open spec fn head_op(e: Expr) -> Option<Op> {
    match e {
        Expr::Symbol(s) => op_of(s@),
        _ => None,
    }
}

} // verus!
