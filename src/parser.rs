use vstd::prelude::*;
use vstd::string::*;
use crate::expr::Expr;

verus! {

/// The input does not start with an expression.
#[derive(Clone, Copy, Debug, PartialEq)]
pub struct SyntaxError;

pub open spec fn is_blank(c: char) -> bool {
    c == ' ' || c == '\t' || c == '\r' || c == '\n'
}

pub open spec fn is_digit(c: char) -> bool {
    '0' <= c && c <= '9'
}

pub open spec fn is_alpha(c: char) -> bool {
    ('a' <= c && c <= 'z') || ('A' <= c && c <= 'Z')
}

pub open spec fn is_alnum(c: char) -> bool {
    is_alpha(c) || is_digit(c)
}

pub open spec fn is_op_char(c: char) -> bool {
    c == '+' || c == '-' || c == '*' || c == '/' || c == '=' || c == '<' || c == '>' || c == '!'
        || c == '?'
}

/// The classes of characters that the grammar scans runs of.
#[derive(Clone, Copy, Debug, PartialEq)]
pub enum CharClass {
    Blank,
    Digit,
    Alnum,
    OpChar,
}

pub open spec fn in_class(k: CharClass, c: char) -> bool {
    match k {
        CharClass::Blank => is_blank(c),
        CharClass::Digit => is_digit(c),
        CharClass::Alnum => is_alnum(c),
        CharClass::OpChar => is_op_char(c),
    }
}

/// The end of the run of characters of class `k` from `i` on.
pub open spec fn run_end(s: Seq<char>, i: int, k: CharClass) -> int
    decreases s.len() - i,
{
    if 0 <= i < s.len() && in_class(k, s[i]) {
        run_end(s, i + 1, k)
    } else {
        i
    }
}

pub open spec fn blank_end(s: Seq<char>, i: int) -> int {
    run_end(s, i, CharClass::Blank)
}

pub open spec fn digit_end(s: Seq<char>, i: int) -> int {
    run_end(s, i, CharClass::Digit)
}

/// The position after an optional leading `-` at `i`.
pub open spec fn sign_end(s: Seq<char>, i: int) -> int {
    if 0 <= i < s.len() && s[i] == '-' {
        i + 1
    } else {
        i
    }
}

/// The value of the decimal digits `s[j..k]`.
pub open spec fn digits_value(s: Seq<char>, j: int, k: int) -> nat
    decreases k - j,
{
    if k <= j {
        0
    } else {
        digits_value(s, j, k - 1) * 10 + (s[k - 1] as nat - '0' as nat) as nat
    }
}

/// The largest magnitude of an `i64` with the given sign.
pub open spec fn magnitude_limit(negative: bool) -> nat {
    if negative {
        0x8000_0000_0000_0000nat
    } else {
        0x7fff_ffff_ffff_ffffnat
    }
}

/// Where an integer `-?[0-9]+` that starts at `i` ends, if there is one whose value fits
/// in an `i64`.
pub open spec fn number_end(s: Seq<char>, i: int) -> Option<int> {
    let j = sign_end(s, i);
    let k = digit_end(s, j);
    if k > j && digits_value(s, j, k) <= magnitude_limit(j > i) {
        Some(k)
    } else {
        None
    }
}

/// The value of the integer that starts at `i`.
pub open spec fn number_value(s: Seq<char>, i: int) -> int {
    let j = sign_end(s, i);
    let v = digits_value(s, j, digit_end(s, j)) as int;
    if j > i {
        -v
    } else {
        v
    }
}

/// Where a float `-?[0-9]+\.[0-9]+` that starts at `i` ends.
pub open spec fn float_end(s: Seq<char>, i: int) -> Option<int> {
    let j = sign_end(s, i);
    let k = digit_end(s, j);
    if k > j && 0 <= k < s.len() && s[k] == '.' && digit_end(s, k + 1) > k + 1 {
        Some(digit_end(s, k + 1))
    } else {
        None
    }
}

/// Where a symbol that starts at `i` ends: a letter and then letters and digits, or a
/// run of operator characters.
pub open spec fn symbol_end(s: Seq<char>, i: int) -> Option<int> {
    if 0 <= i < s.len() && is_alpha(s[i]) {
        Some(run_end(s, i + 1, CharClass::Alnum))
    } else if 0 <= i < s.len() && is_op_char(s[i]) {
        Some(run_end(s, i, CharClass::OpChar))
    } else {
        None
    }
}

/// The position of the `(` that opens a list at `i`, after optional blanks.
pub open spec fn list_open(s: Seq<char>, i: int) -> Option<int> {
    let a = blank_end(s, i);
    if 0 <= i <= a < s.len() && s[a] == '(' {
        Some(a)
    } else {
        None
    }
}

/// Where the list that starts at `i` ends.
pub open spec fn list_end(s: Seq<char>, i: int) -> Option<int>
    decreases s.len() - i, 1int,
{
    if 0 <= i <= s.len() {
        match list_open(s, i) {
            Some(a) => {
                let c = blank_end(s, items_end(s, a + 1));
                if 0 <= c < s.len() && s[c] == ')' {
                    Some(c + 1)
                } else {
                    None
                }
            },
            None => None,
        }
    } else {
        None
    }
}

/// Where the items of a list end, from `p` on: each item is an expression after
/// optional blanks.
pub open spec fn items_end(s: Seq<char>, p: int) -> int
    decreases s.len() - p, 3int,
{
    if 0 <= p <= s.len() {
        let q = blank_end(s, p);
        if p <= q <= s.len() {
            match expr_end(s, q) {
                Some(r) => if p < r <= s.len() {
                    items_end(s, r)
                } else {
                    p
                },
                None => p,
            }
        } else {
            p
        }
    } else {
        p
    }
}

/// Where the expression that starts at `i` ends: a list, a float, an integer or a
/// symbol, tried in that order.
pub open spec fn expr_end(s: Seq<char>, i: int) -> Option<int>
    decreases s.len() - i, 2int,
{
    if 0 <= i <= s.len() {
        if list_end(s, i) is Some {
            list_end(s, i)
        } else if float_end(s, i) is Some {
            float_end(s, i)
        } else if number_end(s, i) is Some {
            number_end(s, i)
        } else {
            symbol_end(s, i)
        }
    } else {
        None
    }
}

/// The bits that `conv` gives for the float literal `text`.
pub open spec fn float_bits<G: Fn(String) -> u64>(conv: G, text: Seq<char>) -> u64 {
    choose|bits: u64| #[trigger] gives(conv, text, bits)
}

/// `conv` returns `bits` on some string that holds `text`.
pub open spec fn gives<G: Fn(String) -> u64>(conv: G, text: Seq<char>, bits: u64) -> bool {
    exists|t: String| t@ == text && #[trigger] conv.ensures((t,), bits)
}

/// `conv` gives one result for each text.
pub open spec fn conv_deterministic<G: Fn(String) -> u64>(conv: G) -> bool {
    forall|t1: String, t2: String, x: u64, y: u64|
        #[trigger] conv.ensures((t1,), x) && #[trigger] conv.ensures((t2,), y) && t1@ == t2@
            ==> x == y
}

/// `e` is the list that starts at `i`.
pub open spec fn list_tree<G: Fn(String) -> u64>(s: Seq<char>, i: int, e: Expr, conv: G) -> bool
    decreases s.len() - i, 1int,
{
    match list_open(s, i) {
        Some(a) => match e {
            Expr::List(v) => items_tree(s, a + 1, v@, conv),
            _ => false,
        },
        None => false,
    }
}

/// `items` are the items of a list, from `p` on.
pub open spec fn items_tree<G: Fn(String) -> u64>(
    s: Seq<char>,
    p: int,
    items: Seq<Expr>,
    conv: G,
) -> bool
    decreases s.len() - p, 3int,
{
    if 0 <= p <= s.len() {
        let q = blank_end(s, p);
        if p <= q <= s.len() {
            match expr_end(s, q) {
                Some(r) => if p < r <= s.len() {
                    items.len() > 0 && expr_tree(s, q, items[0], conv) && items_tree(
                        s,
                        r,
                        items.drop_first(),
                        conv,
                    )
                } else {
                    items.len() == 0
                },
                None => items.len() == 0,
            }
        } else {
            items.len() == 0
        }
    } else {
        items.len() == 0
    }
}

/// `e` is the expression that starts at `i`.
pub open spec fn expr_tree<G: Fn(String) -> u64>(s: Seq<char>, i: int, e: Expr, conv: G) -> bool
    decreases s.len() - i, 2int,
{
    if 0 <= i <= s.len() {
        if list_end(s, i) is Some {
            list_tree(s, i, e, conv)
        } else if float_end(s, i) is Some {
            e == Expr::Float(float_bits(conv, s.subrange(i, float_end(s, i)->Some_0)))
        } else if number_end(s, i) is Some {
            e == Expr::Number(number_value(s, i) as i64)
        } else if symbol_end(s, i) is Some {
            e is Symbol && e->Symbol_0@ == s.subrange(i, symbol_end(s, i)->Some_0)
        } else {
            false
        }
    } else {
        false
    }
}

proof fn lemma_run_end(s: Seq<char>, i: int, k: CharClass)
    requires
        0 <= i <= s.len(),
    ensures
        i <= run_end(s, i, k) <= s.len(),
        forall|m: int| i <= m < run_end(s, i, k) ==> in_class(k, #[trigger] s[m]),
        run_end(s, i, k) < s.len() ==> !in_class(k, s[run_end(s, i, k)]),
    decreases s.len() - i,
{
    if i < s.len() && in_class(k, s[i]) {
        lemma_run_end(s, i + 1, k);
    }
}

fn char_in_class(k: CharClass, c: char) -> (r: bool)
    ensures
        r == in_class(k, c),
{
    match k {
        CharClass::Blank => c == ' ' || c == '\t' || c == '\r' || c == '\n',
        CharClass::Digit => '0' <= c && c <= '9',
        CharClass::Alnum => ('a' <= c && c <= 'z') || ('A' <= c && c <= 'Z') || ('0' <= c && c
            <= '9'),
        CharClass::OpChar => c == '+' || c == '-' || c == '*' || c == '/' || c == '=' || c == '<'
            || c == '>' || c == '!' || c == '?',
    }
}

/// The end of the run of characters of class `k` in `s` from `i` on.
fn scan(s: &str, n: usize, i: usize, k: CharClass) -> (j: usize)
    requires
        n == s@.len(),
        i <= n,
    ensures
        j == run_end(s@, i as int, k),
        i <= j <= n,
{
    proof {
        lemma_run_end(s@, i as int, k);
    }
    let mut j = i;
    while j < n && char_in_class(k, s.get_char(j))
        invariant
            n == s@.len(),
            i <= j <= n,
            run_end(s@, j as int, k) == run_end(s@, i as int, k),
        decreases n - j,
    {
        j = j + 1;
    }
    j
}

/// The position after an optional `-` at `i`.
fn skip_sign(s: &str, n: usize, i: usize) -> (j: usize)
    requires
        n == s@.len(),
        i <= n,
    ensures
        j == sign_end(s@, i as int),
        i <= j <= n,
{
    if i < n && s.get_char(i) == '-' {
        i + 1
    } else {
        i
    }
}

/// The integer that starts at `i`, and where it ends.
fn number_at(s: &str, n: usize, i: usize) -> (r: Option<(usize, i64)>)
    requires
        n == s@.len(),
        i <= n,
    ensures
        r is Some <==> number_end(s@, i as int) is Some,
        r is Some ==> r->Some_0.0 == number_end(s@, i as int)->Some_0 && r->Some_0.1
            == number_value(s@, i as int) && r->Some_0.0 <= n,
{
    let j = skip_sign(s, n, i);
    let k = scan(s, n, j, CharClass::Digit);
    if k == j {
        return None;
    }
    let negative = j > i;
    let limit: u64 = if negative { 0x8000_0000_0000_0000u64 } else { 0x7fff_ffff_ffff_ffffu64 };
    proof {
        lemma_run_end(s@, j as int, CharClass::Digit);
    }
    let mut acc: u64 = 0;
    let mut p = j;
    while p < k
        invariant
            n == s@.len(),
            j <= p <= k <= n,
            j == sign_end(s@, i as int),
            negative == (j > i),
            k == digit_end(s@, j as int),
            forall|m: int| j <= m < k ==> in_class(CharClass::Digit, #[trigger] s@[m]),
            limit == magnitude_limit(negative),
            acc == digits_value(s@, j as int, p as int),
            acc <= limit,
        decreases k - p,
    {
        let c = s.get_char(p);
        assert(is_digit(s@[p as int]));
        let d = (c as u32 - '0' as u32) as u64;
        assert(d <= 9);
        if acc > (limit - d) / 10 {
            proof {
                assert(acc * 10 + d > limit) by (nonlinear_arith)
                    requires
                        acc > (limit - d) / 10,
                        d <= 9,
                        limit >= 9,
                ;
                assert(digits_value(s@, j as int, p + 1) == acc * 10 + d);
                lemma_digits_grow(s@, j as int, p + 1, k as int);

            }
            return None;
        }
        proof {
            assert(acc * 10 + d <= limit) by (nonlinear_arith)
                requires
                    acc <= (limit - d) / 10,
                    d <= 9,
                    limit >= 9,
            ;
        }
        acc = acc * 10 + d;
        p = p + 1;
    }
    let v: i64 = if negative {
        if acc == 0x8000_0000_0000_0000u64 {
            i64::MIN
        } else {
            -(acc as i64)
        }
    } else {
        acc as i64
    };
    Some((k, v))
}

proof fn lemma_digits_grow(s: Seq<char>, j: int, p: int, k: int)
    requires
        j <= p <= k,
    ensures
        digits_value(s, j, p) <= digits_value(s, j, k),
    decreases k - p,
{
    if p < k {
        lemma_digits_grow(s, j, p, k - 1);
    }
}

/// The float that starts at `i`, and where it ends.
fn float_at<G: Fn(String) -> u64>(s: &str, n: usize, i: usize, conv: &G) -> (r: Option<
    (usize, Expr),
>)
    requires
        n == s@.len(),
        i <= n,
        forall|t: String| #[trigger] conv.requires((t,)),
        conv_deterministic(*conv),
    ensures
        r is Some <==> float_end(s@, i as int) is Some,
        r is Some ==> r->Some_0.0 == float_end(s@, i as int)->Some_0 && r->Some_0.1 == Expr::Float(
            float_bits(*conv, s@.subrange(i as int, r->Some_0.0 as int)),
        ) && r->Some_0.0 <= n,
{
    let j = skip_sign(s, n, i);
    let k = scan(s, n, j, CharClass::Digit);
    if k == j {
        return None;
    }
    if !(k < n && s.get_char(k) == '.') {
        return None;
    }
    let m = scan(s, n, k + 1, CharClass::Digit);
    if m == k + 1 {
        return None;
    }
    let text = s.substring_char(i, m).to_owned();
    let bits = conv(text);
    proof {
        assert(gives(*conv, text@, bits));
        let b = float_bits(*conv, text@);
        assert(gives(*conv, text@, b));
        let t = choose|t: String| t@ == text@ && #[trigger] conv.ensures((t,), b);
        assert(conv.ensures((t,), b));
    }
    Some((m, Expr::Float(bits)))
}

/// The symbol that starts at `i`, and where it ends.
fn symbol_at(s: &str, n: usize, i: usize) -> (r: Option<(usize, Expr)>)
    requires
        n == s@.len(),
        i <= n,
    ensures
        r is Some <==> symbol_end(s@, i as int) is Some,
        r is Some ==> r->Some_0.0 == symbol_end(s@, i as int)->Some_0 && r->Some_0.1 is Symbol
            && r->Some_0.1->Symbol_0@ == s@.subrange(i as int, r->Some_0.0 as int) && r->Some_0.0
            <= n,
{
    if i >= n {
        return None;
    }
    let c = s.get_char(i);
    let k = if char_in_class(CharClass::Alnum, c) && !char_in_class(CharClass::Digit, c) {
        scan(s, n, i + 1, CharClass::Alnum)
    } else if char_in_class(CharClass::OpChar, c) {
        scan(s, n, i, CharClass::OpChar)
    } else {
        return None;
    };
    Some((k, Expr::Symbol(s.substring_char(i, k).to_owned())))
}

/// The list that starts at `i`, after optional blanks, and where it ends.
fn list_at<G: Fn(String) -> u64>(s: &str, n: usize, i: usize, conv: &G) -> (r: Option<
    (usize, Expr),
>)
    requires
        n == s@.len(),
        i <= n,
        forall|t: String| #[trigger] conv.requires((t,)),
        conv_deterministic(*conv),
    ensures
        r is Some <==> list_end(s@, i as int) is Some,
        r is Some ==> r->Some_0.0 == list_end(s@, i as int)->Some_0 && list_tree(
            s@,
            i as int,
            r->Some_0.1,
            *conv,
        ) && r->Some_0.0 <= n,
    decreases n - i, 1int,
{
    let a = scan(s, n, i, CharClass::Blank);
    if !(a < n && s.get_char(a) == '(') {
        return None;
    }
    let (end, items) = items_at(s, n, a + 1, conv);
    let c = scan(s, n, end, CharClass::Blank);
    if c < n && s.get_char(c) == ')' {
        Some((c + 1, Expr::List(items)))
    } else {
        None
    }
}

/// The items of a list from `p` on, and where they end.
fn items_at<G: Fn(String) -> u64>(s: &str, n: usize, p: usize, conv: &G) -> (r: (usize, Vec<Expr>))
    requires
        n == s@.len(),
        p <= n,
        forall|t: String| #[trigger] conv.requires((t,)),
        conv_deterministic(*conv),
    ensures
        r.0 == items_end(s@, p as int),
        items_tree(s@, p as int, r.1@, *conv),
        p <= r.0 <= n,
    decreases n - p, 3int,
{
    let q = scan(s, n, p, CharClass::Blank);
    match expr_at(s, n, q, conv) {
        Some((e_end, e)) => {
            if p < e_end && e_end <= n {
                let (end, mut rest) = items_at(s, n, e_end, conv);
                let ghost tail = rest@;
                rest.insert(0, e);
                assert(rest@.drop_first() =~= tail);
                (end, rest)
            } else {
                (p, Vec::new())
            }
        },
        None => (p, Vec::new()),
    }
}

/// The expression that starts at `i`, and where it ends.
fn expr_at<G: Fn(String) -> u64>(s: &str, n: usize, i: usize, conv: &G) -> (r: Option<
    (usize, Expr),
>)
    requires
        n == s@.len(),
        i <= n,
        forall|t: String| #[trigger] conv.requires((t,)),
        conv_deterministic(*conv),
    ensures
        r is Some <==> expr_end(s@, i as int) is Some,
        r is Some ==> r->Some_0.0 == expr_end(s@, i as int)->Some_0 && expr_tree(
            s@,
            i as int,
            r->Some_0.1,
            *conv,
        ) && r->Some_0.0 <= n,
    decreases n - i, 2int,
{
    let l = list_at(s, n, i, conv);
    if l.is_some() {
        return l;
    }
    let f = float_at(s, n, i, conv);
    if f.is_some() {
        return f;
    }
    match number_at(s, n, i) {
        Some((k, v)) => Some((k, Expr::Number(v))),
        None => symbol_at(s, n, i),
    }
}

/// Parses an integer `-?[0-9]+` at the start of `input`; fails where there is none, or
/// where its value does not fit in an `i64`. Returns the rest of the input with it.
pub fn parse_number<'a>(input: &'a str) -> (r: Result<(&'a str, Expr), SyntaxError>)
    ensures
        r is Ok <==> number_end(input@, 0) is Some,
        r is Ok ==> r->Ok_0.0@ == input@.subrange(number_end(input@, 0)->Some_0, input@.len() as int)
            && r->Ok_0.1 == Expr::Number(number_value(input@, 0) as i64),
{
    let n = input.unicode_len();
    match number_at(input, n, 0) {
        Some((k, v)) => Ok((input.substring_char(k, n), Expr::Number(v))),
        None => Err(SyntaxError),
    }
}

/// Parses a float `-?[0-9]+\.[0-9]+` at the start of `input`, whose value `to_double`
/// gives as binary64 bits. Returns the rest of the input with it.
pub fn parse_float<'a, G: Fn(String) -> u64>(input: &'a str, to_double: &G) -> (r: Result<
    (&'a str, Expr),
    SyntaxError,
>)
    requires
        forall|t: String| #[trigger] to_double.requires((t,)),
        conv_deterministic(*to_double),
    ensures
        r is Ok <==> float_end(input@, 0) is Some,
        r is Ok ==> r->Ok_0.0@ == input@.subrange(float_end(input@, 0)->Some_0, input@.len() as int)
            && r->Ok_0.1 == Expr::Float(
            float_bits(*to_double, input@.subrange(0, float_end(input@, 0)->Some_0)),
        ),
{
    let n = input.unicode_len();
    match float_at(input, n, 0, to_double) {
        Some((k, e)) => Ok((input.substring_char(k, n), e)),
        None => Err(SyntaxError),
    }
}

/// Parses a symbol at the start of `input`: a letter followed by letters and digits, or
/// a run of the characters `+-*/=<>!?`. Returns the rest of the input with it.
pub fn parse_symbol<'a>(input: &'a str) -> (r: Result<(&'a str, Expr), SyntaxError>)
    ensures
        r is Ok <==> symbol_end(input@, 0) is Some,
        r is Ok ==> r->Ok_0.0@ == input@.subrange(symbol_end(input@, 0)->Some_0, input@.len() as int)
            && r->Ok_0.1 is Symbol && r->Ok_0.1->Symbol_0@ == input@.subrange(
            0,
            symbol_end(input@, 0)->Some_0,
        ),
{
    let n = input.unicode_len();
    match symbol_at(input, n, 0) {
        Some((k, e)) => Ok((input.substring_char(k, n), e)),
        None => Err(SyntaxError),
    }
}

/// Parses a parenthesised list of expressions at the start of `input`, blanks allowed
/// before each item and around the parentheses. Returns the rest of the input with it.
pub fn parse_list<'a, G: Fn(String) -> u64>(input: &'a str, to_double: &G) -> (r: Result<
    (&'a str, Expr),
    SyntaxError,
>)
    requires
        forall|t: String| #[trigger] to_double.requires((t,)),
        conv_deterministic(*to_double),
    ensures
        r is Ok <==> list_end(input@, 0) is Some,
        r is Ok ==> r->Ok_0.0@ == input@.subrange(list_end(input@, 0)->Some_0, input@.len() as int)
            && list_tree(input@, 0, r->Ok_0.1, *to_double),
{
    let n = input.unicode_len();
    match list_at(input, n, 0, to_double) {
        Some((k, e)) => Ok((input.substring_char(k, n), e)),
        None => Err(SyntaxError),
    }
}

/// Parses one expression at the start of `input`: a list, a float, an integer or a
/// symbol, tried in that order. Returns the rest of the input with it.
pub fn parse_expr<'a, G: Fn(String) -> u64>(input: &'a str, to_double: &G) -> (r: Result<
    (&'a str, Expr),
    SyntaxError,
>)
    requires
        forall|t: String| #[trigger] to_double.requires((t,)),
        conv_deterministic(*to_double),
    ensures
        r is Ok <==> expr_end(input@, 0) is Some,
        r is Ok ==> r->Ok_0.0@ == input@.subrange(expr_end(input@, 0)->Some_0, input@.len() as int)
            && expr_tree(input@, 0, r->Ok_0.1, *to_double),
{
    let n = input.unicode_len();
    match expr_at(input, n, 0, to_double) {
        Some((k, e)) => Ok((input.substring_char(k, n), e)),
        None => Err(SyntaxError),
    }
}

} // verus!
