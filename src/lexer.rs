use vstd::prelude::*;
use vstd::string::*;

verus! {

/// The characters that `char::is_whitespace` accepts: Unicode's White_Space property.
pub open spec fn is_space(c: char) -> bool {
    ('\u{9}' <= c && c <= '\u{d}') || c == ' ' || c == '\u{85}' || c == '\u{a0}' || c == '\u{1680}'
        || ('\u{2000}' <= c && c <= '\u{200a}') || c == '\u{2028}' || c == '\u{2029}'
        || c == '\u{202f}' || c == '\u{205f}' || c == '\u{3000}'
}

pub open spec fn is_paren(c: char) -> bool {
    c == '(' || c == ')'
}

/// The pending token `cur`, as a token list of zero or one entries.
pub open spec fn flush(cur: Seq<char>) -> Seq<Seq<char>> {
    if cur.len() > 0 {
        seq![cur]
    } else {
        Seq::empty()
    }
}

/// Tokens of `s`, when the characters `cur` of an unfinished token precede it.
pub open spec fn tokens_from(s: Seq<char>, cur: Seq<char>) -> Seq<Seq<char>>
    decreases s.len(),
{
    if s.len() == 0 {
        flush(cur)
    } else {
        let c = s[0];
        if is_paren(c) {
            flush(cur) + seq![seq![c]] + tokens_from(s.drop_first(), Seq::empty())
        } else if is_space(c) {
            flush(cur) + tokens_from(s.drop_first(), Seq::empty())
        } else {
            tokens_from(s.drop_first(), cur.push(c))
        }
    }
}

/// Parentheses stand alone; every other maximal run of non-space characters is one token.
pub open spec fn tokens_of(s: Seq<char>) -> Seq<Seq<char>> {
    tokens_from(s, Seq::empty())
}

fn char_is_space(c: char) -> (r: bool)
    ensures
        r == is_space(c),
{
    ('\u{9}' <= c && c <= '\u{d}') || c == ' ' || c == '\u{85}' || c == '\u{a0}' || c == '\u{1680}'
        || ('\u{2000}' <= c && c <= '\u{200a}') || c == '\u{2028}' || c == '\u{2029}'
        || c == '\u{202f}' || c == '\u{205f}' || c == '\u{3000}'
}

/// Splits `input` into tokens: each `(` and `)` is a token of its own, and the rest is
/// split on runs of whitespace, with no empty token.
pub fn tokenize(input: &str) -> (r: Vec<String>)
    ensures
        r@.map_values(|t: String| t@) == tokens_of(input@),
{
    let n = input.unicode_len();
    let mut out: Vec<String> = Vec::new();
    let mut start: usize = 0;
    let mut i: usize = 0;
    assert(input@.subrange(0, n as int) =~= input@);
    assert(input@.subrange(0, 0) =~= Seq::<char>::empty());
    assert(out@.map_values(|t: String| t@) =~= Seq::<Seq<char>>::empty());
    while i < n
        invariant
            n == input@.len(),
            start <= i <= n,
            out@.map_values(|t: String| t@) + tokens_from(
                input@.subrange(i as int, n as int),
                input@.subrange(start as int, i as int),
            ) == tokens_of(input@),
        decreases n - i,
    {
        let c = input.get_char(i);
        let ghost rest = input@.subrange(i as int, n as int);
        let ghost cur = input@.subrange(start as int, i as int);
        assert(rest[0] == c);
        assert(rest.drop_first() =~= input@.subrange(i + 1, n as int));
        if c == '(' || c == ')' || char_is_space(c) {
            let ghost before = out@.map_values(|t: String| t@);
            if start < i {
                let tok = input.substring_char(start, i).to_owned();
                out.push(tok);
            }
            assert(out@.map_values(|t: String| t@) =~= before + flush(cur));
            if c == '(' || c == ')' {
                let ghost mid = out@.map_values(|t: String| t@);
                let p = input.substring_char(i, i + 1).to_owned();
                out.push(p);
                assert(input@.subrange(i as int, i + 1) =~= seq![c]);
                assert(out@.map_values(|t: String| t@) =~= mid + seq![seq![c]]);
            }
            start = i + 1;
        } else {
            assert(cur.push(c) =~= input@.subrange(start as int, i + 1));
        }
        i = i + 1;
        assert(input@.subrange(start as int, i as int).len() == 0 ==> input@.subrange(start as int, i as int) =~= Seq::<char>::empty());
    }
    assert(input@.subrange(n as int, n as int) =~= Seq::<char>::empty());
    let ghost cur = input@.subrange(start as int, n as int);
    let ghost before = out@.map_values(|t: String| t@);
    if start < n {
        let tok = input.substring_char(start, n).to_owned();
        out.push(tok);
    }
    assert(out@.map_values(|t: String| t@) =~= before + flush(cur));
    assert(before + flush(cur) =~= before + tokens_from(Seq::empty(), cur));
    out
}

} // verus!
