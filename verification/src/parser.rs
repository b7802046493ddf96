use vstd::prelude::*;

use crate::ast::{parse_model, AstModel, BinOp, Expr, Func1};
use crate::errors::{CombKind, ErrModel, EvalError};
use crate::grouping::{first_pos, lemma_first_pos};
use crate::literal::{is_float_literal, spec_is_float_literal};
use crate::preprocess::{normalize, spec_normalize};
use crate::text::range_to_string;

verus! {

/// The parenthesis-depth change contributed by one character.
pub open spec fn depth_delta(c: char) -> int {
    if c == '(' {
        1
    } else if c == ')' {
        -1
    } else {
        0
    }
}

/// The parenthesis depth of `s` just before position `i`: the number of
/// `(` minus the number of `)` among the first `i` characters.
pub open spec fn depth_at(s: Seq<char>, i: int) -> int
    decreases i,
{
    if i <= 0 {
        0
    } else {
        depth_at(s, i - 1) + depth_delta(s[i - 1])
    }
}

/// The rightmost position `p < i` where `op` occurs at depth zero.
pub open spec fn find_op_before(s: Seq<char>, op: char, i: int) -> Option<int>
    decreases i,
{
    if i <= 0 {
        None
    } else if s[i - 1] == op && depth_at(s, i - 1) == 0 {
        Some(i - 1)
    } else {
        find_op_before(s, op, i - 1)
    }
}

/// The rightmost top-level occurrence of `op` in `s`, if any: the
/// position where the evaluator splits for this operator.
pub open spec fn find_top_op(s: Seq<char>, op: char) -> Option<int> {
    find_op_before(s, op, s.len() as int)
}

/// What `find_op_before` finds: a top-level occurrence with none to its
/// right, or a guarantee that there is none at all.
pub proof fn lemma_find_op_before_props(s: Seq<char>, op: char, i: int)
    requires
        i <= s.len(),
    ensures
        match find_op_before(s, op, i) {
            Some(p) => 0 <= p < i && s[p] == op && depth_at(s, p) == 0 && (forall|q: int|
                p < q < i ==> !(s[q] == op && depth_at(s, q) == 0)),
            None => forall|q: int| 0 <= q < i ==> !(s[q] == op && depth_at(s, q) == 0),
        },
    decreases i,
{
    if i > 0 {
        if s[i - 1] == op && depth_at(s, i - 1) == 0 {
        } else {
            lemma_find_op_before_props(s, op, i - 1);
        }
    }
}

/// What `find_top_op` finds, over the whole string.
pub proof fn lemma_find_top_op_props(s: Seq<char>, op: char)
    ensures
        match find_top_op(s, op) {
            Some(p) => 0 <= p < s.len() && s[p] == op && depth_at(s, p) == 0 && (forall|
                q: int,
            |
                p < q < s.len() ==> !(s[q] == op && depth_at(s, q) == 0)),
            None => forall|q: int|
                0 <= q < s.len() ==> !(s[q] == op && depth_at(s, q) == 0),
        },
{
    lemma_find_op_before_props(s, op, s.len() as int);
}

/// An expression counts as fully parenthesized when its outer pair spans
/// the whole string: the depth may not return to zero strictly inside.
pub open spec fn fully_wrapped(s: Seq<char>) -> bool {
    s.len() >= 2 && s[0] == '(' && s[s.len() - 1] == ')' && (forall|j: int|
        1 <= j < s.len() ==> depth_at(s, j) != 0)
}

/// `p` is an initial segment of `s`.
pub open spec fn has_prefix(s: Seq<char>, p: Seq<char>) -> bool {
    p.len() <= s.len() && (forall|j: int| 0 <= j < p.len() ==> s[j] == p[j])
}

/// `s` ends with a closing parenthesis.
pub open spec fn ends_rparen(s: Seq<char>) -> bool {
    s.len() >= 1 && s[s.len() - 1] == ')'
}

/// A string that starts with a prefix ending in `(` and ends in `)` is
/// strictly longer than the prefix.
pub proof fn lemma_prefix_suffix_len(s: Seq<char>, p: Seq<char>)
    requires
        has_prefix(s, p),
        ends_rparen(s),
        p.len() > 0,
        p[p.len() - 1] == '(',
    ensures
        s.len() > p.len(),
{
    if s.len() == p.len() {
        assert(s[s.len() - 1] == '(');
    }
}

/// Finds the rightmost top-level occurrence of `op` in `v[lo..hi]`,
/// reported as an absolute index.
fn find_top_op_exec(v: &Vec<char>, lo: usize, hi: usize, op: char) -> (r: Option<usize>)
    requires
        lo <= hi <= v@.len(),
        op != '(',
        op != ')',
    ensures
        ({
            let s = v@.subrange(lo as int, hi as int);
            match r {
                Some(p) => lo <= p < hi && find_top_op(s, op) == Some((p - lo) as int),
                None => find_top_op(s, op) is None,
            }
        }),
{
    let ghost s = v@.subrange(lo as int, hi as int);
    let mut depth: i128 = 0;
    let mut best: Option<usize> = None;
    let mut j: usize = lo;
    while j < hi
        invariant
            lo <= j <= hi <= v@.len(),
            s == v@.subrange(lo as int, hi as int),
            op != '(',
            op != ')',
            depth == depth_at(s, j - lo),
            -(j - lo) <= depth <= j - lo,
            match best {
                Some(p) => lo <= p < j && find_op_before(s, op, j - lo) == Some(
                    (p - lo) as int,
                ),
                None => find_op_before(s, op, j - lo) is None,
            },
        decreases hi - j,
    {
        let c = v[j];
        proof {
            assert(s[j - lo] == v@[j as int]);
        }
        if c == '(' {
            depth = depth + 1;
        } else if c == ')' {
            depth = depth - 1;
        } else if c == op && depth == 0 {
            best = Some(j);
        }
        j = j + 1;
    }
    best
}

/// Decides whether `v[lo..hi]` is fully parenthesized.
fn fully_wrapped_exec(v: &Vec<char>, lo: usize, hi: usize) -> (r: bool)
    requires
        lo <= hi <= v@.len(),
    ensures
        r == fully_wrapped(v@.subrange(lo as int, hi as int)),
{
    let ghost s = v@.subrange(lo as int, hi as int);
    if hi - lo < 2 {
        return false;
    }
    if !(v[lo] == '(' && v[hi - 1] == ')') {
        proof {
            assert(s[0] == v@[lo as int]);
            assert(s[s.len() - 1] == v@[hi - 1]);
        }
        return false;
    }
    let mut depth: i128 = 0;
    let mut j: usize = lo;
    while j < hi
        invariant
            lo <= j <= hi <= v@.len(),
            s == v@.subrange(lo as int, hi as int),
            hi - lo >= 2,
            depth == depth_at(s, j - lo),
            -(j - lo) <= depth <= j - lo,
            forall|m: int| 1 <= m <= j - lo && m < hi - lo ==> depth_at(s, m) != 0,
        decreases hi - j,
    {
        let c = v[j];
        proof {
            assert(s[j - lo] == v@[j as int]);
        }
        if c == '(' {
            depth = depth + 1;
        } else if c == ')' {
            depth = depth - 1;
        }
        j = j + 1;
        if depth == 0 && j < hi {
            proof {
                assert(depth_at(s, j - lo) == 0);
                assert(!fully_wrapped(s));
            }
            return false;
        }
    }
    proof {
        assert(s[0] == v@[lo as int]);
        assert(s[s.len() - 1] == v@[hi - 1]);
    }
    true
}

/// Compares an initial segment of `v[lo..hi]` against a pattern.
fn has_prefix_exec(v: &Vec<char>, lo: usize, hi: usize, p: &Vec<char>) -> (r: bool)
    requires
        lo <= hi <= v@.len(),
    ensures
        r == has_prefix(v@.subrange(lo as int, hi as int), p@),
{
    let ghost s = v@.subrange(lo as int, hi as int);
    if hi - lo < p.len() {
        return false;
    }
    let mut i: usize = 0;
    while i < p.len()
        invariant
            lo <= hi <= v@.len(),
            s == v@.subrange(lo as int, hi as int),
            p@.len() <= hi - lo,
            i <= p@.len(),
            forall|j: int| 0 <= j < i ==> s[j] == p@[j],
        decreases p@.len() - i,
    {
        proof {
            assert(s[i as int] == v@[lo + i]);
        }
        if v[lo + i] != p[i] {
            return false;
        }
        i = i + 1;
    }
    true
}

/// Finds the first occurrence of `c` in `v[from..to]`, as an absolute
/// index, or `to` if absent.
fn find_first_in(v: &Vec<char>, from: usize, to: usize, c: char) -> (p: usize)
    requires
        from <= to <= v@.len(),
    ensures
        p - from == first_pos(v@.subrange(from as int, to as int), c),
        from <= p <= to,
{
    let ghost t = v@.subrange(from as int, to as int);
    let mut i: usize = from;
    while i < to
        invariant
            from <= i <= to <= v@.len(),
            t == v@.subrange(from as int, to as int),
            forall|j: int| 0 <= j < i - from ==> t[j] != c,
        decreases to - i,
    {
        proof {
            assert(t[i - from] == v@[i as int]);
        }
        if v[i] == c {
            proof {
                lemma_first_pos_at(t, c, i - from);
            }
            return i;
        }
        i = i + 1;
    }
    proof {
        lemma_first_pos_at(t, c, t.len() as int);
    }
    i
}

/// `first_pos` is determined by any witness position.
proof fn lemma_first_pos_at(t: Seq<char>, c: char, p: int)
    requires
        0 <= p <= t.len(),
        p < t.len() ==> t[p] == c,
        forall|j: int| 0 <= j < p ==> t[j] != c,
    ensures
        first_pos(t, c) == p,
    decreases t.len(),
{
    if t.len() > 0 && t[0] != c {
        lemma_first_pos_at(t.skip(1), c, p - 1);
    }
}

/// A character before a top-level `-` that marks it as a sign rather
/// than a subtraction.
pub open spec fn blocks_minus(c: char) -> bool {
    c == '(' || c == '*' || c == '/' || c == '^' || c == '+' || c == '-' || c == '%'
}

/// Combines the results of the two sides of a binary split: the left
/// error wins, then the right one.
pub open spec fn bin_result(
    op: BinOp,
    l: Result<AstModel, ErrModel>,
    r: Result<AstModel, ErrModel>,
) -> Result<AstModel, ErrModel> {
    match l {
        Err(e) => Err(e),
        Ok(ln) => match r {
            Err(e) => Err(e),
            Ok(rn) => Ok(AstModel::Bin(op, Box::new(ln), Box::new(rn))),
        },
    }
}

/// Wraps the result of a function argument into a call node.
pub open spec fn call_result(f: Func1, a: Result<AstModel, ErrModel>) -> Result<
    AstModel,
    ErrModel,
> {
    match a {
        Err(e) => Err(e),
        Ok(n) => Ok(AstModel::Call(f, Box::new(n))),
    }
}

/// Combines the two arguments of `nPr`/`nCr`: the first error wins.
pub open spec fn comb_result(
    k: CombKind,
    l: Result<AstModel, ErrModel>,
    r: Result<AstModel, ErrModel>,
) -> Result<AstModel, ErrModel> {
    match l {
        Err(e) => Err(e),
        Ok(ln) => match r {
            Err(e) => Err(e),
            Ok(rn) => Ok(AstModel::Comb(k, Box::new(ln), Box::new(rn))),
        },
    }
}

/// The grammar, lowest precedence first: split at the rightmost
/// top-level `+`.
pub open spec fn sparse(s: Seq<char>) -> Result<AstModel, ErrModel>
    decreases s.len(), 9int,
{
    match find_top_op(s, '+') {
        Some(p) => {
            proof {
                lemma_find_top_op_props(s, '+');
            }
            bin_result(BinOp::Add, sparse(s.take(p)), sparse(s.skip(p + 1)))
        },
        None => sparse_minus(s),
    }
}

/// Split at the rightmost top-level `-`, unless the character before it
/// marks it as a sign; a blocked minus falls through to multiplication.
pub open spec fn sparse_minus(s: Seq<char>) -> Result<AstModel, ErrModel>
    decreases s.len(), 8int,
{
    match find_top_op(s, '-') {
        Some(p) => if p > 0 && !blocks_minus(s[p - 1]) {
            {
                proof {
                    lemma_find_top_op_props(s, '-');
                }
                bin_result(BinOp::Sub, sparse(s.take(p)), sparse(s.skip(p + 1)))
            }
        } else {
            sparse_mul(s)
        },
        None => sparse_mul(s),
    }
}

/// Split at the rightmost top-level `*`.
pub open spec fn sparse_mul(s: Seq<char>) -> Result<AstModel, ErrModel>
    decreases s.len(), 7int,
{
    match find_top_op(s, '*') {
        Some(p) => {
            proof {
                lemma_find_top_op_props(s, '*');
            }
            bin_result(BinOp::Mul, sparse(s.take(p)), sparse(s.skip(p + 1)))
        },
        None => sparse_div(s),
    }
}

/// Split at the rightmost top-level `/`. Division by zero is detected
/// only when the tree is folded numerically, not here.
pub open spec fn sparse_div(s: Seq<char>) -> Result<AstModel, ErrModel>
    decreases s.len(), 6int,
{
    match find_top_op(s, '/') {
        Some(p) => {
            proof {
                lemma_find_top_op_props(s, '/');
            }
            bin_result(BinOp::Div, sparse(s.take(p)), sparse(s.skip(p + 1)))
        },
        None => sparse_mod(s),
    }
}

/// Split at the rightmost top-level `%`.
pub open spec fn sparse_mod(s: Seq<char>) -> Result<AstModel, ErrModel>
    decreases s.len(), 5int,
{
    match find_top_op(s, '%') {
        Some(p) => {
            proof {
                lemma_find_top_op_props(s, '%');
            }
            bin_result(BinOp::Mod, sparse(s.take(p)), sparse(s.skip(p + 1)))
        },
        None => sparse_pow(s),
    }
}

/// Split at the rightmost top-level `^`.
pub open spec fn sparse_pow(s: Seq<char>) -> Result<AstModel, ErrModel>
    decreases s.len(), 4int,
{
    match find_top_op(s, '^') {
        Some(p) => {
            proof {
                lemma_find_top_op_props(s, '^');
            }
            bin_result(BinOp::Pow, sparse(s.take(p)), sparse(s.skip(p + 1)))
        },
        None => sparse_func(s),
    }
}

/// The named functions, matched by literal prefix and a closing
/// parenthesis, in the evaluator's order.
pub open spec fn sparse_func(s: Seq<char>) -> Result<AstModel, ErrModel>
    decreases s.len(), 3int,
{
    if has_prefix(s, seq!['s', 'q', 'r', 't', '(']) && ends_rparen(s) {
        proof {
            lemma_prefix_suffix_len(s, seq!['s', 'q', 'r', 't', '(']);
        }
        call_result(Func1::Sqrt, sparse(s.subrange(5, s.len() - 1)))
    } else if has_prefix(s, seq!['s', 'i', 'n', '(']) && ends_rparen(s) {
        proof {
            lemma_prefix_suffix_len(s, seq!['s', 'i', 'n', '(']);
        }
        call_result(Func1::Sin, sparse(s.subrange(4, s.len() - 1)))
    } else if has_prefix(s, seq!['c', 'o', 's', '(']) && ends_rparen(s) {
        proof {
            lemma_prefix_suffix_len(s, seq!['c', 'o', 's', '(']);
        }
        call_result(Func1::Cos, sparse(s.subrange(4, s.len() - 1)))
    } else if has_prefix(s, seq!['t', 'a', 'n', '(']) && ends_rparen(s) {
        proof {
            lemma_prefix_suffix_len(s, seq!['t', 'a', 'n', '(']);
        }
        call_result(Func1::Tan, sparse(s.subrange(4, s.len() - 1)))
    } else if has_prefix(s, seq!['l', 'o', 'g', '(']) && ends_rparen(s) {
        proof {
            lemma_prefix_suffix_len(s, seq!['l', 'o', 'g', '(']);
        }
        call_result(Func1::Log, sparse(s.subrange(4, s.len() - 1)))
    } else if has_prefix(s, seq!['l', 'n', '(']) && ends_rparen(s) {
        proof {
            lemma_prefix_suffix_len(s, seq!['l', 'n', '(']);
        }
        call_result(Func1::Ln, sparse(s.subrange(3, s.len() - 1)))
    } else if has_prefix(s, seq!['f', 'a', 'c', 't', 'o', 'r', 'i', 'a', 'l', '('])
        && ends_rparen(s) {
        proof {
            lemma_prefix_suffix_len(
                s,
                seq!['f', 'a', 'c', 't', 'o', 'r', 'i', 'a', 'l', '('],
            );
        }
        call_result(Func1::Fact, sparse(s.subrange(10, s.len() - 1)))
    } else if has_prefix(s, seq!['f', 'a', 'c', 't', '(']) && ends_rparen(s) {
        proof {
            lemma_prefix_suffix_len(s, seq!['f', 'a', 'c', 't', '(']);
        }
        call_result(Func1::Fact, sparse(s.subrange(5, s.len() - 1)))
    } else if has_prefix(s, seq!['n', 'P', 'r', '(']) && ends_rparen(s) {
        proof {
            lemma_prefix_suffix_len(s, seq!['n', 'P', 'r', '(']);
        }
        sparse_comb(CombKind::Perm, s.subrange(4, s.len() - 1))
    } else if has_prefix(s, seq!['n', 'C', 'r', '(']) && ends_rparen(s) {
        proof {
            lemma_prefix_suffix_len(s, seq!['n', 'C', 'r', '(']);
        }
        sparse_comb(CombKind::Comb, s.subrange(4, s.len() - 1))
    } else {
        sparse_paren(s)
    }
}

/// The argument list of `nPr`/`nCr`: split at the first comma anywhere
/// in it, or fail if there is none.
pub open spec fn sparse_comb(k: CombKind, inner: Seq<char>) -> Result<AstModel, ErrModel>
    decreases inner.len(), 9int,
{
    let cp = first_pos(inner, ',');
    if cp < inner.len() {
        proof {
            lemma_first_pos(inner, ',');
        }
        comb_result(k, sparse(inner.take(cp)), sparse(inner.skip(cp + 1)))
    } else {
        Err(ErrModel::CombMissingComma(k))
    }
}

/// Strip the outer parentheses when they span the whole expression.
pub open spec fn sparse_paren(s: Seq<char>) -> Result<AstModel, ErrModel>
    decreases s.len(), 2int,
{
    if fully_wrapped(s) {
        sparse(s.subrange(1, s.len() - 1))
    } else {
        sparse_atom(s)
    }
}

/// The terminal cases: the named constants, then a numeric literal;
/// anything else is an invalid expression, reported with its text.
pub open spec fn sparse_atom(s: Seq<char>) -> Result<AstModel, ErrModel> {
    if s == seq!['p', 'i'] {
        Ok(AstModel::ConstPi)
    } else if s == seq!['e'] {
        Ok(AstModel::ConstE)
    } else if spec_is_float_literal(s) {
        Ok(AstModel::Num(s))
    } else {
        Err(ErrModel::InvalidExpression(s))
    }
}

/// What parsing an input string yields: the grammar applied to the
/// normalized form of the input.
pub open spec fn spec_parse(t: Seq<char>) -> Result<AstModel, ErrModel> {
    sparse(spec_normalize(t))
}

/// The addition pass of the parser, on `v[lo..hi]`.
fn parse_plus(v: &Vec<char>, lo: usize, hi: usize) -> (res: Result<Expr, EvalError>)
    requires
        lo <= hi <= v@.len(),
    ensures
        parse_model(res) == sparse(v@.subrange(lo as int, hi as int)),
    decreases hi - lo, 11int,
{
    let ghost s = v@.subrange(lo as int, hi as int);
    match find_top_op_exec(v, lo, hi, '+') {
        Some(p) => {
            proof {
                assert(v@.subrange(lo as int, p as int) =~= s.take(p - lo));
                assert(v@.subrange((p + 1) as int, hi as int) =~= s.skip(p - lo + 1));
            }
            match parse_plus(v, lo, p) {
                Ok(le) => match parse_plus(v, p + 1, hi) {
                    Ok(re) => Ok(Expr::Bin(BinOp::Add, Box::new(le), Box::new(re))),
                    Err(e) => Err(e),
                },
                Err(e) => Err(e),
            }
        },
        None => parse_minus(v, lo, hi),
    }
}

/// The subtraction pass: the rightmost top-level `-` splits only when
/// the character before it does not mark it as a sign.
fn parse_minus(v: &Vec<char>, lo: usize, hi: usize) -> (res: Result<Expr, EvalError>)
    requires
        lo <= hi <= v@.len(),
    ensures
        parse_model(res) == sparse_minus(v@.subrange(lo as int, hi as int)),
    decreases hi - lo, 10int,
{
    let ghost s = v@.subrange(lo as int, hi as int);
    match find_top_op_exec(v, lo, hi, '-') {
        Some(p) => {
            let prev_blocks = if p > lo {
                let c = v[p - 1];
                proof {
                    assert(s[p - 1 - lo] == v@[(p - 1) as int]);
                }
                c == '(' || c == '*' || c == '/' || c == '^' || c == '+' || c == '-'
                    || c == '%'
            } else {
                true
            };
            if prev_blocks {
                parse_mul(v, lo, hi)
            } else {
                proof {
                    assert(v@.subrange(lo as int, p as int) =~= s.take(p - lo));
                    assert(v@.subrange((p + 1) as int, hi as int) =~= s.skip(p - lo + 1));
                }
                match parse_plus(v, lo, p) {
                    Ok(le) => match parse_plus(v, p + 1, hi) {
                        Ok(re) => Ok(Expr::Bin(BinOp::Sub, Box::new(le), Box::new(re))),
                        Err(e) => Err(e),
                    },
                    Err(e) => Err(e),
                }
            }
        },
        None => parse_mul(v, lo, hi),
    }
}

/// The multiplication pass.
fn parse_mul(v: &Vec<char>, lo: usize, hi: usize) -> (res: Result<Expr, EvalError>)
    requires
        lo <= hi <= v@.len(),
    ensures
        parse_model(res) == sparse_mul(v@.subrange(lo as int, hi as int)),
    decreases hi - lo, 9int,
{
    let ghost s = v@.subrange(lo as int, hi as int);
    match find_top_op_exec(v, lo, hi, '*') {
        Some(p) => {
            proof {
                assert(v@.subrange(lo as int, p as int) =~= s.take(p - lo));
                assert(v@.subrange((p + 1) as int, hi as int) =~= s.skip(p - lo + 1));
            }
            match parse_plus(v, lo, p) {
                Ok(le) => match parse_plus(v, p + 1, hi) {
                    Ok(re) => Ok(Expr::Bin(BinOp::Mul, Box::new(le), Box::new(re))),
                    Err(e) => Err(e),
                },
                Err(e) => Err(e),
            }
        },
        None => parse_div(v, lo, hi),
    }
}

/// The division pass; the zero check belongs to the numeric fold.
fn parse_div(v: &Vec<char>, lo: usize, hi: usize) -> (res: Result<Expr, EvalError>)
    requires
        lo <= hi <= v@.len(),
    ensures
        parse_model(res) == sparse_div(v@.subrange(lo as int, hi as int)),
    decreases hi - lo, 8int,
{
    let ghost s = v@.subrange(lo as int, hi as int);
    match find_top_op_exec(v, lo, hi, '/') {
        Some(p) => {
            proof {
                assert(v@.subrange(lo as int, p as int) =~= s.take(p - lo));
                assert(v@.subrange((p + 1) as int, hi as int) =~= s.skip(p - lo + 1));
            }
            match parse_plus(v, lo, p) {
                Ok(le) => match parse_plus(v, p + 1, hi) {
                    Ok(re) => Ok(Expr::Bin(BinOp::Div, Box::new(le), Box::new(re))),
                    Err(e) => Err(e),
                },
                Err(e) => Err(e),
            }
        },
        None => parse_mod(v, lo, hi),
    }
}

/// The modulo pass.
fn parse_mod(v: &Vec<char>, lo: usize, hi: usize) -> (res: Result<Expr, EvalError>)
    requires
        lo <= hi <= v@.len(),
    ensures
        parse_model(res) == sparse_mod(v@.subrange(lo as int, hi as int)),
    decreases hi - lo, 7int,
{
    let ghost s = v@.subrange(lo as int, hi as int);
    match find_top_op_exec(v, lo, hi, '%') {
        Some(p) => {
            proof {
                assert(v@.subrange(lo as int, p as int) =~= s.take(p - lo));
                assert(v@.subrange((p + 1) as int, hi as int) =~= s.skip(p - lo + 1));
            }
            match parse_plus(v, lo, p) {
                Ok(le) => match parse_plus(v, p + 1, hi) {
                    Ok(re) => Ok(Expr::Bin(BinOp::Mod, Box::new(le), Box::new(re))),
                    Err(e) => Err(e),
                },
                Err(e) => Err(e),
            }
        },
        None => parse_pow(v, lo, hi),
    }
}

/// The exponentiation pass.
fn parse_pow(v: &Vec<char>, lo: usize, hi: usize) -> (res: Result<Expr, EvalError>)
    requires
        lo <= hi <= v@.len(),
    ensures
        parse_model(res) == sparse_pow(v@.subrange(lo as int, hi as int)),
    decreases hi - lo, 6int,
{
    let ghost s = v@.subrange(lo as int, hi as int);
    match find_top_op_exec(v, lo, hi, '^') {
        Some(p) => {
            proof {
                assert(v@.subrange(lo as int, p as int) =~= s.take(p - lo));
                assert(v@.subrange((p + 1) as int, hi as int) =~= s.skip(p - lo + 1));
            }
            match parse_plus(v, lo, p) {
                Ok(le) => match parse_plus(v, p + 1, hi) {
                    Ok(re) => Ok(Expr::Bin(BinOp::Pow, Box::new(le), Box::new(re))),
                    Err(e) => Err(e),
                },
                Err(e) => Err(e),
            }
        },
        None => parse_func(v, lo, hi),
    }
}

/// Parses a recognized one-argument function body `v[ilo..ihi]` and
/// wraps it in a call node.
fn parse_call_inner(v: &Vec<char>, ilo: usize, ihi: usize, f: Func1) -> (res: Result<
    Expr,
    EvalError,
>)
    requires
        ilo <= ihi <= v@.len(),
    ensures
        parse_model(res) == call_result(f, sparse(v@.subrange(ilo as int, ihi as int))),
    decreases ihi - ilo, 12int,
{
    match parse_plus(v, ilo, ihi) {
        Ok(a) => Ok(Expr::Call(f, Box::new(a))),
        Err(e) => Err(e),
    }
}

/// The named-function pass: literal prefix and closing parenthesis, in
/// the evaluator's order.
#[verifier::rlimit(60)]
fn parse_func(v: &Vec<char>, lo: usize, hi: usize) -> (res: Result<Expr, EvalError>)
    requires
        lo <= hi <= v@.len(),
    ensures
        parse_model(res) == sparse_func(v@.subrange(lo as int, hi as int)),
    decreases hi - lo, 5int,
{
    let ghost s = v@.subrange(lo as int, hi as int);
    let closed = hi > lo && v[hi - 1] == ')';
    proof {
        if hi > lo {
            assert(s[s.len() - 1] == v@[(hi - 1) as int]);
        }
        assert(closed == ends_rparen(s));
    }
    let pat_sqrt = vec!['s', 'q', 'r', 't', '('];
    proof {
        assert(pat_sqrt@ =~= seq!['s', 'q', 'r', 't', '(']);
    }
    if has_prefix_exec(v, lo, hi, &pat_sqrt) && closed {
        proof {
            lemma_prefix_suffix_len(s, pat_sqrt@);
            assert(v@.subrange((lo + 5) as int, (hi - 1) as int) =~= s.subrange(
                5,
                s.len() - 1,
            ));
        }
        return parse_call_inner(v, lo + 5, hi - 1, Func1::Sqrt);
    }
    let pat_sin = vec!['s', 'i', 'n', '('];
    proof {
        assert(pat_sin@ =~= seq!['s', 'i', 'n', '(']);
    }
    if has_prefix_exec(v, lo, hi, &pat_sin) && closed {
        proof {
            lemma_prefix_suffix_len(s, pat_sin@);
            assert(v@.subrange((lo + 4) as int, (hi - 1) as int) =~= s.subrange(
                4,
                s.len() - 1,
            ));
        }
        return parse_call_inner(v, lo + 4, hi - 1, Func1::Sin);
    }
    let pat_cos = vec!['c', 'o', 's', '('];
    proof {
        assert(pat_cos@ =~= seq!['c', 'o', 's', '(']);
    }
    if has_prefix_exec(v, lo, hi, &pat_cos) && closed {
        proof {
            lemma_prefix_suffix_len(s, pat_cos@);
            assert(v@.subrange((lo + 4) as int, (hi - 1) as int) =~= s.subrange(
                4,
                s.len() - 1,
            ));
        }
        return parse_call_inner(v, lo + 4, hi - 1, Func1::Cos);
    }
    let pat_tan = vec!['t', 'a', 'n', '('];
    proof {
        assert(pat_tan@ =~= seq!['t', 'a', 'n', '(']);
    }
    if has_prefix_exec(v, lo, hi, &pat_tan) && closed {
        proof {
            lemma_prefix_suffix_len(s, pat_tan@);
            assert(v@.subrange((lo + 4) as int, (hi - 1) as int) =~= s.subrange(
                4,
                s.len() - 1,
            ));
        }
        return parse_call_inner(v, lo + 4, hi - 1, Func1::Tan);
    }
    let pat_log = vec!['l', 'o', 'g', '('];
    proof {
        assert(pat_log@ =~= seq!['l', 'o', 'g', '(']);
    }
    if has_prefix_exec(v, lo, hi, &pat_log) && closed {
        proof {
            lemma_prefix_suffix_len(s, pat_log@);
            assert(v@.subrange((lo + 4) as int, (hi - 1) as int) =~= s.subrange(
                4,
                s.len() - 1,
            ));
        }
        return parse_call_inner(v, lo + 4, hi - 1, Func1::Log);
    }
    let pat_ln = vec!['l', 'n', '('];
    proof {
        assert(pat_ln@ =~= seq!['l', 'n', '(']);
    }
    if has_prefix_exec(v, lo, hi, &pat_ln) && closed {
        proof {
            lemma_prefix_suffix_len(s, pat_ln@);
            assert(v@.subrange((lo + 3) as int, (hi - 1) as int) =~= s.subrange(
                3,
                s.len() - 1,
            ));
        }
        return parse_call_inner(v, lo + 3, hi - 1, Func1::Ln);
    }
    parse_func_tail(v, lo, hi)
}

/// The remaining named functions, after the six one-argument
/// transcendental spellings have been ruled out.
#[verifier::rlimit(60)]
fn parse_func_tail(v: &Vec<char>, lo: usize, hi: usize) -> (res: Result<Expr, EvalError>)
    requires
        lo <= hi <= v@.len(),
        !(has_prefix(v@.subrange(lo as int, hi as int), seq!['s', 'q', 'r', 't', '('])
            && ends_rparen(v@.subrange(lo as int, hi as int))),
        !(has_prefix(v@.subrange(lo as int, hi as int), seq!['s', 'i', 'n', '('])
            && ends_rparen(v@.subrange(lo as int, hi as int))),
        !(has_prefix(v@.subrange(lo as int, hi as int), seq!['c', 'o', 's', '('])
            && ends_rparen(v@.subrange(lo as int, hi as int))),
        !(has_prefix(v@.subrange(lo as int, hi as int), seq!['t', 'a', 'n', '('])
            && ends_rparen(v@.subrange(lo as int, hi as int))),
        !(has_prefix(v@.subrange(lo as int, hi as int), seq!['l', 'o', 'g', '('])
            && ends_rparen(v@.subrange(lo as int, hi as int))),
        !(has_prefix(v@.subrange(lo as int, hi as int), seq!['l', 'n', '('])
            && ends_rparen(v@.subrange(lo as int, hi as int))),
    ensures
        parse_model(res) == sparse_func(v@.subrange(lo as int, hi as int)),
    decreases hi - lo, 4int,
{
    let ghost s = v@.subrange(lo as int, hi as int);
    let closed = hi > lo && v[hi - 1] == ')';
    proof {
        if hi > lo {
            assert(s[s.len() - 1] == v@[(hi - 1) as int]);
        }
        assert(closed == ends_rparen(s));
    }
    let pat_factorial = vec!['f', 'a', 'c', 't', 'o', 'r', 'i', 'a', 'l', '('];
    proof {
        assert(pat_factorial@ =~= seq!['f', 'a', 'c', 't', 'o', 'r', 'i', 'a', 'l', '(']);
    }
    if has_prefix_exec(v, lo, hi, &pat_factorial) && closed {
        proof {
            lemma_prefix_suffix_len(s, pat_factorial@);
            assert(v@.subrange((lo + 10) as int, (hi - 1) as int) =~= s.subrange(
                10,
                s.len() - 1,
            ));
        }
        return parse_call_inner(v, lo + 10, hi - 1, Func1::Fact);
    }
    let pat_fact = vec!['f', 'a', 'c', 't', '('];
    proof {
        assert(pat_fact@ =~= seq!['f', 'a', 'c', 't', '(']);
    }
    if has_prefix_exec(v, lo, hi, &pat_fact) && closed {
        proof {
            lemma_prefix_suffix_len(s, pat_fact@);
            assert(v@.subrange((lo + 5) as int, (hi - 1) as int) =~= s.subrange(
                5,
                s.len() - 1,
            ));
        }
        return parse_call_inner(v, lo + 5, hi - 1, Func1::Fact);
    }
    let pat_npr = vec!['n', 'P', 'r', '('];
    proof {
        assert(pat_npr@ =~= seq!['n', 'P', 'r', '(']);
    }
    if has_prefix_exec(v, lo, hi, &pat_npr) && closed {
        proof {
            lemma_prefix_suffix_len(s, pat_npr@);
            assert(v@.subrange((lo + 4) as int, (hi - 1) as int) =~= s.subrange(
                4,
                s.len() - 1,
            ));
        }
        return parse_comb(v, lo + 4, hi - 1, CombKind::Perm);
    }
    let pat_ncr = vec!['n', 'C', 'r', '('];
    proof {
        assert(pat_ncr@ =~= seq!['n', 'C', 'r', '(']);
    }
    if has_prefix_exec(v, lo, hi, &pat_ncr) && closed {
        proof {
            lemma_prefix_suffix_len(s, pat_ncr@);
            assert(v@.subrange((lo + 4) as int, (hi - 1) as int) =~= s.subrange(
                4,
                s.len() - 1,
            ));
        }
        return parse_comb(v, lo + 4, hi - 1, CombKind::Comb);
    }
    parse_paren(v, lo, hi)
}

/// The argument list of `nPr`/`nCr` on `v[ilo..ihi]`: split at the first
/// comma, or report the missing comma.
fn parse_comb(v: &Vec<char>, ilo: usize, ihi: usize, k: CombKind) -> (res: Result<
    Expr,
    EvalError,
>)
    requires
        ilo <= ihi <= v@.len(),
    ensures
        parse_model(res) == sparse_comb(k, v@.subrange(ilo as int, ihi as int)),
    decreases ihi - ilo, 9int,
{
    let ghost inner = v@.subrange(ilo as int, ihi as int);
    let cp = find_first_in(v, ilo, ihi, ',');
    if cp < ihi {
        proof {
            lemma_first_pos(inner, ',');
            assert(v@.subrange(ilo as int, cp as int) =~= inner.take(cp - ilo));
            assert(v@.subrange((cp + 1) as int, ihi as int) =~= inner.skip(cp - ilo + 1));
        }
        match parse_plus(v, ilo, cp) {
            Ok(le) => match parse_plus(v, cp + 1, ihi) {
                Ok(re) => Ok(Expr::Comb(k, Box::new(le), Box::new(re))),
                Err(e) => Err(e),
            },
            Err(e) => Err(e),
        }
    } else {
        Err(EvalError::CombMissingComma(k))
    }
}

/// The parenthesis pass: strip an outer pair that spans the whole
/// expression, else fall through to the terminal cases.
fn parse_paren(v: &Vec<char>, lo: usize, hi: usize) -> (res: Result<Expr, EvalError>)
    requires
        lo <= hi <= v@.len(),
    ensures
        parse_model(res) == sparse_paren(v@.subrange(lo as int, hi as int)),
    decreases hi - lo, 3int,
{
    let ghost s = v@.subrange(lo as int, hi as int);
    if fully_wrapped_exec(v, lo, hi) {
        proof {
            assert(v@.subrange((lo + 1) as int, (hi - 1) as int) =~= s.subrange(
                1,
                s.len() - 1,
            ));
        }
        parse_plus(v, lo + 1, hi - 1)
    } else {
        parse_atom(v, lo, hi)
    }
}

/// The terminal cases: the constants `pi` and `e`, then a numeric
/// literal; anything else is reported as an invalid expression.
fn parse_atom(v: &Vec<char>, lo: usize, hi: usize) -> (res: Result<Expr, EvalError>)
    requires
        lo <= hi <= v@.len(),
    ensures
        parse_model(res) == sparse_atom(v@.subrange(lo as int, hi as int)),
{
    let ghost s = v@.subrange(lo as int, hi as int);
    let n = hi - lo;
    let is_pi = n == 2 && v[lo] == 'p' && v[lo + 1] == 'i';
    proof {
        assert(seq!['p', 'i'].len() == 2 && seq!['p', 'i'][0] == 'p' && seq!['p', 'i'][1]
            == 'i');
        if n == 2 {
            assert(v@.subrange(lo as int, hi as int)[0] == v@[lo as int]);
            assert(v@.subrange(lo as int, hi as int)[1] == v@[lo + 1]);
        }
        if is_pi {
            assert(s =~= seq!['p', 'i']);
        }
    }
    if is_pi {
        return Ok(Expr::ConstPi);
    }
    let is_e = n == 1 && v[lo] == 'e';
    proof {
        assert(seq!['e'].len() == 1 && seq!['e'][0] == 'e');
        if n == 1 {
            assert(v@.subrange(lo as int, hi as int)[0] == v@[lo as int]);
        }
        if is_e {
            assert(s =~= seq!['e']);
        }
    }
    if is_e {
        return Ok(Expr::ConstE);
    }
    if is_float_literal(v, lo, hi) {
        let text = range_to_string(v, lo, hi);
        Ok(Expr::Num(text))
    } else {
        let text = range_to_string(v, lo, hi);
        Err(EvalError::InvalidExpression(text))
    }
}

/// Parses an input expression into its syntax tree.
///
/// The input is normalized first — whitespace removed and implicit
/// multiplication signs inserted — and then read by the precedence
/// grammar: the rightmost top-level occurrence of each operator class
/// splits the string, named functions are matched by prefix, a spanning
/// parenthesis pair is stripped, and what remains must be a constant or
/// a numeric literal.
pub fn parse(s: &str) -> (res: Result<Expr, EvalError>)
    ensures
        parse_model(res) == spec_parse(s@),
{
    let v = normalize(s);
    let n = v.len();
    proof {
        assert(v@.subrange(0, n as int) =~= v@);
    }
    parse_plus(&v, 0, n)
}

} // verus!
