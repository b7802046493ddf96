use vstd::prelude::*;

use crate::ast::{AstModel, BinOp};
use crate::errors::ErrModel;
use crate::literal::{digits_end, spec_is_float_literal};
use crate::parser::{
    bin_result, blocks_minus, depth_at, depth_delta, ends_rparen, find_op_before, find_top_op,
    fully_wrapped, has_prefix, sparse, sparse_atom, sparse_div, sparse_func,
    sparse_minus, sparse_mod, sparse_mul, sparse_paren, sparse_pow,
};
use crate::preprocess::{
    insert_mul_from, needs_star, spec_is_space, spec_normalize, strip_spaces_from,
};
use crate::text::spec_is_digit;

verus! {

/// A nonempty string of decimal digits.
pub open spec fn all_digits(t: Seq<char>) -> bool {
    t.len() > 0 && (forall|i: int| 0 <= i < t.len() ==> spec_is_digit(t[i]))
}

/// The operator characters of the grammar.
pub open spec fn is_op_char(c: char) -> bool {
    c == '+' || c == '-' || c == '*' || c == '/' || c == '%' || c == '^'
}

/// The node constructor that each operator character parses to.
pub open spec fn binop_of(c: char) -> BinOp {
    if c == '+' {
        BinOp::Add
    } else if c == '-' {
        BinOp::Sub
    } else if c == '*' {
        BinOp::Mul
    } else if c == '/' {
        BinOp::Div
    } else if c == '%' {
        BinOp::Mod
    } else {
        BinOp::Pow
    }
}

/// Where `op` occurs nowhere at depth zero, the search finds nothing.
proof fn lemma_find_op_none_before(s: Seq<char>, op: char, i: int)
    requires
        i <= s.len(),
        forall|q: int| 0 <= q < i ==> !(s[q] == op && depth_at(s, q) == 0),
    ensures
        find_op_before(s, op, i) is None,
    decreases i,
{
    if i > 0 {
        lemma_find_op_none_before(s, op, i - 1);
    }
}

/// Where `op` occurs nowhere at depth zero, the split does not happen.
pub proof fn lemma_find_op_none(s: Seq<char>, op: char)
    requires
        forall|q: int| 0 <= q < s.len() ==> !(s[q] == op && depth_at(s, q) == 0),
    ensures
        find_top_op(s, op) is None,
{
    lemma_find_op_none_before(s, op, s.len() as int);
}

/// A top-level occurrence with none to its right is the one found.
proof fn lemma_find_op_at_before(s: Seq<char>, op: char, p: int, i: int)
    requires
        0 <= p < i <= s.len(),
        s[p] == op,
        depth_at(s, p) == 0,
        forall|q: int| p < q < i ==> !(s[q] == op && depth_at(s, q) == 0),
    ensures
        find_op_before(s, op, i) == Some(p),
    decreases i,
{
    if i - 1 > p {
        lemma_find_op_at_before(s, op, p, i - 1);
    }
}

/// A top-level occurrence with none to its right is where the evaluator
/// splits.
pub proof fn lemma_find_op_at(s: Seq<char>, op: char, p: int)
    requires
        0 <= p < s.len(),
        s[p] == op,
        depth_at(s, p) == 0,
        forall|q: int| p < q < s.len() ==> !(s[q] == op && depth_at(s, q) == 0),
    ensures
        find_top_op(s, op) == Some(p),
{
    lemma_find_op_at_before(s, op, p, s.len() as int);
}

/// Without parentheses every prefix has depth zero.
proof fn lemma_depth_zero_prefix(t: Seq<char>, i: int)
    requires
        0 <= i <= t.len(),
        forall|q: int| 0 <= q < t.len() ==> t[q] != '(' && t[q] != ')',
    ensures
        depth_at(t, i) == 0,
    decreases i,
{
    if i > 0 {
        lemma_depth_zero_prefix(t, i - 1);
    }
}

/// Without parentheses, all depths are zero.
pub proof fn lemma_no_parens_depth(t: Seq<char>)
    requires
        forall|q: int| 0 <= q < t.len() ==> t[q] != '(' && t[q] != ')',
    ensures
        forall|i: int| 0 <= i <= t.len() ==> depth_at(t, i) == 0,
{
    assert forall|i: int| 0 <= i <= t.len() implies depth_at(t, i) == 0 by {
        lemma_depth_zero_prefix(t, i);
    }
}

/// A digit is none of the structural characters.
proof fn lemma_digit_shape(c: char)
    requires
        spec_is_digit(c),
    ensures
        !is_op_char(c),
        c != '(',
        c != ')',
        c != '.',
        c != ',',
        c != 'p',
        c != 'e',
        c != 'E',
        c != '+',
        c != '-',
{
}

/// A nonempty digit string parses as a numeric literal leaf.
#[verifier::rlimit(60)]
pub proof fn lemma_digits_parse_as_number(a: Seq<char>)
    requires
        all_digits(a),
    ensures
        sparse(a) == Ok::<AstModel, ErrModel>(AstModel::Num(a)),
{
    assert forall|q: int| 0 <= q < a.len() implies a[q] != '(' && a[q] != ')' by {
        lemma_digit_shape(a[q]);
    }
    lemma_no_parens_depth(a);
    assert forall|q: int| 0 <= q < a.len() implies !is_op_char(a[q]) by {
        lemma_digit_shape(a[q]);
    }
    lemma_find_op_none(a, '+');
    lemma_find_op_none(a, '-');
    lemma_find_op_none(a, '*');
    lemma_find_op_none(a, '/');
    lemma_find_op_none(a, '%');
    lemma_find_op_none(a, '^');
    assert(!ends_rparen(a)) by {
        lemma_digit_shape(a[a.len() - 1]);
    }
    assert(sparse_func(a) == sparse_paren(a));
    assert(!fully_wrapped(a)) by {
        lemma_digit_shape(a[0]);
    }
    assert(a != seq!['p', 'i']) by {
        if a == seq!['p', 'i'] {
            assert(a[0] == 'p');
            lemma_digit_shape(a[0]);
        }
    }
    assert(a != seq!['e']) by {
        if a == seq!['e'] {
            assert(a[0] == 'e');
            lemma_digit_shape(a[0]);
        }
    }
    assert(spec_is_float_literal(a)) by {
        lemma_digit_shape(a[0]);
        lemma_all_digits_end(a, 0);
        assert(digits_end(a, 0) == a.len());
    }
    assert(sparse_atom(a) == Ok::<AstModel, ErrModel>(AstModel::Num(a)));
    assert(sparse_paren(a) == sparse_atom(a));
    assert(sparse_pow(a) == sparse_func(a));
    assert(sparse_mod(a) == sparse_pow(a));
    assert(sparse_div(a) == sparse_mod(a));
    assert(sparse_mul(a) == sparse_div(a));
    assert(sparse_minus(a) == sparse_mul(a));
    assert(sparse(a) == sparse_minus(a));
}

/// In an all-digit string the digit run reaches the end.
proof fn lemma_all_digits_end(t: Seq<char>, i: int)
    requires
        0 <= i <= t.len(),
        forall|q: int| 0 <= q < t.len() ==> spec_is_digit(t[q]),
    ensures
        digits_end(t, i) == t.len(),
    decreases t.len() - i,
{
    if i < t.len() {
        lemma_all_digits_end(t, i + 1);
    }
}

/// Law: a well-formed two-operand expression over digit literals parses
/// as exactly one operator node with the two literals as leaves, for
/// every operator of the grammar.
pub proof fn lemma_two_operand_split(a: Seq<char>, b: Seq<char>, op: char)
    requires
        all_digits(a),
        all_digits(b),
        is_op_char(op),
    ensures
        sparse(a + seq![op] + b) == Ok::<AstModel, ErrModel>(
            AstModel::Bin(
                binop_of(op),
                Box::new(AstModel::Num(a)),
                Box::new(AstModel::Num(b)),
            ),
        ),
{
    let w = a + seq![op] + b;
    let p = a.len() as int;
    assert(w.len() == a.len() + 1 + b.len());
    assert(w[p] == op);
    assert forall|q: int| 0 <= q < w.len() && q != p implies spec_is_digit(w[q]) by {
        if q < p {
            assert(w[q] == a[q]);
        } else {
            assert(w[q] == b[q - p - 1]);
        }
    }
    assert forall|q: int| 0 <= q < w.len() implies w[q] != '(' && w[q] != ')' by {
        if q != p {
            lemma_digit_shape(w[q]);
        }
    }
    lemma_no_parens_depth(w);
    assert forall|q: int| p < q < w.len() implies !(w[q] == op && depth_at(w, q) == 0) by {
        lemma_digit_shape(w[q]);
    }
    lemma_find_op_at(w, op, p);
    let lefts = w.take(p);
    let rights = w.skip(p + 1);
    assert(lefts =~= a);
    assert(rights =~= b);
    lemma_digits_parse_as_number(a);
    lemma_digits_parse_as_number(b);
    let goal = bin_result(
        binop_of(op),
        Ok::<AstModel, ErrModel>(AstModel::Num(a)),
        Ok::<AstModel, ErrModel>(AstModel::Num(b)),
    );
    assert(goal == Ok::<AstModel, ErrModel>(
        AstModel::Bin(
            binop_of(op),
            Box::new(AstModel::Num(a)),
            Box::new(AstModel::Num(b)),
        ),
    ));
    if op == '+' {
        assert(sparse(w) == bin_result(BinOp::Add, sparse(lefts), sparse(rights)));
    } else {
        assert forall|q: int| 0 <= q < w.len() implies w[q] != '+' by {
            if q != p {
                lemma_digit_shape(w[q]);
            }
        }
        lemma_find_op_none(w, '+');
        assert(sparse(w) == sparse_minus(w));
        if op == '-' {
            assert(w[p - 1] == a[a.len() - 1]);
            assert(!blocks_minus(w[p - 1])) by {
                lemma_digit_shape(a[a.len() - 1]);
            }
            assert(sparse_minus(w) == bin_result(
                BinOp::Sub,
                sparse(lefts),
                sparse(rights),
            ));
        } else {
            assert forall|q: int| 0 <= q < w.len() implies w[q] != '-' by {
                if q != p {
                    lemma_digit_shape(w[q]);
                }
            }
            lemma_find_op_none(w, '-');
            assert(sparse_minus(w) == sparse_mul(w));
            if op == '*' {
                assert(sparse_mul(w) == bin_result(
                    BinOp::Mul,
                    sparse(lefts),
                    sparse(rights),
                ));
            } else {
                assert forall|q: int| 0 <= q < w.len() implies w[q] != '*' by {
                    if q != p {
                        lemma_digit_shape(w[q]);
                    }
                }
                lemma_find_op_none(w, '*');
                assert(sparse_mul(w) == sparse_div(w));
                if op == '/' {
                    assert(sparse_div(w) == bin_result(
                        BinOp::Div,
                        sparse(lefts),
                        sparse(rights),
                    ));
                } else {
                    assert forall|q: int| 0 <= q < w.len() implies w[q] != '/' by {
                        if q != p {
                            lemma_digit_shape(w[q]);
                        }
                    }
                    lemma_find_op_none(w, '/');
                    assert(sparse_div(w) == sparse_mod(w));
                    if op == '%' {
                        assert(sparse_mod(w) == bin_result(
                            BinOp::Mod,
                            sparse(lefts),
                            sparse(rights),
                        ));
                    } else {
                        assert forall|q: int| 0 <= q < w.len() implies w[q] != '%' by {
                            if q != p {
                                lemma_digit_shape(w[q]);
                            }
                        }
                        lemma_find_op_none(w, '%');
                        assert(sparse_mod(w) == sparse_pow(w));
                        assert(op == '^');
                        assert(sparse_pow(w) == bin_result(
                            BinOp::Pow,
                            sparse(lefts),
                            sparse(rights),
                        ));
                    }
                }
            }
        }
    }
}

/// Law: with the rightmost top-level split, repeated subtraction groups
/// to the left: `a-b-c` parses as `(a-b)-c`, never as `a-(b-c)`.
pub proof fn lemma_subtraction_left_associative(a: Seq<char>, b: Seq<char>, c: Seq<char>)
    requires
        all_digits(a),
        all_digits(b),
        all_digits(c),
    ensures
        sparse(a + seq!['-'] + b + seq!['-'] + c) == Ok::<AstModel, ErrModel>(
            AstModel::Bin(
                BinOp::Sub,
                Box::new(
                    AstModel::Bin(
                        BinOp::Sub,
                        Box::new(AstModel::Num(a)),
                        Box::new(AstModel::Num(b)),
                    ),
                ),
                Box::new(AstModel::Num(c)),
            ),
        ),
{
    let w = a + seq!['-'] + b + seq!['-'] + c;
    let p1 = a.len() as int;
    let p2 = a.len() + 1 + b.len() as int;
    assert(w[p1] == '-');
    assert(w[p2] == '-');
    assert forall|q: int|
        0 <= q < w.len() && q != p1 && q != p2 implies spec_is_digit(w[q]) by {
        if q < p1 {
            assert(w[q] == a[q]);
        } else if q < p2 {
            assert(w[q] == b[q - p1 - 1]);
        } else {
            assert(w[q] == c[q - p2 - 1]);
        }
    }
    assert forall|q: int| 0 <= q < w.len() implies w[q] != '(' && w[q] != ')' by {
        if q != p1 && q != p2 {
            lemma_digit_shape(w[q]);
        }
    }
    lemma_no_parens_depth(w);
    assert forall|q: int| 0 <= q < w.len() implies w[q] != '+' by {
        if q != p1 && q != p2 {
            lemma_digit_shape(w[q]);
        }
    }
    lemma_find_op_none(w, '+');
    assert forall|q: int| p2 < q < w.len() implies !(w[q] == '-' && depth_at(w, q) == 0) by {
        lemma_digit_shape(w[q]);
    }
    lemma_find_op_at(w, '-', p2);
    assert(w[p2 - 1] == b[b.len() - 1]);
    assert(!blocks_minus(w[p2 - 1])) by {
        lemma_digit_shape(b[b.len() - 1]);
    }
    let lefts = w.take(p2);
    let rights = w.skip(p2 + 1);
    assert(lefts =~= a + seq!['-'] + b);
    assert(rights =~= c);
    lemma_two_operand_split(a, b, '-');
    lemma_digits_parse_as_number(c);
    assert(sparse(w) == sparse_minus(w));
    assert(sparse_minus(w) == bin_result(BinOp::Sub, sparse(lefts), sparse(rights)));
}

/// Relates the depth of a wrapped string to the depth of its body.
proof fn lemma_wrapped_depth(s: Seq<char>, j: int)
    requires
        1 <= j <= s.len() + 1,
    ensures
        depth_at(seq!['('] + s + seq![')'], j) == 1 + depth_at(s, j - 1),
    decreases j,
{
    let u = seq!['('] + s + seq![')'];
    if j == 1 {
        assert(u[0] == '(');
        assert(depth_at(u, 1) == depth_at(u, 0) + depth_delta(u[0]));
        assert(depth_at(s, 0) == 0);
    } else {
        lemma_wrapped_depth(s, j - 1);
        assert(u[j - 1] == s[j - 2]);
        assert(depth_at(u, j) == depth_at(u, j - 1) + depth_delta(u[j - 1]));
        assert(depth_at(s, j - 1) == depth_at(s, j - 2) + depth_delta(s[j - 2]));
    }
}

/// Law: wrapping a balanced expression in one more pair of parentheses
/// does not change what it parses to — so a wrapped expression succeeds,
/// or fails with the very same error, exactly as its body does.
#[verifier::rlimit(100)]
pub proof fn lemma_parenthesis_transparent(s: Seq<char>)
    requires
        forall|i: int| 0 <= i <= s.len() ==> depth_at(s, i) >= 0,
    ensures
        sparse(seq!['('] + s + seq![')']) == sparse(s),
{
    let u = seq!['('] + s + seq![')'];
    assert(u.len() == s.len() + 2);
    assert(u[0] == '(');
    assert(u[u.len() - 1] == ')');
    assert forall|j: int| 1 <= j < u.len() implies depth_at(u, j) != 0 by {
        lemma_wrapped_depth(s, j);
    }
    assert(fully_wrapped(u));
    assert forall|q: int, op: char|
        0 <= q < u.len() && is_op_char(op) implies !(u[q] == op && depth_at(u, q) == 0) by {
        if u[q] == op {
            assert(q != 0 && q != u.len() - 1);
            lemma_wrapped_depth(s, q);
        }
    }
    lemma_find_op_none(u, '+');
    lemma_find_op_none(u, '-');
    lemma_find_op_none(u, '*');
    lemma_find_op_none(u, '/');
    lemma_find_op_none(u, '%');
    lemma_find_op_none(u, '^');
    assert(!has_prefix(u, seq!['s', 'q', 'r', 't', '(']));
    assert(!has_prefix(u, seq!['s', 'i', 'n', '(']));
    assert(!has_prefix(u, seq!['c', 'o', 's', '(']));
    assert(!has_prefix(u, seq!['t', 'a', 'n', '(']));
    assert(!has_prefix(u, seq!['l', 'o', 'g', '(']));
    assert(!has_prefix(u, seq!['l', 'n', '(']));
    assert(!has_prefix(u, seq!['f', 'a', 'c', 't', 'o', 'r', 'i', 'a', 'l', '(']));
    assert(!has_prefix(u, seq!['f', 'a', 'c', 't', '(']));
    assert(!has_prefix(u, seq!['n', 'P', 'r', '(']));
    assert(!has_prefix(u, seq!['n', 'C', 'r', '(']));
    assert(sparse(u) == sparse_minus(u));
    assert(sparse_minus(u) == sparse_mul(u));
    assert(sparse_mul(u) == sparse_div(u));
    assert(sparse_div(u) == sparse_mod(u));
    assert(sparse_mod(u) == sparse_pow(u));
    assert(sparse_pow(u) == sparse_func(u));
    assert(sparse_func(u) == sparse_paren(u));
    assert(u.subrange(1, u.len() - 1) =~= s);
    assert(sparse_paren(u) == sparse(u.subrange(1, u.len() - 1)));
}

/// Spaces removed of a string that has none is the string itself.
proof fn lemma_strip_spaces_id(t: Seq<char>, i: int)
    requires
        0 <= i <= t.len(),
        forall|q: int| 0 <= q < t.len() ==> !spec_is_space(t[q]),
    ensures
        strip_spaces_from(t, i) == t.skip(i),
    decreases t.len() - i,
{
    if i == t.len() {
        assert(strip_spaces_from(t, i) =~= t.skip(i));
    } else {
        lemma_strip_spaces_id(t, i + 1);
        assert(seq![t[i]] + t.skip(i + 1) =~= t.skip(i));
    }
}

/// Multiplication insertion in a string without adjacent star pairs is
/// the identity.
proof fn lemma_insert_mul_id(t: Seq<char>, i: int)
    requires
        0 <= i <= t.len(),
        forall|q: int| 0 <= q + 1 < t.len() ==> !(#[trigger] needs_star(t[q], t[q + 1])),
    ensures
        insert_mul_from(t, i) == t.skip(i),
    decreases t.len() - i,
{
    if i == t.len() {
        assert(insert_mul_from(t, i) =~= t.skip(i));
    } else {
        lemma_insert_mul_id(t, i + 1);
        assert(seq![t[i]] + t.skip(i + 1) =~= t.skip(i));
    }
}

/// Normalization leaves a string without whitespace and without implicit
/// multiplication pairs unchanged.
pub proof fn lemma_normalize_id(t: Seq<char>)
    requires
        forall|q: int| 0 <= q < t.len() ==> !spec_is_space(t[q]),
        forall|q: int| 0 <= q + 1 < t.len() ==> !(#[trigger] needs_star(t[q], t[q + 1])),
    ensures
        spec_normalize(t) == t,
{
    lemma_strip_spaces_id(t, 0);
    assert(t.skip(0) =~= t);
    lemma_insert_mul_id(t, 0);
}

} // verus!
