use vstd::prelude::*;

use crate::text::{spec_is_digit, to_char_vec};

verus! {

/// The whitespace characters removed before structural parsing.
pub open spec fn spec_is_space(c: char) -> bool {
    c == ' ' || c == '\t' || c == '\n' || c == '\u{c}' || c == '\r'
}

/// Executable whitespace test, equal to the specification above.
pub fn is_space(c: char) -> (r: bool)
    ensures
        r == spec_is_space(c),
{
    c == ' ' || c == '\t' || c == '\n' || c == '\u{c}' || c == '\r'
}

/// `t` with every whitespace character removed, written as a recursion
/// from position `i`.
pub open spec fn strip_spaces_from(t: Seq<char>, i: int) -> Seq<char>
    decreases t.len() - i,
{
    if i < 0 || i >= t.len() {
        Seq::empty()
    } else {
        (if spec_is_space(t[i]) {
            Seq::empty()
        } else {
            seq![t[i]]
        }) + strip_spaces_from(t, i + 1)
    }
}

/// An adjacent pair that takes an implicit multiplication sign between
/// its two characters: a digit before `(`, or `)` before a digit or `(`.
pub open spec fn needs_star(a: char, b: char) -> bool {
    (spec_is_digit(a) && b == '(') || (a == ')' && spec_is_digit(b)) || (a == ')' && b == '(')
}

/// `t` with a `*` inserted inside every pair that `needs_star`, written
/// as a recursion from position `i`.
pub open spec fn insert_mul_from(t: Seq<char>, i: int) -> Seq<char>
    decreases t.len() - i,
{
    if i < 0 || i >= t.len() {
        Seq::empty()
    } else {
        seq![t[i]] + (if i + 1 < t.len() && needs_star(t[i], t[i + 1]) {
            seq!['*']
        } else {
            Seq::empty()
        }) + insert_mul_from(t, i + 1)
    }
}

/// The normalized form of an input expression: whitespace removed, then
/// explicit multiplication signs inserted.
pub open spec fn spec_normalize(t: Seq<char>) -> Seq<char> {
    insert_mul_from(strip_spaces_from(t, 0), 0)
}

/// Removes every whitespace character of `v`.
fn strip_spaces(v: &Vec<char>) -> (r: Vec<char>)
    ensures
        r@ == strip_spaces_from(v@, 0),
{
    let mut out: Vec<char> = Vec::new();
    let mut i: usize = 0;
    while i < v.len()
        invariant
            i <= v@.len(),
            out@ + strip_spaces_from(v@, i as int) == strip_spaces_from(v@, 0),
        decreases v@.len() - i,
    {
        if !is_space(v[i]) {
            out.push(v[i]);
        }
        i = i + 1;
    }
    out
}

/// Inserts the implicit multiplication signs of `needs_star`.
fn insert_mul(v: &Vec<char>) -> (r: Vec<char>)
    ensures
        r@ == insert_mul_from(v@, 0),
{
    let mut out: Vec<char> = Vec::new();
    let mut i: usize = 0;
    while i < v.len()
        invariant
            i <= v@.len(),
            out@ + insert_mul_from(v@, i as int) == insert_mul_from(v@, 0),
        decreases v@.len() - i,
    {
        out.push(v[i]);
        if i + 1 < v.len() {
            let a = v[i];
            let b = v[i + 1];
            let digit_a = '0' <= a && a <= '9';
            let digit_b = '0' <= b && b <= '9';
            if (digit_a && b == '(') || (a == ')' && digit_b) || (a == ')' && b == '(') {
                out.push('*');
            }
        }
        i = i + 1;
    }
    out
}

/// Normalizes an input expression: removes whitespace and inserts the
/// implicit multiplication signs, as the evaluator requires before any
/// structural parsing.
pub fn normalize(s: &str) -> (r: Vec<char>)
    ensures
        r@ == spec_normalize(s@),
{
    let v = to_char_vec(s);
    let stripped = strip_spaces(&v);
    insert_mul(&stripped)
}

} // verus!
