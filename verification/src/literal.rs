use vstd::prelude::*;

use crate::text::{is_digit, spec_is_digit};

verus! {

/// The end of the run of decimal digits of `t` starting at `from`.
pub open spec fn digits_end(t: Seq<char>, from: int) -> int
    decreases t.len() - from,
{
    if from < 0 || from >= t.len() {
        from
    } else if spec_is_digit(t[from]) {
        digits_end(t, from + 1)
    } else {
        from
    }
}

/// An exponent part starting at position `i`: `e` or `E`, an optional
/// sign, and at least one digit reaching the end of the string.
pub open spec fn is_exp_at(t: Seq<char>, i: int) -> bool {
    0 <= i < t.len() && (t[i] == 'e' || t[i] == 'E') && {
        let j = if i + 1 < t.len() && (t[i + 1] == '+' || t[i + 1] == '-') {
            i + 2
        } else {
            i + 1
        };
        j < t.len() && digits_end(t, j) == t.len()
    }
}

/// The numeric alternatives of the literal grammar, after the optional
/// sign: digits, an optional point with optional further digits, and an
/// optional exponent; or a point, digits, and an optional exponent.
pub open spec fn is_number_body(t: Seq<char>) -> bool {
    if t.len() == 0 {
        false
    } else if t[0] == '.' {
        let k = digits_end(t, 1);
        k > 1 && (k == t.len() || is_exp_at(t, k))
    } else {
        let k = digits_end(t, 0);
        k >= 1 && (k == t.len() || (k < t.len() && t[k] == '.' && {
            let m = digits_end(t, k + 1);
            m == t.len() || is_exp_at(t, m)
        }) || is_exp_at(t, k))
    }
}

/// Case-insensitive match of `c` against a lowercase letter `l`: equal,
/// or exactly the uppercase form, thirty-two code points below.
pub open spec fn ci_is(c: char, l: char) -> bool {
    c == l || (l as u32 >= 32 && c as u32 == l as u32 - 32)
}

/// Case-insensitive match of `t` against a lowercase word `w`.
pub open spec fn ci_word(t: Seq<char>, w: Seq<char>) -> bool {
    t.len() == w.len() && forall|j: int| 0 <= j < t.len() ==> ci_is(t[j], w[j])
}

/// The named special values of the literal grammar, matched without
/// regard to case.
pub open spec fn is_special_word(t: Seq<char>) -> bool {
    ci_word(t, seq!['i', 'n', 'f']) || ci_word(
        t,
        seq!['i', 'n', 'f', 'i', 'n', 'i', 't', 'y'],
    ) || ci_word(t, seq!['n', 'a', 'n'])
}

/// The grammar of floating-point literals that the standard library's
/// string-to-float conversion documents: an optional sign, then either a
/// special word (`inf`, `infinity`, `nan`, case-insensitive) or a number.
pub open spec fn spec_is_float_literal(t: Seq<char>) -> bool {
    if t.len() > 0 && (t[0] == '+' || t[0] == '-') {
        is_special_word(t.skip(1)) || is_number_body(t.skip(1))
    } else {
        is_special_word(t) || is_number_body(t)
    }
}

/// Finds the end of the digit run of `v[lo..hi]` starting at `from`
/// (absolute index).
fn digits_end_exec(v: &Vec<char>, from: usize, hi: usize) -> (e: usize)
    requires
        from <= hi <= v@.len(),
    ensures
        from <= e <= hi,
        digits_end(v@.subrange(from as int, hi as int), 0) == e - from,
        forall|j: int| from <= j < e ==> spec_is_digit(v@[j]),
        e < hi ==> !spec_is_digit(v@[e as int]),
{
    let ghost t = v@.subrange(from as int, hi as int);
    let mut e: usize = from;
    while e < hi && is_digit(v[e])
        invariant
            from <= e <= hi <= v@.len(),
            t == v@.subrange(from as int, hi as int),
            forall|j: int| from <= j < e ==> spec_is_digit(v@[j]),
        decreases hi - e,
    {
        e = e + 1;
    }
    proof {
        lemma_digits_end_at(t, 0, e - from);
    }
    e
}

/// `digits_end` is determined by any witness index: digits up to `e` and
/// a non-digit (or the end) at `e`.
proof fn lemma_digits_end_at(t: Seq<char>, i: int, e: int)
    requires
        0 <= i <= e <= t.len(),
        forall|j: int| i <= j < e ==> spec_is_digit(t[j]),
        e < t.len() ==> !spec_is_digit(t[e]),
    ensures
        digits_end(t, i) == e,
    decreases e - i,
{
    if i < e {
        lemma_digits_end_at(t, i + 1, e);
    }
}

/// Case-insensitive comparison of `v[lo..hi]` against a lowercase word.
fn ci_word_exec(v: &Vec<char>, lo: usize, hi: usize, w: &Vec<char>) -> (r: bool)
    requires
        lo <= hi <= v@.len(),
    ensures
        r == ci_word(v@.subrange(lo as int, hi as int), w@),
{
    let ghost t = v@.subrange(lo as int, hi as int);
    if hi - lo != w.len() {
        return false;
    }
    let mut i: usize = 0;
    while i < w.len()
        invariant
            t == v@.subrange(lo as int, hi as int),
            hi - lo == w@.len(),
            lo <= hi <= v@.len(),
            i <= w@.len(),
            forall|j: int| 0 <= j < i ==> ci_is(t[j], w@[j]),
        decreases w@.len() - i,
    {
        let c = v[lo + i];
        let l = w[i];
        let lu = l as u32;
        let ci = c == l || (lu >= 32 && (c as u32) == lu - 32);
        if !ci {
            proof {
                assert(t[i as int] == v@[lo + i]);
                assert(!ci_is(t[i as int], w@[i as int]));
            }
            return false;
        }
        proof {
            assert(t[i as int] == v@[lo + i]);
        }
        i = i + 1;
    }
    true
}

/// Decides whether `v[lo..hi]` is a well-formed floating-point literal
/// under the documented grammar of the standard conversion.
pub fn is_float_literal(v: &Vec<char>, lo: usize, hi: usize) -> (r: bool)
    requires
        lo <= hi <= v@.len(),
    ensures
        r == spec_is_float_literal(v@.subrange(lo as int, hi as int)),
{
    let ghost t = v@.subrange(lo as int, hi as int);
    let start = if lo < hi && (v[lo] == '+' || v[lo] == '-') {
        lo + 1
    } else {
        lo
    };
    proof {
        if start > lo {
            assert(v@.subrange(start as int, hi as int) =~= t.skip(1));
        } else {
            assert(v@.subrange(start as int, hi as int) =~= t);
        }
    }
    let word_inf = vec!['i', 'n', 'f'];
    let word_infinity = vec!['i', 'n', 'f', 'i', 'n', 'i', 't', 'y'];
    let word_nan = vec!['n', 'a', 'n'];
    proof {
        assert(word_inf@ =~= seq!['i', 'n', 'f']);
        assert(word_infinity@ =~= seq!['i', 'n', 'f', 'i', 'n', 'i', 't', 'y']);
        assert(word_nan@ =~= seq!['n', 'a', 'n']);
    }
    if ci_word_exec(v, start, hi, &word_inf) || ci_word_exec(v, start, hi, &word_infinity)
        || ci_word_exec(v, start, hi, &word_nan) {
        return true;
    }
    is_number_body_exec(v, start, hi)
}

/// Decides whether `v[lo..hi]` matches the number alternatives of the
/// literal grammar.
fn is_number_body_exec(v: &Vec<char>, lo: usize, hi: usize) -> (r: bool)
    requires
        lo <= hi <= v@.len(),
    ensures
        r == is_number_body(v@.subrange(lo as int, hi as int)),
{
    let ghost t = v@.subrange(lo as int, hi as int);
    if lo == hi {
        return false;
    }
    if v[lo] == '.' {
        let k = digits_end_exec(v, lo + 1, hi);
        proof {
            assert(v@.subrange(lo + 1, hi as int) =~= t.skip(1));
            lemma_digits_end_at(t, 1, (k - lo) as int);
        }
        if k == lo + 1 {
            return false;
        }
        if k == hi {
            return true;
        }
        is_exp_at_exec(v, lo, hi, k)
    } else {
        let k = digits_end_exec(v, lo, hi);
        proof {
            assert(v@.subrange(lo as int, hi as int) =~= t);
            lemma_digits_end_at(t, 0, (k - lo) as int);
        }
        if k == lo {
            return false;
        }
        if k == hi {
            return true;
        }
        if v[k] == '.' {
            let m = digits_end_exec(v, k + 1, hi);
            proof {
                lemma_digits_end_at(t, k - lo + 1, (m - lo) as int);
            }
            if m == hi {
                return true;
            }
            return is_exp_at_exec(v, lo, hi, m);
        }
        is_exp_at_exec(v, lo, hi, k)
    }
}

/// Decides whether an exponent part begins at absolute position `p` of
/// `v[lo..hi]` and spans the rest of it.
fn is_exp_at_exec(v: &Vec<char>, lo: usize, hi: usize, p: usize) -> (r: bool)
    requires
        lo <= p <= hi <= v@.len(),
    ensures
        r == is_exp_at(v@.subrange(lo as int, hi as int), p - lo),
{
    let ghost t = v@.subrange(lo as int, hi as int);
    if p == hi {
        return false;
    }
    let c = v[p];
    if !(c == 'e' || c == 'E') {
        proof {
            assert(t[p - lo] == v@[p as int]);
        }
        return false;
    }
    let j = if p + 1 < hi && (v[p + 1] == '+' || v[p + 1] == '-') {
        p + 2
    } else {
        p + 1
    };
    if j == hi {
        return false;
    }
    let e = digits_end_exec(v, j, hi);
    proof {
        lemma_digits_end_at(t, j - lo, (e - lo) as int);
    }
    e == hi
}

} // verus!
