use vstd::prelude::*;

use crate::bignum::{big_div_u64, big_mul_u64, big_one, big_to_decimal, big_value};
use crate::errors::{CombKind, EvalError};
use crate::grouping::{format_with_separators, spec_group_plain};
use crate::render::dec_digits;

verus! {

/// The factorial of a natural number.
pub open spec fn fact_nat(n: nat) -> nat
    decreases n,
{
    if n == 0 {
        1
    } else {
        n * fact_nat((n - 1) as nat)
    }
}

/// The falling product `n * (n-1) * ... * (n-r+1)` with `r` factors: the
/// number of permutations of `r` items out of `n`.
pub open spec fn npr_nat(n: nat, r: nat) -> nat
    decreases r,
{
    if r == 0 {
        1
    } else if n == 0 {
        0
    } else {
        n * npr_nat((n - 1) as nat, (r - 1) as nat)
    }
}

/// The number of combinations of `r` items out of `n`, by Pascal's rule.
pub open spec fn ncr_nat(n: nat, r: nat) -> nat
    decreases n,
{
    if r == 0 {
        1
    } else if n == 0 {
        0
    } else {
        ncr_nat((n - 1) as nat, (r - 1) as nat) + ncr_nat((n - 1) as nat, r)
    }
}

/// Factorials are positive.
pub proof fn lemma_fact_pos(n: nat)
    ensures
        fact_nat(n) >= 1,
    decreases n,
{
    if n > 0 {
        lemma_fact_pos((n - 1) as nat);
        assert(n * fact_nat((n - 1) as nat) >= 1) by (nonlinear_arith)
            requires
                n >= 1,
                fact_nat((n - 1) as nat) >= 1,
        ;
    }
}

/// Choosing more items than there are yields no combinations.
proof fn lemma_ncr_above(n: nat, r: nat)
    requires
        r > n,
    ensures
        ncr_nat(n, r) == 0,
    decreases n,
{
    if n > 0 {
        lemma_ncr_above((n - 1) as nat, (r - 1) as nat);
        lemma_ncr_above((n - 1) as nat, r);
    }
}

/// Choosing everything can be done in exactly one way.
proof fn lemma_ncr_all(n: nat)
    ensures
        ncr_nat(n, n) == 1,
    decreases n,
{
    if n > 0 {
        lemma_ncr_all((n - 1) as nat);
        lemma_ncr_above((n - 1) as nat, n);
    }
}

/// Law: the combination count is symmetric, `C(n, r) == C(n, n - r)`.
pub proof fn lemma_ncr_symmetric(n: nat, r: nat)
    requires
        r <= n,
    ensures
        ncr_nat(n, r) == ncr_nat(n, (n - r) as nat),
    decreases n,
{
    if r == 0 {
        lemma_ncr_all(n);
    } else if r == n {
        lemma_ncr_all(n);
    } else {
        let n1 = (n - 1) as nat;
        lemma_ncr_symmetric(n1, (r - 1) as nat);
        lemma_ncr_symmetric(n1, r);
        assert(ncr_nat(n, (n - r) as nat) == ncr_nat(n1, (n - r - 1) as nat) + ncr_nat(
            n1,
            (n - r) as nat,
        ));
    }
}

/// Pascal's rule matched against factorials:
/// `C(n, r) * r! * (n - r)! == n!`.
proof fn lemma_pascal_factorial(n: nat, r: nat)
    requires
        r <= n,
    ensures
        ncr_nat(n, r) * fact_nat(r) * fact_nat((n - r) as nat) == fact_nat(n),
    decreases n,
{
    if r == 0 {
        assert(ncr_nat(n, 0) == 1);
        assert(fact_nat(0) == 1);
        assert((n - r) as nat == n);
        assert(ncr_nat(n, r) * fact_nat(r) * fact_nat((n - r) as nat) == fact_nat(n));
    } else if r == n {
        lemma_ncr_all(n);
        assert(fact_nat((n - r) as nat) == 1);
        assert(ncr_nat(n, r) * fact_nat(r) * fact_nat((n - r) as nat) == fact_nat(n));
    } else {
        let n1 = (n - 1) as nat;
        let r1 = (r - 1) as nat;
        lemma_pascal_factorial(n1, r1);
        lemma_pascal_factorial(n1, r);
        let a = ncr_nat(n1, r1);
        let b = ncr_nat(n1, r);
        let fr = fact_nat(r);
        let fr1 = fact_nat(r1);
        let fnr = fact_nat((n - r) as nat);
        let fnr1 = fact_nat((n1 - r) as nat);
        let fm = fact_nat(n1);
        assert(ncr_nat(n, r) == a + b);
        assert(fr == r * fr1);
        assert(fnr == (n - r) * fnr1);
        assert(a * fr1 * fnr == fm);
        assert(b * fr * fnr1 == fm);
        assert(a * fr * fnr == r * fm) by (nonlinear_arith)
            requires
                fr == r * fr1,
                a * fr1 * fnr == fm,
        ;
        assert(b * fr * fnr == (n - r) * fm) by (nonlinear_arith)
            requires
                fnr == (n - r) * fnr1,
                b * fr * fnr1 == fm,
        ;
        assert((a + b) * fr * fnr == n * fm) by (nonlinear_arith)
            requires
                a * fr * fnr == r * fm,
                b * fr * fnr == (n - r) * fm,
                r <= n,
        ;
        assert(fact_nat(n) == n * fm);
        assert(ncr_nat(n, r) * fact_nat(r) * fact_nat((n - r) as nat) == fact_nat(n));
    }
}

/// The falling product matched against factorials:
/// `nPr(n, r) * (n - r)! == n!`.
proof fn lemma_npr_factorial(n: nat, r: nat)
    requires
        r <= n,
    ensures
        npr_nat(n, r) * fact_nat((n - r) as nat) == fact_nat(n),
    decreases r,
{
    if r > 0 {
        let n1 = (n - 1) as nat;
        let r1 = (r - 1) as nat;
        lemma_npr_factorial(n1, r1);
        assert(npr_nat(n, r) == n * npr_nat(n1, r1));
        assert(n * npr_nat(n1, r1) * fact_nat((n - r) as nat) == n * fact_nat(n1))
            by (nonlinear_arith)
            requires
                npr_nat(n1, r1) * fact_nat((n1 - r1) as nat) == fact_nat(n1),
                (n1 - r1) as nat == (n - r) as nat,
        ;
        assert(fact_nat(n) == n * fact_nat(n1));
        assert(npr_nat(n, r) * fact_nat((n - r) as nat) == fact_nat(n));
    } else {
        assert(npr_nat(n, 0) == 1);
        assert(npr_nat(n, r) * fact_nat((n - r) as nat) == fact_nat(n));
    }
}

/// Equal products with a positive common factor have equal cofactors.
proof fn lemma_mul_cancel(a: nat, b: nat, c: nat)
    requires
        c >= 1,
        a * c == b * c,
    ensures
        a == b,
{
    assert(a == b) by (nonlinear_arith)
        requires
            c >= 1,
            a * c == b * c,
    ;
}

/// The incremental step of the combination loop:
/// `(i + 1) * C(n, i + 1) == (n - i) * C(n, i)`.
proof fn lemma_ncr_step(n: nat, i: nat)
    requires
        i < n,
    ensures
        (i + 1) * ncr_nat(n, (i + 1) as nat) == (n - i) * ncr_nat(n, i),
{
    lemma_pascal_factorial(n, i);
    lemma_pascal_factorial(n, (i + 1) as nat);
    let a = ncr_nat(n, i);
    let b = ncr_nat(n, (i + 1) as nat);
    let fi = fact_nat(i);
    let fi1 = fact_nat((i + 1) as nat);
    let fni = fact_nat((n - i) as nat);
    let fni1 = fact_nat((n - i - 1) as nat);
    assert(fi1 == (i + 1) * fi);
    assert(fni == (n - i) * fni1);
    lemma_fact_pos(i);
    lemma_fact_pos((n - i - 1) as nat);
    assert(((i + 1) * b) * (fi * fni1) == ((n - i) * a) * (fi * fni1)) by (nonlinear_arith)
        requires
            a * fi * fni == fact_nat(n),
            b * fi1 * fni1 == fact_nat(n),
            fi1 == (i + 1) * fi,
            fni == (n - i) * fni1,
    ;
    assert(fi * fni1 >= 1) by (nonlinear_arith)
        requires
            fi >= 1,
            fni1 >= 1,
    ;
    lemma_mul_cancel(((i + 1) * b) as nat, ((n - i) * a) as nat, (fi * fni1) as nat);
}

/// Extending the falling product by one factor:
/// `nPr(n, i + 1) == nPr(n, i) * (n - i)`.
proof fn lemma_npr_extend(n: nat, i: nat)
    requires
        i < n,
    ensures
        npr_nat(n, (i + 1) as nat) == npr_nat(n, i) * ((n - i) as nat),
    decreases i,
{
    if i == 0 {
        assert(npr_nat(n, 0) == 1);
        assert(npr_nat((n - 1) as nat, 0) == 1);
        assert(npr_nat(n, 1) == n * npr_nat((n - 1) as nat, 0));
        assert(npr_nat(n, (i + 1) as nat) == npr_nat(n, i) * ((n - i) as nat));
    } else {
        let n1 = (n - 1) as nat;
        let i1 = (i - 1) as nat;
        lemma_npr_extend(n1, i1);
        assert((i1 + 1) as nat == i);
        assert((n1 - i1) as nat == (n - i) as nat);
        assert(npr_nat(n1, i) == npr_nat(n1, i1) * ((n - i) as nat));
        assert(npr_nat(n, (i + 1) as nat) == n * npr_nat(n1, i));
        assert(npr_nat(n, i) == n * npr_nat(n1, i1));
        assert(n * (npr_nat(n1, i1) * ((n - i) as nat)) == (n * npr_nat(n1, i1)) * ((n
            - i) as nat)) by (nonlinear_arith);
        assert(npr_nat(n, (i + 1) as nat) == npr_nat(n, i) * ((n - i) as nat));
    }
}

/// Exact permutation count `nPr(n, r)` as a decimal string.
///
/// Arguments follow the calculator's validation: `r` may not exceed `n`,
/// and `n` may not exceed 170, the safe bound shared with the
/// floating-point path.
pub fn npr_exact(n: u64, r: u64) -> (res: Result<String, EvalError>)
    ensures
        r <= n <= 170 ==> (res matches Ok(s) && s@ == dec_digits(npr_nat(n as nat, r as nat))),
        r > n ==> res == Err::<String, EvalError>(EvalError::InvalidCombArgs(CombKind::Perm)),
        r <= n && n > 170 ==> res == Err::<String, EvalError>(EvalError::NTooLarge),
{
    if r > n {
        return Err(EvalError::InvalidCombArgs(CombKind::Perm));
    }
    if n > 170 {
        return Err(EvalError::NTooLarge);
    }
    let mut acc = big_one();
    let mut i: u64 = 0;
    while i < r
        invariant
            i <= r <= n <= 170,
            big_value(acc) == npr_nat(n as nat, i as nat),
        decreases r - i,
    {
        proof {
            lemma_npr_extend(n as nat, i as nat);
        }
        big_mul_u64(&mut acc, n - i);
        i = i + 1;
    }
    Ok(big_to_decimal(&acc))
}

/// Exact combination count `nCr(n, r)` as a decimal string.
///
/// Computed over the smaller of `r` and `n - r`, multiplying by `n - i`
/// and dividing by `i + 1` at each step; every intermediate value is a
/// combination count, so each division is exact.
pub fn ncr_exact(n: u64, r: u64) -> (res: Result<String, EvalError>)
    ensures
        r <= n <= 170 ==> (res matches Ok(s) && s@ == dec_digits(ncr_nat(n as nat, r as nat))),
        r > n ==> res == Err::<String, EvalError>(EvalError::InvalidCombArgs(CombKind::Comb)),
        r <= n && n > 170 ==> res == Err::<String, EvalError>(EvalError::NTooLarge),
{
    if r > n {
        return Err(EvalError::InvalidCombArgs(CombKind::Comb));
    }
    if n > 170 {
        return Err(EvalError::NTooLarge);
    }
    let r_use = if r > n - r {
        n - r
    } else {
        r
    };
    let mut acc = big_one();
    let mut i: u64 = 0;
    while i < r_use
        invariant
            i <= r_use <= n <= 170,
            big_value(acc) == ncr_nat(n as nat, i as nat),
        decreases r_use - i,
    {
        proof {
            lemma_ncr_step(n as nat, i as nat);
        }
        let ghost prev = big_value(acc);
        big_mul_u64(&mut acc, n - i);
        let ghost mid = big_value(acc);
        big_div_u64(&mut acc, i + 1);
        proof {
            let c = ncr_nat(n as nat, (i + 1) as nat);
            assert(mid == (i + 1) * c) by (nonlinear_arith)
                requires
                    mid == prev * ((n - i) as nat),
                    (i + 1) * c == ((n - i) as nat) * prev,
            ;
            vstd::arithmetic::div_mod::lemma_div_multiples_vanish(c as int, (i + 1) as int);
            assert(big_value(acc) == mid / ((i + 1) as nat));
            assert(mid as int / ((i + 1) as int) == c as int);
            assert(big_value(acc) == c);
        }
        i = i + 1;
    }
    proof {
        if r_use < r {
            lemma_ncr_symmetric(n as nat, r as nat);
        }
    }
    Ok(big_to_decimal(&acc))
}

/// The exact factorial for arguments beyond the floating-point range,
/// rendered as a digit-grouped decimal string; arguments above 100000
/// are refused with the calculator's fixed message.
pub fn big_factorial(n: u64) -> (r: String)
    ensures
        n <= 100000 ==> r@ == spec_group_plain(dec_digits(fact_nat(n as nat))),
        n > 100000 ==> r@ == "Error: Too large (max 100000)"@,
{
    if n > 100000 {
        return String::from_str("Error: Too large (max 100000)");
    }
    let mut acc = big_one();
    proof {
        assert(fact_nat(1) == 1 * fact_nat(0));
    }
    let mut i: u64 = 2;
    while i <= n
        invariant
            2 <= i,
            n <= 100000,
            i <= n + 1 || i == 2,
            big_value(acc) == fact_nat((i - 1) as nat),
        decreases n + 1 - i,
    {
        let ghost before = big_value(acc);
        big_mul_u64(&mut acc, i);
        proof {
            assert(fact_nat(i as nat) == i * fact_nat((i - 1) as nat));
            assert(big_value(acc) == fact_nat(i as nat)) by (nonlinear_arith)
                requires
                    big_value(acc) == before * i,
                    before == fact_nat((i - 1) as nat),
                    fact_nat(i as nat) == i * fact_nat((i - 1) as nat),
            ;
        }
        i = i + 1;
    }
    proof {
        if n < 2 {
            assert(fact_nat(1) == 1 * fact_nat(0));
        }
    }
    let digits = big_to_decimal(&acc);
    format_with_separators(digits.as_str())
}

} // verus!
