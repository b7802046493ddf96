use vstd::prelude::*;

use crate::text::chars_to_string;

verus! {

/// The five rendering policies of the numeric formatter: a pure display
/// choice, orthogonal to evaluation.
#[derive(Clone, Copy, Debug, PartialEq, Eq, Structural)]
pub enum DisplayFormat {
    Regular,
    Fixed,
    Scientific,
    Engineering,
    GroupedTriads,
}

/// The character for a single decimal digit value.
pub open spec fn digit_char(d: int) -> char {
    ((48 + d) as u8) as char
}

/// The decimal digit string of a natural number: no leading zeros, most
/// significant digit first, and `"0"` for zero.
pub open spec fn dec_digits(n: nat) -> Seq<char>
    decreases n,
{
    if n < 10 {
        seq![digit_char(n as int)]
    } else {
        dec_digits(n / 10) + seq![digit_char((n % 10) as int)]
    }
}

/// The decimal string of an integer: a minus sign for negative values,
/// then the digits of the absolute value.
pub open spec fn spec_int_string(n: int) -> Seq<char> {
    if n < 0 {
        seq!['-'] + dec_digits((-n) as nat)
    } else {
        dec_digits(n as nat)
    }
}

/// Executable digit-to-character conversion.
fn digit_char_exec(d: u64) -> (c: char)
    requires
        d < 10,
    ensures
        c == digit_char(d as int),
{
    (48 + d as u8) as char
}

/// Appends the decimal digits of `n` to `out`, most significant first.
pub fn push_u64_digits(n: u64, out: &mut Vec<char>)
    ensures
        final(out)@ == old(out)@ + dec_digits(n as nat),
    decreases n,
{
    if n < 10 {
        let c = digit_char_exec(n);
        out.push(c);
    } else {
        push_u64_digits(n / 10, out);
        let c = digit_char_exec(n % 10);
        out.push(c);
        proof {
            assert(out@ =~= old(out)@ + dec_digits(n as nat));
        }
    }
}

/// Renders an unsigned value in decimal.
pub fn u64_to_string(n: u64) -> (r: String)
    ensures
        r@ == dec_digits(n as nat),
{
    let mut out: Vec<char> = Vec::new();
    push_u64_digits(n, &mut out);
    proof {
        assert(out@ =~= dec_digits(n as nat));
    }
    chars_to_string(&out)
}

/// Renders a signed value in decimal, as the exponent field of scientific
/// and engineering notation needs.
pub fn int_to_string(n: i32) -> (r: String)
    ensures
        r@ == spec_int_string(n as int),
{
    let mut out: Vec<char> = Vec::new();
    if n < 0 {
        out.push('-');
        let m = (-(n as i64)) as u64;
        push_u64_digits(m, &mut out);
        proof {
            assert(out@ =~= seq!['-'] + dec_digits(m as nat));
        }
    } else {
        push_u64_digits(n as u64, &mut out);
        proof {
            assert(out@ =~= dec_digits(n as nat));
        }
    }
    chars_to_string(&out)
}

/// The engineering exponent for a base-ten exponent `e`: the nearest
/// multiple of three at or below `e`.
pub open spec fn spec_eng_exponent(e: int) -> int {
    3 * (e / 3)
}

/// Law: the engineering exponent is always a multiple of three, and lies
/// within two of the plain base-ten exponent, on its lower side.
pub proof fn lemma_eng_exponent_multiple_of_three(e: int)
    ensures
        spec_eng_exponent(e) % 3 == 0,
        spec_eng_exponent(e) <= e < spec_eng_exponent(e) + 3,
{
    vstd::arithmetic::div_mod::lemma_fundamental_div_mod(e, 3);
    vstd::arithmetic::div_mod::lemma_mod_bound(e, 3);
    assert((3 * (e / 3)) % 3 == 0) by (nonlinear_arith);
}

/// Rounds a base-ten exponent down to the nearest multiple of three.
pub fn eng_exponent(e: i32) -> (r: i32)
    requires
        e >= i32::MIN + 2,
    ensures
        r == spec_eng_exponent(e as int),
{
    proof {
        vstd::arithmetic::div_mod::lemma_fundamental_div_mod(e as int, 3);
        vstd::arithmetic::div_mod::lemma_mod_bound(e as int, 3);
    }
    if e >= 0 {
        let q = (e as u32) / 3;
        proof {
            assert(e as int == 3 * ((e as int) / 3) + (e as int) % 3);
            assert(q == (e as int) / 3);
        }
        (q * 3) as i32
    } else {
        let a = (-(e as i64)) as u64;
        let p = (a + 2) / 3;
        proof {
            let ei = e as int;
            let ai = a as int;
            assert(ai == -ei);
            assert(ai + 2 == 3 * ((ai + 2) / 3) + (ai + 2) % 3);
            assert(ei / 3 == -((ai + 2) / 3)) by {
                let q = (ai + 2) / 3;
                let s = (ai + 2) % 3;
                assert(ei == 3 * (-q) + (2 - s));
                vstd::arithmetic::div_mod::lemma_fundamental_div_mod_converse(
                    ei,
                    3,
                    -q,
                    2 - s,
                );
            }
        }
        (-((p * 3) as i64)) as i32
    }
}

/// The engineering rendering: optional sign, trimmed mantissa, `e`, and
/// the decimal exponent.
pub open spec fn spec_engineering(neg: bool, mantissa: Seq<char>, e: int) -> Seq<char> {
    (if neg {
        seq!['-']
    } else {
        Seq::<char>::empty()
    }) + mantissa + seq!['e'] + spec_int_string(e)
}

/// Assembles the engineering-notation string from its rendered parts.
pub fn engineering_string(negative: bool, mantissa: &str, e: i32) -> (r: String)
    ensures
        r@ == spec_engineering(negative, mantissa@, e as int),
{
    let mut out = if negative {
        String::from_str("-")
    } else {
        String::new()
    };
    out.append(mantissa);
    out.append("e");
    let exp = int_to_string(e);
    out.append(exp.as_str());
    proof {
        reveal_strlit("-");
        reveal_strlit("e");
        assert(out@ =~= spec_engineering(negative, mantissa@, e as int));
    }
    out
}

} // verus!
