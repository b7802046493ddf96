use vstd::prelude::*;

use crate::render::dec_digits;
use num_bigint::BigUint;

verus! {

#[verifier::external_type_specification]
#[verifier::external_body]
pub struct ExBigUint(BigUint);

/// The natural number that a `BigUint` holds.
pub uninterp spec fn big_value(b: BigUint) -> nat;

/// Relies on `num_traits::One` for `BigUint`: `one()` is the
/// multiplicative unit, the value one.
#[verifier::external_body]
pub fn big_one() -> (r: BigUint)
    ensures
        big_value(r) == 1,
{
    num_traits::One::one()
}

/// Relies on `MulAssign<u64>` for `BigUint`: the held value is multiplied
/// in place by the machine integer.
#[verifier::external_body]
pub fn big_mul_u64(a: &mut BigUint, m: u64)
    ensures
        big_value(*final(a)) == big_value(*old(a)) * m,
{
    *a *= m;
}

/// Relies on `DivAssign<u64>` for `BigUint`: the held value becomes the
/// truncating (floor) quotient by the machine integer.
#[verifier::external_body]
pub fn big_div_u64(a: &mut BigUint, d: u64)
    requires
        d > 0,
    ensures
        big_value(*final(a)) == big_value(*old(a)) / (d as nat),
{
    *a /= d;
}

/// Relies on `BigUint::to_str_radix` with radix ten: the decimal digit
/// string of the held value, most significant digit first, without
/// leading zeros, and `"0"` for zero.
#[verifier::external_body]
pub fn big_to_decimal(a: &BigUint) -> (r: String)
    ensures
        r@ == dec_digits(big_value(*a)),
{
    a.to_str_radix(10)
}

} // verus!
