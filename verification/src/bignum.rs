//! Arbitrary-precision identifiers.
//!
//! Node identifiers are `num::BigUint` values.  The verifier cannot look inside
//! such a value, so this module names the natural number it stands for and
//! states, for each operation the codec performs on identifiers, how that
//! number changes.  None of the statements about `BigUint` operations in this
//! module is proved: they restate the documented behaviour of the `num` crate.

use num::BigUint;
use num::ToPrimitive;
use vstd::arithmetic::div_mod::lemma_mod_breakdown;
use vstd::arithmetic::power2::*;
use vstd::prelude::*;

verus! {

/// `num::BigUint`, known to the verifier as a type without visible parts.
#[verifier::external_type_specification]
#[verifier::external_body]
pub struct ExBigUint(BigUint);

/// The natural number a `BigUint` stands for.
pub uninterp spec fn biguint_value(n: BigUint) -> nat;

/// Number of binary digits of `v`, not counting leading zeros; `0` for `v == 0`.
pub open spec fn bit_length(v: nat) -> nat
    decreases v,
{
    if v == 0 {
        0
    } else {
        1 + bit_length(v / 2)
    }
}

/// Bitwise conjunction of two natural numbers.
pub open spec fn nat_and(a: nat, b: nat) -> nat
    decreases a,
{
    if a == 0 {
        0
    } else {
        let low: nat = if a % 2 == 1 && b % 2 == 1 {
            1
        } else {
            0
        };
        low + 2 * nat_and(a / 2, b / 2)
    }
}

/// `BigUint::bits`: the fewest bits necessary to express the number.
pub assume_specification[ BigUint::bits ](n: &BigUint) -> (r: u64)
    ensures
        r as nat == bit_length(biguint_value(*n)),
;

/// `Clone::clone` for `BigUint`: the copy stands for the same number.
pub assume_specification[ <BigUint as Clone>::clone ](n: &BigUint) -> (r: BigUint)
    ensures
        biguint_value(r) == biguint_value(*n),
;

/// `BigUint::from(u8)`: the number `b` as a `BigUint`.
#[verifier::external_body]
pub(crate) fn biguint_from_u8(b: u8) -> (r: BigUint)
    ensures
        biguint_value(r) == b as nat,
{
    BigUint::from(b)
}

/// `ToPrimitive::to_u8` for `BigUint`: the number as a byte when it is below
/// 256, nothing otherwise.
#[verifier::external_body]
pub(crate) fn biguint_to_u8(n: &BigUint) -> (r: Option<u8>)
    ensures
        match r {
            Some(b) => biguint_value(*n) == b as nat,
            None => biguint_value(*n) > 255,
        },
{
    n.to_u8()
}

/// `&a & &b` on `BigUint`: the bitwise conjunction of both numbers.
#[verifier::external_body]
pub(crate) fn biguint_and(a: &BigUint, b: &BigUint) -> (r: BigUint)
    ensures
        biguint_value(r) == nat_and(biguint_value(*a), biguint_value(*b)),
{
    a & b
}

/// `&a >> n` on `BigUint`: the number divided by `2^n`, rounded down.
#[verifier::external_body]
pub(crate) fn biguint_shr(a: &BigUint, n: u32) -> (r: BigUint)
    ensures
        biguint_value(r) == biguint_value(*a) / pow2(n as nat),
{
    a >> n
}

/// `&a << n` on `BigUint`: the number multiplied by `2^n`.  The shift is kept
/// below one machine word, so the result has at most one digit more than `a`.
#[verifier::external_body]
pub(crate) fn biguint_shl(a: &BigUint, n: u32) -> (r: BigUint)
    requires
        n < 64,
    ensures
        biguint_value(r) == biguint_value(*a) * pow2(n as nat),
{
    a << n
}

/// `&a + &b` on `BigUint`: the sum of both numbers.
#[verifier::external_body]
pub(crate) fn biguint_add(a: &BigUint, b: &BigUint) -> (r: BigUint)
    ensures
        biguint_value(r) == biguint_value(*a) + biguint_value(*b),
{
    a + b
}

/// Conjunction with zero is zero.
proof fn lemma_nat_and_zero(a: nat)
    ensures
        nat_and(a, 0) == 0,
    decreases a,
{
    if a != 0 {
        lemma_nat_and_zero(a / 2);
    }
}

/// Conjunction with `2^k - 1` keeps the lowest `k` binary digits.
proof fn lemma_nat_and_ones(a: nat, k: nat)
    ensures
        nat_and(a, (pow2(k) - 1) as nat) == a % pow2(k),
    decreases k,
{
    lemma_pow2_pos(k);
    if k == 0 {
        lemma2_to64();
        lemma_nat_and_zero(a);
    } else {
        let half = pow2((k - 1) as nat);
        lemma_pow2_pos((k - 1) as nat);
        lemma_pow2_unfold(k);
        let m = (half - 1) as nat;
        assert(pow2(k) - 1 == 2 * m + 1);
        assert((2 * m + 1) % 2 == 1);
        assert((2 * m + 1) / 2 == m);
        lemma_nat_and_ones(a / 2, (k - 1) as nat);
        lemma_mod_breakdown(a as int, 2, half as int);
        if a != 0 {
            assert(nat_and(a, (2 * m + 1) as nat) == a % 2 + 2 * nat_and(a / 2, m));
        }
    }
}

/// Conjunction with `0xFF` keeps the lowest eight binary digits.
pub proof fn lemma_nat_and_low_byte(a: nat)
    ensures
        nat_and(a, 255) == a % 256,
{
    lemma2_to64();
    lemma_nat_and_ones(a, 8);
}

/// A number has at most `k` binary digits exactly when it is below `2^k`.
pub proof fn lemma_bit_length_bound(v: nat, k: nat)
    ensures
        bit_length(v) <= k <==> v < pow2(k),
    decreases k,
{
    lemma_pow2_pos(k);
    if k == 0 {
        lemma2_to64();
    } else {
        lemma_pow2_unfold(k);
        if v != 0 {
            lemma_bit_length_bound(v / 2, (k - 1) as nat);
        }
    }
}

} // verus!
