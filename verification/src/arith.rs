//! Integer division as Rust computes it on `i128`, over mathematical
//! integers, and the facts about it that the vault's rounding relies on.
use vstd::prelude::*;

verus! {

/// Whether an integer fits in `i128`.
pub open spec fn fits_i128(x: int) -> bool {
    i128::MIN <= x <= i128::MAX
}

/// The absolute value of an integer.
pub open spec fn abs(x: int) -> int {
    if x < 0 { -x } else { x }
}

/// The quotient of Rust's integer division, which rounds toward zero.
pub open spec fn trunc_div(a: int, b: int) -> int {
    let q = abs(a) / abs(b);
    if (a < 0) != (b < 0) { -q } else { q }
}

/// Whether the division of `a` by `b` leaves no remainder.
pub open spec fn divides_exactly(a: int, b: int) -> bool {
    abs(a) % abs(b) == 0
}

/// The quotient toward zero, plus one when the division leaves a remainder.
pub open spec fn div_round_up(a: int, b: int) -> int {
    trunc_div(a, b) + if divides_exactly(a, b) { 0int } else { 1int }
}

/// Whether `a / b` cannot be computed in `i128`: a division by zero, or
/// the one quotient that overflows.
pub open spec fn division_fails(a: int, b: int) -> bool {
    b == 0 || (a == i128::MIN && b == -1)
}

/// Bounds of the quotient toward zero: it is never larger than the
/// dividend, and at most half of it when the divisor is not a unit.
pub proof fn lemma_trunc_div_bounds(a: int, b: int)
    requires
        b != 0,
    ensures
        abs(trunc_div(a, b)) <= abs(a),
        abs(b) >= 2 ==> 2 * abs(trunc_div(a, b)) <= abs(a),
        abs(b) == 1 ==> divides_exactly(a, b) && abs(trunc_div(a, b)) == abs(a),
        b == -1 ==> trunc_div(a, b) == -a,
        b == 1 ==> trunc_div(a, b) == a,
{
    let x = abs(a);
    let d = abs(b);
    let q = x / d;
    vstd::arithmetic::div_mod::lemma_fundamental_div_mod(x, d);
    vstd::arithmetic::div_mod::lemma_mod_bound(x, d);
    assert(0 <= q <= x) by (nonlinear_arith)
        requires x == d * q + x % d, 0 <= x % d < d, d >= 1, x >= 0;
    if d >= 2 {
        assert(2 * q <= x) by (nonlinear_arith)
            requires x == d * q + x % d, 0 <= x % d < d, d >= 2, x >= 0, q >= 0;
    }
    if d == 1 {
        assert(x % d == 0 && q == x) by (nonlinear_arith)
            requires x == d * q + x % d, 0 <= x % d < d, d == 1;
    }
}

/// The rounded-up quotient of a dividend that fits in `i128` fits too,
/// unless the division itself fails.
pub proof fn lemma_div_round_up_fits(a: int, b: int)
    requires
        fits_i128(a),
        !division_fails(a, b),
    ensures
        fits_i128(div_round_up(a, b)),
{
    lemma_trunc_div_bounds(a, b);
}

/// For a nonnegative dividend and a positive divisor, the quotient plus
/// one on a remainder is the least multiple count that reaches the dividend.
pub proof fn lemma_round_up_is_ceiling(a: int, b: int)
    requires
        a >= 0,
        b > 0,
    ensures
        b * (div_round_up(a, b) - 1) < a <= b * div_round_up(a, b),
{
    let q = a / b;
    vstd::arithmetic::div_mod::lemma_fundamental_div_mod(a, b);
    vstd::arithmetic::div_mod::lemma_mod_bound(a, b);
    if a % b == 0 {
        assert(b * (q - 1) < a <= b * q) by (nonlinear_arith)
            requires a == b * q + a % b, a % b == 0, b > 0;
    } else {
        assert(b * q < a <= b * (q + 1)) by (nonlinear_arith)
            requires a == b * q + a % b, 0 < a % b < b, b > 0;
    }
}

} // verus!
