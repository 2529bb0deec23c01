//! Trits, their product, and the sign projection from the integers back to trits.

use vstd::prelude::*;

verus! {

/// A value is a trit when it is -1, 0 or +1.
pub open spec fn is_trit(v: int) -> bool {
    -1 <= v <= 1
}

/// The sign of an integer: -1 below zero, 0 at zero, +1 above zero.
pub open spec fn sign(v: int) -> int {
    if v < 0 {
        -1
    } else if v == 0 {
        0
    } else {
        1
    }
}

/// The sign is -1 on every negative integer, 0 at zero and +1 on every positive
/// integer, whatever its size.
pub proof fn lemma_sign_by_cases(v: int)
    ensures
        v < 0 ==> sign(v) == -1,
        v == 0 ==> sign(v) == 0,
        v > 0 ==> sign(v) == 1,
        is_trit(sign(v)),
        v * sign(v) >= 0,
{
    assert(v * sign(v) >= 0) by (nonlinear_arith)
        requires
            v < 0 ==> sign(v) == -1,
            v == 0 ==> sign(v) == 0,
            v > 0 ==> sign(v) == 1,
    ;
}

/// Multiplication of two trits, written as an explicit table of the nine cases.
pub fn trit_mul(a: i8, b: i8) -> (r: i8)
    requires
        is_trit(a as int),
        is_trit(b as int),
    ensures
        r == a * b,
        is_trit(r as int),
{
    match (a, b) {
        (-1, -1) => 1,
        (-1, 0) => 0,
        (-1, 1) => -1,
        (0, -1) => 0,
        (0, 0) => 0,
        (0, 1) => 0,
        (1, -1) => -1,
        (1, 0) => 0,
        (1, 1) => 1,
        _ => 0,
    }
}

} // verus!
