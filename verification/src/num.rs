//! Numbers, for statements.

use vstd::prelude::*;

verus! {

/// The absolute value of `n`.
pub open spec fn magnitude(n: int) -> int {
    if n < 0 {
        -n
    } else {
        n
    }
}

/// `a`, or `b` if that is more.
pub open spec fn at_least(a: int, b: int) -> int {
    if a < b {
        b
    } else {
        a
    }
}

/// A magnitude is never negative and is the number or its opposite; `at_least` is the greater of two
/// numbers.
pub proof fn law_magnitude_and_at_least(a: int, b: int)
    ensures
        magnitude(a) >= 0,
        magnitude(a) == a || magnitude(a) == -a,
        at_least(a, b) >= a && at_least(a, b) >= b,
        at_least(a, b) == a || at_least(a, b) == b,
{
}

}
