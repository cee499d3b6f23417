//! Small integer arithmetic.

use vstd::arithmetic::div_mod::lemma_fundamental_div_mod;
use vstd::prelude::*;

verus! {

/// The smaller of two numbers.
pub open spec fn least(a: int, b: int) -> int {
    if a < b {
        a
    } else {
        b
    }
}

/// The larger of two numbers.
pub open spec fn greatest(a: int, b: int) -> int {
    if a > b {
        a
    } else {
        b
    }
}

/// `a / b`, rounded up.
pub open spec fn quotient_up(a: int, b: int) -> int {
    (a + b - 1) / b
}

/// The sum of `values`.
pub open spec fn total(values: Seq<int>) -> int {
    values.fold_left(0, |sum: int, value: int| sum + value)
}

/// Nothing sums to zero, and one more value adds itself to the sum.
pub proof fn lemma_total_grows(values: Seq<int>, value: int)
    ensures
        total(Seq::empty()) == 0,
        total(values.push(value)) == total(values) + value,
{
    assert(values.push(value).drop_last() =~= values);
}

/// `a / b`, rounded up.
pub fn div_ceil(a: usize, b: usize) -> (quotient: usize)
    requires
        b > 0,
    ensures
        quotient == quotient_up(a as int, b as int),
        (quotient - 1) * b < a <= quotient * b,
{
    proof {
        lemma_quotient_up(a as int, b as int);
        lemma_fundamental_div_mod(a as int, b as int);
        assert(a / b <= a) by (nonlinear_arith)
            requires
                b > 0,
        ;
        assert(a % b != 0 ==> a / b < a) by (nonlinear_arith)
            requires
                b > 0,
                a == b * (a / b) + a % b,
        ;
    }
    let whole: usize = a / b;
    if a % b == 0 {
        whole
    } else {
        whole + 1
    }
}

/// What rounding up means.
pub proof fn lemma_quotient_up(a: int, b: int)
    requires
        0 <= a,
        0 < b,
    ensures
        quotient_up(a, b) >= 0,
        (quotient_up(a, b) - 1) * b < a <= quotient_up(a, b) * b,
        quotient_up(a, b) == if a % b == 0 {
            a / b
        } else {
            a / b + 1
        },
{
    let count = quotient_up(a, b);
    lemma_fundamental_div_mod(a + b - 1, b);
    lemma_fundamental_div_mod(a, b);
    let r = (a + b - 1) % b;
    assert(a + b - 1 == b * count + r);
    assert((count - 1) * b == b * count - b && count * b == b * count) by (nonlinear_arith);
    assert(count >= 0) by (nonlinear_arith)
        requires
            a + b - 1 == b * count + r,
            0 <= r < b,
            a >= 0,
    ;
    let q = a / b;
    let m = a % b;
    if m == 0 {
        assert(q == count) by (nonlinear_arith)
            requires
                a == b * q,
                (count - 1) * b < a <= count * b,
                b > 0,
        ;
    } else {
        assert(q + 1 == count) by (nonlinear_arith)
            requires
                a == b * q + m,
                0 < m < b,
                (count - 1) * b < a <= count * b,
                b > 0,
        ;
    }
}

/// The smaller of two numbers is one of them and above neither; the larger is one of them
/// and below neither.
pub proof fn law_least_and_greatest(a: int, b: int)
    ensures
        least(a, b) <= a,
        least(a, b) <= b,
        greatest(a, b) >= a,
        greatest(a, b) >= b,
        least(a, b) == a || least(a, b) == b,
        greatest(a, b) == a || greatest(a, b) == b,
{
}

} // verus!
