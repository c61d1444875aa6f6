//! Whole numbers of 64 bits.
use vstd::prelude::*;

verus! {

/// A number as it is held in 64 bits with a sign: past either end of the range
/// it comes round at the other.
pub open spec fn wrapped(n: int) -> int {
    if n > i64::MAX {
        n - 0x1_0000_0000_0000_0000
    } else if n < i64::MIN {
        n + 0x1_0000_0000_0000_0000
    } else {
        n
    }
}

/// A sum, coming round at the ends of the range.
pub fn sum(a: i64, b: i64) -> (r: i64)
    ensures
        r == wrapped(a + b),
{
    a.wrapping_add(b)
}

/// A difference, coming round at the ends of the range.
pub fn difference(a: i64, b: i64) -> (r: i64)
    ensures
        r == wrapped(a - b),
{
    a.wrapping_sub(b)
}

/// How far a number is from zero. The least number has no opposite in 64 bits
/// and stands for itself.
pub open spec fn distance(n: i64) -> int {
    if n < 0 {
        wrapped(-n)
    } else {
        n as int
    }
}

/// How far a number is from zero.
pub fn magnitude(n: i64) -> (r: i64)
    ensures
        r == distance(n),
{
    if n < 0 {
        (0i64).wrapping_sub(n)
    } else {
        n
    }
}

/// A quotient, rounded toward zero.
pub open spec fn quotient(n: int, by: int) -> int {
    if n < 0 {
        -((-n) / by)
    } else {
        n / by
    }
}

/// A quotient, rounded toward zero.
pub fn divided(n: i64, by: u32) -> (r: i64)
    requires
        by > 0,
    ensures
        r == quotient(n as int, by as int),
{
    let by: u64 = by as u64;
    if n < 0 {
        let n: u64 = (0i128 - n as i128) as u64;
        let q: u64 = n / by;
        proof {
            assert(q <= n) by (nonlinear_arith)
                requires
                    q == n / by,
                    by > 0,
            ;
        }
        (0i128 - q as i128) as i64
    } else {
        let n: u64 = n as u64;
        let q: u64 = n / by;
        proof {
            assert(q <= n) by (nonlinear_arith)
                requires
                    q == n / by,
                    by > 0,
            ;
        }
        q as i64
    }
}

/// Numbers that fit stay as they are; the distance from zero is that of the
/// number and of its opposite, and is never below zero but for the one number
/// that has no opposite.
pub proof fn law_numbers_that_fit_stay(n: i64, by: int)
    requires
        by > 0,
    ensures
        wrapped(n as int) == n,
        n >= 0 ==> distance(n) == n,
        n < 0 && n > i64::MIN ==> distance(n) == -n,
        n >= 0 ==> quotient(n as int, by) * by <= n < quotient(n as int, by) * by + by,
        n < 0 ==> quotient(n as int, by) * by - by < n <= quotient(n as int, by) * by,
{
    if n >= 0 {
        let q = (n as int) / by;
        assert(q * by <= n < q * by + by) by (nonlinear_arith)
            requires
                q == (n as int) / by,
                by > 0,
        ;
    } else {
        let m = -n;
        let q = m / by;
        assert(q * by <= m < q * by + by) by (nonlinear_arith)
            requires
                q == m / by,
                by > 0,
        ;
        assert((-q) * by == -(q * by)) by (nonlinear_arith);
    }
}

/// What comes round at the ends of the range differs from the number by a whole
/// turn, and fits.
pub proof fn law_turns_are_whole(n: int)
    requires
        2 * i64::MIN <= n <= 2 * i64::MAX + 1,
    ensures
        i64::MIN <= wrapped(n) <= i64::MAX,
        wrapped(n) == n || wrapped(n) == n - 0x1_0000_0000_0000_0000 || wrapped(n) == n
            + 0x1_0000_0000_0000_0000,
{
}

} // verus!
