//! Exact means: a total and the number of values that it was taken over.

use vstd::prelude::*;

verus! {

/// An exact mean: the quotient `total / count` kept as its two terms.
#[derive(Clone, Copy, Debug, PartialEq, Eq, Structural)]
pub struct Mean {
    pub total: u128,
    pub count: u128,
}

/// `total / count` rounded to the nearest integer, a tie going up; 0 when `count` is 0.
pub open spec fn round_half_up(total: int, count: int) -> int {
    if count <= 0 {
        0
    } else {
        (2 * total + count) / (2 * count)
    }
}

impl Mean {
    /// The mean of a single value: `value / 1`.
    pub fn whole(value: u32) -> (m: Mean)
        ensures
            m.total == value,
            m.count == 1,
    {
        Mean { total: value as u128, count: 1 }
    }

    /// The value of this mean rounded to a whole number.
    pub open spec fn rounded_spec(self) -> int {
        round_half_up(self.total as int, self.count as int)
    }

    /// The value of this mean as a whole number of laps: rounded, and `u32::MAX` where
    /// the rounded value lies above it.
    pub open spec fn rounded_laps(self) -> int {
        if self.rounded_spec() > u32::MAX as int {
            u32::MAX as int
        } else {
            self.rounded_spec()
        }
    }

    /// Rounds to the nearest whole number, a tie going up, and stops at `u32::MAX`.
    /// A mean over nothing rounds to 0.
    pub fn rounded(&self) -> (r: u32)
        ensures
            r == self.rounded_laps(),
    {
        if self.count == 0 {
            return 0;
        }
        let q: u128 = self.total / self.count;
        let rem: u128 = self.total % self.count;
        let up: bool = rem >= self.count - rem;
        proof {
            vstd::arithmetic::div_mod::lemma_fundamental_div_mod(
                self.total as int,
                self.count as int,
            );
            assert(self.count as int * (q as int) == (q as int) * (self.count as int))
                by (nonlinear_arith);
            lemma_round_half_up(self.total as int, self.count as int, q as int, rem as int);
        }
        if q >= 0xffff_ffff {
            0xffff_ffff
        } else if up {
            (q + 1) as u32
        } else {
            q as u32
        }
    }
}

/// With `total == q * count + rem` and `0 <= rem < count`, rounding gives `q`, or `q + 1`
/// when the remainder is at least half of `count`.
pub proof fn lemma_round_half_up(total: int, count: int, q: int, rem: int)
    requires
        count > 0,
        0 <= rem < count,
        total == q * count + rem,
    ensures
        round_half_up(total, count) == if 2 * rem >= count { q + 1 } else { q },
{
    let d = 2 * count;
    let n = 2 * total + count;
    if 2 * rem >= count {
        assert(n == (q + 1) * d + (2 * rem - count)) by (nonlinear_arith)
            requires n == 2 * total + count, total == q * count + rem, d == 2 * count;
        vstd::arithmetic::div_mod::lemma_fundamental_div_mod_converse(n, d, q + 1, 2 * rem - count);
    } else {
        assert(n == q * d + (2 * rem + count)) by (nonlinear_arith)
            requires n == 2 * total + count, total == q * count + rem, d == 2 * count;
        vstd::arithmetic::div_mod::lemma_fundamental_div_mod_converse(n, d, q, 2 * rem + count);
    }
}

} // verus!
