//! Monthly compound interest in fixed point.

use vstd::arithmetic::div_mod::{lemma_div_by_multiple, lemma_div_is_ordered};
use vstd::arithmetic::mul::lemma_mul_inequality;
use vstd::prelude::*;

use crate::pool::LendingPool;
use crate::types::{fits, BPS_DENOMINATOR, SCALE};

verus! {

/// The monthly rate, scaled by [`SCALE`], of an annual rate in basis points.
pub open spec fn monthly_rate(annual_rate_bp: int) -> int {
    annual_rate_bp * SCALE / BPS_DENOMINATOR as int / 12
}

/// `(1 + monthly)^months` scaled by [`SCALE`], re-normalized after each month.
pub open spec fn multiplier(monthly: int, months: nat) -> int
    decreases months,
{
    if months == 0 {
        SCALE as int
    } else {
        multiplier(monthly, (months - 1) as nat) * (SCALE + monthly) / SCALE as int
    }
}

/// Interest accrued on `principal` over `months` whole months of monthly compounding,
/// principal excluded.
pub open spec fn compound_interest(principal: int, annual_rate_bp: int, months: nat) -> int {
    if months == 0 {
        0
    } else {
        principal * multiplier(monthly_rate(annual_rate_bp), months) / SCALE as int - principal
    }
}

/// Whether every intermediate value of the interest computation fits in an `i128`.
pub open spec fn interest_representable(principal: int, annual_rate_bp: int, months: nat) -> bool {
    months == 0 || {
        let monthly = monthly_rate(annual_rate_bp);
        &&& annual_rate_bp * SCALE <= i128::MAX
        &&& multiplier(monthly, (months - 1) as nat) * (SCALE + monthly) <= i128::MAX
        &&& principal * multiplier(monthly, months) <= i128::MAX
    }
}

/// The multiplier starts at one and never shrinks.
proof fn lemma_multiplier_step(monthly: int, n: nat)
    requires
        monthly >= 0,
    ensures
        SCALE <= multiplier(monthly, n) <= multiplier(monthly, n + 1),
    decreases n,
{
    if n > 0 {
        lemma_multiplier_step(monthly, (n - 1) as nat);
    }
    let m = multiplier(monthly, n);
    lemma_mul_inequality(SCALE as int, SCALE + monthly, m);
    assert(SCALE * m == m * SCALE) by (nonlinear_arith);
    assert((SCALE + monthly) * m == m * (SCALE + monthly)) by (nonlinear_arith);
    lemma_div_is_ordered(m * SCALE, m * (SCALE + monthly), SCALE as int);
    lemma_div_by_multiple(m, SCALE as int);
}

proof fn lemma_multiplier_monotone(monthly: int, a: nat, b: nat)
    requires
        monthly >= 0,
        a <= b,
    ensures
        SCALE <= multiplier(monthly, a) <= multiplier(monthly, b),
    decreases b - a,
{
    lemma_multiplier_step(monthly, a);
    if a < b {
        lemma_multiplier_monotone(monthly, a + 1, b);
    }
}

impl LendingPool {
    /// Interest accrued on `principal` at `annual_rate_bp` over `months_elapsed` whole
    /// months of monthly compounding, principal excluded; `None` where an intermediate
    /// value would not fit in an `i128`. Zero months give zero interest.
    pub fn calculate_compound_interest(principal: i128, annual_rate_bp: i128, months_elapsed: u64) -> (r:
        Option<i128>)
        requires
            0 <= principal,
            0 <= annual_rate_bp,
        ensures
            match r {
                Some(i) => interest_representable(principal as int, annual_rate_bp as int, months_elapsed as nat)
                    && i == compound_interest(principal as int, annual_rate_bp as int, months_elapsed as nat)
                    && i >= 0,
                None => !interest_representable(principal as int, annual_rate_bp as int, months_elapsed as nat),
            },
    {
        if months_elapsed == 0 {
            return Some(0);
        }
        let scaled = match annual_rate_bp.checked_mul(SCALE) {
            Some(s) => s,
            None => return None,
        };
        let monthly: i128 = scaled / BPS_DENOMINATOR / 12;
        let factor: i128 = SCALE + monthly;
        let ghost mr = monthly_rate(annual_rate_bp as int);
        assert(monthly == mr);
        let mut m: i128 = SCALE;
        let mut k: u64 = 0;
        while k < months_elapsed
            invariant
                0 < months_elapsed,
                k <= months_elapsed,
                0 <= annual_rate_bp,
                annual_rate_bp * SCALE <= i128::MAX,
                monthly == mr,
                mr == monthly_rate(annual_rate_bp as int),
                mr >= 0,
                factor == SCALE + mr,
                m == multiplier(mr, k as nat),
                k > 0 ==> multiplier(mr, (k - 1) as nat) * (SCALE + mr) <= i128::MAX,
            decreases months_elapsed - k,
        {
            proof {
                lemma_multiplier_step(mr, k as nat);
            }
            match m.checked_mul(factor) {
                Some(p) => {
                    m = p / SCALE;
                },
                None => {
                    proof {
                        lemma_multiplier_monotone(mr, k as nat, (months_elapsed - 1) as nat);
                        lemma_mul_inequality(m as int, multiplier(mr, (months_elapsed - 1) as nat), factor as int);
                    }
                    return None;
                },
            }
            k = k + 1;
        }
        proof {
            lemma_multiplier_monotone(mr, 0, months_elapsed as nat);
        }
        match principal.checked_mul(m) {
            Some(t) => {
                proof {
                    lemma_mul_inequality(SCALE as int, m as int, principal as int);
                    assert(SCALE * principal == principal * SCALE) by (nonlinear_arith);
                    assert(m * principal == principal * m) by (nonlinear_arith);
                    lemma_div_is_ordered(principal * SCALE, t as int, SCALE as int);
                    lemma_div_by_multiple(principal as int, SCALE as int);
                }
                Some(t / SCALE - principal)
            },
            None => None,
        }
    }
}

} // verus!
