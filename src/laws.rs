//! Properties of the pool that span several operations or states.

use vstd::prelude::*;

use crate::model::{
    deposited, distinct_borrowers, fresh_pool, lemma_loan_index, lemma_record_wf,
    lemma_with_record_wf, loan_index, months_elapsed, record_of, seq_sum, PoolView,
};
use crate::types::{AssetPrice, CollateralInput, LPDeposit, LendingError, SECONDS_PER_MONTH};

verus! {

/// A deposit or a withdrawal by a liquidity provider.
pub enum LpOperation {
    Deposit { depositor: u64, amount: i128 },
    Withdraw { depositor: u64, amount: i128 },
}

/// The pool after `op`: unchanged when the operation is refused.
pub open spec fn apply_lp(s: PoolView, op: LpOperation) -> PoolView {
    match op {
        LpOperation::Deposit { depositor, amount } => if s.deposit_error(depositor, amount as int) is Some {
            s
        } else {
            s.after_deposit(depositor, amount as int)
        },
        LpOperation::Withdraw { depositor, amount } => if s.withdraw_error(depositor, amount as int) is Some {
            s
        } else {
            s.after_withdraw(depositor, amount as int)
        },
    }
}

/// The pool after the operations `ops`, in order.
pub open spec fn run_lp(s: PoolView, ops: Seq<LpOperation>) -> PoolView
    decreases ops.len(),
{
    if ops.len() == 0 {
        s
    } else {
        apply_lp(run_lp(s, ops.drop_last()), ops.last())
    }
}

proof fn lemma_apply_lp(s: PoolView, op: LpOperation)
    requires
        s.wf(),
        s.total_liquidity == seq_sum(deposited(s.deposits)),
    ensures
        apply_lp(s, op).wf(),
        apply_lp(s, op).total_liquidity == seq_sum(deposited(apply_lp(s, op).deposits)),
{
    match op {
        LpOperation::Deposit { depositor, amount } => {
            if s.deposit_error(depositor, amount as int) is None {
                let r = record_of(s.deposits, depositor);
                lemma_record_wf(s, depositor);
                let rec = LPDeposit {
                    total_deposited: (r.total_deposited + amount) as i128,
                    available_amount: (r.available_amount + amount) as i128,
                    ..r
                };
                lemma_with_record_wf(s, rec);
            }
        },
        LpOperation::Withdraw { depositor, amount } => {
            if s.withdraw_error(depositor, amount as int) is None {
                let r = record_of(s.deposits, depositor);
                lemma_record_wf(s, depositor);
                let rec = LPDeposit {
                    total_deposited: (r.total_deposited - amount) as i128,
                    available_amount: (r.available_amount - amount) as i128,
                    ..r
                };
                lemma_with_record_wf(s, rec);
            }
        },
    }
}

/// Over any sequence of deposits and withdrawals, starting from a pool whose total
/// liquidity is the sum of the deposited totals of its records, the total liquidity
/// stays that sum (and the pool stays well formed).
pub proof fn law_liquidity_matches_deposits(s: PoolView, ops: Seq<LpOperation>)
    requires
        s.wf(),
        s.total_liquidity == seq_sum(deposited(s.deposits)),
    ensures
        run_lp(s, ops).wf(),
        run_lp(s, ops).total_liquidity == seq_sum(deposited(run_lp(s, ops).deposits)),
    decreases ops.len(),
{
    if ops.len() > 0 {
        law_liquidity_matches_deposits(s, ops.drop_last());
        lemma_apply_lp(run_lp(s, ops.drop_last()), ops.last());
    }
}

/// From a freshly initialized pool, any sequence of deposits and withdrawals leaves the
/// total liquidity equal to the sum of all depositors' deposited totals.
pub proof fn law_fresh_pool_liquidity_matches_deposits(admin: u64, ops: Seq<LpOperation>)
    ensures
        run_lp(fresh_pool(admin), ops).total_liquidity == seq_sum(
            deposited(run_lp(fresh_pool(admin), ops).deposits),
        ),
{
    let s = fresh_pool(admin);
    assert(deposited(s.deposits) =~= Seq::<int>::empty());
    assert(s.loans.map_values(|l: crate::types::LoanView| l.principal as int) =~= Seq::<int>::empty());
    law_liquidity_matches_deposits(s, ops);
}

/// In a well-formed pool the available liquidity is never negative.
pub proof fn law_available_liquidity_nonnegative(s: PoolView)
    requires
        s.wf(),
    ensures
        s.available_liquidity() >= 0,
{
}

/// An origination of more than the available liquidity is always refused.
pub proof fn law_origination_bounded_by_available(
    s: PoolView,
    borrower: u64,
    cols: Seq<CollateralInput>,
    loan_amount: int,
    duration_months: u32,
    quotes: Seq<AssetPrice>,
    now: u64,
)
    requires
        loan_amount > s.available_liquidity(),
    ensures
        s.originate_error(borrower, cols, loan_amount, duration_months, quotes, now) is Some,
{
}

/// Accrual is idempotent within an elapsed-month bucket: once the loan of `borrower` is
/// accrued at `now`, accruing it again at `now`, or at any time before a month past its
/// new watermark, succeeds and changes nothing.
pub proof fn law_accrual_idempotent(s: PoolView, borrower: u64, now: u64, later: u64)
    requires
        s.wf(),
        s.accrue_error(borrower, now) is None,
        later < s.after_accrue(borrower, now).loan(borrower).last_interest_update + SECONDS_PER_MONTH,
    ensures
        now < s.after_accrue(borrower, now).loan(borrower).last_interest_update + SECONDS_PER_MONTH,
        s.after_accrue(borrower, now).accrue_error(borrower, later) is None,
        s.after_accrue(borrower, now).after_accrue(borrower, later) == s.after_accrue(borrower, now),
{
    let i = loan_index(s.loans, borrower);
    let s2 = s.after_accrue(borrower, now);
    assert(distinct_borrowers(s2.loans)) by {
        assert forall|a: int, b: int|
            0 <= a < s2.loans.len() && 0 <= b < s2.loans.len() && a != b implies s2.loans[a].borrower
            != s2.loans[b].borrower by {
            assert(s2.loans[a].borrower == s.loans[a].borrower);
            assert(s2.loans[b].borrower == s.loans[b].borrower);
        }
    }
    assert(s.loans[i].borrower == borrower);
    lemma_loan_index(s2.loans, i);
    let l2 = s2.loan(borrower);
    assert(months_elapsed(l2, later) == 0) by {
        if later >= l2.last_interest_update {
            assert((later - l2.last_interest_update) / (SECONDS_PER_MONTH as int) == 0);
        }
    }
    assert(s2.after_accrue(borrower, later).loans =~= s2.loans);
    assert(s2.after_accrue(borrower, later) =~= s2);
}

/// A repayment that brings the debt to zero or below deletes the loan record (the
/// collateral returned is stated by `repay_loan`).
pub proof fn law_full_repayment_closes(s: PoolView, borrower: u64, amount: int, now: u64)
    requires
        s.wf(),
        s.repay_error(borrower, amount, now) is None,
        s.repay_closes(borrower, amount, now),
    ensures
        !s.after_repay(borrower, amount, now).has_loan(borrower),
        s.after_repay(borrower, amount, now).loans.len() == s.loans.len() - 1,
{
    let i = loan_index(s.loans, borrower);
    let acc = s.after_accrue(borrower, now);
    assert(acc.loans.len() == s.loans.len());
    assert(forall|a: int| 0 <= a < acc.loans.len() ==> acc.loans[a].borrower == s.loans[a].borrower);
    assert(distinct_borrowers(acc.loans));
    lemma_loan_index(acc.loans, i);
    let paid = acc.loans.update(i, s.paid_loan(borrower, amount, now));
    assert(forall|a: int| 0 <= a < paid.len() ==> paid[a].borrower == s.loans[a].borrower);
    assert(distinct_borrowers(paid));
    lemma_loan_index(paid, i);
    let after = s.after_repay(borrower, amount, now);
    assert(after.loans =~= paid.remove(i));
    assert forall|a: int| 0 <= a < after.loans.len() implies after.loans[a].borrower != borrower by {
        let a2 = if a < i {
            a
        } else {
            a + 1
        };
        assert(after.loans[a] == paid[a2]);
        assert(paid[a2].borrower != paid[i].borrower);
    }
}

/// A liquidation succeeds only when the debt with penalties is at least 110% of the
/// collateral value.
pub proof fn law_liquidation_needs_threshold(
    s: PoolView,
    caller: u64,
    borrower: u64,
    quotes: Seq<AssetPrice>,
    now: u64,
)
    requires
        s.liquidate_error(caller, borrower, quotes, now) is None,
    ensures
        s.breached(borrower, quotes, now),
{
}

/// Called by the liquidator on a loan that can be assessed but is below the threshold,
/// a liquidation fails with `LiquidationThresholdNotMet` (and a refused liquidation
/// changes nothing, as `liquidate_loan` states).
pub proof fn law_liquidation_below_threshold_refused(
    s: PoolView,
    caller: u64,
    borrower: u64,
    quotes: Seq<AssetPrice>,
    now: u64,
)
    requires
        s.liquidation_bot == Some(caller),
        s.assessment_error(borrower, quotes, now) is None,
        !s.breached(borrower, quotes, now),
    ensures
        s.liquidate_error(caller, borrower, quotes, now) == Some(LendingError::LiquidationThresholdNotMet),
{
}

} // verus!
