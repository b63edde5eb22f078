//! The mathematical model of the pool: its value, its invariants, and for each
//! operation the error it ends in (if any) and the pool it leaves otherwise.

use vstd::prelude::*;

use crate::collateral::{additions, changed_all, collateral_set};
use crate::valuation::valuation;
use crate::interest::{compound_interest, interest_representable};
use crate::types::{
    fits, AssetPrice, CollateralChange, CollateralInput, LPDeposit, LendingError, LoanView,
    BPS_DENOMINATOR, EARLY_CLOSURE_FEE_PERCENT, LIQUIDATION_THRESHOLD_PERCENT,
    LOAN_INTEREST_RATE_BP, LOAN_YIELD_SHARE_BP, MAX_DURATION_MONTHS, MAX_WARNINGS, MIN_DURATION_MONTHS,
    MIN_HEALTH_PERCENT, SECONDS_PER_MONTH, WARNING_INTERVAL, WARNING_PENALTY_PERCENT,
};

verus! {

/// The mathematical value of a [`LendingPool`].
#[verifier::ext_equal]
pub struct PoolView {
    pub admin: u64,
    pub liquidation_bot: Option<u64>,
    pub total_liquidity: int,
    pub total_locked: int,
    pub deposits: Seq<LPDeposit>,
    pub loans: Seq<LoanView>,
}

/// Sum of a sequence of integers.
pub open spec fn seq_sum(s: Seq<int>) -> int
    decreases s.len(),
{
    if s.len() == 0 {
        0
    } else {
        seq_sum(s.drop_last()) + s.last()
    }
}

pub proof fn lemma_sum_push(s: Seq<int>, x: int)
    ensures
        seq_sum(s.push(x)) == seq_sum(s) + x,
{
    assert(s.push(x).drop_last() =~= s);
}

pub proof fn lemma_sum_update(s: Seq<int>, i: int, x: int)
    requires
        0 <= i < s.len(),
    ensures
        seq_sum(s.update(i, x)) == seq_sum(s) - s[i] + x,
    decreases s.len(),
{
    if i == s.len() - 1 {
        assert(s.update(i, x).drop_last() =~= s.drop_last());
    } else {
        lemma_sum_update(s.drop_last(), i, x);
        assert(s.update(i, x).drop_last() =~= s.drop_last().update(i, x));
    }
}

pub proof fn lemma_sum_remove(s: Seq<int>, i: int)
    requires
        0 <= i < s.len(),
    ensures
        seq_sum(s.remove(i)) == seq_sum(s) - s[i],
    decreases s.len(),
{
    if i == s.len() - 1 {
        assert(s.remove(i) =~= s.drop_last());
    } else {
        lemma_sum_remove(s.drop_last(), i);
        assert(s.remove(i).drop_last() =~= s.drop_last().remove(i));
    }
}

/// The deposited totals of the records, in order.
pub open spec fn deposited(ds: Seq<LPDeposit>) -> Seq<int> {
    ds.map_values(|d: LPDeposit| d.total_deposited as int)
}

/// The principals of the loans, in order.
pub open spec fn principals(loans: Seq<LoanView>) -> Seq<int> {
    loans.map_values(|l: LoanView| l.principal as int)
}

/// Position of the record of `depositor`, or -1.
pub open spec fn deposit_index(ds: Seq<LPDeposit>, depositor: u64) -> int {
    if exists|i: int| 0 <= i < ds.len() && ds[i].depositor == depositor {
        choose|i: int| 0 <= i < ds.len() && ds[i].depositor == depositor
    } else {
        -1
    }
}

/// Position of the loan of `borrower`, or -1.
pub open spec fn loan_index(loans: Seq<LoanView>, borrower: u64) -> int {
    if exists|i: int| 0 <= i < loans.len() && loans[i].borrower == borrower {
        choose|i: int| 0 <= i < loans.len() && loans[i].borrower == borrower
    } else {
        -1
    }
}

/// The empty record of a depositor.
pub open spec fn empty_record(depositor: u64) -> LPDeposit {
    LPDeposit {
        depositor,
        total_deposited: 0,
        locked_amount: 0,
        available_amount: 0,
        total_interest_earned: 0,
    }
}

/// The record of `depositor`, or an empty one.
pub open spec fn record_of(ds: Seq<LPDeposit>, depositor: u64) -> LPDeposit {
    let i = deposit_index(ds, depositor);
    if i >= 0 {
        ds[i]
    } else {
        empty_record(depositor)
    }
}

/// `ds` with the record of `r.depositor` replaced by `r`, or `r` appended.
pub open spec fn with_record(ds: Seq<LPDeposit>, r: LPDeposit) -> Seq<LPDeposit> {
    let i = deposit_index(ds, r.depositor);
    if i >= 0 {
        ds.update(i, r)
    } else {
        ds.push(r)
    }
}

pub open spec fn deposit_wf(d: LPDeposit) -> bool {
    0 <= d.available_amount <= d.total_deposited
}

/// Invariants of an open loan.
pub open spec fn loan_wf(l: LoanView) -> bool {
    &&& collateral_set(l.collaterals)
    &&& l.principal > 0
    &&& l.outstanding_debt > 0
    &&& l.penalties >= 0
    &&& l.interest_rate >= 0
    &&& 0 <= l.yield_share_percent <= BPS_DENOMINATOR
    &&& l.warnings_issued <= MAX_WARNINGS
    &&& l.start_time <= l.last_interest_update
}

/// One record per depositor, each well formed.
pub open spec fn deposits_wf(ds: Seq<LPDeposit>) -> bool {
    &&& forall|i: int, j: int|
        0 <= i < ds.len() && 0 <= j < ds.len() && i != j ==> ds[i].depositor != ds[j].depositor
    &&& forall|i: int| 0 <= i < ds.len() ==> #[trigger] deposit_wf(ds[i])
}

pub open spec fn distinct_borrowers(loans: Seq<LoanView>) -> bool {
    forall|i: int, j: int|
        0 <= i < loans.len() && 0 <= j < loans.len() && i != j ==> loans[i].borrower != loans[j].borrower
}

/// One loan per borrower, each well formed.
pub open spec fn loans_wf(loans: Seq<LoanView>) -> bool {
    &&& distinct_borrowers(loans)
    &&& forall|i: int| 0 <= i < loans.len() ==> #[trigger] loan_wf(loans[i])
}

/// A pool with no liquidity, no loans and no liquidator, administered by `admin`.
pub open spec fn fresh_pool(admin: u64) -> PoolView {
    PoolView {
        admin,
        liquidation_bot: None,
        total_liquidity: 0,
        total_locked: 0,
        deposits: Seq::empty(),
        loans: Seq::empty(),
    }
}

impl PoolView {
    /// Invariants of the pool: one record per depositor and one loan per borrower,
    /// each well formed; the locked liquidity is the sum of the open principals and
    /// lies between zero and the total liquidity.
    pub open spec fn wf(self) -> bool {
        &&& deposits_wf(self.deposits)
        &&& loans_wf(self.loans)
        &&& self.total_locked == seq_sum(principals(self.loans))
        &&& 0 <= self.total_locked <= self.total_liquidity
        &&& fits(self.total_liquidity)
    }

    /// Liquidity not locked into loans.
    pub open spec fn available_liquidity(self) -> int {
        self.total_liquidity - self.total_locked
    }

    pub open spec fn has_loan(self, borrower: u64) -> bool {
        loan_index(self.loans, borrower) >= 0
    }

    pub open spec fn loan(self, borrower: u64) -> LoanView {
        self.loans[loan_index(self.loans, borrower)]
    }

    pub open spec fn deposit_error(self, depositor: u64, amount: int) -> Option<LendingError> {
        let r = record_of(self.deposits, depositor);
        if amount <= 0 {
            Some(LendingError::InvalidAmount)
        } else if !fits(self.total_liquidity + amount) || !fits(r.total_deposited + amount) {
            Some(LendingError::Overflow)
        } else {
            None
        }
    }

    /// A deposit: the record and the total liquidity grow by `amount`.
    pub open spec fn after_deposit(self, depositor: u64, amount: int) -> PoolView {
        let r = record_of(self.deposits, depositor);
        PoolView {
            total_liquidity: self.total_liquidity + amount,
            deposits: with_record(
                self.deposits,
                LPDeposit {
                    total_deposited: (r.total_deposited + amount) as i128,
                    available_amount: (r.available_amount + amount) as i128,
                    ..r
                },
            ),
            ..self
        }
    }

    pub open spec fn withdraw_error(self, depositor: u64, amount: int) -> Option<LendingError> {
        let r = record_of(self.deposits, depositor);
        if amount <= 0 {
            Some(LendingError::InvalidAmount)
        } else if amount > r.available_amount {
            Some(LendingError::InsufficientAvailableBalance)
        } else if amount > self.available_liquidity() {
            Some(LendingError::InsufficientPoolLiquidity)
        } else {
            None
        }
    }

    /// A withdrawal: the record and the total liquidity shrink by `amount`.
    pub open spec fn after_withdraw(self, depositor: u64, amount: int) -> PoolView {
        let r = record_of(self.deposits, depositor);
        PoolView {
            total_liquidity: self.total_liquidity - amount,
            deposits: with_record(
                self.deposits,
                LPDeposit {
                    total_deposited: (r.total_deposited - amount) as i128,
                    available_amount: (r.available_amount - amount) as i128,
                    ..r
                },
            ),
            ..self
        }
    }
}

/// The record of a depositor in a well-formed pool is well formed.
pub proof fn lemma_record_wf(s: PoolView, depositor: u64)
    requires
        s.wf(),
    ensures
        deposit_wf(record_of(s.deposits, depositor)),
        record_of(s.deposits, depositor).depositor == depositor,
{
    let i = deposit_index(s.deposits, depositor);
    if i >= 0 {
        assert(deposit_wf(s.deposits[i]));
    }
}

/// Storing a well-formed record keeps the depositors distinct and moves the sum of
/// deposited totals by the change of that record.
pub proof fn lemma_with_record_wf(s: PoolView, rec: LPDeposit)
    requires
        s.wf(),
        deposit_wf(rec),
    ensures
        ({
            let ds = with_record(s.deposits, rec);
            &&& deposits_wf(ds)
            &&& seq_sum(deposited(ds)) == seq_sum(deposited(s.deposits)) - record_of(
                s.deposits,
                rec.depositor,
            ).total_deposited + rec.total_deposited
        }),
{
    let i = deposit_index(s.deposits, rec.depositor);
    let ds = with_record(s.deposits, rec);
    if i >= 0 {
        assert(deposited(ds) =~= deposited(s.deposits).update(i, rec.total_deposited as int));
        lemma_sum_update(deposited(s.deposits), i, rec.total_deposited as int);
        assert forall|a: int| 0 <= a < ds.len() implies #[trigger] deposit_wf(ds[a]) by {
            if a != i {
                assert(deposit_wf(s.deposits[a]));
            }
        }
    } else {
        assert(deposited(ds) =~= deposited(s.deposits).push(rec.total_deposited as int));
        lemma_sum_push(deposited(s.deposits), rec.total_deposited as int);
        assert forall|a: int| 0 <= a < ds.len() implies #[trigger] deposit_wf(ds[a]) by {
            if a < s.deposits.len() {
                assert(deposit_wf(s.deposits[a]));
            }
        }
        assert forall|a: int| 0 <= a < s.deposits.len() implies s.deposits[a].depositor != rec.depositor by {
            if s.deposits[a].depositor == rec.depositor {
                assert(exists|k: int| 0 <= k < s.deposits.len() && s.deposits[k].depositor == rec.depositor);
            }
        }
    }
}


/// Whole months since the watermark of `l` (none while the clock is behind it).
pub open spec fn months_elapsed(l: LoanView, now: u64) -> nat {
    if now >= l.last_interest_update {
        ((now - l.last_interest_update) / (SECONDS_PER_MONTH as int)) as nat
    } else {
        0
    }
}

/// Interest owed on `l` for the whole months elapsed at `now`.
pub open spec fn interest_due(l: LoanView, now: u64) -> int {
    compound_interest(l.outstanding_debt as int, l.interest_rate as int, months_elapsed(l, now))
}

pub open spec fn loan_accrue_error(l: LoanView, now: u64) -> Option<LendingError> {
    let m = months_elapsed(l, now);
    if m != 0 && (!interest_representable(l.outstanding_debt as int, l.interest_rate as int, m) || !fits(
        l.outstanding_debt + interest_due(l, now),
    )) {
        Some(LendingError::Overflow)
    } else {
        None
    }
}

/// `l` with its interest applied up to `now`: unchanged when no whole month has
/// elapsed, else the debt grows by the interest and the watermark moves to `now`.
pub open spec fn accrued(l: LoanView, now: u64) -> LoanView {
    if months_elapsed(l, now) == 0 {
        l
    } else {
        LoanView {
            outstanding_debt: (l.outstanding_debt + interest_due(l, now)) as i128,
            last_interest_update: now,
            ..l
        }
    }
}

/// The share of a payment of `amount` on `l` that is credited to the pool.
pub open spec fn lp_share(amount: int, l: LoanView) -> int {
    amount * l.yield_share_percent / BPS_DENOMINATOR as int
}

/// The fee of closing `l` early.
pub open spec fn early_closure_fee(l: LoanView) -> int {
    l.outstanding_debt * EARLY_CLOSURE_FEE_PERCENT / 100
}

impl PoolView {
    pub open spec fn accrue_error(self, borrower: u64, now: u64) -> Option<LendingError> {
        if !self.has_loan(borrower) {
            Some(LendingError::LoanNotFound)
        } else {
            loan_accrue_error(self.loan(borrower), now)
        }
    }

    /// The pool with the loan of `borrower` accrued up to `now`.
    pub open spec fn after_accrue(self, borrower: u64, now: u64) -> PoolView {
        PoolView {
            loans: self.loans.update(loan_index(self.loans, borrower), accrued(self.loan(borrower), now)),
            ..self
        }
    }

    /// The pool without the loan of `borrower`, whose principal is unlocked.
    pub open spec fn closed(self, borrower: u64) -> PoolView {
        PoolView {
            loans: self.loans.remove(loan_index(self.loans, borrower)),
            total_locked: self.total_locked - self.loan(borrower).principal,
            ..self
        }
    }

    pub open spec fn repay_error(self, borrower: u64, amount: int, now: u64) -> Option<LendingError> {
        if amount <= 0 {
            Some(LendingError::InvalidAmount)
        } else if self.accrue_error(borrower, now) is Some {
            self.accrue_error(borrower, now)
        } else {
            let s = self.after_accrue(borrower, now);
            let l = s.loan(borrower);
            if !fits(amount * l.yield_share_percent) || !fits(s.total_liquidity + lp_share(amount, l)) {
                Some(LendingError::Overflow)
            } else {
                None
            }
        }
    }

    /// The loan of `borrower` after a payment of `amount` at `now`, before any closure:
    /// the debt falls by the payment less the pool's share, and a payment above a tenth
    /// of the principal clears the warnings.
    pub open spec fn paid_loan(self, borrower: u64, amount: int, now: u64) -> LoanView {
        let l = self.after_accrue(borrower, now).loan(borrower);
        let pay = amount - lp_share(amount, l);
        let reset = pay > l.principal / 10;
        LoanView {
            outstanding_debt: (l.outstanding_debt - pay) as i128,
            warnings_issued: if reset {
                0
            } else {
                l.warnings_issued
            },
            last_warning_time: if reset {
                0
            } else {
                l.last_warning_time
            },
            ..l
        }
    }

    /// Whether a payment of `amount` at `now` pays the loan off.
    pub open spec fn repay_closes(self, borrower: u64, amount: int, now: u64) -> bool {
        self.paid_loan(borrower, amount, now).outstanding_debt <= 0
    }

    /// A repayment: accrual, the pool's share credited to the total liquidity, the rest
    /// off the debt; a loan paid off is closed.
    pub open spec fn after_repay(self, borrower: u64, amount: int, now: u64) -> PoolView {
        let s = self.after_accrue(borrower, now);
        let l = s.loan(borrower);
        let s2 = PoolView {
            total_liquidity: s.total_liquidity + lp_share(amount, l),
            loans: s.loans.update(loan_index(s.loans, borrower), self.paid_loan(borrower, amount, now)),
            ..s
        };
        if self.repay_closes(borrower, amount, now) {
            s2.closed(borrower)
        } else {
            s2
        }
    }

    pub open spec fn close_early_error(self, borrower: u64, now: u64) -> Option<LendingError> {
        if self.accrue_error(borrower, now) is Some {
            self.accrue_error(borrower, now)
        } else {
            let s = self.after_accrue(borrower, now);
            let l = s.loan(borrower);
            if !fits(l.outstanding_debt * EARLY_CLOSURE_FEE_PERCENT) || !fits(
                l.outstanding_debt + early_closure_fee(l),
            ) || !fits(s.total_liquidity + early_closure_fee(l)) {
                Some(LendingError::Overflow)
            } else {
                None
            }
        }
    }

    /// An early closure: accrual, the fee credited to the total liquidity, closure.
    pub open spec fn after_close_early(self, borrower: u64, now: u64) -> PoolView {
        let s = self.after_accrue(borrower, now);
        PoolView { total_liquidity: s.total_liquidity + early_closure_fee(s.loan(borrower)), ..s }.closed(
            borrower,
        )
    }
}

/// In a ledger of distinct borrowers, the loan at `i` is the one found for its borrower.
pub proof fn lemma_loan_index(loans: Seq<LoanView>, i: int)
    requires
        distinct_borrowers(loans),
        0 <= i < loans.len(),
    ensures
        loan_index(loans, loans[i].borrower) == i,
{
    let b = loans[i].borrower;
    assert(exists|k: int| 0 <= k < loans.len() && loans[k].borrower == b);
    let k = loan_index(loans, b);
    if k != i {
        assert(loans[k].borrower != loans[i].borrower);
    }
}

pub proof fn lemma_sum_nonnegative(s: Seq<int>)
    requires
        forall|i: int| 0 <= i < s.len() ==> s[i] >= 0,
    ensures
        seq_sum(s) >= 0,
    decreases s.len(),
{
    if s.len() > 0 {
        lemma_sum_nonnegative(s.drop_last());
    }
}

/// Replacing a loan by a well-formed one of the same borrower and principal keeps
/// the ledger well formed and the sum of principals.
pub proof fn lemma_loans_update(loans: Seq<LoanView>, i: int, l: LoanView)
    requires
        loans_wf(loans),
        0 <= i < loans.len(),
        loan_wf(l),
        l.borrower == loans[i].borrower,
        l.principal == loans[i].principal,
    ensures
        loans_wf(loans.update(i, l)),
        seq_sum(principals(loans.update(i, l))) == seq_sum(principals(loans)),
{
    let t = loans.update(i, l);
    assert forall|a: int| 0 <= a < t.len() implies #[trigger] loan_wf(t[a]) by {
        if a != i {
            assert(loan_wf(loans[a]));
        }
    }
    assert(principals(t) =~= principals(loans).update(i, l.principal as int));
    lemma_sum_update(principals(loans), i, l.principal as int);
}

/// Removing a loan keeps the ledger well formed and takes its principal off the sum.
pub proof fn lemma_loans_remove(loans: Seq<LoanView>, i: int)
    requires
        loans_wf(loans),
        0 <= i < loans.len(),
    ensures
        loans_wf(loans.remove(i)),
        seq_sum(principals(loans.remove(i))) == seq_sum(principals(loans)) - loans[i].principal,
        seq_sum(principals(loans.remove(i))) >= 0,
{
    let t = loans.remove(i);
    assert forall|a: int, b: int|
        0 <= a < t.len() && 0 <= b < t.len() && a != b implies t[a].borrower != t[b].borrower by {
        let a2 = if a < i {
            a
        } else {
            a + 1
        };
        let b2 = if b < i {
            b
        } else {
            b + 1
        };
        assert(t[a] == loans[a2] && t[b] == loans[b2]);
    }
    assert forall|a: int| 0 <= a < t.len() implies #[trigger] loan_wf(t[a]) by {
        let a2 = if a < i {
            a
        } else {
            a + 1
        };
        assert(t[a] == loans[a2]);
        assert(loan_wf(loans[a2]));
    }
    assert(principals(t) =~= principals(loans).remove(i));
    lemma_sum_remove(principals(loans), i);
    assert forall|a: int| 0 <= a < principals(t).len() implies principals(t)[a] >= 0 by {
        assert(loan_wf(t[a]));
    }
    lemma_sum_nonnegative(principals(t));
}

/// Appending a well-formed loan of a new borrower keeps the ledger well formed and adds
/// its principal to the sum.
pub proof fn lemma_loans_push(loans: Seq<LoanView>, l: LoanView)
    requires
        loans_wf(loans),
        loan_wf(l),
        forall|i: int| 0 <= i < loans.len() ==> loans[i].borrower != l.borrower,
    ensures
        loans_wf(loans.push(l)),
        seq_sum(principals(loans.push(l))) == seq_sum(principals(loans)) + l.principal,
{
    let t = loans.push(l);
    assert forall|a: int| 0 <= a < t.len() implies #[trigger] loan_wf(t[a]) by {
        if a < loans.len() {
            assert(loan_wf(loans[a]));
        }
    }
    assert(principals(t) =~= principals(loans).push(l.principal as int));
    lemma_sum_push(principals(loans), l.principal as int);
}

/// The collateral set made of the holdings `cols`, holdings of one asset merged:
/// `InvalidAmount` for a non-positive amount, `Overflow` for a merged amount past `i128`.
pub open spec fn collateral_set_of(cols: Seq<CollateralInput>) -> Result<Seq<CollateralInput>, LendingError> {
    changed_all(Seq::empty(), additions(cols))
}

/// Debt and penalties of `l`.
pub open spec fn debt_with_penalties(l: LoanView) -> int {
    l.outstanding_debt + l.penalties
}

/// The debt is at least the liquidation threshold percentage of the collateral value.
pub open spec fn threshold_breached(total_debt: int, value: int) -> bool {
    total_debt * 100 >= value * LIQUIDATION_THRESHOLD_PERCENT
}

/// The collateral value is at least the required percentage of the debt.
pub open spec fn healthy(value: int, total_debt: int) -> bool {
    value * 100 >= total_debt * MIN_HEALTH_PERCENT
}

/// Time since the last warning of `l`, or since its start when it has none.
pub open spec fn since_last_warning(l: LoanView, now: u64) -> int {
    let from = if l.last_warning_time == 0 {
        l.start_time
    } else {
        l.last_warning_time
    };
    if now >= from {
        now - from
    } else {
        0
    }
}

/// `l` after a warning at `now`: one more warning, and a penalty of two percent of the
/// debt.
pub open spec fn warned(l: LoanView, now: u64) -> LoanView {
    LoanView {
        warnings_issued: (l.warnings_issued + 1) as u32,
        last_warning_time: now,
        penalties: (l.penalties + l.outstanding_debt * WARNING_PENALTY_PERCENT / 100) as i128,
        ..l
    }
}

/// The loan opened for `borrower` at `now`.
pub open spec fn new_loan(
    borrower: u64,
    cols: Seq<CollateralInput>,
    loan_amount: i128,
    duration_months: u32,
    now: u64,
) -> LoanView {
    LoanView {
        borrower,
        collaterals: cols,
        principal: loan_amount,
        outstanding_debt: loan_amount,
        interest_rate: LOAN_INTEREST_RATE_BP,
        start_time: now,
        end_time: (now + duration_months * SECONDS_PER_MONTH) as u64,
        last_interest_update: now,
        warnings_issued: 0,
        last_warning_time: 0,
        penalties: 0,
        yield_share_percent: LOAN_YIELD_SHARE_BP,
    }
}

impl PoolView {
    pub open spec fn originate_error(
        self,
        borrower: u64,
        cols: Seq<CollateralInput>,
        loan_amount: int,
        duration_months: u32,
        quotes: Seq<AssetPrice>,
        now: u64,
    ) -> Option<LendingError> {
        if loan_amount <= 0 {
            Some(LendingError::InvalidAmount)
        } else if self.has_loan(borrower) {
            Some(LendingError::DuplicateLoan)
        } else if duration_months < MIN_DURATION_MONTHS || duration_months > MAX_DURATION_MONTHS {
            Some(LendingError::InvalidDuration)
        } else if cols.len() == 0 {
            Some(LendingError::NoCollateral)
        } else {
            match collateral_set_of(cols) {
                Err(e) => Some(e),
                Ok(set) => match valuation(set, quotes, now) {
                    Err(e) => Some(e),
                    Ok(v) => if !fits(v * 100) || !fits(loan_amount * MIN_HEALTH_PERCENT) {
                        Some(LendingError::Overflow)
                    } else if !healthy(v, loan_amount) {
                        Some(LendingError::InsufficientCollateral)
                    } else if loan_amount > self.available_liquidity() {
                        Some(LendingError::InsufficientPoolLiquidity)
                    } else if now + duration_months * SECONDS_PER_MONTH > u64::MAX {
                        Some(LendingError::Overflow)
                    } else {
                        None
                    },
                },
            }
        }
    }

    /// An origination: the new loan is recorded and its principal locked.
    pub open spec fn after_originate(
        self,
        borrower: u64,
        cols: Seq<CollateralInput>,
        loan_amount: int,
        duration_months: u32,
        now: u64,
    ) -> PoolView {
        PoolView {
            loans: self.loans.push(
                new_loan(borrower, collateral_set_of(cols)->Ok_0, loan_amount as i128, duration_months, now),
            ),
            total_locked: self.total_locked + loan_amount,
            ..self
        }
    }

    /// The collateral value of the loan of `borrower` after accrual (when it can be valued).
    pub open spec fn value_of(self, borrower: u64, quotes: Seq<AssetPrice>, now: u64) -> int {
        valuation(self.after_accrue(borrower, now).loan(borrower).collaterals, quotes, now)->Ok_0
    }

    /// Errors shared by the warning check and liquidation, after accrual: the valuation's,
    /// or `Overflow` where debt, penalties and the threshold comparison leave `i128`.
    pub open spec fn assessment_error(self, borrower: u64, quotes: Seq<AssetPrice>, now: u64) -> Option<
        LendingError,
    > {
        if self.accrue_error(borrower, now) is Some {
            self.accrue_error(borrower, now)
        } else {
            let l = self.after_accrue(borrower, now).loan(borrower);
            match valuation(l.collaterals, quotes, now) {
                Err(e) => Some(e),
                Ok(v) => if !fits(debt_with_penalties(l)) || !fits(debt_with_penalties(l) * 100) || !fits(
                    v * LIQUIDATION_THRESHOLD_PERCENT,
                ) {
                    Some(LendingError::Overflow)
                } else {
                    None
                },
            }
        }
    }

    /// Whether the loan of `borrower` is at or past the threshold at `now`.
    pub open spec fn breached(self, borrower: u64, quotes: Seq<AssetPrice>, now: u64) -> bool {
        threshold_breached(
            debt_with_penalties(self.after_accrue(borrower, now).loan(borrower)),
            self.value_of(borrower, quotes, now),
        )
    }

    /// Whether a warning is issued: fewer than two so far, and either the warning
    /// interval has passed or the threshold is breached.
    pub open spec fn warning_due(self, borrower: u64, quotes: Seq<AssetPrice>, now: u64) -> bool {
        let l = self.after_accrue(borrower, now).loan(borrower);
        l.warnings_issued < MAX_WARNINGS && (since_last_warning(l, now) >= WARNING_INTERVAL || self.breached(
            borrower,
            quotes,
            now,
        ))
    }

    pub open spec fn warning_error(self, borrower: u64, quotes: Seq<AssetPrice>, now: u64) -> Option<
        LendingError,
    > {
        if self.assessment_error(borrower, quotes, now) is Some {
            self.assessment_error(borrower, quotes, now)
        } else {
            let l = self.after_accrue(borrower, now).loan(borrower);
            if self.warning_due(borrower, quotes, now) && (!fits(l.outstanding_debt * WARNING_PENALTY_PERCENT)
                || !fits(l.penalties + l.outstanding_debt * WARNING_PENALTY_PERCENT / 100)) {
                Some(LendingError::Overflow)
            } else {
                None
            }
        }
    }

    /// The warning check: accrual, then a warning when one is due.
    pub open spec fn after_warning(self, borrower: u64, quotes: Seq<AssetPrice>, now: u64) -> PoolView {
        let s = self.after_accrue(borrower, now);
        if self.warning_due(borrower, quotes, now) {
            PoolView {
                loans: s.loans.update(loan_index(s.loans, borrower), warned(s.loan(borrower), now)),
                ..s
            }
        } else {
            s
        }
    }

    /// The liquidation signal: two warnings, or the threshold breached.
    pub open spec fn liquidation_signal(self, borrower: u64, quotes: Seq<AssetPrice>, now: u64) -> bool {
        self.after_warning(borrower, quotes, now).loan(borrower).warnings_issued >= MAX_WARNINGS
            || self.breached(borrower, quotes, now)
    }

    pub open spec fn liquidate_error(self, caller: u64, borrower: u64, quotes: Seq<AssetPrice>, now: u64) -> Option<
        LendingError,
    > {
        if self.liquidation_bot != Some(caller) {
            Some(LendingError::Unauthorized)
        } else if self.assessment_error(borrower, quotes, now) is Some {
            self.assessment_error(borrower, quotes, now)
        } else if !self.breached(borrower, quotes, now) {
            Some(LendingError::LiquidationThresholdNotMet)
        } else {
            None
        }
    }

    /// A liquidation: accrual, then the loan is closed with its collateral seized. The
    /// total liquidity is not reduced by any unrecovered debt.
    pub open spec fn after_liquidate(self, borrower: u64, now: u64) -> PoolView {
        self.after_accrue(borrower, now).closed(borrower)
    }

    pub open spec fn adjust_error(
        self,
        borrower: u64,
        changes: Seq<CollateralChange>,
        quotes: Seq<AssetPrice>,
        now: u64,
    ) -> Option<LendingError> {
        if !self.has_loan(borrower) {
            Some(LendingError::LoanNotFound)
        } else {
            let l = self.loan(borrower);
            match changed_all(l.collaterals, changes) {
                Err(e) => Some(e),
                Ok(c) => match valuation(c, quotes, now) {
                    Err(e) => Some(e),
                    Ok(v) => if !fits(debt_with_penalties(l)) || !fits(v * 100) || !fits(
                        debt_with_penalties(l) * MIN_HEALTH_PERCENT,
                    ) {
                        Some(LendingError::Overflow)
                    } else if !healthy(v, debt_with_penalties(l)) {
                        Some(LendingError::InsufficientCollateral)
                    } else {
                        None
                    },
                },
            }
        }
    }

    /// A collateral adjustment: the loan of `borrower` holds the adjusted set.
    pub open spec fn after_adjust(self, borrower: u64, changes: Seq<CollateralChange>) -> PoolView {
        let l = self.loan(borrower);
        PoolView {
            loans: self.loans.update(
                loan_index(self.loans, borrower),
                LoanView { collaterals: changed_all(l.collaterals, changes)->Ok_0, ..l },
            ),
            ..self
        }
    }
}

} // verus!
