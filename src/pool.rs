//! The pool: liquidity ledger and loan ledger, with every operation specified by
//! the transitions of [`crate::model::PoolView`].

use vstd::prelude::*;

use crate::checks::{check_deposits, check_loans};
use crate::collateral::{additions_of, apply_changes, collateral_set, copy_collaterals};
use crate::model::{
    accrued, fresh_pool, collateral_set_of, debt_with_penalties, lemma_loans_push, new_loan, warned, deposit_index, deposit_wf, early_closure_fee, interest_due, lemma_loan_index, lemma_loans_remove,
    lemma_loans_update, lemma_record_wf, distinct_borrowers, lemma_with_record_wf, loan_accrue_error, loan_index, loan_wf,
    lp_share, months_elapsed, principals, record_of, with_record, PoolView,
};
use crate::types::{
    AssetPrice, CollateralChange, CollateralInput, LPDeposit, LendingError, Loan, LoanView, BPS_DENOMINATOR,
    EARLY_CLOSURE_FEE_PERCENT, LIQUIDATION_THRESHOLD_PERCENT, LIQUIDATOR_REWARD_PERCENT, LOAN_INTEREST_RATE_BP,
    LOAN_YIELD_SHARE_BP, MAX_DURATION_MONTHS, MAX_WARNINGS, MIN_DURATION_MONTHS, MIN_HEALTH_PERCENT,
    SECONDS_PER_MONTH, WARNING_INTERVAL, WARNING_PENALTY_PERCENT,
};
use crate::valuation::collateral_value;

verus! {

/// What an early closure charged and gave back.
#[derive(Clone, Debug, PartialEq, Eq)]
pub struct EarlyClosure {
    /// Debt plus fee, owed by the borrower.
    pub total_payment: i128,
    /// The fee, credited to the pool.
    pub closure_fee: i128,
    /// The collateral returned to the borrower.
    pub returned_collateral: Vec<CollateralInput>,
}

/// What a liquidation seized and paid.
#[derive(Clone, Debug, PartialEq, Eq)]
pub struct Liquidation {
    /// Paid to the liquidator in the stable asset: a tenth of the collateral value.
    pub bot_reward: i128,
    /// The part of the debt covered by the rest of the collateral value.
    pub debt_repaid: i128,
    /// Debt and penalties of the loan when it was liquidated.
    pub total_debt: i128,
    /// The collateral taken out of custody and burned.
    pub seized_collateral: Vec<CollateralInput>,
}

/// The pool: its two liquidity counters, the depositor records and the open loans.
pub struct LendingPool {
    admin: u64,
    liquidation_bot: Option<u64>,
    total_liquidity: i128,
    total_locked: i128,
    deposits: Vec<LPDeposit>,
    loans: Vec<Loan>,
}

impl View for LendingPool {
    type V = PoolView;

    closed spec fn view(&self) -> PoolView {
        PoolView {
            admin: self.admin,
            liquidation_bot: self.liquidation_bot,
            total_liquidity: self.total_liquidity as int,
            total_locked: self.total_locked as int,
            deposits: self.deposits@,
            loans: self.loans@.map_values(|l: Loan| l@),
        }
    }
}

impl LendingPool {
    pub open spec fn wf(&self) -> bool {
        self@.wf()
    }

    /// A pool with no liquidity, no loans and no liquidator, administered by `admin`.
    pub fn initialize(admin: u64) -> (pool: LendingPool)
        ensures
            pool.wf(),
            pool@ == fresh_pool(admin),
    {
        let pool = LendingPool {
            admin,
            liquidation_bot: None,
            total_liquidity: 0,
            total_locked: 0,
            deposits: Vec::new(),
            loans: Vec::new(),
        };
        assert(pool@.loans =~= Seq::<LoanView>::empty());
        assert(principals(pool@.loans) =~= Seq::<int>::empty());
        pool
    }

    /// Registers the liquidator; only the administrator may do so.
    pub fn set_liquidation_bot(&mut self, caller: u64, bot_address: u64) -> (r: Result<(), LendingError>)
        requires
            old(self).wf(),
        ensures
            final(self).wf(),
            if caller == old(self)@.admin {
                r == Ok::<(), LendingError>(()) && final(self)@ == (PoolView {
                    liquidation_bot: Some(bot_address),
                    ..old(self)@
                })
            } else {
                r == Err::<(), LendingError>(LendingError::Unauthorized) && final(self)@ == old(self)@
            },
    {
        if caller != self.admin {
            return Err(LendingError::Unauthorized);
        }
        self.liquidation_bot = Some(bot_address);
        Ok(())
    }

    fn find_deposit(&self, depositor: u64) -> (r: Option<usize>)
        requires
            self.wf(),
        ensures
            match r {
                Some(i) => i == deposit_index(self@.deposits, depositor) && i < self@.deposits.len(),
                None => deposit_index(self@.deposits, depositor) == -1,
            },
    {
        let mut i: usize = 0;
        while i < self.deposits.len()
            invariant
                i <= self.deposits.len(),
                self.wf(),
                forall|j: int| 0 <= j < i ==> self.deposits@[j].depositor != depositor,
            decreases self.deposits.len() - i,
        {
            if self.deposits[i].depositor == depositor {
                let ghost k = deposit_index(self@.deposits, depositor);
                assert(k == i) by {
                    if k != i {
                        assert(self@.deposits[k].depositor != self@.deposits[i as int].depositor);
                    }
                }
                return Some(i);
            }
            i = i + 1;
        }
        None
    }

    fn find_loan(&self, borrower: u64) -> (r: Option<usize>)
        requires
            self.wf(),
        ensures
            match r {
                Some(i) => i == loan_index(self@.loans, borrower) && i < self.loans@.len(),
                None => loan_index(self@.loans, borrower) == -1,
            },
    {
        let mut i: usize = 0;
        while i < self.loans.len()
            invariant
                i <= self.loans.len(),
                self.wf(),
                forall|j: int| 0 <= j < i ==> self.loans@[j].borrower != borrower,
            decreases self.loans.len() - i,
        {
            if self.loans[i].borrower == borrower {
                let ghost k = loan_index(self@.loans, borrower);
                assert(self@.loans[i as int].borrower == borrower);
                assert(k == i) by {
                    if k != i {
                        assert(self@.loans[k].borrower != self@.loans[i as int].borrower);
                    }
                }
                return Some(i);
            }
            i = i + 1;
        }
        assert forall|j: int| 0 <= j < self@.loans.len() implies self@.loans[j].borrower != borrower by {
            assert(self@.loans[j] == self.loans@[j]@);
        }
        None
    }

    /// The record of `depositor`, or an empty one when there is none.
    fn record(&self, depositor: u64) -> (r: LPDeposit)
        requires
            self.wf(),
        ensures
            r == record_of(self@.deposits, depositor),
    {
        match self.find_deposit(depositor) {
            Some(i) => self.deposits[i],
            None => LPDeposit {
                depositor,
                total_deposited: 0,
                locked_amount: 0,
                available_amount: 0,
                total_interest_earned: 0,
            },
        }
    }

    /// Replaces or appends the record of `rec.depositor`.
    fn store_record(&mut self, rec: LPDeposit)
        requires
            old(self).wf(),
            deposit_wf(rec),
        ensures
            final(self)@ == (PoolView { deposits: with_record(old(self)@.deposits, rec), ..old(self)@ }),
            final(self).total_liquidity == old(self).total_liquidity,
            final(self).total_locked == old(self).total_locked,
    {
        match self.find_deposit(rec.depositor) {
            Some(i) => {
                self.deposits.set(i, rec);
            },
            None => {
                self.deposits.push(rec);
            },
        }
        assert(self@ =~= PoolView { deposits: with_record(old(self)@.deposits, rec), ..old(self)@ });
    }

    /// A liquidity provider deposits `amount` of the stable asset.
    pub fn lp_deposit(&mut self, depositor: u64, amount: i128) -> (r: Result<(), LendingError>)
        requires
            old(self).wf(),
        ensures
            final(self).wf(),
            match old(self)@.deposit_error(depositor, amount as int) {
                Some(e) => r == Err::<(), LendingError>(e) && final(self)@ == old(self)@,
                None => r == Ok::<(), LendingError>(()) && final(self)@ == old(self)@.after_deposit(
                    depositor,
                    amount as int,
                ),
            },
    {
        if amount <= 0 {
            return Err(LendingError::InvalidAmount);
        }
        let rec = self.record(depositor);
        let total = match self.total_liquidity.checked_add(amount) {
            Some(t) => t,
            None => return Err(LendingError::Overflow),
        };
        let deposited = match rec.total_deposited.checked_add(amount) {
            Some(t) => t,
            None => return Err(LendingError::Overflow),
        };
        proof {
            lemma_record_wf(self@, depositor);
        }
        let new_rec = LPDeposit {
            total_deposited: deposited,
            available_amount: rec.available_amount + amount,
            ..rec
        };
        let ghost before = self@;
        self.store_record(new_rec);
        self.total_liquidity = total;
        proof {
            lemma_with_record_wf(before, new_rec);
        }
        assert(self@ =~= before.after_deposit(depositor, amount as int));
        Ok(())
    }

    /// A liquidity provider withdraws `amount` of their available balance.
    pub fn lp_withdraw(&mut self, depositor: u64, amount: i128) -> (r: Result<(), LendingError>)
        requires
            old(self).wf(),
        ensures
            final(self).wf(),
            match old(self)@.withdraw_error(depositor, amount as int) {
                Some(e) => r == Err::<(), LendingError>(e) && final(self)@ == old(self)@,
                None => r == Ok::<(), LendingError>(()) && final(self)@ == old(self)@.after_withdraw(
                    depositor,
                    amount as int,
                ),
            },
    {
        if amount <= 0 {
            return Err(LendingError::InvalidAmount);
        }
        let rec = self.record(depositor);
        if amount > rec.available_amount {
            return Err(LendingError::InsufficientAvailableBalance);
        }
        if amount > self.total_liquidity - self.total_locked {
            return Err(LendingError::InsufficientPoolLiquidity);
        }
        proof {
            lemma_record_wf(self@, depositor);
        }
        let new_rec = LPDeposit {
            total_deposited: rec.total_deposited - amount,
            available_amount: rec.available_amount - amount,
            ..rec
        };
        let ghost before = self@;
        self.store_record(new_rec);
        self.total_liquidity = self.total_liquidity - amount;
        proof {
            lemma_with_record_wf(before, new_rec);
        }
        assert(self@ =~= before.after_withdraw(depositor, amount as int));
        Ok(())
    }

    /// The record of `depositor`; an empty record when they never deposited.
    pub fn get_lp_deposit(&self, depositor: u64) -> (r: LPDeposit)
        requires
            self.wf(),
        ensures
            r == record_of(self@.deposits, depositor),
    {
        self.record(depositor)
    }

    /// Total stable-asset liquidity of the pool.
    pub fn get_total_liquidity(&self) -> (r: i128)
        ensures
            r == self@.total_liquidity,
    {
        self.total_liquidity
    }

    /// Liquidity not locked into loans: the ceiling of new loans.
    pub fn get_available_liquidity(&self) -> (r: i128)
        requires
            self.wf(),
        ensures
            r == self@.available_liquidity(),
            r >= 0,
    {
        self.total_liquidity - self.total_locked
    }

    /// The open loan of `borrower`, if any.
    pub fn get_loan(&self, borrower: u64) -> (r: Option<&Loan>)
        requires
            self.wf(),
        ensures
            match r {
                Some(l) => self@.has_loan(borrower) && l@ == self@.loan(borrower),
                None => !self@.has_loan(borrower),
            },
    {
        match self.find_loan(borrower) {
            Some(i) => Some(&self.loans[i]),
            None => None,
        }
    }
}


/// The debt and watermark of `loan` once interest is applied up to `now`.
fn accrual(loan: &Loan, now: u64) -> (r: Result<(i128, u64), LendingError>)
    requires
        loan_wf(loan@),
    ensures
        match loan_accrue_error(loan@, now) {
            Some(e) => r == Err::<(i128, u64), LendingError>(e),
            None => r == Ok::<(i128, u64), LendingError>(
                (accrued(loan@, now).outstanding_debt, accrued(loan@, now).last_interest_update),
            ),
        },
        r is Ok ==> loan_wf(accrued(loan@, now)),
{
    if now < loan.last_interest_update {
        return Ok((loan.outstanding_debt, loan.last_interest_update));
    }
    let months: u64 = (now - loan.last_interest_update) / SECONDS_PER_MONTH;
    assert(months == months_elapsed(loan@, now));
    if months == 0 {
        return Ok((loan.outstanding_debt, loan.last_interest_update));
    }
    match LendingPool::calculate_compound_interest(loan.outstanding_debt, loan.interest_rate, months) {
        Some(interest) => {
            assert(interest == interest_due(loan@, now));
            match loan.outstanding_debt.checked_add(interest) {
                Some(debt) => Ok((debt, now)),
                None => Err(LendingError::Overflow),
            }
        },
        None => Err(LendingError::Overflow),
    }
}

impl LendingPool {
    /// Applies to the loan of `borrower` the interest of the whole months elapsed since
    /// its watermark; nothing changes while no whole month has elapsed.
    pub fn update_loan_interest(&mut self, borrower: u64, now: u64) -> (r: Result<(), LendingError>)
        requires
            old(self).wf(),
        ensures
            final(self).wf(),
            match old(self)@.accrue_error(borrower, now) {
                Some(e) => r == Err::<(), LendingError>(e) && final(self)@ == old(self)@,
                None => r == Ok::<(), LendingError>(()) && final(self)@ == old(self)@.after_accrue(borrower, now),
            },
    {
        let i = match self.find_loan(borrower) {
            Some(i) => i,
            None => return Err(LendingError::LoanNotFound),
        };
        proof {
            assert(self@.loans[i as int] == self.loans@[i as int]@);
            assert(loan_wf(self@.loans[i as int]));
        }
        let (debt, mark) = match accrual(&self.loans[i], now) {
            Ok(p) => p,
            Err(e) => return Err(e),
        };
        let ghost before = self@;
        let mut loan = self.loans.remove(i);
        loan.outstanding_debt = debt;
        loan.last_interest_update = mark;
        self.loans.insert(i, loan);
        proof {
            assert(loan@ == accrued(before.loans[i as int], now));
            assert(self@.loans =~= before.loans.update(i as int, loan@));
            lemma_loans_update(before.loans, i as int, loan@);
            assert(self@ =~= before.after_accrue(borrower, now));
        }
        Ok(())
    }

    /// A payment of `amount` on the loan of `borrower` at `now`, after accrual. The
    /// pool's share of the payment is credited to the total liquidity and the rest comes
    /// off the debt. When the debt reaches zero the loan is closed and its collateral,
    /// returned as `Some`, goes back to the borrower.
    pub fn repay_loan(&mut self, borrower: u64, amount: i128, now: u64) -> (r: Result<
        Option<Vec<CollateralInput>>,
        LendingError,
    >)
        requires
            old(self).wf(),
        ensures
            final(self).wf(),
            match old(self)@.repay_error(borrower, amount as int, now) {
                Some(e) => r == Err::<Option<Vec<CollateralInput>>, LendingError>(e) && final(self)@ == old(
                    self,
                )@,
                None => r is Ok && final(self)@ == old(self)@.after_repay(borrower, amount as int, now),
            },
            match r {
                Ok(Some(c)) => old(self)@.repay_closes(borrower, amount as int, now) && c@ == old(
                    self,
                )@.loan(borrower).collaterals,
                Ok(None) => !old(self)@.repay_closes(borrower, amount as int, now),
                Err(_) => true,
            },
    {
        if amount <= 0 {
            return Err(LendingError::InvalidAmount);
        }
        let i = match self.find_loan(borrower) {
            Some(i) => i,
            None => return Err(LendingError::LoanNotFound),
        };
        let ghost before = self@;
        proof {
            assert(before.loans[i as int] == self.loans@[i as int]@);
            assert(loan_wf(before.loans[i as int]));
        }
        let (debt, mark) = match accrual(&self.loans[i], now) {
            Ok(p) => p,
            Err(e) => return Err(e),
        };
        let ghost acc = before.after_accrue(borrower, now);
        proof {
            lemma_loans_update(before.loans, i as int, accrued(before.loans[i as int], now));
            lemma_loan_index(acc.loans, i as int);
        }
        let share_base = match amount.checked_mul(self.loans[i].yield_share_percent) {
            Some(v) => v,
            None => return Err(LendingError::Overflow),
        };
        let share: i128 = share_base / BPS_DENOMINATOR;
        let total = match self.total_liquidity.checked_add(share) {
            Some(t) => t,
            None => return Err(LendingError::Overflow),
        };
        proof {
            assert(share == lp_share(amount as int, acc.loan(borrower)));
            assert(0 <= share <= amount) by (nonlinear_arith)
                requires
                    share == share_base / 10000,
                    share_base == amount * self.loans@[i as int].yield_share_percent,
                    0 <= self.loans@[i as int].yield_share_percent <= 10000,
                    amount > 0,
            ;
        }
        let pay: i128 = amount - share;
        let new_debt: i128 = debt - pay;
        let mut loan = self.loans.remove(i);
        loan.outstanding_debt = new_debt;
        loan.last_interest_update = mark;
        if pay > loan.principal / 10 {
            loan.warnings_issued = 0;
            loan.last_warning_time = 0;
        }
        self.total_liquidity = total;
        assert(loan@ == before.paid_loan(borrower, amount as int, now));
        if new_debt <= 0 {
            self.total_locked = self.total_locked - loan.principal;
            proof {
                let paid = acc.loans.update(i as int, loan@);
                assert(distinct_borrowers(paid));
                lemma_loan_index(paid, i as int);
                assert(paid.remove(i as int) =~= acc.loans.remove(i as int));
                assert(self@.loans =~= acc.loans.remove(i as int));
                lemma_loans_remove(acc.loans, i as int);
                assert(self@ =~= before.after_repay(borrower, amount as int, now));
            }
            return Ok(Some(loan.collaterals));
        }
        self.loans.insert(i, loan);
        proof {
            assert(self@.loans =~= acc.loans.update(i as int, loan@));
            lemma_loans_update(acc.loans, i as int, loan@);
            assert(self@ =~= before.after_repay(borrower, amount as int, now));
        }
        Ok(None)
    }

    /// Closes the loan of `borrower` before term: after accrual, a fee of five percent
    /// of the debt is credited to the total liquidity, the borrower owes debt plus fee,
    /// and all collateral goes back to the borrower.
    pub fn close_loan_early(&mut self, borrower: u64, now: u64) -> (r: Result<EarlyClosure, LendingError>)
        requires
            old(self).wf(),
        ensures
            final(self).wf(),
            match old(self)@.close_early_error(borrower, now) {
                Some(e) => r matches Err(x) && x == e && final(self)@ == old(self)@,
                None => r is Ok && final(self)@ == old(self)@.after_close_early(borrower, now),
            },
            match r {
                Ok(c) => {
                    let l = old(self)@.after_accrue(borrower, now).loan(borrower);
                    &&& c.closure_fee == early_closure_fee(l)
                    &&& c.total_payment == l.outstanding_debt + early_closure_fee(l)
                    &&& c.returned_collateral@ == l.collaterals
                },
                Err(_) => true,
            },
    {
        let i = match self.find_loan(borrower) {
            Some(i) => i,
            None => return Err(LendingError::LoanNotFound),
        };
        let ghost before = self@;
        proof {
            assert(before.loans[i as int] == self.loans@[i as int]@);
            assert(loan_wf(before.loans[i as int]));
        }
        let (debt, _mark) = match accrual(&self.loans[i], now) {
            Ok(p) => p,
            Err(e) => return Err(e),
        };
        let ghost acc = before.after_accrue(borrower, now);
        proof {
            lemma_loans_update(before.loans, i as int, accrued(before.loans[i as int], now));
            lemma_loan_index(acc.loans, i as int);
        }
        let fee_base = match debt.checked_mul(EARLY_CLOSURE_FEE_PERCENT) {
            Some(v) => v,
            None => return Err(LendingError::Overflow),
        };
        let fee: i128 = fee_base / 100;
        let total_payment = match debt.checked_add(fee) {
            Some(v) => v,
            None => return Err(LendingError::Overflow),
        };
        let total = match self.total_liquidity.checked_add(fee) {
            Some(t) => t,
            None => return Err(LendingError::Overflow),
        };
        let loan = self.loans.remove(i);
        self.total_liquidity = total;
        self.total_locked = self.total_locked - loan.principal;
        proof {
            assert(self@.loans =~= acc.loans.remove(i as int));
            lemma_loans_remove(acc.loans, i as int);
            assert(self@ =~= before.after_close_early(borrower, now));
        }
        Ok(EarlyClosure { total_payment, closure_fee: fee, returned_collateral: loan.collaterals })
    }
}

impl LendingPool {
    /// Opens a loan of `loan_amount` for `borrower` over `duration_months` months against
    /// the holdings `collaterals` (holdings of one asset are merged), valued at `prices`.
    /// The collateral value must be at least 140% of the loan and the loan at most the
    /// available liquidity. The rate and the pool's share of repayments are frozen into
    /// the loan, and its principal is locked.
    pub fn originate_loan(
        &mut self,
        borrower: u64,
        collaterals: Vec<CollateralInput>,
        loan_amount: i128,
        duration_months: u32,
        prices: &Vec<AssetPrice>,
        now: u64,
    ) -> (r: Result<(), LendingError>)
        requires
            old(self).wf(),
        ensures
            final(self).wf(),
            match old(self)@.originate_error(
                borrower,
                collaterals@,
                loan_amount as int,
                duration_months,
                prices@,
                now,
            ) {
                Some(e) => r == Err::<(), LendingError>(e) && final(self)@ == old(self)@,
                None => r == Ok::<(), LendingError>(()) && final(self)@ == old(self)@.after_originate(
                    borrower,
                    collaterals@,
                    loan_amount as int,
                    duration_months,
                    now,
                ),
            },
    {
        if loan_amount <= 0 {
            return Err(LendingError::InvalidAmount);
        }
        match self.find_loan(borrower) {
            Some(_) => return Err(LendingError::DuplicateLoan),
            None => {},
        }
        if duration_months < MIN_DURATION_MONTHS || duration_months > MAX_DURATION_MONTHS {
            return Err(LendingError::InvalidDuration);
        }
        if collaterals.len() == 0 {
            return Err(LendingError::NoCollateral);
        }
        let adds = additions_of(&collaterals);
        let mut set: Vec<CollateralInput> = Vec::new();
        assert(collateral_set(set@));
        assert(set@ =~= Seq::<CollateralInput>::empty());
        match apply_changes(&mut set, &adds) {
            Ok(()) => {},
            Err(e) => return Err(e),
        }
        let value = match collateral_value(&set, prices, now) {
            Ok(v) => v,
            Err(e) => return Err(e),
        };
        let covered = match value.checked_mul(100) {
            Some(v) => v,
            None => return Err(LendingError::Overflow),
        };
        let required = match loan_amount.checked_mul(MIN_HEALTH_PERCENT) {
            Some(v) => v,
            None => return Err(LendingError::Overflow),
        };
        if covered < required {
            return Err(LendingError::InsufficientCollateral);
        }
        if loan_amount > self.total_liquidity - self.total_locked {
            return Err(LendingError::InsufficientPoolLiquidity);
        }
        let duration: u64 = duration_months as u64 * SECONDS_PER_MONTH;
        let end_time = match now.checked_add(duration) {
            Some(t) => t,
            None => return Err(LendingError::Overflow),
        };
        let loan = Loan {
            borrower,
            collaterals: set,
            principal: loan_amount,
            outstanding_debt: loan_amount,
            interest_rate: LOAN_INTEREST_RATE_BP,
            start_time: now,
            end_time,
            last_interest_update: now,
            warnings_issued: 0,
            last_warning_time: 0,
            penalties: 0,
            yield_share_percent: LOAN_YIELD_SHARE_BP,
        };
        let ghost before = self@;
        proof {
            assert(loan@ == new_loan(
                borrower,
                collateral_set_of(collaterals@)->Ok_0,
                loan_amount,
                duration_months,
                now,
            ));
            assert forall|j: int| 0 <= j < before.loans.len() implies before.loans[j].borrower != borrower by {
                if before.loans[j].borrower == borrower {
                    assert(exists|k: int| 0 <= k < before.loans.len() && before.loans[k].borrower == borrower);
                }
            }
            lemma_loans_push(before.loans, loan@);
        }
        self.loans.push(loan);
        self.total_locked = self.total_locked + loan_amount;
        proof {
            assert(self@.loans =~= before.loans.push(loan@));
            assert(self@ =~= before.after_originate(
                borrower,
                collaterals@,
                loan_amount as int,
                duration_months,
                now,
            ));
        }
        Ok(())
    }

    /// Permissionless monitoring of the loan of `borrower`: after accrual, a warning is
    /// issued when fewer than two were issued and either fourteen days have passed since
    /// the last warning (or the start) or the debt with penalties is at least 110% of the
    /// collateral value. A warning adds a penalty of two percent of the debt. Returns the
    /// liquidation signal: two warnings, or the threshold breached.
    #[verifier::rlimit(60)]
    #[verifier::spinoff_prover]
    pub fn check_and_issue_warning(&mut self, borrower: u64, prices: &Vec<AssetPrice>, now: u64) -> (r:
        Result<bool, LendingError>)
        requires
            old(self).wf(),
        ensures
            final(self).wf(),
            match old(self)@.warning_error(borrower, prices@, now) {
                Some(e) => r == Err::<bool, LendingError>(e) && final(self)@ == old(self)@,
                None => r == Ok::<bool, LendingError>(old(self)@.liquidation_signal(borrower, prices@, now))
                    && final(self)@ == old(self)@.after_warning(borrower, prices@, now),
            },
    {
        let i = match self.find_loan(borrower) {
            Some(i) => i,
            None => return Err(LendingError::LoanNotFound),
        };
        let ghost before = self@;
        proof {
            assert(before.loans[i as int] == self.loans@[i as int]@);
            assert(loan_wf(before.loans[i as int]));
        }
        let (debt, mark) = match accrual(&self.loans[i], now) {
            Ok(p) => p,
            Err(e) => return Err(e),
        };
        let ghost acc = before.after_accrue(borrower, now);
        proof {
            lemma_loans_update(before.loans, i as int, accrued(before.loans[i as int], now));
            lemma_loan_index(acc.loans, i as int);
            assert(acc.loan(borrower).collaterals == self.loans@[i as int].collaterals@);
        }
        let value = match collateral_value(&self.loans[i].collaterals, prices, now) {
            Ok(v) => v,
            Err(e) => return Err(e),
        };
        let penalties = self.loans[i].penalties;
        let total_debt = match debt.checked_add(penalties) {
            Some(v) => v,
            None => return Err(LendingError::Overflow),
        };
        let debt_scaled = match total_debt.checked_mul(100) {
            Some(v) => v,
            None => return Err(LendingError::Overflow),
        };
        let value_scaled = match value.checked_mul(LIQUIDATION_THRESHOLD_PERCENT) {
            Some(v) => v,
            None => return Err(LendingError::Overflow),
        };
        let breached = debt_scaled >= value_scaled;
        let last_warning = self.loans[i].last_warning_time;
        let from = if last_warning == 0 {
            self.loans[i].start_time
        } else {
            last_warning
        };
        let since: u64 = if now >= from {
            now - from
        } else {
            0
        };
        let warnings = self.loans[i].warnings_issued;
        let due = warnings < MAX_WARNINGS && (since >= WARNING_INTERVAL || breached);
        let mut new_penalties = penalties;
        if due {
            let penalty_base = match debt.checked_mul(WARNING_PENALTY_PERCENT) {
                Some(v) => v,
                None => return Err(LendingError::Overflow),
            };
            new_penalties = match penalties.checked_add(penalty_base / 100) {
                Some(v) => v,
                None => return Err(LendingError::Overflow),
            };
        }
        let mut loan = self.loans.remove(i);
        loan.outstanding_debt = debt;
        loan.last_interest_update = mark;
        if due {
            loan.warnings_issued = warnings + 1;
            loan.last_warning_time = now;
            loan.penalties = new_penalties;
        }
        let signal = loan.warnings_issued >= MAX_WARNINGS || breached;
        self.loans.insert(i, loan);
        proof {
            if due {
                assert(loan@ == warned(acc.loan(borrower), now));
                assert(self@.loans =~= acc.loans.update(i as int, loan@));
                lemma_loans_update(acc.loans, i as int, loan@);
                lemma_loan_index(self@.loans, i as int);
            } else {
                assert(self@.loans =~= acc.loans);
            }
            assert(self@ =~= before.after_warning(borrower, prices@, now));
        }
        Ok(signal)
    }

    /// Liquidation of the loan of `borrower` by the registered liquidator. After
    /// accrual, the debt with penalties must be at least 110% of the collateral value.
    /// The liquidator is rewarded a tenth of the collateral value; the rest, up to the
    /// debt, covers the debt; all collateral is seized and the principal unlocked.
    pub fn liquidate_loan(&mut self, caller: u64, borrower: u64, prices: &Vec<AssetPrice>, now: u64) -> (r:
        Result<Liquidation, LendingError>)
        requires
            old(self).wf(),
        ensures
            final(self).wf(),
            match old(self)@.liquidate_error(caller, borrower, prices@, now) {
                Some(e) => r matches Err(x) && x == e && final(self)@ == old(self)@,
                None => r is Ok && final(self)@ == old(self)@.after_liquidate(borrower, now),
            },
            match r {
                Ok(q) => {
                    let l = old(self)@.after_accrue(borrower, now).loan(borrower);
                    let v = old(self)@.value_of(borrower, prices@, now);
                    let reward = v * LIQUIDATOR_REWARD_PERCENT / 100;
                    &&& q.bot_reward == reward
                    &&& q.total_debt == debt_with_penalties(l)
                    &&& q.debt_repaid == if v - reward > debt_with_penalties(l) {
                        debt_with_penalties(l)
                    } else {
                        v - reward
                    }
                    &&& q.seized_collateral@ == l.collaterals
                },
                Err(_) => true,
            },
    {
        match self.liquidation_bot {
            Some(bot) => {
                if bot != caller {
                    return Err(LendingError::Unauthorized);
                }
            },
            None => return Err(LendingError::Unauthorized),
        }
        let i = match self.find_loan(borrower) {
            Some(i) => i,
            None => return Err(LendingError::LoanNotFound),
        };
        let ghost before = self@;
        proof {
            assert(before.loans[i as int] == self.loans@[i as int]@);
            assert(loan_wf(before.loans[i as int]));
        }
        let (debt, _mark) = match accrual(&self.loans[i], now) {
            Ok(p) => p,
            Err(e) => return Err(e),
        };
        let ghost acc = before.after_accrue(borrower, now);
        proof {
            lemma_loans_update(before.loans, i as int, accrued(before.loans[i as int], now));
            lemma_loan_index(acc.loans, i as int);
            assert(acc.loan(borrower).collaterals == self.loans@[i as int].collaterals@);
        }
        let value = match collateral_value(&self.loans[i].collaterals, prices, now) {
            Ok(v) => v,
            Err(e) => return Err(e),
        };
        let total_debt = match debt.checked_add(self.loans[i].penalties) {
            Some(v) => v,
            None => return Err(LendingError::Overflow),
        };
        let debt_scaled = match total_debt.checked_mul(100) {
            Some(v) => v,
            None => return Err(LendingError::Overflow),
        };
        let value_scaled = match value.checked_mul(LIQUIDATION_THRESHOLD_PERCENT) {
            Some(v) => v,
            None => return Err(LendingError::Overflow),
        };
        if debt_scaled < value_scaled {
            return Err(LendingError::LiquidationThresholdNotMet);
        }
        let bot_reward: i128 = value * LIQUIDATOR_REWARD_PERCENT / 100;
        let remaining: i128 = value - bot_reward;
        let debt_repaid = if remaining > total_debt {
            total_debt
        } else {
            remaining
        };
        let loan = self.loans.remove(i);
        self.total_locked = self.total_locked - loan.principal;
        proof {
            assert(self@.loans =~= acc.loans.remove(i as int));
            lemma_loans_remove(acc.loans, i as int);
            assert(self@ =~= before.after_liquidate(borrower, now));
        }
        Ok(Liquidation { bot_reward, debt_repaid, total_debt, seized_collateral: loan.collaterals })
    }

    /// Applies `collateral_changes` in order to the collateral of the loan of `borrower`
    /// and keeps the result only when the collateral value, at `prices`, stays at least
    /// 140% of the debt with penalties; otherwise nothing changes.
    pub fn adjust_collateral(
        &mut self,
        borrower: u64,
        collateral_changes: Vec<CollateralChange>,
        prices: &Vec<AssetPrice>,
        now: u64,
    ) -> (r: Result<(), LendingError>)
        requires
            old(self).wf(),
        ensures
            final(self).wf(),
            match old(self)@.adjust_error(borrower, collateral_changes@, prices@, now) {
                Some(e) => r == Err::<(), LendingError>(e) && final(self)@ == old(self)@,
                None => r == Ok::<(), LendingError>(()) && final(self)@ == old(self)@.after_adjust(
                    borrower,
                    collateral_changes@,
                ),
            },
    {
        let i = match self.find_loan(borrower) {
            Some(i) => i,
            None => return Err(LendingError::LoanNotFound),
        };
        let ghost before = self@;
        proof {
            assert(before.loans[i as int] == self.loans@[i as int]@);
            assert(loan_wf(before.loans[i as int]));
        }
        let mut set = copy_collaterals(&self.loans[i].collaterals);
        match apply_changes(&mut set, &collateral_changes) {
            Ok(()) => {},
            Err(e) => return Err(e),
        }
        let value = match collateral_value(&set, prices, now) {
            Ok(v) => v,
            Err(e) => return Err(e),
        };
        let total_debt = match self.loans[i].outstanding_debt.checked_add(self.loans[i].penalties) {
            Some(v) => v,
            None => return Err(LendingError::Overflow),
        };
        let covered = match value.checked_mul(100) {
            Some(v) => v,
            None => return Err(LendingError::Overflow),
        };
        let required = match total_debt.checked_mul(MIN_HEALTH_PERCENT) {
            Some(v) => v,
            None => return Err(LendingError::Overflow),
        };
        if covered < required {
            return Err(LendingError::InsufficientCollateral);
        }
        let mut loan = self.loans.remove(i);
        loan.collaterals = set;
        self.loans.insert(i, loan);
        proof {
            assert(self@.loans =~= before.loans.update(i as int, loan@));
            lemma_loans_update(before.loans, i as int, loan@);
            assert(self@ =~= before.after_adjust(borrower, collateral_changes@));
        }
        Ok(())
    }
}

impl LendingPool {
    /// The administrator.
    pub fn admin(&self) -> (r: u64)
        ensures
            r == self@.admin,
    {
        self.admin
    }

    /// The registered liquidator, if any.
    pub fn liquidation_bot(&self) -> (r: Option<u64>)
        ensures
            r == self@.liquidation_bot,
    {
        self.liquidation_bot
    }

    /// Liquidity locked into open loans.
    pub fn get_locked_liquidity(&self) -> (r: i128)
        ensures
            r == self@.total_locked,
    {
        self.total_locked
    }

    /// The depositor records.
    pub fn deposits(&self) -> (r: &Vec<LPDeposit>)
        ensures
            r@ == self@.deposits,
    {
        &self.deposits
    }

    /// The open loans.
    pub fn loans(&self) -> (r: &Vec<Loan>)
        ensures
            r@.map_values(|l: Loan| l@) == self@.loans,
    {
        &self.loans
    }

    /// Rebuilds a pool from stored parts, or `None` when they break an invariant of the
    /// pool (a depositor or borrower twice, a malformed record or loan, a locked amount
    /// that is not the sum of the principals or lies outside zero to the total).
    pub fn restore(
        admin: u64,
        liquidation_bot: Option<u64>,
        total_liquidity: i128,
        total_locked: i128,
        deposits: Vec<LPDeposit>,
        loans: Vec<Loan>,
    ) -> (r: Option<LendingPool>)
        ensures
            ({
                let parts = PoolView {
                    admin,
                    liquidation_bot,
                    total_liquidity: total_liquidity as int,
                    total_locked: total_locked as int,
                    deposits: deposits@,
                    loans: loans@.map_values(|l: Loan| l@),
                };
                match r {
                    Some(p) => parts.wf() && p@ == parts,
                    None => !parts.wf(),
                }
            }),
    {
        if total_locked < 0 || total_locked > total_liquidity {
            return None;
        }
        if !check_deposits(&deposits) {
            return None;
        }
        if !check_loans(&loans, total_locked) {
            return None;
        }
        let pool = LendingPool { admin, liquidation_bot, total_liquidity, total_locked, deposits, loans };
        assert(pool@.loans == loans@.map_values(|l: Loan| l@));
        Some(pool)
    }
}
} // verus!
