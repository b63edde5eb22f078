use lending_pool::{
    Action, AssetPrice, CollateralChange, CollateralInput, LPDeposit, LendingError, LendingPool,
};

const ADMIN: u64 = 1;
const LP_USER: u64 = 2;
const BORROWER: u64 = 3;
const LIQUIDATOR: u64 = 4;
const STRWA: u64 = 100;
const OTHER_ASSET: u64 = 101;
const START: u64 = 1_000_000;
const MONTH: u64 = 2_592_000;
const DAY: u64 = 86_400;

/// The collateral asset priced one-to-one with the stable asset, observed at `at`.
fn prices_at(at: u64) -> Vec<AssetPrice> {
    vec![AssetPrice { asset: STRWA, price: 1_000_000, timestamp: at, decimals: 6 }]
}

fn holding(amount: i128) -> Vec<CollateralInput> {
    vec![CollateralInput { token_address: STRWA, amount }]
}

fn pool_with_liquidity(amount: i128) -> LendingPool {
    let mut pool = LendingPool::initialize(ADMIN);
    pool.set_liquidation_bot(ADMIN, LIQUIDATOR).unwrap();
    pool.lp_deposit(LP_USER, amount).unwrap();
    pool
}

fn pool_with_loan() -> LendingPool {
    let mut pool = pool_with_liquidity(1_000_000);
    pool.originate_loan(BORROWER, holding(200_000), 100_000, 12, &prices_at(START), START).unwrap();
    pool
}

#[test]
fn test_test_initialization() {
    let pool = LendingPool::initialize(ADMIN);
    assert_eq!(pool.get_total_liquidity(), 0);
    assert_eq!(pool.get_available_liquidity(), 0);
    assert!(pool.get_loan(BORROWER).is_none());
}

#[test]
fn test_lp_deposit() {
    let mut pool = LendingPool::initialize(ADMIN);
    pool.lp_deposit(LP_USER, 500_000).unwrap();
    let deposit = pool.get_lp_deposit(LP_USER);
    assert_eq!(deposit.total_deposited, 500_000);
    assert_eq!(deposit.available_amount, 500_000);
    assert_eq!(deposit.locked_amount, 0);
    assert_eq!(pool.get_total_liquidity(), 500_000);
}

#[test]
fn test_lp_withdraw() {
    let mut pool = LendingPool::initialize(ADMIN);
    pool.lp_deposit(LP_USER, 500_000).unwrap();
    pool.lp_withdraw(LP_USER, 200_000).unwrap();
    let deposit = pool.get_lp_deposit(LP_USER);
    assert_eq!(deposit.total_deposited, 300_000);
    assert_eq!(deposit.available_amount, 300_000);
}

#[test]
fn test_lp_withdraw_more_than_available() {
    let mut pool = LendingPool::initialize(ADMIN);
    pool.lp_deposit(LP_USER, 500_000).unwrap();
    assert_eq!(pool.lp_withdraw(LP_USER, 600_000), Err(LendingError::InsufficientAvailableBalance));
    assert_eq!(pool.get_lp_deposit(LP_USER).total_deposited, 500_000);
    assert_eq!(pool.get_total_liquidity(), 500_000);
}

#[test]
fn test_originate_loan_low_risk() {
    let mut pool = pool_with_liquidity(1_000_000);
    pool.originate_loan(BORROWER, holding(200_000), 100_000, 12, &prices_at(START), START).unwrap();
    let loan = pool.get_loan(BORROWER).expect("Loan should exist");
    assert_eq!(loan.principal, 100_000);
    assert_eq!(loan.collaterals, holding(200_000));
    assert_eq!(loan.interest_rate, 700);
    assert_eq!(loan.yield_share_percent, 1000);
    assert_eq!(loan.outstanding_debt, 100_000);
    assert_eq!(loan.start_time, START);
    assert_eq!(loan.end_time, START + 12 * MONTH);
    assert_eq!(pool.get_available_liquidity(), 900_000);
}

#[test]
fn test_originate_loan_insufficient_collateral() {
    let mut pool = pool_with_liquidity(1_000_000);
    let r = pool.originate_loan(BORROWER, holding(100_000), 100_000, 12, &prices_at(START), START);
    assert_eq!(r, Err(LendingError::InsufficientCollateral));
    assert!(pool.get_loan(BORROWER).is_none());
    assert_eq!(pool.get_available_liquidity(), 1_000_000);
}

#[test]
fn test_one_loan_per_user() {
    let mut pool = pool_with_liquidity(1_000_000);
    pool.originate_loan(BORROWER, holding(200_000), 100_000, 12, &prices_at(START), START).unwrap();
    let r = pool.originate_loan(BORROWER, holding(200_000), 100_000, 12, &prices_at(START), START);
    assert_eq!(r, Err(LendingError::DuplicateLoan));
    assert_eq!(pool.get_available_liquidity(), 900_000);
}

#[test]
fn test_loan_duration_too_short() {
    let mut pool = pool_with_liquidity(1_000_000);
    let r = pool.originate_loan(BORROWER, holding(200_000), 100_000, 2, &prices_at(START), START);
    assert_eq!(r, Err(LendingError::InvalidDuration));
    assert!(pool.get_loan(BORROWER).is_none());
}

#[test]
fn test_repay_loan() {
    let mut pool = pool_with_loan();
    let r = pool.repay_loan(BORROWER, 50_000, START).unwrap();
    assert!(r.is_none());
    let loan = pool.get_loan(BORROWER).unwrap();
    assert_eq!(loan.outstanding_debt, 100_000 - 45_000);
    assert_eq!(pool.get_total_liquidity(), 1_005_000);
}

#[test]
fn test_early_loan_closure() {
    let mut pool = pool_with_loan();
    let closure = pool.close_loan_early(BORROWER, START).unwrap();
    assert_eq!(closure.total_payment, 105_000);
    assert_eq!(closure.closure_fee, 5_000);
    assert!(pool.get_loan(BORROWER).is_none());
    assert_eq!(closure.returned_collateral, holding(200_000));
    assert_eq!(pool.get_total_liquidity(), 1_005_000);
    assert_eq!(pool.get_available_liquidity(), 1_005_000);
}

#[test]
fn test_check_and_issue_warning() {
    let mut pool = pool_with_loan();
    let signal = pool.check_and_issue_warning(BORROWER, &prices_at(START), START).unwrap();
    assert!(!signal);
    let loan = pool.get_loan(BORROWER).unwrap();
    assert_eq!(loan.warnings_issued, 0);
    assert_eq!(loan.penalties, 0);
}

#[test]
fn test_get_available_liquidity() {
    let mut pool = pool_with_liquidity(1_000_000);
    assert_eq!(pool.get_available_liquidity(), 1_000_000);
    pool.originate_loan(BORROWER, holding(200_000), 100_000, 12, &prices_at(START), START).unwrap();
    assert_eq!(pool.get_available_liquidity(), 900_000);
}

#[test]
fn compound_interest_exact_values() {
    assert_eq!(LendingPool::calculate_compound_interest(100_000, 700, 0), Some(0));
    assert_eq!(LendingPool::calculate_compound_interest(100_000, 700, 1), Some(583));
    assert_eq!(LendingPool::calculate_compound_interest(100_000, 700, 12), Some(7_228));
    assert_eq!(LendingPool::calculate_compound_interest(1_000_000, 1200, 3), Some(30_301));
    assert_eq!(LendingPool::calculate_compound_interest(i128::MAX, 700, 1), None);
}

#[test]
fn interest_accrues_per_whole_month_and_is_idempotent() {
    let mut pool = pool_with_loan();
    pool.update_loan_interest(BORROWER, START + MONTH - 1).unwrap();
    assert_eq!(pool.get_loan(BORROWER).unwrap().outstanding_debt, 100_000);
    pool.update_loan_interest(BORROWER, START + MONTH).unwrap();
    assert_eq!(pool.get_loan(BORROWER).unwrap().outstanding_debt, 100_583);
    assert_eq!(pool.get_loan(BORROWER).unwrap().last_interest_update, START + MONTH);
    pool.update_loan_interest(BORROWER, START + MONTH).unwrap();
    pool.update_loan_interest(BORROWER, START + 2 * MONTH - 1).unwrap();
    assert_eq!(pool.get_loan(BORROWER).unwrap().outstanding_debt, 100_583);
    assert_eq!(pool.update_loan_interest(LP_USER, START), Err(LendingError::LoanNotFound));
}

#[test]
fn deposits_and_withdrawals_keep_total_equal_to_sum_of_deposits() {
    let mut pool = LendingPool::initialize(ADMIN);
    pool.lp_deposit(10, 300).unwrap();
    pool.lp_deposit(11, 700).unwrap();
    pool.lp_withdraw(10, 100).unwrap();
    pool.lp_deposit(10, 50).unwrap();
    assert_eq!(pool.lp_withdraw(11, 701), Err(LendingError::InsufficientAvailableBalance));
    let sum = pool.get_lp_deposit(10).total_deposited + pool.get_lp_deposit(11).total_deposited;
    assert_eq!(sum, 950);
    assert_eq!(pool.get_total_liquidity(), sum);
}

#[test]
fn deposit_and_withdraw_reject_non_positive_amounts() {
    let mut pool = LendingPool::initialize(ADMIN);
    assert_eq!(pool.lp_deposit(LP_USER, 0), Err(LendingError::InvalidAmount));
    assert_eq!(pool.lp_deposit(LP_USER, -5), Err(LendingError::InvalidAmount));
    assert_eq!(pool.lp_withdraw(LP_USER, 0), Err(LendingError::InvalidAmount));
    assert_eq!(pool.lp_withdraw(LP_USER, 1), Err(LendingError::InsufficientAvailableBalance));
    assert_eq!(pool.get_lp_deposit(LP_USER), LPDeposit {
        depositor: LP_USER,
        total_deposited: 0,
        locked_amount: 0,
        available_amount: 0,
        total_interest_earned: 0,
    });
}

#[test]
fn deposit_overflow_is_refused() {
    let mut pool = LendingPool::initialize(ADMIN);
    pool.lp_deposit(LP_USER, i128::MAX).unwrap();
    assert_eq!(pool.lp_deposit(LP_USER, 1), Err(LendingError::Overflow));
    assert_eq!(pool.get_total_liquidity(), i128::MAX);
}

#[test]
fn withdrawal_cannot_take_locked_liquidity() {
    let mut pool = pool_with_loan();
    assert_eq!(pool.lp_withdraw(LP_USER, 900_001), Err(LendingError::InsufficientPoolLiquidity));
    pool.lp_withdraw(LP_USER, 900_000).unwrap();
    assert_eq!(pool.get_available_liquidity(), 0);
}

#[test]
fn origination_beyond_available_liquidity_fails() {
    let mut pool = pool_with_liquidity(50_000);
    let r = pool.originate_loan(BORROWER, holding(200_000), 100_000, 12, &prices_at(START), START);
    assert_eq!(r, Err(LendingError::InsufficientPoolLiquidity));
    assert_eq!(pool.get_available_liquidity(), 50_000);
}

#[test]
fn origination_input_errors() {
    let mut pool = pool_with_liquidity(1_000_000);
    let p = prices_at(START);
    assert_eq!(pool.originate_loan(BORROWER, holding(200_000), 0, 12, &p, START), Err(LendingError::InvalidAmount));
    assert_eq!(pool.originate_loan(BORROWER, holding(200_000), 100_000, 25, &p, START), Err(LendingError::InvalidDuration));
    assert_eq!(pool.originate_loan(BORROWER, vec![], 100_000, 12, &p, START), Err(LendingError::NoCollateral));
    assert_eq!(pool.originate_loan(BORROWER, holding(-1), 100_000, 12, &p, START), Err(LendingError::InvalidAmount));
    let stale = prices_at(START - DAY - 1);
    assert_eq!(pool.originate_loan(BORROWER, holding(200_000), 100_000, 12, &stale, START), Err(LendingError::StaleOracleData));
    let unpriced = vec![CollateralInput { token_address: OTHER_ASSET, amount: 200_000 }];
    assert_eq!(pool.originate_loan(BORROWER, unpriced, 100_000, 12, &p, START), Err(LendingError::StaleOracleData));
    assert!(pool.get_loan(BORROWER).is_none());
    let fresh_enough = prices_at(START - DAY);
    pool.originate_loan(BORROWER, holding(200_000), 100_000, 3, &fresh_enough, START).unwrap();
}

#[test]
fn origination_merges_holdings_of_one_asset() {
    let mut pool = pool_with_liquidity(1_000_000);
    let cols = vec![
        CollateralInput { token_address: STRWA, amount: 80_000 },
        CollateralInput { token_address: STRWA, amount: 60_000 },
    ];
    pool.originate_loan(BORROWER, cols, 100_000, 12, &prices_at(START), START).unwrap();
    assert_eq!(pool.get_loan(BORROWER).unwrap().collaterals, holding(140_000));
}

#[test]
fn collateral_value_uses_decimal_scale_and_all_holdings() {
    let cols = vec![
        CollateralInput { token_address: STRWA, amount: 3_000_000_000_000_000_000 },
        CollateralInput { token_address: OTHER_ASSET, amount: 500 },
    ];
    let prices = vec![
        AssetPrice { asset: OTHER_ASSET, price: 3, timestamp: START, decimals: 0 },
        AssetPrice { asset: STRWA, price: 25, timestamp: START, decimals: 18 },
    ];
    assert_eq!(lending_pool::collateral_value(&cols, &prices, START), Ok(75 + 1_500));
    let negative = vec![AssetPrice { asset: STRWA, price: -1, timestamp: START, decimals: 0 }];
    assert_eq!(lending_pool::collateral_value(&holding(1), &negative, START), Err(LendingError::StaleOracleData));
    let huge = vec![AssetPrice { asset: STRWA, price: 1, timestamp: START, decimals: 39 }];
    assert_eq!(lending_pool::collateral_value(&holding(1), &huge, START), Err(LendingError::Overflow));
    assert_eq!(lending_pool::collateral_value(&holding(0), &prices, START), Err(LendingError::InvalidAmount));
    assert_eq!(lending_pool::collateral_value(&vec![], &prices, START), Ok(0));
}

#[test]
fn repayment_that_clears_debt_closes_loan_and_returns_collateral() {
    let mut pool = pool_with_loan();
    let returned = pool.repay_loan(BORROWER, 200_000, START).unwrap();
    assert_eq!(returned, Some(holding(200_000)));
    assert!(pool.get_loan(BORROWER).is_none());
    assert_eq!(pool.get_total_liquidity(), 1_020_000);
    assert_eq!(pool.get_available_liquidity(), 1_020_000);
    assert_eq!(pool.repay_loan(BORROWER, 1, START), Err(LendingError::LoanNotFound));
    assert_eq!(pool.repay_loan(BORROWER, 0, START), Err(LendingError::InvalidAmount));
}

#[test]
fn repayment_accrues_interest_first() {
    let mut pool = pool_with_loan();
    pool.repay_loan(BORROWER, 10_000, START + MONTH).unwrap();
    assert_eq!(pool.get_loan(BORROWER).unwrap().outstanding_debt, 100_583 - 9_000);
}

#[test]
fn warnings_escalate_with_time_and_penalties() {
    let mut pool = pool_with_loan();
    let t1 = START + 14 * DAY;
    assert!(!pool.check_and_issue_warning(BORROWER, &prices_at(t1), t1).unwrap());
    let loan = pool.get_loan(BORROWER).unwrap();
    assert_eq!(loan.warnings_issued, 1);
    assert_eq!(loan.penalties, 2_000);
    assert_eq!(loan.last_warning_time, t1);
    let t2 = t1 + 14 * DAY;
    assert!(pool.check_and_issue_warning(BORROWER, &prices_at(t2), t2).unwrap());
    let loan = pool.get_loan(BORROWER).unwrap();
    assert_eq!(loan.warnings_issued, 2);
    assert_eq!(loan.penalties, 4_000);
    let t3 = t2 + 20 * DAY;
    assert!(pool.check_and_issue_warning(BORROWER, &prices_at(t3), t3).unwrap());
    assert_eq!(pool.get_loan(BORROWER).unwrap().warnings_issued, 2);
    assert_eq!(pool.check_and_issue_warning(BORROWER, &prices_at(START), t3), Err(LendingError::StaleOracleData));
}

#[test]
fn good_faith_payment_clears_warnings() {
    let mut pool = pool_with_loan();
    let t1 = START + 14 * DAY;
    pool.check_and_issue_warning(BORROWER, &prices_at(t1), t1).unwrap();
    assert_eq!(pool.get_loan(BORROWER).unwrap().warnings_issued, 1);
    pool.repay_loan(BORROWER, 12_000, t1).unwrap();
    let loan = pool.get_loan(BORROWER).unwrap();
    assert_eq!(loan.warnings_issued, 0);
    assert_eq!(loan.last_warning_time, 0);
    assert_eq!(loan.outstanding_debt, 100_000 - 10_800);
}

#[test]
fn liquidation_requires_threshold_and_liquidator() {
    let mut pool = pool_with_loan();
    assert_eq!(pool.liquidate_loan(BORROWER, BORROWER, &prices_at(START), START), Err(LendingError::Unauthorized));
    assert_eq!(
        pool.liquidate_loan(LIQUIDATOR, BORROWER, &prices_at(START), START),
        Err(LendingError::LiquidationThresholdNotMet)
    );
    assert_eq!(pool.get_loan(BORROWER).unwrap().outstanding_debt, 100_000);
    assert_eq!(pool.get_available_liquidity(), 900_000);
    let crashed = vec![AssetPrice { asset: STRWA, price: 400_000, timestamp: START, decimals: 6 }];
    let liquidation = pool.liquidate_loan(LIQUIDATOR, BORROWER, &crashed, START).unwrap();
    assert_eq!(liquidation.bot_reward, 8_000);
    assert_eq!(liquidation.total_debt, 100_000);
    assert_eq!(liquidation.debt_repaid, 72_000);
    assert_eq!(liquidation.seized_collateral, holding(200_000));
    assert!(pool.get_loan(BORROWER).is_none());
    assert_eq!(pool.get_available_liquidity(), 1_000_000);
    assert_eq!(pool.get_total_liquidity(), 1_000_000);
}

#[test]
fn only_admin_registers_liquidator() {
    let mut pool = LendingPool::initialize(ADMIN);
    assert_eq!(pool.set_liquidation_bot(LP_USER, LP_USER), Err(LendingError::Unauthorized));
    assert_eq!(pool.liquidate_loan(LP_USER, BORROWER, &prices_at(START), START), Err(LendingError::Unauthorized));
}

#[test]
fn collateral_adjustment_is_all_or_nothing() {
    let mut pool = pool_with_loan();
    let p = prices_at(START);
    let remove = |amount: i128| CollateralChange { action: Action::Remove, token_address: STRWA, amount };
    assert_eq!(pool.adjust_collateral(BORROWER, vec![remove(70_000)], &p, START), Err(LendingError::InsufficientCollateral));
    assert_eq!(pool.get_loan(BORROWER).unwrap().collaterals, holding(200_000));
    pool.adjust_collateral(BORROWER, vec![remove(60_000)], &p, START).unwrap();
    assert_eq!(pool.get_loan(BORROWER).unwrap().collaterals, holding(140_000));
    let add_other = CollateralChange { action: Action::Add, token_address: OTHER_ASSET, amount: 15 };
    let other_price = AssetPrice { asset: OTHER_ASSET, price: 10_000, timestamp: START, decimals: 0 };
    let both = vec![p[0], other_price];
    pool.adjust_collateral(BORROWER, vec![add_other, remove(140_000)], &both, START).unwrap();
    assert_eq!(
        pool.get_loan(BORROWER).unwrap().collaterals,
        vec![CollateralInput { token_address: OTHER_ASSET, amount: 15 }]
    );
    assert_eq!(pool.adjust_collateral(BORROWER, vec![remove(1)], &both, START), Err(LendingError::InsufficientCollateral));
    let zero = CollateralChange { action: Action::Add, token_address: STRWA, amount: 0 };
    assert_eq!(pool.adjust_collateral(BORROWER, vec![zero], &both, START), Err(LendingError::InvalidAmount));
    assert_eq!(pool.adjust_collateral(LP_USER, vec![], &both, START), Err(LendingError::LoanNotFound));
}

#[test]
fn collateral_set_helpers() {
    let mut set = holding(10);
    let add = CollateralChange { action: Action::Add, token_address: STRWA, amount: 5 };
    lending_pool::apply_change(&mut set, &add).unwrap();
    assert_eq!(set, holding(15));
    let take = CollateralChange { action: Action::Remove, token_address: STRWA, amount: 15 };
    lending_pool::apply_change(&mut set, &take).unwrap();
    assert!(set.is_empty());
    assert_eq!(lending_pool::apply_change(&mut set, &take), Err(LendingError::InsufficientCollateral));
    let zero = CollateralChange { action: Action::Add, token_address: STRWA, amount: 0 };
    assert_eq!(lending_pool::apply_change(&mut set, &zero), Err(LendingError::InvalidAmount));
    let both = vec![add, CollateralChange { action: Action::Add, token_address: OTHER_ASSET, amount: 2 }, take];
    assert_eq!(lending_pool::apply_changes(&mut set, &both), Err(LendingError::InsufficientCollateral));
    let ok = vec![add, CollateralChange { action: Action::Remove, token_address: STRWA, amount: 1 }];
    lending_pool::apply_changes(&mut set, &ok).unwrap();
    assert_eq!(set, holding(4));
}

#[test]
fn payment_is_sourced_from_yield_first() {
    assert_eq!(lending_pool::still_due(50_000, 0), 50_000);
    assert_eq!(lending_pool::still_due(50_000, 20_000), 30_000);
    assert_eq!(lending_pool::still_due(50_000, 60_000), 0);
    assert_eq!(lending_pool::still_due(50_000, -3), 50_000);
}

#[test]
fn scenario_repay_without_vault_yield() {
    let mut pool = pool_with_loan();
    let from_borrower = lending_pool::still_due(50_000, 0);
    assert_eq!(from_borrower, 50_000);
    pool.repay_loan(BORROWER, 50_000, START).unwrap();
    assert_eq!(pool.get_loan(BORROWER).unwrap().outstanding_debt, 55_000);
}

#[test]
fn pool_state_round_trips_through_restore() {
    let mut pool = pool_with_loan();
    pool.repay_loan(BORROWER, 10_000, START).unwrap();
    let restored = LendingPool::restore(
        pool.admin(),
        pool.liquidation_bot(),
        pool.get_total_liquidity(),
        pool.get_locked_liquidity(),
        pool.deposits().clone(),
        pool.loans().clone(),
    )
    .unwrap();
    assert_eq!(restored.get_loan(BORROWER), pool.get_loan(BORROWER));
    assert_eq!(restored.get_available_liquidity(), pool.get_available_liquidity());
    assert_eq!(restored.get_lp_deposit(LP_USER), pool.get_lp_deposit(LP_USER));
    let wrong_lock = LendingPool::restore(
        pool.admin(),
        pool.liquidation_bot(),
        pool.get_total_liquidity(),
        pool.get_locked_liquidity() + 1,
        pool.deposits().clone(),
        pool.loans().clone(),
    );
    assert!(wrong_lock.is_none());
    let mut twice = pool.deposits().clone();
    twice.push(twice[0]);
    assert!(LendingPool::restore(ADMIN, None, 2_000_000, 100_000, twice, pool.loans().clone()).is_none());
}
