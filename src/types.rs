//! Records, errors and protocol constants.

use vstd::prelude::*;

verus! {

/// Fixed-point scale of the interest calculator (one unit is 10^-6).
pub const SCALE: i128 = 1_000_000;

/// Basis points in one whole (100%).
pub const BPS_DENOMINATOR: i128 = 10_000;

/// Length of one compounding period and of the loan-duration unit: 30 days.
pub const SECONDS_PER_MONTH: u64 = 2_592_000;

/// A price older than this many seconds is stale: 24 hours.
pub const PRICE_FRESHNESS_WINDOW: u64 = 86_400;

/// Time after which a loan may receive its next warning: 14 days.
pub const WARNING_INTERVAL: u64 = 1_209_600;

/// Collateral value must be at least this percentage of the debt at origination and
/// after a collateral adjustment.
pub const MIN_HEALTH_PERCENT: i128 = 140;

/// Debt (with penalties) at or above this percentage of the collateral value triggers
/// warnings and allows liquidation.
pub const LIQUIDATION_THRESHOLD_PERCENT: i128 = 110;

/// Shortest and longest loan durations, in months.
pub const MIN_DURATION_MONTHS: u32 = 3;
pub const MAX_DURATION_MONTHS: u32 = 24;

/// Annual interest rate frozen into every new loan, in basis points (7%).
pub const LOAN_INTEREST_RATE_BP: i128 = 700;

/// Share of each repayment routed to the pool, in basis points (10%).
pub const LOAN_YIELD_SHARE_BP: i128 = 1000;

/// Fee charged on the outstanding debt when a loan is closed early, in percent.
pub const EARLY_CLOSURE_FEE_PERCENT: i128 = 5;

/// Penalty added to the penalties of a loan with each warning, in percent of the debt.
pub const WARNING_PENALTY_PERCENT: i128 = 2;

/// Reward of the liquidator, in percent of the collateral value.
pub const LIQUIDATOR_REWARD_PERCENT: i128 = 10;

/// Number of warnings after which no further warning is issued.
pub const MAX_WARNINGS: u32 = 2;

/// Why an operation was refused. A refused operation changes nothing.
#[derive(Clone, Copy, Debug, PartialEq, Eq)]
pub enum LendingError {
    /// A zero or negative amount was supplied.
    InvalidAmount,
    /// The borrower already has an open loan.
    DuplicateLoan,
    /// The loan duration is outside the allowed range of months.
    InvalidDuration,
    /// A loan was requested without collateral.
    NoCollateral,
    /// The collateral does not cover the required ratio, or a removal exceeds what is held.
    InsufficientCollateral,
    /// The pool does not have enough unlocked liquidity.
    InsufficientPoolLiquidity,
    /// A depositor asked to withdraw more than their available balance.
    InsufficientAvailableBalance,
    /// The borrower has no open loan.
    LoanNotFound,
    /// A collateral asset has no usable price: missing, not positive, or too old.
    StaleOracleData,
    /// The loan is not unhealthy enough to be liquidated.
    LiquidationThresholdNotMet,
    /// The caller does not hold the role that the operation needs.
    Unauthorized,
    /// An amount would leave the range of `i128`.
    Overflow,
}

/// Direction of one collateral adjustment.
#[derive(Clone, Copy, Debug, PartialEq, Eq)]
pub enum Action {
    Add,
    Remove,
}

/// One holding of a collateral asset.
#[derive(Clone, Copy, Debug, PartialEq, Eq)]
pub struct CollateralInput {
    pub token_address: u64,
    pub amount: i128,
}

/// One step of a collateral adjustment.
#[derive(Clone, Copy, Debug, PartialEq, Eq)]
pub struct CollateralChange {
    pub action: Action,
    pub token_address: u64,
    pub amount: i128,
}

/// A price as the oracle reports it: the price and when it was observed.
#[derive(Clone, Copy, Debug, PartialEq, Eq)]
pub struct PriceData {
    pub price: i128,
    pub timestamp: u64,
}

/// The price of one collateral asset together with the asset's decimal scale:
/// `amount` units of the asset are worth `amount * price / 10^decimals` units of
/// the stable asset.
#[derive(Clone, Copy, Debug, PartialEq, Eq)]
pub struct AssetPrice {
    pub asset: u64,
    pub price: i128,
    pub timestamp: u64,
    pub decimals: u32,
}

/// The record of one liquidity provider.
#[derive(Clone, Copy, Debug, PartialEq, Eq)]
pub struct LPDeposit {
    pub depositor: u64,
    pub total_deposited: i128,
    pub locked_amount: i128,
    pub available_amount: i128,
    pub total_interest_earned: i128,
}

/// An open loan.
#[derive(Clone, Debug, PartialEq, Eq)]
pub struct Loan {
    pub borrower: u64,
    pub collaterals: Vec<CollateralInput>,
    pub principal: i128,
    pub outstanding_debt: i128,
    /// Annual rate in basis points, frozen at origination.
    pub interest_rate: i128,
    pub start_time: u64,
    pub end_time: u64,
    /// Time up to which interest has been applied.
    pub last_interest_update: u64,
    pub warnings_issued: u32,
    pub last_warning_time: u64,
    pub penalties: i128,
    /// Share of each repayment routed to the pool, in basis points, frozen at origination.
    pub yield_share_percent: i128,
}

/// The mathematical value of a [`Loan`]: its collateral list as a sequence.
pub struct LoanView {
    pub borrower: u64,
    pub collaterals: Seq<CollateralInput>,
    pub principal: i128,
    pub outstanding_debt: i128,
    pub interest_rate: i128,
    pub start_time: u64,
    pub end_time: u64,
    pub last_interest_update: u64,
    pub warnings_issued: u32,
    pub last_warning_time: u64,
    pub penalties: i128,
    pub yield_share_percent: i128,
}

impl View for Loan {
    type V = LoanView;

    open spec fn view(&self) -> LoanView {
        LoanView {
            borrower: self.borrower,
            collaterals: self.collaterals@,
            principal: self.principal,
            outstanding_debt: self.outstanding_debt,
            interest_rate: self.interest_rate,
            start_time: self.start_time,
            end_time: self.end_time,
            last_interest_update: self.last_interest_update,
            warnings_issued: self.warnings_issued,
            last_warning_time: self.last_warning_time,
            penalties: self.penalties,
            yield_share_percent: self.yield_share_percent,
        }
    }
}

/// Whether `x` is in the range of `i128`.
pub open spec fn fits(x: int) -> bool {
    i128::MIN <= x <= i128::MAX
}

} // verus!
