//! Accounting engine of a collateralized lending pool.
//!
//! Liquidity providers deposit a stable asset into a shared pool; borrowers post
//! collateral assets and draw loans against them. The engine keeps the pool and
//! loan ledgers, compounds interest, escalates warnings, and liquidates loans that
//! breach the health threshold. Token transfers, price reads and authorization are
//! done by the caller, which hands the engine plain values (identities as `u64`,
//! amounts as `i128`, the ledger time as `u64`) and carries out what it returns.

pub mod types;
pub mod interest;
pub mod valuation;
pub mod collateral;
pub mod model;
pub mod funding;
pub mod checks;
pub mod pool;
pub mod laws;
pub mod oracle;

pub use collateral::{apply_change, apply_changes};
pub use funding::still_due;
pub use laws::LpOperation;
pub use oracle::{MockOracle, OracleError};
pub use pool::{EarlyClosure, LendingPool, Liquidation};
pub use types::{
    Action, AssetPrice, CollateralChange, CollateralInput, LPDeposit, LendingError, Loan, PriceData,
};
pub use valuation::collateral_value;
