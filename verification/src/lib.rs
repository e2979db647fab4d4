//! Share accounting of a multi-asset vault: validation of the asset and
//! strategy lists, the proportional amounts a deposit takes, the shares it
//! mints, and the amounts a number of shares is worth.

pub mod arith;
pub mod error;
pub mod host;
pub mod laws;
pub mod models;
pub mod utils;
pub mod vault;

pub use error::ContractError;
pub use models::{AssetStrategySet, CurrentAssetInvestmentAllocation, Strategy, StrategyAllocation};
pub use utils::{divide_rounding_up, validate_amount};
