use vstd::prelude::*;

verus! {

/// A strategy that an asset of the vault can be invested in. An address is
/// held as the bytes of its textual (strkey) form.
#[derive(Clone, Debug, PartialEq, Eq)]
pub struct Strategy {
    pub address: Vec<u8>,
    pub name: String,
    pub paused: bool,
}

/// An asset managed by the vault, with the strategies it may be invested in.
#[derive(Clone, Debug, PartialEq, Eq)]
pub struct AssetStrategySet {
    pub address: Vec<u8>,
    pub strategies: Vec<Strategy>,
}

/// How much of an asset sits in one strategy.
#[derive(Clone, Debug, PartialEq, Eq)]
pub struct StrategyAllocation {
    pub strategy_address: Vec<u8>,
    pub amount: i128,
    pub paused: bool,
}

/// The funds the vault manages in one asset: idle in the vault, invested in
/// strategies, and their total.
#[derive(Clone, Debug, PartialEq, Eq)]
pub struct CurrentAssetInvestmentAllocation {
    pub asset: Vec<u8>,
    pub total_amount: i128,
    pub idle_amount: i128,
    pub invested_amount: i128,
    pub strategy_allocations: Vec<StrategyAllocation>,
}

} // verus!
