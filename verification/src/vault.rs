//! The vault's own stored configuration (whether it was initialized, who
//! holds its roles, which assets and strategies it manages) and the
//! decisions of its entry points that depend on it. The share ledger and
//! the token balances live in other contracts; the entry points take what
//! was read from them as arguments.
//!
//! The order in which each entry point checks its inputs, and so which
//! error a caller sees where several faults meet, is the one the vault's
//! tests observe: the state of the vault first (already or not yet
//! initialized), then the caller's role or the amount asked for, then what
//! the stored configuration holds.
use crate::arith::{division_fails, fits_i128, trunc_div};
use crate::error::ContractError;
use crate::models::{AssetStrategySet, CurrentAssetInvestmentAllocation, Strategy};
use crate::utils::{
    amounts_match, asset_list_check, calculate_asset_amounts_per_vault_shares, per_shares_outcome,
    total_amounts, check_assets, share_fails, shares_worth,
};
use vstd::prelude::*;

verus! {

/// The highest fee, in basis points, that a vault may charge.
pub const MAX_VAULT_FEE_BPS: u32 = 9000;

/// Whether two addresses are the same, byte for byte.
pub fn same_address(a: &Vec<u8>, b: &Vec<u8>) -> (r: bool)
    ensures
        r == (a@ == b@),
{
    if a.len() != b.len() {
        return false;
    }
    let n = a.len();
    let mut i: usize = 0;
    while i < n
        invariant
            n == a@.len(),
            n == b@.len(),
            0 <= i <= n,
            forall|k: int| 0 <= k < i ==> a@[k] == b@[k],
        decreases n - i,
    {
        if a[i] != b[i] {
            return false;
        }
        i += 1;
    }
    assert(a@ =~= b@);
    true
}

/// The vault's stored configuration, as values.
pub struct VaultView {
    pub initialized: bool,
    pub manager: Option<Seq<u8>>,
    pub emergency_manager: Option<Seq<u8>>,
    pub vault_fee_receiver: Option<Seq<u8>>,
    pub vault_fee: u32,
    pub protocol_receiver: Option<Seq<u8>>,
    pub factory: Option<Seq<u8>>,
    pub name: Seq<char>,
    pub symbol: Seq<char>,
    pub assets: Seq<AssetStrategySet>,
}

/// The vault's stored configuration.
pub struct Vault {
    initialized: bool,
    manager: Option<Vec<u8>>,
    emergency_manager: Option<Vec<u8>>,
    vault_fee_receiver: Option<Vec<u8>>,
    vault_fee: u32,
    protocol_receiver: Option<Vec<u8>>,
    factory: Option<Vec<u8>>,
    name: String,
    symbol: String,
    assets: Vec<AssetStrategySet>,
}

/// The value of an optional address.
pub open spec fn address_view(a: Option<Vec<u8>>) -> Option<Seq<u8>> {
    match a {
        Some(v) => Some(v@),
        None => None,
    }
}

impl View for Vault {
    type V = VaultView;

    closed spec fn view(&self) -> VaultView {
        VaultView {
            initialized: self.initialized,
            manager: address_view(self.manager),
            emergency_manager: address_view(self.emergency_manager),
            vault_fee_receiver: address_view(self.vault_fee_receiver),
            vault_fee: self.vault_fee,
            protocol_receiver: address_view(self.protocol_receiver),
            factory: address_view(self.factory),
            name: self.name@,
            symbol: self.symbol@,
            assets: self.assets@,
        }
    }
}

/// Whether the strategy at position `s` of asset `a` has the given address.
pub open spec fn strategy_at(assets: Seq<AssetStrategySet>, a: int, s: int, strategy: Seq<u8>) -> bool {
    0 <= a < assets.len() && 0 <= s < assets[a].strategies@.len()
        && assets[a].strategies@[s].address@ == strategy
}

/// Whether `(a, s)` is the first place, asset by asset and then strategy
/// by strategy, where the strategy is listed.
pub open spec fn first_strategy_at(assets: Seq<AssetStrategySet>, a: int, s: int, strategy: Seq<u8>) -> bool {
    &&& strategy_at(assets, a, s, strategy)
    &&& forall|b: int, t: int| #[trigger] strategy_at(assets, b, t, strategy) ==> a < b || (a == b && s <= t)
}

/// Whether `after` is `before` with the strategy at `(a, s)` paused and
/// nothing else changed.
pub open spec fn paused_at(before: Seq<AssetStrategySet>, after: Seq<AssetStrategySet>, a: int, s: int) -> bool {
    &&& after.len() == before.len()
    &&& forall|b: int| 0 <= b < before.len() && b != a ==> after[b] == before[b]
    &&& after[a].address == before[a].address
    &&& after[a].strategies@.len() == before[a].strategies@.len()
    &&& forall|t: int|
        0 <= t < before[a].strategies@.len() && t != s ==> after[a].strategies@[t]
            == before[a].strategies@[t]
    &&& after[a].strategies@[s] == (Strategy { paused: true, ..before[a].strategies@[s] })
}

impl VaultView {
    /// An initialized vault has a holder for each of its roles and its fee
    /// receivers; a vault that was not initialized has none.
    pub open spec fn roles_recorded(self) -> bool {
        &&& self.initialized == self.manager is Some
        &&& self.initialized == self.emergency_manager is Some
        &&& self.initialized == self.vault_fee_receiver is Some
        &&& self.initialized == self.protocol_receiver is Some
        &&& self.initialized == self.factory is Some
    }

    /// What withdrawing `withdraw_shares` gives, for a holder of
    /// `user_shares` out of `total_supply`.
    pub open spec fn withdraw_outcome(
        self,
        withdraw_shares: int,
        user_shares: int,
        totals: Seq<i128>,
        total_supply: int,
    ) -> Result<Seq<i128>, ContractError> {
        if !self.initialized {
            Err(ContractError::NotInitialized)
        } else if withdraw_shares <= 0 {
            Err(ContractError::AmountNotAllowed)
        } else {
            match per_shares_outcome(totals, withdraw_shares, total_supply) {
                Err(e) => Err(e),
                Ok(amounts) => if user_shares < withdraw_shares {
                    Err(ContractError::InsufficientBalance)
                } else {
                    Ok(amounts)
                },
            }
        }
    }

    /// Whether `caller` holds the manager or the emergency manager role.
    pub open spec fn may_act_in_emergency(self, caller: Seq<u8>) -> bool {
        self.manager == Some(caller) || self.emergency_manager == Some(caller)
    }
}

impl Vault {
    /// A vault that was deployed and not initialized: no role holders, no
    /// fee, no name and no assets.
    pub fn new() -> (v: Vault)
        ensures
            !v@.initialized,
            v@.manager is None,
            v@.emergency_manager is None,
            v@.vault_fee_receiver is None,
            v@.vault_fee == 0,
            v@.protocol_receiver is None,
            v@.factory is None,
            v@.name.len() == 0,
            v@.symbol.len() == 0,
            v@.assets.len() == 0,
            v@.roles_recorded(),
    {
        Vault {
            initialized: false,
            manager: None,
            emergency_manager: None,
            vault_fee_receiver: None,
            vault_fee: 0,
            protocol_receiver: None,
            factory: None,
            name: String::new(),
            symbol: String::new(),
            assets: Vec::new(),
        }
    }

    /// Records the assets, the role holders, the fee (in basis points) and
    /// its receivers, the factory, and the name and symbol of the vault's
    /// share token, once: a second call is refused, and so are a fee above
    /// 9000 basis points and a list of assets that does not validate; a
    /// refused call changes nothing.
    pub fn initialize(
        &mut self,
        e: &soroban_sdk::Env,
        assets: Vec<AssetStrategySet>,
        manager: Vec<u8>,
        emergency_manager: Vec<u8>,
        vault_fee_receiver: Vec<u8>,
        vault_fee: u32,
        defindex_protocol_receiver: Vec<u8>,
        factory: Vec<u8>,
        vault_name: String,
        vault_symbol: String,
    ) -> (r: Result<(), ContractError>)
        ensures
            old(self)@.initialized ==> r == Err::<(), ContractError>(ContractError::AlreadyInitialized),
            !old(self)@.initialized && vault_fee > MAX_VAULT_FEE_BPS ==> r == Err::<(), ContractError>(
                ContractError::MaximumFeeExceeded,
            ),
            !old(self)@.initialized && vault_fee <= MAX_VAULT_FEE_BPS ==> r == asset_list_check(assets@),
            old(self)@.roles_recorded() ==> final(self)@.roles_recorded(),
            r is Err ==> final(self)@ == old(self)@,
            r is Ok ==> final(self)@ == (VaultView {
                initialized: true,
                manager: Some(manager@),
                emergency_manager: Some(emergency_manager@),
                vault_fee_receiver: Some(vault_fee_receiver@),
                vault_fee: vault_fee,
                protocol_receiver: Some(defindex_protocol_receiver@),
                factory: Some(factory@),
                name: vault_name@,
                symbol: vault_symbol@,
                assets: assets@,
            }),
    {
        if self.initialized {
            return Err(ContractError::AlreadyInitialized);
        }
        if vault_fee > MAX_VAULT_FEE_BPS {
            return Err(ContractError::MaximumFeeExceeded);
        }
        check_assets(e, &assets)?;
        self.manager = Some(manager);
        self.emergency_manager = Some(emergency_manager);
        self.vault_fee_receiver = Some(vault_fee_receiver);
        self.vault_fee = vault_fee;
        self.protocol_receiver = Some(defindex_protocol_receiver);
        self.factory = Some(factory);
        self.name = vault_name;
        self.symbol = vault_symbol;
        self.assets = assets;
        self.initialized = true;
        Ok(())
    }

    /// The manager, if one was recorded.
    pub fn get_manager(&self) -> (r: Result<Vec<u8>, ContractError>)
        ensures
            match self@.manager {
                Some(m) => r matches Ok(x) && x@ == m,
                None => r == Err::<Vec<u8>, ContractError>(ContractError::RoleNotFound),
            },
    {
        match &self.manager {
            Some(m) => Ok(m.clone()),
            None => Err(ContractError::RoleNotFound),
        }
    }

    /// The emergency manager, if one was recorded.
    pub fn get_emergency_manager(&self) -> (r: Result<Vec<u8>, ContractError>)
        ensures
            match self@.emergency_manager {
                Some(m) => r matches Ok(x) && x@ == m,
                None => r == Err::<Vec<u8>, ContractError>(ContractError::RoleNotFound),
            },
    {
        match &self.emergency_manager {
            Some(m) => Ok(m.clone()),
            None => Err(ContractError::RoleNotFound),
        }
    }

    /// The receiver of the vault's fees, if one was recorded.
    pub fn get_fee_receiver(&self) -> (r: Result<Vec<u8>, ContractError>)
        ensures
            match self@.vault_fee_receiver {
                Some(m) => r matches Ok(x) && x@ == m,
                None => r == Err::<Vec<u8>, ContractError>(ContractError::RoleNotFound),
            },
    {
        match &self.vault_fee_receiver {
            Some(m) => Ok(m.clone()),
            None => Err(ContractError::RoleNotFound),
        }
    }

    /// The assets the vault manages, with their strategies.
    pub fn get_assets(&self) -> (r: &Vec<AssetStrategySet>)
        ensures
            r@ == self@.assets,
    {
        &self.assets
    }

    /// Decides a withdrawal of `withdraw_shares` vault shares by a holder
    /// of `user_shares`, when `total_supply` shares exist and the vault
    /// manages `total_managed_funds`: the amount of each asset they are
    /// worth. Refused before initialization, for a number of shares that is
    /// not positive, for more shares than exist, and for more shares than
    /// the holder has.
    pub fn withdraw(
        &self,
        e: &soroban_sdk::Env,
        withdraw_shares: i128,
        user_shares: i128,
        total_managed_funds: &Vec<CurrentAssetInvestmentAllocation>,
        total_supply: i128,
    ) -> (r: Result<soroban_sdk::Vec<i128>, ContractError>)
        requires
            total_managed_funds@.len() <= u32::MAX,
        ensures
            amounts_match(
                r,
                self@.withdraw_outcome(
                    withdraw_shares as int,
                    user_shares as int,
                    total_amounts(total_managed_funds@),
                    total_supply as int,
                ),
            ),
    {
        if !self.initialized {
            return Err(ContractError::NotInitialized);
        }
        if withdraw_shares <= 0 {
            return Err(ContractError::AmountNotAllowed);
        }
        let amounts = calculate_asset_amounts_per_vault_shares(
            e,
            withdraw_shares,
            total_managed_funds,
            total_supply,
        )?;
        if user_shares < withdraw_shares {
            return Err(ContractError::InsufficientBalance);
        }
        Ok(amounts)
    }

    /// Decides an emergency withdrawal from a strategy: the first place
    /// where the strategy is listed, which is paused, so that its funds are
    /// pulled back to the vault. Refused before initialization, for a
    /// caller that is neither the manager nor the emergency manager, and
    /// for a strategy that the vault does not list; a refused call changes
    /// nothing.
    pub fn emergency_withdraw(&mut self, strategy_address: &Vec<u8>, caller: &Vec<u8>) -> (r: Result<
        (usize, usize),
        ContractError,
    >)
        ensures
            !old(self)@.initialized ==> r == Err::<(usize, usize), ContractError>(
                ContractError::NotInitialized,
            ),
            old(self)@.initialized && !old(self)@.may_act_in_emergency(caller@) ==> r == Err::<
                (usize, usize),
                ContractError,
            >(ContractError::Unauthorized),
            old(self)@.initialized && old(self)@.may_act_in_emergency(caller@) && !(exists|
                a: int,
                s: int,
            | strategy_at(old(self)@.assets, a, s, strategy_address@)) ==> r == Err::<
                (usize, usize),
                ContractError,
            >(ContractError::StrategyNotFound),
            old(self)@.initialized && old(self)@.may_act_in_emergency(caller@) && (exists|a: int, s: int|
                strategy_at(old(self)@.assets, a, s, strategy_address@)) ==> r is Ok,
            r is Err ==> final(self)@ == old(self)@,
            old(self)@.roles_recorded() ==> final(self)@.roles_recorded(),
            r matches Ok((a, s)) ==> {
                &&& old(self)@.initialized
                &&& old(self)@.may_act_in_emergency(caller@)
                &&& first_strategy_at(old(self)@.assets, a as int, s as int, strategy_address@)
                &&& paused_at(old(self)@.assets, final(self)@.assets, a as int, s as int)
                &&& final(self)@.initialized == old(self)@.initialized
                &&& final(self)@.manager == old(self)@.manager
                &&& final(self)@.emergency_manager == old(self)@.emergency_manager
                &&& final(self)@.vault_fee_receiver == old(self)@.vault_fee_receiver
                &&& final(self)@.vault_fee == old(self)@.vault_fee
                &&& final(self)@.protocol_receiver == old(self)@.protocol_receiver
                &&& final(self)@.factory == old(self)@.factory
                &&& final(self)@.name == old(self)@.name
                &&& final(self)@.symbol == old(self)@.symbol
            },
    {
        if !self.initialized {
            return Err(ContractError::NotInitialized);
        }
        let is_manager = match &self.manager {
            Some(m) => same_address(m, caller),
            None => false,
        };
        let is_emergency_manager = match &self.emergency_manager {
            Some(m) => same_address(m, caller),
            None => false,
        };
        if !is_manager && !is_emergency_manager {
            return Err(ContractError::Unauthorized);
        }
        assert(self@.may_act_in_emergency(caller@));
        let ghost assets = self.assets@;
        let n = self.assets.len();
        let mut a: usize = 0;
        while a < n
            invariant
                n == assets.len(),
                assets == self.assets@,
                self@ == old(self)@,
                old(self)@.initialized,
                old(self)@.may_act_in_emergency(caller@),
                0 <= a <= n,
                forall|b: int, t: int| #[trigger] strategy_at(assets, b, t, strategy_address@) ==> b >= a,
            decreases n - a,
        {
            let m = self.assets[a].strategies.len();
            let mut s: usize = 0;
            while s < m
                invariant
                    n == assets.len(),
                    assets == self.assets@,
                    self@ == old(self)@,
                    old(self)@.initialized,
                    old(self)@.may_act_in_emergency(caller@),
                    0 <= a < n,
                    m == assets[a as int].strategies@.len(),
                    0 <= s <= m,
                    forall|b: int, t: int| #[trigger] strategy_at(assets, b, t, strategy_address@) ==> b > a || (b == a && t >= s),
                decreases m - s,
            {
                if same_address(&self.assets[a].strategies[s].address, strategy_address) {
                    assert(strategy_at(assets, a as int, s as int, strategy_address@));
                    assert(strategy_at(old(self)@.assets, a as int, s as int, strategy_address@));
                    self.assets[a].strategies[s].paused = true;
                    assert(paused_at(assets, self.assets@, a as int, s as int));
                    return Ok((a, s));
                }
                s += 1;
            }
            a += 1;
        }
        Err(ContractError::StrategyNotFound)
    }
}

/// An initialized vault whose roles were recorded answers each of its role
/// getters with the holder that initialization recorded, and never with
/// `RoleNotFound`; one that was not initialized answers each with
/// `RoleNotFound`.
pub proof fn law_roles_found_once_initialized(v: VaultView)
    requires
        v.roles_recorded(),
    ensures
        v.initialized ==> v.manager is Some && v.emergency_manager is Some && v.vault_fee_receiver is Some,
        !v.initialized ==> v.manager is None && v.emergency_manager is None && v.vault_fee_receiver is None,
{
}

/// A holder of an initialized vault who withdraws some but no more than
/// all of their shares, within the supply, is paid for each managed asset
/// its total times the shares over the supply, rounded toward zero,
/// whenever those amounts can be computed in `i128`. A withdrawal is refused
/// for want of balance only when it asks for more shares than the holder
/// has.
pub proof fn law_withdraw_within_balance_pays(
    v: VaultView,
    withdraw_shares: int,
    user_shares: int,
    totals: Seq<i128>,
    total_supply: int,
)
    ensures
        v.initialized && 0 < withdraw_shares <= user_shares && withdraw_shares <= total_supply
            && (forall|i: int|
            #![trigger totals[i]]
            0 <= i < totals.len() ==> fits_i128(totals[i] * withdraw_shares) && !division_fails(
                totals[i] * withdraw_shares,
                total_supply,
            )) ==> v.withdraw_outcome(withdraw_shares, user_shares, totals, total_supply)
            == Ok::<Seq<i128>, ContractError>(
            Seq::new(
                totals.len(),
                |i: int| trunc_div(totals[i] * withdraw_shares, total_supply) as i128,
            ),
        ),
        v.withdraw_outcome(withdraw_shares, user_shares, totals, total_supply) == Err::<
            Seq<i128>,
            ContractError,
        >(ContractError::InsufficientBalance) ==> withdraw_shares > user_shares,
{
    if v.initialized && 0 < withdraw_shares <= user_shares && withdraw_shares <= total_supply
        && (forall|i: int|
        #![trigger totals[i]]
        0 <= i < totals.len() ==> fits_i128(totals[i] * withdraw_shares) && !division_fails(
            totals[i] * withdraw_shares,
            total_supply,
        )) {
        assert forall|i: int| 0 <= i < totals.len() implies !#[trigger] share_fails(
            totals[i] as int,
            withdraw_shares,
            total_supply,
        ) by {
            assert(fits_i128(totals[i] * withdraw_shares));
        }
        assert(shares_worth(totals, withdraw_shares, total_supply) =~= Seq::new(
            totals.len(),
            |i: int| trunc_div(totals[i] * withdraw_shares, total_supply) as i128,
        ));
        assert(per_shares_outcome(totals, withdraw_shares, total_supply) == Ok::<
            Seq<i128>,
            ContractError,
        >(
            Seq::new(
                totals.len(),
                |i: int| trunc_div(totals[i] * withdraw_shares, total_supply) as i128,
            ),
        ));
    }
}

} // verus!
