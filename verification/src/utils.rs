use crate::arith::{
    div_round_up, division_fails, divides_exactly, fits_i128, lemma_round_up_is_ceiling,
    lemma_trunc_div_bounds, trunc_div, abs,
};
use crate::error::ContractError;
use crate::host::{
    amounts_new, amounts_push, amounts_try_get, holds_amounts, host_items, keys_of, seen_contains,
    seen_insert, seen_new,
};
use crate::models::{AssetStrategySet, CurrentAssetInvestmentAllocation, Strategy};
use vstd::prelude::*;

verus! {

/// Checks that an amount handed to the vault is not negative.
pub fn validate_amount(amount: i128) -> (r: Result<(), ContractError>)
    ensures
        r == (if amount < 0 { Err(ContractError::AmountNotAllowed) } else { Ok(()) }),
{
    if amount < 0 {
        Err(ContractError::AmountNotAllowed)
    } else {
        Ok(())
    }
}


/// Divides `a` by `b` and adds one when a remainder is left; for a
/// nonnegative `a` and a positive `b` this is the quotient rounded up.
pub fn divide_rounding_up(a: i128, b: i128) -> (r: Result<i128, ContractError>)
    ensures
        r == (if division_fails(a as int, b as int) {
            Err(ContractError::ArithmeticError)
        } else {
            Ok(div_round_up(a as int, b as int) as i128)
        }),
        !division_fails(a as int, b as int) ==> i128::MIN <= div_round_up(a as int, b as int) <= i128::MAX,
        a >= 0 && b > 0 ==> (r matches Ok(q) && b * (q - 1) < a <= b * q),
{
    proof {
        if b != 0 {
            lemma_trunc_div_bounds(a as int, b as int);
        }
    }
    assert(a >= 0 && b > 0 ==> b * (div_round_up(a as int, b as int) - 1) < a <= b * div_round_up(
        a as int,
        b as int,
    )) by {
        if a >= 0 && b > 0 {
            lemma_round_up_is_ceiling(a as int, b as int);
        }
    }
    let result = match a.checked_div(b) {
        Some(q) => q,
        None => return Err(ContractError::ArithmeticError),
    };
    let rem = match a.checked_rem(b) {
        Some(m) => m,
        None => return Err(ContractError::ArithmeticError),
    };
    assert(!division_fails(a as int, b as int));
    assert(result as int == trunc_div(a as int, b as int));
    assert(rem != 0 <==> !divides_exactly(a as int, b as int)) by {
        let x = abs(a as int);
        let d = abs(b as int);
        if a == 0 {
            vstd::arithmetic::div_mod::lemma_small_mod(0nat, d as nat);
        } else if a > 0 && b > 0 {
            assert(rem == x % d);
        } else if a < 0 && b < 0 {
            assert(rem == (x % d) * -1);
        } else if a < 0 {
            assert(rem == (x % d) * -1);
        } else {
            assert(rem == x % d);
        }
    }
    if rem != 0 {
        match result.checked_add(1) {
            Some(q) => Ok(q),
            None => Err(ContractError::ArithmeticError),
        }
    } else {
        Ok(result)
    }
}


/// The addresses of a list of strategies, in order.
pub open spec fn strategy_addresses(strategies: Seq<Strategy>) -> Seq<Seq<u8>> {
    strategies.map_values(|s: Strategy| s.address@)
}

/// The addresses of a list of assets, in order.
pub open spec fn asset_addresses(assets: Seq<AssetStrategySet>) -> Seq<Seq<u8>> {
    assets.map_values(|a: AssetStrategySet| a.address@)
}

/// Whether the key at position `j` already occurs before it.
pub open spec fn repeats_earlier(keys: Seq<Seq<u8>>, j: int) -> bool {
    exists|k: int| 0 <= k < j && keys[k] == keys[j]
}

/// Whether some key occurs twice.
pub open spec fn has_repeat(keys: Seq<Seq<u8>>) -> bool {
    exists|j: int| 0 <= j < keys.len() && repeats_earlier(keys, j)
}

/// Whether the asset at position `j` repeats an earlier asset or lists a
/// strategy twice.
pub open spec fn asset_is_faulty(assets: Seq<AssetStrategySet>, j: int) -> bool {
    repeats_earlier(asset_addresses(assets), j) || has_repeat(strategy_addresses(assets[j].strategies@))
}

/// Whether `p` is the first faulty asset of the list.
pub open spec fn first_faulty_asset(assets: Seq<AssetStrategySet>, p: int) -> bool {
    &&& 0 <= p < assets.len()
    &&& asset_is_faulty(assets, p)
    &&& forall|j: int| 0 <= j < p ==> !asset_is_faulty(assets, j)
}

/// The set of the first `i + 1` keys is that of the first `i` with key `i` added.
pub proof fn lemma_prefix_set_push(keys: Seq<Seq<u8>>, i: int)
    requires
        0 <= i < keys.len(),
    ensures
        keys.subrange(0, i + 1).to_set() == keys.subrange(0, i).to_set().insert(keys[i]),
{
    let before = keys.subrange(0, i);
    let after = keys.subrange(0, i + 1);
    assert forall|x: Seq<u8>| after.contains(x) <==> before.contains(x) || x == keys[i] by {
        if after.contains(x) {
            let k = choose|k: int| 0 <= k < after.len() && after[k] == x;
            if k < i {
                assert(before[k] == x);
            }
        }
        if before.contains(x) {
            let k = choose|k: int| 0 <= k < before.len() && before[k] == x;
            assert(after[k] == x);
        }
        if x == keys[i] {
            assert(after[i] == x);
        }
    }
    assert(after.to_set() =~= before.to_set().insert(keys[i]));
}

/// A key is in the set of the first `i` keys exactly when it repeats there.
pub proof fn lemma_prefix_set_contains(keys: Seq<Seq<u8>>, i: int)
    requires
        0 <= i < keys.len(),
    ensures
        keys.subrange(0, i).to_set().contains(keys[i]) <==> repeats_earlier(keys, i),
{
    let before = keys.subrange(0, i);
    if before.to_set().contains(keys[i]) {
        let k = choose|k: int| 0 <= k < before.len() && before[k] == keys[i];
        assert(keys[k] == keys[i]);
    }
    if repeats_earlier(keys, i) {
        let k = choose|k: int| 0 <= k < i && keys[k] == keys[i];
        assert(before[k] == keys[i]);
    }
}

/// What validating a list of assets gives: no asset is an error; else the
/// first faulty asset decides, a repeated asset before repeated strategies.
pub open spec fn asset_list_check(assets: Seq<AssetStrategySet>) -> Result<(), ContractError> {
    if assets.len() == 0 {
        Err(ContractError::NoAssetAllocation)
    } else if exists|p: int| first_faulty_asset(assets, p) {
        let p = choose|p: int| first_faulty_asset(assets, p);
        if repeats_earlier(asset_addresses(assets), p) {
            Err(ContractError::DuplicatedAsset)
        } else {
            Err(ContractError::DuplicatedStrategy)
        }
    } else {
        Ok(())
    }
}

/// Decides whether a list of strategies validates: the error with which
/// `validate_strategies` refuses it, if any. No strategy address may occur
/// twice.
pub fn check_strategies(e: &soroban_sdk::Env, strategies: &Vec<Strategy>) -> (r: Result<(), ContractError>)
    ensures
        r == (if has_repeat(strategy_addresses(strategies@)) {
            Err(ContractError::DuplicatedStrategy)
        } else {
            Ok(())
        }),
{
    let ghost keys = strategy_addresses(strategies@);
    let mut seen = seen_new(e);
    let n = strategies.len();
    let mut i: usize = 0;
    while i < n
        invariant
            n == strategies@.len(),
            keys == strategy_addresses(strategies@),
            0 <= i <= n,
            keys_of(seen) == keys.subrange(0, i as int).to_set(),
            forall|j: int| 0 <= j < i ==> !repeats_earlier(keys, j),
        decreases n - i,
    {
        let address = &strategies[i].address;
        proof {
            lemma_prefix_set_contains(keys, i as int);
        }
        if seen_contains(&seen, address) {
            return Err(ContractError::DuplicatedStrategy);
        }
        seen_insert(&mut seen, address);
        proof {
            lemma_prefix_set_push(keys, i as int);
        }
        i += 1;
    }
    Ok(())
}

/// There is only one first faulty asset.
pub proof fn lemma_first_faulty_unique(assets: Seq<AssetStrategySet>, p: int)
    requires
        first_faulty_asset(assets, p),
    ensures
        forall|q: int| #[trigger] first_faulty_asset(assets, q) ==> q == p,
{
    assert forall|q: int| #[trigger] first_faulty_asset(assets, q) implies q == p by {
        if q < p {
            assert(!asset_is_faulty(assets, q));
        } else if q > p {
            assert(!asset_is_faulty(assets, p));
        }
    }
}

/// Decides whether a list of assets validates: the error with which
/// `validate_assets` refuses it, if any. The vault must be given at least
/// one asset, no asset may occur twice, and no asset may list a strategy
/// twice. The first faulty asset decides the error: a repeated asset before
/// repeated strategies.
pub fn check_assets(e: &soroban_sdk::Env, assets: &Vec<AssetStrategySet>) -> (r: Result<(), ContractError>)
    ensures
        r == asset_list_check(assets@),
        r is Ok <==> assets@.len() > 0 && forall|j: int|
            0 <= j < assets@.len() ==> !asset_is_faulty(assets@, j),
{
    let n = assets.len();
    if n == 0 {
        return Err(ContractError::NoAssetAllocation);
    }
    let ghost keys = asset_addresses(assets@);
    let mut seen = seen_new(e);
    let mut i: usize = 0;
    while i < n
        invariant
            n == assets@.len(),
            keys == asset_addresses(assets@),
            0 <= i <= n,
            keys_of(seen) == keys.subrange(0, i as int).to_set(),
            forall|j: int| 0 <= j < i ==> !asset_is_faulty(assets@, j),
        decreases n - i,
    {
        let asset = &assets[i];
        assert(keys[i as int] == asset.address@);
        proof {
            lemma_prefix_set_contains(keys, i as int);
        }
        if seen_contains(&seen, &asset.address) {
            assert(first_faulty_asset(assets@, i as int));
            proof {
                lemma_first_faulty_unique(assets@, i as int);
            }
            return Err(ContractError::DuplicatedAsset);
        }
        seen_insert(&mut seen, &asset.address);
        proof {
            lemma_prefix_set_push(keys, i as int);
        }
        match check_strategies(e, &asset.strategies) {
            Ok(()) => {},
            Err(err) => {
                assert(first_faulty_asset(assets@, i as int));
                proof {
                    lemma_first_faulty_unique(assets@, i as int);
                }
                return Err(err);
            },
        }
        i += 1;
    }
    Ok(())
}

/// Validates the strategies of an asset. A list in which a strategy address
/// occurs twice stops the contract with `DuplicatedStrategy`; callers decide
/// that first with `check_strategies`.
pub fn validate_strategies(e: &soroban_sdk::Env, strategies: &Vec<Strategy>)
    requires
        !has_repeat(strategy_addresses(strategies@)),
{
    let checked = check_strategies(e, strategies);
    assert(checked is Ok);
}

/// Validates the assets a vault is initialized with. An empty list, a
/// repeated asset or an asset that lists a strategy twice stops the contract
/// with `NoAssetAllocation`, `DuplicatedAsset` or `DuplicatedStrategy`;
/// callers decide that first with `check_assets`.
pub fn validate_assets(e: &soroban_sdk::Env, assets: &Vec<AssetStrategySet>)
    requires
        asset_list_check(assets@) is Ok,
{
    let checked = check_assets(e, assets);
    assert(checked is Ok);
}

/// The total amounts of the managed assets, in order.
pub open spec fn total_amounts(funds: Seq<CurrentAssetInvestmentAllocation>) -> Seq<i128> {
    funds.map_values(|f: CurrentAssetInvestmentAllocation| f.total_amount)
}

/// The part of a total that `shares` out of `supply` are worth, rounded
/// toward zero.
pub open spec fn share_of(total: int, shares: int, supply: int) -> int {
    trunc_div(total * shares, supply)
}

/// Whether that part cannot be computed in `i128`.
pub open spec fn share_fails(total: int, shares: int, supply: int) -> bool {
    !fits_i128(total * shares) || division_fails(total * shares, supply)
}

/// The amounts of every asset that `shares` out of `supply` are worth.
pub open spec fn shares_worth(totals: Seq<i128>, shares: int, supply: int) -> Seq<i128> {
    Seq::new(totals.len(), |i: int| share_of(totals[i] as int, shares, supply) as i128)
}

/// What computing the amounts that `shares` out of `supply` are worth
/// gives: more shares than the supply are refused as over the supply; an
/// amount that cannot be computed in `i128`, a division by a supply of zero
/// among them, is an arithmetic error.
pub open spec fn per_shares_outcome(totals: Seq<i128>, shares: int, supply: int) -> Result<
    Seq<i128>,
    ContractError,
> {
    if shares > supply {
        Err(ContractError::AmountOverTotalSupply)
    } else if exists|i: int|
        0 <= i < totals.len() && #[trigger] share_fails(totals[i] as int, shares, supply) {
        Err(ContractError::ArithmeticError)
    } else {
        Ok(shares_worth(totals, shares, supply))
    }
}

/// Whether a result that carries a host vector of amounts is the outcome
/// `o`: the same error, or a vector that holds exactly the outcome's amounts.
pub open spec fn amounts_match(r: Result<soroban_sdk::Vec<i128>, ContractError>, o: Result<Seq<i128>, ContractError>) -> bool {
    match r {
        Ok(v) => o matches Ok(s) && holds_amounts(v, s),
        Err(e) => o == Err::<Seq<i128>, ContractError>(e),
    }
}

/// Appending an amount to a sequence appends it to the items that hold it.
pub proof fn lemma_holds_push(s: Seq<i128>, x: i128)
    ensures
        s.push(x).map_values(|y: i128| Some(y)) == s.map_values(|y: i128| Some(y)).push(Some(x)),
{
    assert(s.push(x).map_values(|y: i128| Some(y)) =~= s.map_values(|y: i128| Some(y)).push(Some(x)));
}

/// Computes, for each managed asset, the part of its total amount that a
/// number of vault shares is worth: `total * shares / supply`, rounded
/// toward zero. Refuses more shares than are in supply; a supply of zero,
/// which cannot be divided by, is an arithmetic error when there is an
/// asset to share.
#[verifier::spinoff_prover]
pub fn calculate_asset_amounts_per_vault_shares(
    env: &soroban_sdk::Env,
    shares_amount: i128,
    total_managed_funds: &Vec<CurrentAssetInvestmentAllocation>,
    total_shares_supply: i128,
) -> (r: Result<soroban_sdk::Vec<i128>, ContractError>)
    requires
        total_managed_funds@.len() <= u32::MAX,
    ensures
        amounts_match(
            r,
            per_shares_outcome(
                total_amounts(total_managed_funds@),
                shares_amount as int,
                total_shares_supply as int,
            ),
        ),
{
    let ghost totals = total_amounts(total_managed_funds@);
    let mut asset_amounts = amounts_new(env);
    if shares_amount > total_shares_supply {
        return Err(ContractError::AmountOverTotalSupply);
    }
    let n = total_managed_funds.len();
    let mut i: usize = 0;
    assert(shares_worth(totals, shares_amount as int, total_shares_supply as int).subrange(0, 0).map_values(
        |y: i128| Some(y),
    ) =~= Seq::<Option<i128>>::empty());
    while i < n
        invariant
            n == total_managed_funds@.len(),
            n <= u32::MAX,
            totals == total_amounts(total_managed_funds@),
            shares_amount <= total_shares_supply,
            0 <= i <= n,
            i > 0 ==> total_shares_supply != 0,
            forall|k: int|
                0 <= k < i ==> !#[trigger] share_fails(
                    totals[k] as int,
                    shares_amount as int,
                    total_shares_supply as int,
                ),
            holds_amounts(asset_amounts, shares_worth(totals, shares_amount as int, total_shares_supply as int).subrange(0, i as int)),
        decreases n - i,
    {
        let total_amount = total_managed_funds[i].total_amount;
        assert(totals[i as int] == total_amount);
        if total_shares_supply == 0 {
            assert(share_fails(totals[i as int] as int, shares_amount as int, total_shares_supply as int));
            return Err(ContractError::ArithmeticError);
        }
        let product = match total_amount.checked_mul(shares_amount) {
            Some(p) => p,
            None => {
                assert(share_fails(totals[i as int] as int, shares_amount as int, total_shares_supply as int));
                return Err(ContractError::ArithmeticError);
            },
        };
        proof {
            lemma_trunc_div_bounds(product as int, total_shares_supply as int);
        }
        let asset_amount = match product.checked_div(total_shares_supply) {
            Some(q) => q,
            None => {
                assert(share_fails(totals[i as int] as int, shares_amount as int, total_shares_supply as int));
                return Err(ContractError::ArithmeticError);
            },
        };
        assert(asset_amount as int == share_of(total_amount as int, shares_amount as int, total_shares_supply as int));
        amounts_push(&mut asset_amounts, asset_amount);
        assert(shares_worth(totals, shares_amount as int, total_shares_supply as int).subrange(0, i as int + 1)
            =~= shares_worth(totals, shares_amount as int, total_shares_supply as int).subrange(0, i as int).push(asset_amount));
        proof {
            lemma_holds_push(shares_worth(totals, shares_amount as int, total_shares_supply as int).subrange(0, i as int), asset_amount);
        }
        i += 1;
    }
    assert(shares_worth(totals, shares_amount as int, total_shares_supply as int).subrange(0, n as int)
        =~= shares_worth(totals, shares_amount as int, total_shares_supply as int));
    Ok(asset_amounts)
}

/// The amount of a non-enforced asset that matches the enforced one:
/// `reserve * target / reserve_target`, rounded up.
pub open spec fn proportional_amount(reserve: int, target: int, reserve_target: int) -> int {
    div_round_up(reserve * target, reserve_target)
}

/// Whether that amount cannot be computed in `i128`.
pub open spec fn proportional_fails(reserve: int, target: int, reserve_target: int) -> bool {
    !fits_i128(reserve * target) || division_fails(reserve * target, reserve_target)
}

/// The shares minted for `target` of an asset whose reserve is
/// `reserve_target`: `supply * target / reserve_target`, rounded toward zero.
pub open spec fn minted_shares(supply: int, target: int, reserve_target: int) -> int {
    trunc_div(supply * target, reserve_target)
}

/// Whether those shares cannot be computed in `i128`.
pub open spec fn minted_shares_fail(supply: int, target: int, reserve_target: int) -> bool {
    !fits_i128(supply * target) || division_fails(supply * target, reserve_target)
}

/// The amounts of every asset for a deposit that takes `target` of the
/// asset at `idx`.
pub open spec fn optimal_amounts(totals: Seq<i128>, target: i128, idx: int) -> Seq<i128> {
    Seq::new(
        totals.len(),
        |i: int|
            if i == idx {
                target
            } else {
                proportional_amount(totals[i] as int, target as int, totals[idx] as int) as i128
            },
    )
}

/// What computing the amounts and shares for a deposit that takes
/// `target` of the asset at `idx` gives.
pub open spec fn enforced_outcome(totals: Seq<i128>, target: i128, idx: int, supply: int) -> Result<
    (Seq<i128>, i128),
    ContractError,
> {
    if target == 0 {
        Err(ContractError::InsufficientAmount)
    } else if (exists|i: int|
        0 <= i < totals.len() && i != idx && #[trigger] proportional_fails(
            totals[i] as int,
            target as int,
            totals[idx] as int,
        )) || minted_shares_fail(supply, target as int, totals[idx] as int) {
        Err(ContractError::ArithmeticError)
    } else {
        Ok(
            (
                optimal_amounts(totals, target, idx),
                minted_shares(supply, target as int, totals[idx] as int) as i128,
            ),
        )
    }
}

/// What computing the amounts and shares for a deposit enforced on the
/// asset at `idx` gives, from the desired amounts as the host vector holds
/// them.
pub open spec fn optimal_outcome(totals: Seq<i128>, desired: Seq<Option<i128>>, idx: int, supply: int) -> Result<
    (Seq<i128>, i128),
    ContractError,
> {
    if idx < 0 || idx >= totals.len() || idx >= desired.len() {
        Err(ContractError::WrongAmountsLength)
    } else {
        match desired[idx] {
            None => Err(ContractError::ConversionError),
            Some(target) => enforced_outcome(totals, target, idx, supply),
        }
    }
}

/// Whether a result that carries a host vector of amounts and a share
/// count is the outcome `o`: the same error, or a vector that holds exactly
/// the outcome's amounts, with its shares.
pub open spec fn amounts_and_shares_match(
    r: Result<(soroban_sdk::Vec<i128>, i128), ContractError>,
    o: Result<(Seq<i128>, i128), ContractError>,
) -> bool {
    match r {
        Ok((v, shares)) => o matches Ok((s, t)) && holds_amounts(v, s) && shares == t,
        Err(e) => o == Err::<(Seq<i128>, i128), ContractError>(e),
    }
}

/// Decides a deposit that takes all of the desired amount of the asset at
/// `enforced_asset_index`: the amount of every other asset that keeps the
/// vault's proportions (rounded up, so that the vault is never short) and
/// the shares to mint (rounded down), or the error with which
/// `calculate_optimal_amounts_and_shares_with_enforced_asset` stops the
/// contract.
fn decide_optimal_amounts_and_shares(
    e: &soroban_sdk::Env,
    total_managed_funds: &Vec<CurrentAssetInvestmentAllocation>,
    amounts_desired: &soroban_sdk::Vec<i128>,
    enforced_asset_index: u32,
    total_supply: i128,
) -> (r: Result<(soroban_sdk::Vec<i128>, i128), ContractError>)
    requires
        total_managed_funds@.len() <= u32::MAX,
    ensures
        amounts_and_shares_match(
            r,
            optimal_outcome(
                total_amounts(total_managed_funds@),
                host_items(*amounts_desired),
                enforced_asset_index as int,
                total_supply as int,
            ),
        ),
{
    let ghost totals = total_amounts(total_managed_funds@);
    let ghost desired = host_items(*amounts_desired);
    let idx = enforced_asset_index as usize;
    if idx >= total_managed_funds.len() {
        return Err(ContractError::WrongAmountsLength);
    }
    let reserve_target = total_managed_funds[idx].total_amount;
    assert(reserve_target == totals[idx as int]);
    let amount_desired_target = match amounts_try_get(amounts_desired, enforced_asset_index) {
        Some(Some(a)) => a,
        Some(None) => return Err(ContractError::WrongAmountsLength),
        None => return Err(ContractError::ConversionError),
    };
    if amount_desired_target == 0 {
        return Err(ContractError::InsufficientAmount);
    }
    let ghost expected = optimal_amounts(totals, amount_desired_target, idx as int);
    let mut optimal = amounts_new(e);
    let n = total_managed_funds.len();
    let mut i: usize = 0;
    assert(expected.subrange(0, 0).map_values(|y: i128| Some(y)) =~= Seq::<Option<i128>>::empty());
    while i < n
        invariant
            n == total_managed_funds@.len(),
            n <= u32::MAX,
            totals == total_amounts(total_managed_funds@),
            0 <= idx < n,
            reserve_target == totals[idx as int],
            desired == host_items(*amounts_desired),
            (idx as int) < desired.len(),
            desired[idx as int] == Some(amount_desired_target),
            amount_desired_target != 0,
            idx == enforced_asset_index,
            expected == optimal_amounts(totals, amount_desired_target, idx as int),
            0 <= i <= n,
            forall|k: int|
                0 <= k < i && k != idx ==> !#[trigger] proportional_fails(
                    totals[k] as int,
                    amount_desired_target as int,
                    reserve_target as int,
                ),
            holds_amounts(optimal, expected.subrange(0, i as int)),
        decreases n - i,
    {
        let amount = if i == idx {
            amount_desired_target
        } else {
            let reserve = total_managed_funds[i].total_amount;
            assert(reserve == totals[i as int]);
            let product = match reserve.checked_mul(amount_desired_target) {
                Some(p) => p,
                None => {
                    assert(proportional_fails(totals[i as int] as int, amount_desired_target as int, reserve_target as int));
                    return Err(ContractError::ArithmeticError);
                },
            };
            match divide_rounding_up(product, reserve_target) {
                Ok(a) => a,
                Err(_) => {
                    assert(proportional_fails(totals[i as int] as int, amount_desired_target as int, reserve_target as int));
                    return Err(ContractError::ArithmeticError);
                },
            }
        };
        assert(amount == expected[i as int]);
        amounts_push(&mut optimal, amount);
        assert(expected.subrange(0, i as int + 1) =~= expected.subrange(0, i as int).push(amount));
        proof {
            lemma_holds_push(expected.subrange(0, i as int), amount);
        }
        i += 1;
    }
    assert(expected.subrange(0, n as int) =~= expected);
    let product = match total_supply.checked_mul(amount_desired_target) {
        Some(p) => p,
        None => return Err(ContractError::ArithmeticError),
    };
    proof {
        if reserve_target != 0 {
            lemma_trunc_div_bounds(product as int, reserve_target as int);
        }
    }
    let shares_to_mint = match product.checked_div(reserve_target) {
        Some(q) => q,
        None => return Err(ContractError::ArithmeticError),
    };
    Ok((optimal, shares_to_mint))
}

/// For a deposit that takes all of the desired amount of the asset at
/// `enforced_asset_index`, computes the amount of every other asset that
/// keeps the vault's proportions (rounded up, so that the vault is never
/// short), and the shares to mint (rounded down). An index past the assets
/// or the desired amounts, a desired amount of zero or that is not an
/// `i128`, and amounts that cannot be computed (an enforced reserve of zero
/// among them) stop the contract; callers decide that first with
/// `try_calculate_optimal_amounts_and_shares_with_enforced_asset`.
pub fn calculate_optimal_amounts_and_shares_with_enforced_asset(
    e: &soroban_sdk::Env,
    total_managed_funds: &Vec<CurrentAssetInvestmentAllocation>,
    amounts_desired: &soroban_sdk::Vec<i128>,
    enforced_asset_index: u32,
    total_supply: i128,
) -> (r: (soroban_sdk::Vec<i128>, i128))
    requires
        total_managed_funds@.len() <= u32::MAX,
        optimal_outcome(
            total_amounts(total_managed_funds@),
            host_items(*amounts_desired),
            enforced_asset_index as int,
            total_supply as int,
        ) is Ok,
    ensures
        amounts_and_shares_match(
            Ok(r),
            optimal_outcome(
                total_amounts(total_managed_funds@),
                host_items(*amounts_desired),
                enforced_asset_index as int,
                total_supply as int,
            ),
        ),
{
    match decide_optimal_amounts_and_shares(
        e,
        total_managed_funds,
        amounts_desired,
        enforced_asset_index,
        total_supply,
    ) {
        Ok(found) => found,
        Err(_) => {
            assert(false);
            (amounts_new(e), 0)
        },
    }
}

/// Calculates the amounts and shares of a deposit enforced on one asset
/// where `calculate_optimal_amounts_and_shares_with_enforced_asset` would
/// not stop the contract, and gives the error it would stop it with
/// otherwise.
pub fn try_calculate_optimal_amounts_and_shares_with_enforced_asset(
    e: &soroban_sdk::Env,
    total_managed_funds: &Vec<CurrentAssetInvestmentAllocation>,
    amounts_desired: &soroban_sdk::Vec<i128>,
    enforced_asset_index: u32,
    total_supply: i128,
) -> (r: Result<(soroban_sdk::Vec<i128>, i128), ContractError>)
    requires
        total_managed_funds@.len() <= u32::MAX,
    ensures
        amounts_and_shares_match(
            r,
            optimal_outcome(
                total_amounts(total_managed_funds@),
                host_items(*amounts_desired),
                enforced_asset_index as int,
                total_supply as int,
            ),
        ),
{
    if let Err(err) = decide_optimal_amounts_and_shares(
        e,
        total_managed_funds,
        amounts_desired,
        enforced_asset_index,
        total_supply,
    ) {
        return Err(err);
    }
    Ok(calculate_optimal_amounts_and_shares_with_enforced_asset(
        e,
        total_managed_funds,
        amounts_desired,
        enforced_asset_index,
        total_supply,
    ))
}

/// Screens the assets from position `j` on against a candidate deposit
/// `optimal` enforced on asset `i`: every other asset with funds must be
/// taken at least at its minimum and at most at its desired amount.
/// `Ok(true)` accepts, `Ok(false)` rejects; a desired or minimum amount
/// that is missing, or that is not an `i128`, is an error.
pub open spec fn screen_others(
    totals: Seq<i128>,
    desired: Seq<Option<i128>>,
    mins: Seq<Option<i128>>,
    optimal: Seq<i128>,
    i: int,
    j: int,
) -> Result<bool, ContractError>
    decreases totals.len() - j,
{
    if j < 0 || j >= totals.len() {
        Ok(true)
    } else if j == i || totals[j] == 0 {
        screen_others(totals, desired, mins, optimal, i, j + 1)
    } else if j >= desired.len() {
        Err(ContractError::WrongAmountsLength)
    } else if desired[j] is None {
        Err(ContractError::ConversionError)
    } else if j >= mins.len() {
        Err(ContractError::WrongAmountsLength)
    } else if mins[j] is None {
        Err(ContractError::ConversionError)
    } else if mins[j]->0 <= optimal[j] <= desired[j]->0 {
        screen_others(totals, desired, mins, optimal, i, j + 1)
    } else {
        Ok(false)
    }
}

/// What the search for a deposit gives, trying as the enforced asset each
/// asset with funds from position `i` on, in order: the first candidate
/// that the other assets accept. `Err(e)` is a stop of the contract with
/// `e` (the candidate's amounts cannot be computed, or an amount handed in
/// is not an `i128`); `Ok(Err(e))` is an error returned to the caller (a
/// missing desired or minimum amount of a screened asset, or no acceptable
/// candidate); `Ok(Ok(..))` is the deposit's amounts and shares.
pub open spec fn deposit_verdict(
    totals: Seq<i128>,
    desired: Seq<Option<i128>>,
    mins: Seq<Option<i128>>,
    supply: int,
    i: int,
) -> Result<Result<(Seq<i128>, i128), ContractError>, ContractError>
    decreases totals.len() - i,
{
    if i < 0 || i >= totals.len() {
        Ok(Err(ContractError::NoOptimalAmounts))
    } else if totals[i] == 0 {
        deposit_verdict(totals, desired, mins, supply, i + 1)
    } else {
        match optimal_outcome(totals, desired, i, supply) {
            Err(e) => Err(e),
            Ok((optimal, shares)) => match screen_others(totals, desired, mins, optimal, i, 0) {
                Err(ContractError::ConversionError) => Err(ContractError::ConversionError),
                Err(e) => Ok(Err(e)),
                Ok(true) => Ok(Ok((optimal, shares))),
                Ok(false) => deposit_verdict(totals, desired, mins, supply, i + 1),
            },
        }
    }
}

/// Whether a verdict that carries a host vector of amounts is the verdict
/// `o`, with the vector holding exactly the verdict's amounts.
pub open spec fn verdict_match(
    r: Result<Result<(soroban_sdk::Vec<i128>, i128), ContractError>, ContractError>,
    o: Result<Result<(Seq<i128>, i128), ContractError>, ContractError>,
) -> bool {
    match r {
        Ok(inner) => o matches Ok(o_inner) && amounts_and_shares_match(inner, o_inner),
        Err(e) => o == Err::<Result<(Seq<i128>, i128), ContractError>, ContractError>(e),
    }
}

/// Whether the other assets accept a candidate deposit enforced on asset `i`.
fn fits_other_assets(
    total_managed_funds: &Vec<CurrentAssetInvestmentAllocation>,
    amounts_desired: &soroban_sdk::Vec<i128>,
    amounts_min: &soroban_sdk::Vec<i128>,
    optimal: &soroban_sdk::Vec<i128>,
    Ghost(opt): Ghost<Seq<i128>>,
    i: usize,
) -> (r: Result<bool, ContractError>)
    requires
        total_managed_funds@.len() <= u32::MAX,
        holds_amounts(*optimal, opt),
        opt.len() == total_managed_funds@.len(),
    ensures
        r == screen_others(
            total_amounts(total_managed_funds@),
            host_items(*amounts_desired),
            host_items(*amounts_min),
            opt,
            i as int,
            0,
        ),
{
    let ghost totals = total_amounts(total_managed_funds@);
    let ghost desired = host_items(*amounts_desired);
    let ghost mins = host_items(*amounts_min);
    let n = total_managed_funds.len();
    let mut j: usize = 0;
    while j < n
        invariant
            n == total_managed_funds@.len(),
            n <= u32::MAX,
            totals == total_amounts(total_managed_funds@),
            desired == host_items(*amounts_desired),
            mins == host_items(*amounts_min),
            holds_amounts(*optimal, opt),
            opt.len() == n,
            0 <= j <= n,
            screen_others(totals, desired, mins, opt, i as int, 0) == screen_others(
                totals,
                desired,
                mins,
                opt,
                i as int,
                j as int,
            ),
        decreases n - j,
    {
        assert(totals[j as int] == total_managed_funds[j as int].total_amount);
        if j == i || total_managed_funds[j].total_amount == 0 {
            j += 1;
            continue;
        }
        let desired_amount = match amounts_try_get(amounts_desired, j as u32) {
            Some(Some(a)) => a,
            Some(None) => return Err(ContractError::WrongAmountsLength),
            None => return Err(ContractError::ConversionError),
        };
        let min_amount = match amounts_try_get(amounts_min, j as u32) {
            Some(Some(a)) => a,
            Some(None) => return Err(ContractError::WrongAmountsLength),
            None => return Err(ContractError::ConversionError),
        };
        assert(host_items(*optimal)[j as int] == Some(opt[j as int]));
        let optimal_amount = match amounts_try_get(optimal, j as u32) {
            Some(Some(a)) => a,
            Some(None) => return Err(ContractError::WrongAmountsLength),
            None => return Err(ContractError::ConversionError),
        };
        if optimal_amount <= desired_amount {
            if optimal_amount < min_amount {
                return Ok(false);
            }
        } else {
            return Ok(false);
        }
        j += 1;
    }
    Ok(true)
}

/// Decides the deposit to make from the desired and minimum amounts of
/// each asset: tries each asset with funds, in order, as the one whose
/// desired amount is taken whole, and gives the first candidate whose
/// proportional amounts of the other assets with funds lie between their
/// minimum and desired amounts, with the shares it mints. The outer error is
/// the one with which `calculate_deposit_amounts_and_shares_to_mint` stops
/// the contract; the inner result is what that function returns.
fn decide_deposit_amounts_and_shares(
    e: &soroban_sdk::Env,
    total_managed_funds: &Vec<CurrentAssetInvestmentAllocation>,
    amounts_desired: &soroban_sdk::Vec<i128>,
    amounts_min: &soroban_sdk::Vec<i128>,
    total_supply: i128,
) -> (r: Result<Result<(soroban_sdk::Vec<i128>, i128), ContractError>, ContractError>)
    requires
        total_managed_funds@.len() <= u32::MAX,
    ensures
        verdict_match(
            r,
            deposit_verdict(
                total_amounts(total_managed_funds@),
                host_items(*amounts_desired),
                host_items(*amounts_min),
                total_supply as int,
                0,
            ),
        ),
{
    let ghost totals = total_amounts(total_managed_funds@);
    let ghost desired = host_items(*amounts_desired);
    let ghost mins = host_items(*amounts_min);
    let n = total_managed_funds.len();
    let mut i: usize = 0;
    while i < n
        invariant
            n == total_managed_funds@.len(),
            n <= u32::MAX,
            totals == total_amounts(total_managed_funds@),
            desired == host_items(*amounts_desired),
            mins == host_items(*amounts_min),
            0 <= i <= n,
            deposit_verdict(totals, desired, mins, total_supply as int, 0) == deposit_verdict(
                totals,
                desired,
                mins,
                total_supply as int,
                i as int,
            ),
        decreases n - i,
    {
        assert(totals[i as int] == total_managed_funds[i as int].total_amount);
        if total_managed_funds[i].total_amount == 0 {
            i += 1;
            continue;
        }
        let (optimal, shares_to_mint) = decide_optimal_amounts_and_shares(
            e,
            total_managed_funds,
            amounts_desired,
            i as u32,
            total_supply,
        )?;
        let ghost opt = match optimal_outcome(totals, desired, i as int, total_supply as int) {
            Ok((s, t)) => s,
            Err(_) => Seq::empty(),
        };
        match fits_other_assets(total_managed_funds, amounts_desired, amounts_min, &optimal, Ghost(opt), i) {
            Ok(true) => return Ok(Ok((optimal, shares_to_mint))),
            Ok(false) => {},
            Err(ContractError::ConversionError) => return Err(ContractError::ConversionError),
            Err(err) => return Ok(Err(err)),
        }
        i += 1;
    }
    Ok(Err(ContractError::NoOptimalAmounts))
}

/// Finds the deposit to make from the desired and minimum amounts of each
/// asset: tries each asset with funds, in order, as the one whose desired
/// amount is taken whole, and returns the first candidate whose proportional
/// amounts of the other assets with funds lie between their minimum and
/// desired amounts, with the shares it mints. A missing desired or minimum
/// amount of a screened asset is returned as `WrongAmountsLength`, and no
/// acceptable candidate as `NoOptimalAmounts`. A candidate whose amounts
/// cannot be computed, or an amount that is not an `i128`, stops the
/// contract; callers decide that first with
/// `try_calculate_deposit_amounts_and_shares_to_mint`.
pub fn calculate_deposit_amounts_and_shares_to_mint(
    e: &soroban_sdk::Env,
    total_managed_funds: &Vec<CurrentAssetInvestmentAllocation>,
    amounts_desired: &soroban_sdk::Vec<i128>,
    amounts_min: &soroban_sdk::Vec<i128>,
    total_supply: i128,
) -> (r: Result<(soroban_sdk::Vec<i128>, i128), ContractError>)
    requires
        total_managed_funds@.len() <= u32::MAX,
        deposit_verdict(
            total_amounts(total_managed_funds@),
            host_items(*amounts_desired),
            host_items(*amounts_min),
            total_supply as int,
            0,
        ) is Ok,
    ensures
        verdict_match(
            Ok(r),
            deposit_verdict(
                total_amounts(total_managed_funds@),
                host_items(*amounts_desired),
                host_items(*amounts_min),
                total_supply as int,
                0,
            ),
        ),
{
    match decide_deposit_amounts_and_shares(
        e,
        total_managed_funds,
        amounts_desired,
        amounts_min,
        total_supply,
    ) {
        Ok(decided) => decided,
        Err(_) => {
            assert(false);
            Err(ContractError::NoOptimalAmounts)
        },
    }
}

/// Finds the deposit to make where `calculate_deposit_amounts_and_shares_to_mint`
/// would not stop the contract, and gives the error it would stop it with
/// otherwise: the outer error is the stop, the inner result is what that
/// function returns.
pub fn try_calculate_deposit_amounts_and_shares_to_mint(
    e: &soroban_sdk::Env,
    total_managed_funds: &Vec<CurrentAssetInvestmentAllocation>,
    amounts_desired: &soroban_sdk::Vec<i128>,
    amounts_min: &soroban_sdk::Vec<i128>,
    total_supply: i128,
) -> (r: Result<Result<(soroban_sdk::Vec<i128>, i128), ContractError>, ContractError>)
    requires
        total_managed_funds@.len() <= u32::MAX,
    ensures
        verdict_match(
            r,
            deposit_verdict(
                total_amounts(total_managed_funds@),
                host_items(*amounts_desired),
                host_items(*amounts_min),
                total_supply as int,
                0,
            ),
        ),
{
    if let Err(err) = decide_deposit_amounts_and_shares(
        e,
        total_managed_funds,
        amounts_desired,
        amounts_min,
        total_supply,
    ) {
        return Err(err);
    }
    Ok(calculate_deposit_amounts_and_shares_to_mint(e, total_managed_funds, amounts_desired, amounts_min, total_supply))
}

} // verus!
