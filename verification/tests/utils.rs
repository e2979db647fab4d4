use defindex_vault::utils::{
    calculate_asset_amounts_per_vault_shares, calculate_deposit_amounts_and_shares_to_mint,
    calculate_optimal_amounts_and_shares_with_enforced_asset, check_assets, check_strategies,
    try_calculate_deposit_amounts_and_shares_to_mint, try_calculate_optimal_amounts_and_shares_with_enforced_asset,
    validate_assets, validate_strategies,
};
use defindex_vault::{
    divide_rounding_up, validate_amount, AssetStrategySet, ContractError, CurrentAssetInvestmentAllocation,
    Strategy,
};
use soroban_sdk::{Env, IntoVal, TryFromVal, Val};

fn address(text: &str) -> Vec<u8> {
    text.as_bytes().to_vec()
}

fn strategy(addr: &str) -> Strategy {
    Strategy { address: address(addr), name: String::from(addr), paused: false }
}

fn funds(totals: &[i128]) -> Vec<CurrentAssetInvestmentAllocation> {
    totals
        .iter()
        .enumerate()
        .map(|(i, t)| CurrentAssetInvestmentAllocation {
            asset: format!("CTOKEN{}", i).into_bytes(),
            total_amount: *t,
            idle_amount: *t,
            invested_amount: 0,
            strategy_allocations: Vec::new(),
        })
        .collect()
}

fn amounts(env: &Env, values: &[i128]) -> soroban_sdk::Vec<i128> {
    let mut v = soroban_sdk::Vec::new(env);
    for x in values {
        v.push_back(*x);
    }
    v
}

#[test]
fn validate_amount_refuses_negative() {
    assert_eq!(validate_amount(-1), Err(ContractError::AmountNotAllowed));
    assert_eq!(validate_amount(i128::MIN), Err(ContractError::AmountNotAllowed));
    assert_eq!(validate_amount(0), Ok(()));
    assert_eq!(validate_amount(100), Ok(()));
}

#[test]
fn divide_rounding_up_values() {
    assert_eq!(divide_rounding_up(7, 2), Ok(4));
    assert_eq!(divide_rounding_up(6, 2), Ok(3));
    assert_eq!(divide_rounding_up(0, 5), Ok(0));
    assert_eq!(divide_rounding_up(1, 1000), Ok(1));
    assert_eq!(divide_rounding_up(i128::MAX, 1), Ok(i128::MAX));
    // A remainder adds one whatever the signs: -7 / 2 is -3 toward zero.
    assert_eq!(divide_rounding_up(-7, 2), Ok(-2));
    assert_eq!(divide_rounding_up(7, -2), Ok(-2));
    assert_eq!(divide_rounding_up(5, 0), Err(ContractError::ArithmeticError));
    assert_eq!(divide_rounding_up(i128::MIN, -1), Err(ContractError::ArithmeticError));
}

#[test]
fn validate_strategies_finds_repeats() {
    let env = Env::default();
    assert_eq!(check_strategies(&env, &Vec::new()), Ok(()));
    assert_eq!(check_strategies(&env, &vec![strategy("CS1"), strategy("CS2")]), Ok(()));
    validate_strategies(&env, &vec![strategy("CS1"), strategy("CS2")]);
    assert_eq!(
        check_strategies(&env, &vec![strategy("CS1"), strategy("CS2"), strategy("CS1")]),
        Err(ContractError::DuplicatedStrategy)
    );
}

#[test]
fn validate_assets_first_fault_decides() {
    let env = Env::default();
    let asset = |a: &str, strategies: Vec<Strategy>| AssetStrategySet { address: address(a), strategies };
    assert_eq!(check_assets(&env, &Vec::new()), Err(ContractError::NoAssetAllocation));
    let accepted = vec![asset("CT0", vec![strategy("CS1")]), asset("CT1", vec![strategy("CS1")])];
    assert_eq!(check_assets(&env, &accepted), Ok(()));
    validate_assets(&env, &accepted);
    assert_eq!(
        check_assets(&env, &vec![asset("CT0", vec![]), asset("CT0", vec![])]),
        Err(ContractError::DuplicatedAsset)
    );
    // The first asset repeats a strategy before the second repeats the first asset.
    assert_eq!(
        check_assets(
            &env,
            &vec![asset("CT0", vec![strategy("CS1"), strategy("CS1")]), asset("CT0", vec![])]
        ),
        Err(ContractError::DuplicatedStrategy)
    );
    // The repeated asset comes before the repeated strategy of the third.
    assert_eq!(
        check_assets(
            &env,
            &vec![asset("CT0", vec![]), asset("CT0", vec![]), asset("CT2", vec![strategy("CS1"), strategy("CS1")])]
        ),
        Err(ContractError::DuplicatedAsset)
    );
}

#[test]
fn asset_amounts_per_shares_after_first_deposit() {
    let env = Env::default();
    let amount0 = 123456789i128;
    let amount1 = 987654321i128;
    let totals = funds(&[amount0, amount1]);
    let supply = amount0 + amount1;
    let worth = |shares: i128| calculate_asset_amounts_per_vault_shares(&env, shares, &totals, supply);
    assert_eq!(worth(0), Ok(amounts(&env, &[0, 0])));
    assert_eq!(worth(1000), Ok(amounts(&env, &[111, 888])));
    assert_eq!(worth(2000), Ok(amounts(&env, &[222, 1777])));
    assert_eq!(worth(3000), Ok(amounts(&env, &[333, 2666])));
    assert_eq!(worth(4000), Ok(amounts(&env, &[444, 3555])));
    assert_eq!(worth(5000), Ok(amounts(&env, &[555, 4444])));
    assert_eq!(worth(supply), Ok(amounts(&env, &[amount0, amount1])));
    assert_eq!(worth(1111111111), Err(ContractError::AmountOverTotalSupply));
}

#[test]
fn asset_amounts_per_shares_errors() {
    let env = Env::default();
    // No supply to share an asset among: a division by zero.
    assert_eq!(
        calculate_asset_amounts_per_vault_shares(&env, 0, &funds(&[10]), 0),
        Err(ContractError::ArithmeticError)
    );
    // More shares than the supply, even an empty one.
    assert_eq!(
        calculate_asset_amounts_per_vault_shares(&env, 1, &funds(&[10]), 0),
        Err(ContractError::AmountOverTotalSupply)
    );
    // No asset: nothing to share.
    assert_eq!(calculate_asset_amounts_per_vault_shares(&env, 0, &Vec::new(), 0), Ok(amounts(&env, &[])));
    // The product overflows.
    assert_eq!(
        calculate_asset_amounts_per_vault_shares(&env, 4, &funds(&[1, i128::MAX / 2]), 10),
        Err(ContractError::ArithmeticError)
    );
}

#[test]
fn optimal_amounts_with_enforced_asset() {
    let env = Env::default();
    let amount0 = 123456789i128;
    let amount1 = 987654321i128;
    let totals = funds(&[amount0, amount1]);
    let supply = amount0 + amount1;
    // Enforcing the first asset: the second is rounded up.
    let desired = amounts(&env, &[amount0 * 2 + 100, amount1 * 2]);
    let r = calculate_optimal_amounts_and_shares_with_enforced_asset(&env, &totals, &desired, 0, supply);
    assert_eq!(r, (amounts(&env, &[amount0 * 2 + 100, amount1 * 2 + 801]), 2 * supply + 900));
    // Enforcing the second asset.
    let r = try_calculate_optimal_amounts_and_shares_with_enforced_asset(&env, &totals, &desired, 1, supply);
    assert_eq!(r, Ok((amounts(&env, &[amount0 * 2, amount1 * 2]), 2 * supply)));
}

#[test]
fn optimal_amounts_errors() {
    let env = Env::default();
    let totals = funds(&[100, 200]);
    let desired = amounts(&env, &[10, 20]);
    assert_eq!(
        try_calculate_optimal_amounts_and_shares_with_enforced_asset(&env, &totals, &desired, 2, 300),
        Err(ContractError::WrongAmountsLength)
    );
    assert_eq!(
        try_calculate_optimal_amounts_and_shares_with_enforced_asset(&env, &totals, &amounts(&env, &[10]), 1, 300),
        Err(ContractError::WrongAmountsLength)
    );
    assert_eq!(
        try_calculate_optimal_amounts_and_shares_with_enforced_asset(&env, &totals, &amounts(&env, &[0, 20]), 0, 300),
        Err(ContractError::InsufficientAmount)
    );
    // An enforced asset with no reserve cannot be divided by.
    assert_eq!(
        try_calculate_optimal_amounts_and_shares_with_enforced_asset(&env, &funds(&[0, 200]), &desired, 0, 300),
        Err(ContractError::ArithmeticError)
    );
    let large_amount = i128::MAX / 2;
    assert_eq!(
        try_calculate_optimal_amounts_and_shares_with_enforced_asset(
            &env,
            &funds(&[large_amount]),
            &amounts(&env, &[large_amount]),
            0,
            large_amount
        ),
        Err(ContractError::ArithmeticError)
    );
}

#[test]
fn deposit_amounts_follow_the_vault_proportions() {
    let env = Env::default();
    let amount0 = 123456789i128;
    let amount1 = 987654321i128;
    let supply = amount0 + amount1;
    let zero_mins = amounts(&env, &[0, 0]);

    // More of the first asset than the proportion: the second is enforced.
    let r = calculate_deposit_amounts_and_shares_to_mint(
        &env,
        &funds(&[amount0, amount1]),
        &amounts(&env, &[amount0 * 2 + 100, amount1 * 2]),
        &zero_mins,
        supply,
    );
    assert_eq!(r, Ok((amounts(&env, &[amount0 * 2, amount1 * 2]), amount0 * 2 + amount1 * 2)));

    // More of the second asset than the proportion: the first is enforced.
    let r = calculate_deposit_amounts_and_shares_to_mint(
        &env,
        &funds(&[amount0 * 3, amount1 * 3]),
        &amounts(&env, &[amount0 * 2, amount1 * 2 + 100]),
        &zero_mins,
        supply * 3,
    );
    assert_eq!(r, Ok((amounts(&env, &[amount0 * 2, amount1 * 2]), amount0 * 2 + amount1 * 2)));
}

#[test]
fn deposit_minimums_that_no_candidate_meets() {
    let env = Env::default();
    let amount0 = 123456789i128;
    let amount1 = 987654321i128;
    let r = calculate_deposit_amounts_and_shares_to_mint(
        &env,
        &funds(&[amount0, amount1]),
        &amounts(&env, &[amount0 * 2 + 100, amount1 * 2]),
        &amounts(&env, &[amount0 * 2 + 1, amount1 * 2]),
        amount0 + amount1,
    );
    assert_eq!(r, Err(ContractError::NoOptimalAmounts));
}

#[test]
fn deposit_skips_assets_without_funds() {
    let env = Env::default();
    // The first asset holds nothing: it is neither enforced nor screened.
    let r = calculate_deposit_amounts_and_shares_to_mint(
        &env,
        &funds(&[0, 1000]),
        &amounts(&env, &[5, 100]),
        &amounts(&env, &[50, 100]),
        500,
    );
    assert_eq!(r, Ok((amounts(&env, &[0, 100]), 50)));
    // No asset holds anything: there is no candidate.
    let r = calculate_deposit_amounts_and_shares_to_mint(
        &env,
        &funds(&[0, 0]),
        &amounts(&env, &[5, 100]),
        &amounts(&env, &[0, 0]),
        0,
    );
    assert_eq!(r, Err(ContractError::NoOptimalAmounts));
}

#[test]
fn deposit_errors() {
    let env = Env::default();
    let totals = funds(&[100, 200]);
    // A missing desired amount for the enforced asset.
    let r = try_calculate_deposit_amounts_and_shares_to_mint(&env, &totals, &amounts(&env, &[]), &amounts(&env, &[0, 0]), 300);
    assert_eq!(r, Err(ContractError::WrongAmountsLength));
    // A missing minimum for a screened asset.
    let r = calculate_deposit_amounts_and_shares_to_mint(&env, &totals, &amounts(&env, &[10, 20]), &amounts(&env, &[0]), 300);
    assert_eq!(r, Err(ContractError::WrongAmountsLength));
    let r = try_calculate_deposit_amounts_and_shares_to_mint(&env, &totals, &amounts(&env, &[10, 20]), &amounts(&env, &[0]), 300);
    assert_eq!(r, Ok(Err(ContractError::WrongAmountsLength)));
    // A desired amount of zero for the first candidate.
    let r = try_calculate_deposit_amounts_and_shares_to_mint(&env, &totals, &amounts(&env, &[0, 20]), &amounts(&env, &[0, 0]), 300);
    assert_eq!(r, Err(ContractError::InsufficientAmount));
    // The shares overflow.
    let large_amount = i128::MAX / 2;
    let r = try_calculate_deposit_amounts_and_shares_to_mint(
        &env,
        &funds(&[large_amount]),
        &amounts(&env, &[large_amount]),
        &amounts(&env, &[large_amount]),
        large_amount,
    );
    assert_eq!(r, Err(ContractError::ArithmeticError));
}

#[test]
fn deposit_then_withdraw_gives_back_no_more() {
    let env = Env::default();
    let totals = [1000i128, 3333];
    let supply = 777i128;
    let (deposited, shares) = calculate_deposit_amounts_and_shares_to_mint(
        &env,
        &funds(&totals),
        &amounts(&env, &[10, 100]),
        &amounts(&env, &[0, 0]),
        supply,
    )
    .unwrap();
    assert_eq!(deposited, amounts(&env, &[10, 34]));
    assert_eq!(shares, 7);
    let after = funds(&[totals[0] + 10, totals[1] + 34]);
    let back = calculate_asset_amounts_per_vault_shares(&env, shares, &after, supply + shares).unwrap();
    assert_eq!(back, amounts(&env, &[9, 30]));
    assert!(back.get(0).unwrap() <= deposited.get(0).unwrap());
    assert!(back.get(1).unwrap() <= deposited.get(1).unwrap());
}

/// A host vector typed as amounts whose item at `pos` is not an `i128`,
/// as a contract can be handed one from outside; the others are zero.
fn amounts_with_a_bool_at(env: &Env, len: usize, pos: usize) -> soroban_sdk::Vec<i128> {
    let mut raw: soroban_sdk::Vec<Val> = soroban_sdk::Vec::new(env);
    for k in 0..len {
        if k == pos {
            raw.push_back(true.into_val(env));
        } else {
            raw.push_back(0i128.into_val(env));
        }
    }
    soroban_sdk::Vec::<i128>::try_from_val(env, &raw.to_val()).unwrap()
}

#[test]
fn amounts_that_are_not_i128_are_refused() {
    let env = Env::default();
    // The enforced asset's desired amount.
    assert_eq!(
        try_calculate_optimal_amounts_and_shares_with_enforced_asset(
            &env,
            &funds(&[100]),
            &amounts_with_a_bool_at(&env, 1, 0),
            0,
            100
        ),
        Err(ContractError::ConversionError)
    );
    // The minimum of a screened asset.
    let r = try_calculate_deposit_amounts_and_shares_to_mint(
        &env,
        &funds(&[100, 100]),
        &amounts(&env, &[10, 10]),
        &amounts_with_a_bool_at(&env, 2, 1),
        100,
    );
    assert_eq!(r, Err(ContractError::ConversionError));
    // The desired amount of a screened asset.
    let mut desired = amounts_with_a_bool_at(&env, 2, 1);
    desired.set(0, 10);
    let r = try_calculate_deposit_amounts_and_shares_to_mint(&env, &funds(&[100, 100]), &desired, &amounts(&env, &[0, 0]), 100);
    assert_eq!(r, Err(ContractError::ConversionError));
    // An item that is never read does not matter.
    let r = calculate_deposit_amounts_and_shares_to_mint(
        &env,
        &funds(&[100, 0]),
        &amounts(&env, &[10, 0]),
        &amounts_with_a_bool_at(&env, 2, 0),
        100,
    );
    assert_eq!(r, Ok((amounts(&env, &[10, 0]), 10)));
}

#[test]
fn deposit_with_zero_amounts_stops_the_contract() {
    let env = Env::default();
    let totals = funds(&[0, 2002, 4004]);
    // Enforcing the second asset needs more of the third than desired; the
    // third, enforced next, is desired at zero.
    let r = try_calculate_deposit_amounts_and_shares_to_mint(
        &env,
        &totals,
        &amounts(&env, &[100000000, 100000000, 0]),
        &amounts(&env, &[90000000, 90000000, 0]),
        6006,
    );
    assert_eq!(r, Err(ContractError::InsufficientAmount));
    // The first asset with funds is desired at zero.
    let r = try_calculate_deposit_amounts_and_shares_to_mint(
        &env,
        &totals,
        &amounts(&env, &[100000000, 0, 0]),
        &amounts(&env, &[0, 0, 0]),
        6006,
    );
    assert_eq!(r, Err(ContractError::InsufficientAmount));
}

#[test]
fn split_withdrawal_pays_no_more_than_whole() {
    let env = Env::default();
    let totals = funds(&[1000, 7]);
    let supply = 3i128;
    let whole = calculate_asset_amounts_per_vault_shares(&env, 2, &totals, supply);
    assert_eq!(whole, Ok(amounts(&env, &[666, 4])));
    let first = calculate_asset_amounts_per_vault_shares(&env, 1, &totals, supply);
    assert_eq!(first, Ok(amounts(&env, &[333, 2])));
    let rest = funds(&[1000 - 333, 7 - 2]);
    let second = calculate_asset_amounts_per_vault_shares(&env, 1, &rest, supply - 1);
    assert_eq!(second, Ok(amounts(&env, &[333, 2])));
}
