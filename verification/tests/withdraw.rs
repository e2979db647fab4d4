use defindex_vault::vault::Vault;
use defindex_vault::{AssetStrategySet, ContractError, CurrentAssetInvestmentAllocation, Strategy};
use soroban_sdk::Env;

fn address(text: &str) -> Vec<u8> {
    text.as_bytes().to_vec()
}

fn one_asset() -> Vec<AssetStrategySet> {
    vec![AssetStrategySet {
        address: address("CTOKEN0"),
        strategies: vec![Strategy { address: address("CSTRATEGYTOKEN0"), name: String::from("Strategy 0"), paused: false }],
    }]
}

fn initialized_vault(env: &Env) -> Vault {
    let mut vault = Vault::new();
    vault
        .initialize(
            env,
            one_asset(),
            address("GMANAGER"),
            address("GEMERGENCYMANAGER"),
            address("GVAULTFEERECEIVER"),
            2000u32,
            address("GPROTOCOLRECEIVER"),
            address("CFACTORY"),
            String::from("dfToken"),
            String::from("DFT"),
        )
        .unwrap();
    vault
}

fn idle_funds(total: i128) -> Vec<CurrentAssetInvestmentAllocation> {
    vec![CurrentAssetInvestmentAllocation {
        asset: address("CTOKEN0"),
        total_amount: total,
        idle_amount: total,
        invested_amount: 0,
        strategy_allocations: Vec::new(),
    }]
}

fn amounts(env: &Env, values: &[i128]) -> soroban_sdk::Vec<i128> {
    let mut v = soroban_sdk::Vec::new(env);
    for x in values {
        v.push_back(*x);
    }
    v
}

#[test]
fn withdraw_test_withdraw_not_yet_initialized() {
    let env = Env::default();
    let vault = Vault::new();
    // A user who was never given shares, in a vault with no shares and no funds.
    let result = vault.withdraw(&env, 100i128, 0, &Vec::new(), 0);
    assert_eq!(result, Err(ContractError::NotInitialized));
}

#[test]
fn withdraw_shares_that_are_not_positive() {
    let env = Env::default();
    let vault = initialized_vault(&env);
    assert_eq!(vault.withdraw(&env, -100, 0, &idle_funds(0), 0), Err(ContractError::AmountNotAllowed));
    assert_eq!(vault.withdraw(&env, 0, 100, &idle_funds(100), 100), Err(ContractError::AmountNotAllowed));
}

#[test]
fn withdraw_with_no_shares_in_supply() {
    let env = Env::default();
    let vault = initialized_vault(&env);
    assert_eq!(vault.withdraw(&env, 100, 0, &idle_funds(0), 0), Err(ContractError::AmountOverTotalSupply));
}

#[test]
fn withdraw_more_shares_than_held() {
    let env = Env::default();
    let vault = initialized_vault(&env);
    // Two users deposited 567890 each; the first holds 1000 less, which stay locked.
    let amount_to_deposit = 567890i128;
    let user_shares = amount_to_deposit - 1000;
    let result = vault.withdraw(&env, user_shares + 1, user_shares, &idle_funds(amount_to_deposit * 2), amount_to_deposit * 2);
    assert_eq!(result, Err(ContractError::InsufficientBalance));
}

#[test]
fn withdraw_from_idle_pays_the_share_of_funds() {
    let env = Env::default();
    let vault = initialized_vault(&env);
    let amount_to_deposit = 567890i128;
    // One holder: as many shares in supply as tokens in the vault.
    let result = vault.withdraw(&env, 123456, amount_to_deposit - 1000, &idle_funds(amount_to_deposit), amount_to_deposit);
    assert_eq!(result, Ok(amounts(&env, &[123456])));

    // Funds that grew by a half make each share worth half as much more.
    let result = vault.withdraw(&env, 1000, 2000, &idle_funds(3000), 2000);
    assert_eq!(result, Ok(amounts(&env, &[1500])));

    // Parts are rounded toward zero.
    let result = vault.withdraw(&env, 1, 2, &idle_funds(5), 3);
    assert_eq!(result, Ok(amounts(&env, &[1])));
}
