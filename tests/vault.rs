use tuxedo::{Party, Principal, Strategy, StrategyAction, TuxedoVault, VaultError, SCALE};

fn principal(tag: &str) -> Principal {
    Principal::from_bytes(tag.as_bytes())
}

fn ready_vault() -> TuxedoVault {
    let mut vault = TuxedoVault::new();
    vault
        .initialize(principal("admin"), principal("agent"), principal("platform"), principal("usdc"))
        .unwrap();
    vault
}

#[test]
fn lib_test_initialize() {
    let vault = ready_vault();
    assert_eq!(vault.get_admin().as_bytes(), b"admin");
    assert_eq!(vault.get_agent().as_bytes(), b"agent");
    assert_eq!(vault.get_platform().as_bytes(), b"platform");
    assert_eq!(vault.get_asset().as_bytes(), b"usdc");
}

#[test]
fn test_double_initialize() {
    let mut vault = ready_vault();
    let again =
        vault.initialize(principal("admin"), principal("agent"), principal("platform"), principal("usdc"));
    assert_eq!(again, Err(VaultError::AlreadyInitialized));
    assert_eq!(vault.get_admin().as_bytes(), b"admin");
}

#[test]
fn test_share_value_calculation() {
    let vault = ready_vault();
    let share_value = vault.get_share_value(0).unwrap();
    assert_eq!(share_value, SCALE);
    assert_eq!(share_value, 10_000_000);
}

#[test]
fn first_deposit_mints_one_to_one_at_par() {
    let mut vault = ready_vault();
    let user = principal("alice");
    assert_eq!(vault.deposit(&user, 5_000, 0), Ok(5_000));
    assert_eq!(vault.get_user_shares(&user), 5_000);
    assert_eq!(vault.get_total_shares(), 5_000);
    assert_eq!(vault.get_deposit_basis(), 5_000);
    assert_eq!(vault.get_share_value(5_000), Ok(SCALE));
}

#[test]
fn round_trip_at_par_returns_deposit() {
    let mut vault = ready_vault();
    let user = principal("alice");
    let minted = vault.deposit(&user, 1_234_567, 0).unwrap();
    let back = vault.withdraw(&user, minted, 1_234_567).unwrap();
    assert_eq!(back, 1_234_567);
    assert_eq!(vault.get_total_shares(), 0);
    assert_eq!(vault.get_deposit_basis(), 0);
    assert_eq!(vault.get_holder_count(), 0);
}

#[test]
fn round_trip_off_par_loses_to_rounding() {
    let mut vault = ready_vault();
    let early = principal("early");
    let user = principal("alice");
    assert_eq!(vault.deposit(&early, 1, 0), Ok(1));
    // The venue returned 3 units of yield: share value is 4 units per share.
    assert_eq!(vault.get_share_value(4), Ok(40_000_000));
    let minted = vault.deposit(&user, 7, 4).unwrap();
    assert_eq!(minted, 1);
    assert_eq!(vault.withdraw(&user, minted, 11), Ok(5));
}

#[test]
fn yield_split_is_exact() {
    let mut vault = ready_vault();
    let user = principal("alice");
    assert_eq!(vault.deposit(&user, 1_000_000_000, 0), Ok(1_000_000_000));
    assert_eq!(vault.get_deposit_basis(), 1_000_000_000);
    assert_eq!(vault.distribute_yield(1_100_000_000), Ok((100_000_000, 2_000_000)));
    assert_eq!(vault.get_deposit_basis(), 1_098_000_000);
    assert_eq!(vault.get_total_shares(), 1_000_000_000);
    assert_eq!(vault.get_user_shares(&user), 1_000_000_000);
}

#[test]
fn second_distribution_finds_no_yield() {
    let mut vault = ready_vault();
    let user = principal("alice");
    vault.deposit(&user, 1_000_000_000, 0).unwrap();
    let (_, fee) = vault.distribute_yield(1_100_000_000).unwrap();
    let live_after_fee = 1_100_000_000 - fee;
    assert_eq!(vault.distribute_yield(live_after_fee), Err(VaultError::NoYieldToDistribute));
    assert_eq!(vault.get_deposit_basis(), 1_098_000_000);
}

#[test]
fn dust_yield_is_left_to_accrue() {
    let mut vault = ready_vault();
    let user = principal("alice");
    vault.deposit(&user, 1_000, 0).unwrap();
    assert_eq!(vault.distribute_yield(1_000), Err(VaultError::NoYieldToDistribute));
    assert_eq!(vault.distribute_yield(900), Err(VaultError::NoYieldToDistribute));
    // 49 units of yield give a fee of 0.98, which rounds to zero.
    assert_eq!(vault.distribute_yield(1_049), Err(VaultError::NoYieldToDistribute));
    assert_eq!(vault.distribute_yield(1_050), Ok((50, 1)));
    assert_eq!(vault.get_deposit_basis(), 1_049);
}

#[test]
fn agent_execute_rejects_other_callers() {
    let mut vault = ready_vault();
    let user = principal("alice");
    vault.deposit(&user, 600, 0).unwrap();
    let strategy = Strategy {
        action: StrategyAction::Supply,
        pool: principal("pool"),
        asset: principal("usdc"),
        amount: 100,
    };
    assert_eq!(vault.agent_execute(&user, &strategy).err(), Some(VaultError::NotAuthorized));
    assert_eq!(vault.agent_execute(&principal("admin"), &strategy).err(), Some(VaultError::NotAuthorized));
    assert_eq!(vault.get_total_shares(), 600);
    assert_eq!(vault.get_deposit_basis(), 600);
    assert_eq!(vault.get_user_shares(&user), 600);
}

#[test]
fn agent_execute_supply_moves_to_venue() {
    let vault = ready_vault();
    let strategy = Strategy {
        action: StrategyAction::Supply,
        pool: principal("pool"),
        asset: principal("usdc"),
        amount: 250,
    };
    let t = vault.agent_execute(&principal("agent"), &strategy).unwrap();
    assert!(matches!(t.from, Party::Vault));
    match t.to {
        Party::Account(p) => assert_eq!(p.as_bytes(), b"pool"),
        Party::Vault => panic!("supply must leave the vault"),
    }
    assert_eq!(t.asset.as_bytes(), b"usdc");
    assert_eq!(t.amount, 250);
}

#[test]
fn agent_execute_withdraw_moves_to_vault() {
    let vault = ready_vault();
    let strategy = Strategy {
        action: StrategyAction::Withdraw,
        pool: principal("pool"),
        asset: principal("usdc"),
        amount: 40,
    };
    let t = vault.agent_execute(&principal("agent"), &strategy).unwrap();
    assert!(matches!(t.to, Party::Vault));
    match t.from {
        Party::Account(p) => assert_eq!(p.as_bytes(), b"pool"),
        Party::Vault => panic!("withdraw must come from the venue"),
    }
    assert_eq!(t.amount, 40);
}

#[test]
fn agent_execute_rejects_non_positive_amount() {
    let vault = ready_vault();
    let strategy = Strategy {
        action: StrategyAction::Supply,
        pool: principal("pool"),
        asset: principal("usdc"),
        amount: 0,
    };
    assert_eq!(vault.agent_execute(&principal("agent"), &strategy).err(), Some(VaultError::InvalidAmount));
}

#[test]
fn withdrawing_more_than_held_changes_nothing() {
    let mut vault = ready_vault();
    let user = principal("alice");
    vault.deposit(&user, 500, 0).unwrap();
    let before = format!("{:?}", vault);
    assert_eq!(vault.withdraw(&user, 501, 500), Err(VaultError::InsufficientShares));
    assert_eq!(format!("{:?}", vault), before);
    assert_eq!(vault.get_user_shares(&user), 500);
}

#[test]
fn withdrawal_reduces_basis_proportionally() {
    let mut vault = ready_vault();
    let a = principal("alice");
    let b = principal("bob");
    assert_eq!(vault.deposit(&a, 600, 0), Ok(600));
    assert_eq!(vault.deposit(&b, 400, 600), Ok(400));
    assert_eq!(vault.get_deposit_basis(), 1_000);
    assert_eq!(vault.withdraw(&a, 600, 1_000), Ok(600));
    assert_eq!(vault.get_deposit_basis(), 400);
    assert_eq!(vault.get_total_shares(), 400);
    assert_eq!(vault.get_user_shares(&a), 0);
    assert_eq!(vault.get_user_shares(&b), 400);
    assert_eq!(vault.get_holder_count(), 1);
}

#[test]
fn partial_withdrawal_keeps_entry() {
    let mut vault = ready_vault();
    let a = principal("alice");
    vault.deposit(&a, 1_000, 0).unwrap();
    assert_eq!(vault.withdraw(&a, 250, 1_000), Ok(250));
    assert_eq!(vault.get_user_shares(&a), 750);
    assert_eq!(vault.get_deposit_basis(), 750);
    assert_eq!(vault.get_holder_count(), 1);
}

#[test]
fn deposit_after_yield_mints_fewer_shares() {
    let mut vault = ready_vault();
    let a = principal("alice");
    let b = principal("bob");
    vault.deposit(&a, 1_000, 0).unwrap();
    // Live assets doubled through the venue: share value is 2.0.
    assert_eq!(vault.get_share_value(2_000), Ok(20_000_000));
    assert_eq!(vault.deposit(&b, 1_000, 2_000), Ok(500));
    assert_eq!(vault.get_total_shares(), 1_500);
    assert_eq!(vault.get_deposit_basis(), 2_000);
    let stats = vault.get_vault_stats(3_000).unwrap();
    assert_eq!(stats.total_assets, 3_000);
    assert_eq!(stats.total_shares, 1_500);
    assert_eq!(stats.share_value, 20_000_000);
    assert_eq!(stats.initial_deposits, 2_000);
}

#[test]
fn deposit_into_drained_vault_is_one_to_one() {
    let mut vault = ready_vault();
    let a = principal("alice");
    let b = principal("bob");
    vault.deposit(&a, 1_000, 0).unwrap();
    // All assets are deployed in the venue: share value reads zero.
    assert_eq!(vault.get_share_value(0), Ok(0));
    assert_eq!(vault.deposit(&b, 300, 0), Ok(300));
    assert_eq!(vault.get_total_shares(), 1_300);
}

#[test]
fn invalid_amounts_are_refused() {
    let mut vault = ready_vault();
    let a = principal("alice");
    assert_eq!(vault.deposit(&a, 0, 0), Err(VaultError::InvalidAmount));
    assert_eq!(vault.deposit(&a, -5, 0), Err(VaultError::InvalidAmount));
    vault.deposit(&a, 1_000, 0).unwrap();
    assert_eq!(vault.withdraw(&a, 0, 1_000), Err(VaultError::InvalidAmount));
    // Share value 0.5: one share is worth less than one unit.
    assert_eq!(vault.withdraw(&a, 1, 500), Err(VaultError::InvalidAmount));
    // Share value 10 000: a deposit of one unit buys no share.
    assert_eq!(vault.deposit(&a, 1, 10_000_000), Err(VaultError::InvalidAmount));
    assert_eq!(vault.get_total_shares(), 1_000);
}

#[test]
fn withdrawal_needs_live_assets() {
    let mut vault = ready_vault();
    let a = principal("alice");
    let b = principal("bob");
    vault.deposit(&a, 1_000, 0).unwrap();
    vault.deposit(&b, 1_000, 1_000).unwrap();
    // Half the assets are out in the venue, but the share value counts only
    // what the vault holds.
    assert_eq!(vault.withdraw(&a, 1_000, 1_000), Ok(500));
    assert_eq!(vault.get_share_value(500), Ok(SCALE / 2));
}

#[test]
fn overflow_is_an_error() {
    let mut vault = ready_vault();
    let a = principal("alice");
    let huge = i128::MAX / 2;
    assert_eq!(vault.deposit(&a, huge, 0), Err(VaultError::ArithmeticOverflow));
    vault.deposit(&a, 10, 0).unwrap();
    assert_eq!(vault.get_share_value(i128::MAX), Err(VaultError::ArithmeticOverflow));
    assert_eq!(vault.distribute_yield(i128::MAX), Err(VaultError::ArithmeticOverflow));
    assert_eq!(vault.get_total_shares(), 10);
}

#[test]
fn principals_compare_by_key() {
    let a = principal("alice");
    assert!(a.same(&principal("alice")));
    assert!(!a.same(&principal("alicf")));
    assert!(!a.same(&principal("alic")));
    assert_eq!(a.duplicate().as_bytes(), b"alice");
}

fn config() -> tuxedo::VaultConfig {
    tuxedo::VaultConfig {
        admin: principal("admin"),
        agent: principal("agent"),
        platform: principal("platform"),
        asset: principal("usdc"),
    }
}

#[test]
fn restore_rebuilds_saved_state() {
    let mut vault = ready_vault();
    vault.deposit(&principal("alice"), 600, 0).unwrap();
    vault.deposit(&principal("bob"), 400, 600).unwrap();
    let saved = vault.holdings();
    let restored = TuxedoVault::restore(config(), vault.get_deposit_basis(), &saved).unwrap();
    assert_eq!(restored.get_total_shares(), 1_000);
    assert_eq!(restored.get_deposit_basis(), 1_000);
    assert_eq!(restored.get_user_shares(&principal("alice")), 600);
    assert_eq!(restored.get_user_shares(&principal("bob")), 400);
    assert_eq!(restored.get_agent().as_bytes(), b"agent");
}

#[test]
fn restore_merges_and_checks_entries() {
    let list = vec![(principal("a"), 5), (principal("b"), 7), (principal("a"), 3)];
    let v = TuxedoVault::restore(config(), 0, &list).unwrap();
    assert_eq!(v.get_user_shares(&principal("a")), 8);
    assert_eq!(v.get_total_shares(), 15);
    assert_eq!(v.get_holder_count(), 2);
    let bad = vec![(principal("a"), 5), (principal("b"), 0)];
    assert_eq!(TuxedoVault::restore(config(), 0, &bad).err(), Some(VaultError::InvalidAmount));
    assert_eq!(TuxedoVault::restore(config(), -1, &list).err(), Some(VaultError::InvalidAmount));
    let huge = vec![(principal("a"), i128::MAX), (principal("b"), 1)];
    assert_eq!(TuxedoVault::restore(config(), 0, &huge).err(), Some(VaultError::ArithmeticOverflow));
}

#[test]
fn ledger_always_sums_to_total_shares() {
    let mut vault = ready_vault();
    let (a, b, c) = (principal("a"), principal("b"), principal("c"));
    vault.deposit(&a, 1_000, 0).unwrap();
    vault.deposit(&b, 2_500, 1_000).unwrap();
    vault.distribute_yield(4_000).unwrap();
    let live = 4_000 - 10;
    vault.deposit(&c, 777, live).unwrap();
    let live = live + 777;
    let paid = vault.withdraw(&b, 1_200, live).unwrap();
    let live = live - paid;
    let sum: i128 = vault.holdings().iter().map(|(_, s)| *s).sum();
    assert_eq!(sum, vault.get_total_shares());
    let value = vault.get_share_value(live).unwrap();
    assert!(value * vault.get_total_shares() / SCALE <= live);
}
