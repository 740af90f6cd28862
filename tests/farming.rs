use tuxedo::{FarmingError, Principal, TuxFarming};

fn principal(tag: &str) -> Principal {
    Principal::from_bytes(tag.as_bytes())
}

fn ready_farm() -> TuxFarming {
    let mut farm = TuxFarming::new();
    farm.initialize(principal("admin"), principal("tux")).unwrap();
    farm
}

#[test]
fn farm_initializes_once() {
    let mut farm = ready_farm();
    assert_eq!(farm.get_admin().as_bytes(), b"admin");
    assert_eq!(farm.get_tux_token().as_bytes(), b"tux");
    assert_eq!(farm.initialize(principal("x"), principal("y")), Err(FarmingError::AlreadyInitialized));
    assert_eq!(farm.get_admin().as_bytes(), b"admin");
}

#[test]
fn only_owner_adds_pools() {
    let mut farm = ready_farm();
    let pool = principal("lp");
    assert_eq!(farm.add_pool(&principal("mallory"), &pool, &principal("lp_token")), Err(FarmingError::NotAuthorized));
    assert_eq!(farm.get_pool_token(&pool).err(), Some(FarmingError::PoolNotFound));
    assert_eq!(farm.add_pool(&principal("admin"), &pool, &principal("lp_token")), Ok(()));
    assert_eq!(farm.get_pool_token(&pool).unwrap().as_bytes(), b"lp_token");
}

#[test]
fn stake_and_unstake_track_amounts() {
    let mut farm = ready_farm();
    let pool = principal("lp");
    let user = principal("alice");
    farm.add_pool(&principal("admin"), &pool, &principal("lp_token")).unwrap();
    let token = farm.stake(&user, &pool, 300).unwrap();
    assert_eq!(token.as_bytes(), b"lp_token");
    farm.stake(&user, &pool, 200).unwrap();
    assert_eq!(farm.get_user_stake(&user, &pool), 500);
    assert_eq!(farm.get_user_stake(&principal("bob"), &pool), 0);
    assert_eq!(farm.unstake(&user, &pool, 501).err(), Some(FarmingError::InsufficientBalance));
    assert_eq!(farm.unstake(&user, &pool, 500).unwrap().as_bytes(), b"lp_token");
    assert_eq!(farm.get_user_stake(&user, &pool), 0);
}

#[test]
fn stake_checks_amount_and_pool() {
    let mut farm = ready_farm();
    let user = principal("alice");
    assert_eq!(farm.stake(&user, &principal("none"), 0).err(), Some(FarmingError::InvalidAmount));
    assert_eq!(farm.stake(&user, &principal("none"), 10).err(), Some(FarmingError::PoolNotFound));
    assert_eq!(farm.unstake(&user, &principal("none"), -1).err(), Some(FarmingError::InvalidAmount));
}

#[test]
fn repointing_a_pool_keeps_stakes() {
    let mut farm = ready_farm();
    let pool = principal("lp");
    let user = principal("alice");
    farm.add_pool(&principal("admin"), &pool, &principal("old")).unwrap();
    farm.stake(&user, &pool, 70).unwrap();
    farm.add_pool(&principal("admin"), &pool, &principal("new")).unwrap();
    assert_eq!(farm.get_pool_token(&pool).unwrap().as_bytes(), b"new");
    assert_eq!(farm.get_user_stake(&user, &pool), 70);
}

#[test]
fn rewards_need_owner_and_amount() {
    let farm = ready_farm();
    assert_eq!(farm.mint_rewards(&principal("admin"), 5).unwrap().as_bytes(), b"tux");
    assert_eq!(farm.mint_rewards(&principal("bob"), 5).err(), Some(FarmingError::NotAuthorized));
    assert_eq!(farm.mint_rewards(&principal("admin"), 0).err(), Some(FarmingError::InvalidAmount));
}
