use tuxedo::{require, ParticipationTier, Principal, TokenError, TuxToken};

fn principal(tag: &str) -> Principal {
    Principal::from_bytes(tag.as_bytes())
}

#[test]
fn token_initializes_once() {
    let mut token = TuxToken::new();
    let admin = principal("admin");
    assert_eq!(token.initialize(admin.clone(), 100_000_000 * 10_000_000), Ok(()));
    assert_eq!(token.get_admin().as_bytes(), b"admin");
    assert_eq!(token.initialize(principal("other"), 5), Err(TokenError::AlreadyInitialized));
    assert!(token.is_admin(&admin));
    assert!(!token.is_admin(&principal("other")));
    assert_eq!(TuxToken::decimals(), 7);
}

#[test]
fn token_rejects_negative_supply() {
    let mut token = TuxToken::new();
    assert_eq!(token.initialize(principal("admin"), -1), Err(TokenError::InvalidAmount));
    assert_eq!(token.initialize(principal("admin"), 0), Ok(()));
}

#[test]
fn only_owner_mints_positive_amounts() {
    let mut token = TuxToken::new();
    token.initialize(principal("admin"), 0).unwrap();
    assert_eq!(token.mint(&principal("admin"), 10_000 * 10_000_000), Ok(()));
    assert_eq!(token.mint(&principal("user"), 10), Err(TokenError::Unauthorized));
    assert_eq!(token.mint(&principal("admin"), 0), Err(TokenError::InvalidAmount));
}

#[test]
fn tiers_follow_thresholds() {
    assert_eq!(TuxToken::get_tier_thresholds(), (1_000_000_000, 10_000_000_000, 100_000_000_000));
    assert_eq!(TuxToken::get_user_tier(0), ParticipationTier::Free);
    assert_eq!(TuxToken::get_user_tier(999_999_999), ParticipationTier::Free);
    assert_eq!(TuxToken::get_user_tier(1_000_000_000), ParticipationTier::Bronze);
    assert_eq!(TuxToken::get_user_tier(10_000_000_000), ParticipationTier::Silver);
    assert_eq!(TuxToken::get_user_tier(99_999_999_999), ParticipationTier::Silver);
    assert_eq!(TuxToken::get_user_tier(100_000_000_000), ParticipationTier::Gold);
    assert_eq!(TuxToken::get_user_tier(-7), ParticipationTier::Free);
}

#[test]
fn tier_access_is_monotone() {
    assert!(TuxToken::can_access_tier(10_000_000_000, ParticipationTier::Bronze));
    assert!(TuxToken::can_access_tier(10_000_000_000, ParticipationTier::Silver));
    assert!(!TuxToken::can_access_tier(10_000_000_000, ParticipationTier::Gold));
    assert!(TuxToken::can_access_tier(0, ParticipationTier::Free));
    assert_eq!(ParticipationTier::Gold.rank(), 3);
}

#[test]
fn require_passes_on_true() {
    require(true, "never fails");
}
