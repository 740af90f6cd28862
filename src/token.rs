use vstd::prelude::*;

use crate::principal::Principal;

verus! {

/// Decimal places of the TUX token.
pub const TOKEN_DECIMALS: u32 = 7;

/// Balance that reaches the bronze tier: 100 TUX.
pub const BRONZE_TIER: i128 = 1_000_000_000;

/// Balance that reaches the silver tier: 1 000 TUX.
pub const SILVER_TIER: i128 = 10_000_000_000;

/// Balance that reaches the gold tier: 10 000 TUX.
pub const GOLD_TIER: i128 = 100_000_000_000;

/// Why a token operation was refused.
#[derive(Clone, Copy, Debug, PartialEq, Eq, PartialOrd, Ord, Structural)]
pub enum TokenError {
    AlreadyInitialized,
    Unauthorized,
    InsufficientBalance,
    InvalidAmount,
}

/// Access level that a TUX balance buys, lowest first.
#[derive(Clone, Copy, Debug, PartialEq, Eq, PartialOrd, Ord, Structural)]
pub enum ParticipationTier {
    Free,
    Bronze,
    Silver,
    Gold,
}

pub open spec fn tier_rank(t: ParticipationTier) -> int {
    match t {
        ParticipationTier::Free => 0,
        ParticipationTier::Bronze => 1,
        ParticipationTier::Silver => 2,
        ParticipationTier::Gold => 3,
    }
}

/// The highest tier whose threshold `balance` reaches.
pub open spec fn tier_of(balance: int) -> ParticipationTier {
    if balance >= GOLD_TIER {
        ParticipationTier::Gold
    } else if balance >= SILVER_TIER {
        ParticipationTier::Silver
    } else if balance >= BRONZE_TIER {
        ParticipationTier::Bronze
    } else {
        ParticipationTier::Free
    }
}

impl ParticipationTier {
    /// Position in the order Free < Bronze < Silver < Gold.
    pub fn rank(self) -> (r: u8)
        ensures
            r == tier_rank(self),
    {
        match self {
            ParticipationTier::Free => 0,
            ParticipationTier::Bronze => 1,
            ParticipationTier::Silver => 2,
            ParticipationTier::Gold => 3,
        }
    }
}

/// The TUX token's own rules: who owns it, who may mint, and the tiers that
/// balances reach. Balances themselves are kept by the fungible-token ledger.
#[derive(Debug)]
pub struct TuxToken {
    owner: Option<Principal>,
}

impl TuxToken {
    pub closed spec fn spec_owner(&self) -> Option<Principal> {
        self.owner
    }

    pub fn new() -> (r: TuxToken)
        ensures
            r.spec_owner() is None,
    {
        TuxToken { owner: None }
    }

    /// Whether an owner is recorded.
    pub fn is_ready(&self) -> (r: bool)
        ensures
            r == self.spec_owner() is Some,
    {
        self.owner.is_some()
    }

    /// Records `admin` as owner. On success the caller sets the metadata and
    /// mints `initial_supply` to `admin`.
    pub fn initialize(&mut self, admin: Principal, initial_supply: i128) -> (r: Result<(), TokenError>)
        ensures
            old(self).spec_owner() is Some ==> r == Err::<(), TokenError>(
                TokenError::AlreadyInitialized,
            ),
            old(self).spec_owner() is None && initial_supply < 0 ==> r == Err::<(), TokenError>(
                TokenError::InvalidAmount,
            ),
            old(self).spec_owner() is None && initial_supply >= 0 ==> r is Ok,
            r is Ok ==> final(self).spec_owner() == Some(admin),
            r is Err ==> *final(self) == *old(self),
    {
        if self.owner.is_some() {
            return Err(TokenError::AlreadyInitialized);
        }
        if initial_supply < 0 {
            return Err(TokenError::InvalidAmount);
        }
        self.owner = Some(admin);
        Ok(())
    }

    /// Whether `admin` may mint `amount`. On success the caller mints it.
    pub fn mint(&self, admin: &Principal, amount: i128) -> (r: Result<(), TokenError>)
        requires
            self.spec_owner() is Some,
        ensures
            admin@ != self.spec_owner()->0@ ==> r == Err::<(), TokenError>(
                TokenError::Unauthorized,
            ),
            admin@ == self.spec_owner()->0@ && amount <= 0 ==> r == Err::<(), TokenError>(
                TokenError::InvalidAmount,
            ),
            admin@ == self.spec_owner()->0@ && amount > 0 ==> r is Ok,
    {
        if !admin.same(self.owner.as_ref().unwrap()) {
            return Err(TokenError::Unauthorized);
        }
        if amount <= 0 {
            return Err(TokenError::InvalidAmount);
        }
        Ok(())
    }

    pub fn get_admin(&self) -> (r: &Principal)
        requires
            self.spec_owner() is Some,
        ensures
            r@ == self.spec_owner()->0@,
    {
        self.owner.as_ref().unwrap()
    }

    /// Whether `address` is the owner.
    pub fn is_admin(&self, address: &Principal) -> (r: bool)
        requires
            self.spec_owner() is Some,
        ensures
            r == (address@ == self.spec_owner()->0@),
    {
        address.same(self.owner.as_ref().unwrap())
    }

    pub fn decimals() -> (r: u32)
        ensures
            r == TOKEN_DECIMALS,
    {
        TOKEN_DECIMALS
    }

    /// The tier that a holder with `balance` TUX reaches.
    pub fn get_user_tier(balance: i128) -> (r: ParticipationTier)
        ensures
            r == tier_of(balance as int),
    {
        if balance >= GOLD_TIER {
            ParticipationTier::Gold
        } else if balance >= SILVER_TIER {
            ParticipationTier::Silver
        } else if balance >= BRONZE_TIER {
            ParticipationTier::Bronze
        } else {
            ParticipationTier::Free
        }
    }

    /// Whether a holder with `balance` TUX reaches `required_tier` or above.
    pub fn can_access_tier(balance: i128, required_tier: ParticipationTier) -> (r: bool)
        ensures
            r == (tier_rank(tier_of(balance as int)) >= tier_rank(required_tier)),
    {
        TuxToken::get_user_tier(balance).rank() >= required_tier.rank()
    }

    /// Thresholds of the bronze, silver and gold tiers.
    pub fn get_tier_thresholds() -> (r: (i128, i128, i128))
        ensures
            r == (BRONZE_TIER, SILVER_TIER, GOLD_TIER),
    {
        (BRONZE_TIER, SILVER_TIER, GOLD_TIER)
    }
}

/// Holds when `condition` does; the callers establish it.
pub fn require(condition: bool, message: &str)
    requires
        condition,
{
}

} // verus!
