//! A pooled-yield vault: deposits buy shares at the current share value,
//! withdrawals burn them, an agent moves pooled assets to and from a yield
//! venue, and accrued yield is split between depositors and a platform fee.
//! Also the TUX token's ownership and tier rules, and a staking farm.
//!
//! The library decides; the caller reads live balances, checks authorization,
//! moves tokens and persists state around each call.

pub mod farming;
pub mod accounting;
pub mod error;
pub mod ledger;
pub mod principal;
pub mod token;
pub mod vault;

pub use accounting::{BPS_DENOMINATOR, PLATFORM_FEE_BPS, SCALE};
pub use error::VaultError;
pub use principal::Principal;
pub use token::{require, ParticipationTier, TokenError, TuxToken};
pub use vault::{Party, Strategy, StrategyAction, Transfer, TuxedoVault, VaultConfig, VaultStats};
pub use farming::{FarmingError, TuxFarming};
