use vstd::prelude::*;

use crate::accounting::{
    assets_for_shares, basis_reduction, basis_reduction_of, deposit_outcome, lemma_shares_backed,
    share_value, share_value_of, share_value_outcome, shares_minted, split_yield, withdraw_outcome,
    yield_split_outcome, SCALE,
};
use crate::error::{int_result, VaultError};
use crate::ledger::{listed_shares, listed_total, ShareLedger};
use crate::principal::Principal;

verus! {

/// The vault's fixed roles and the asset it accepts.
#[derive(Debug)]
pub struct VaultConfig {
    pub admin: Principal,
    pub agent: Principal,
    pub platform: Principal,
    pub asset: Principal,
}

/// A snapshot of the vault's aggregates.
#[derive(Clone, Copy, Debug, PartialEq, Eq, Structural)]
pub struct VaultStats {
    pub total_assets: i128,
    pub total_shares: i128,
    pub share_value: i128,
    pub initial_deposits: i128,
}

/// Direction of a movement between the vault and a yield venue.
#[derive(Clone, Copy, Debug, PartialEq, Eq, Structural)]
pub enum StrategyAction {
    Supply,
    Withdraw,
}

/// One movement of `amount` of `asset` between the vault and the venue `pool`.
#[derive(Debug)]
pub struct Strategy {
    pub action: StrategyAction,
    pub pool: Principal,
    pub asset: Principal,
    pub amount: i128,
}

/// An end of an asset movement: the vault itself, or another principal.
#[derive(Debug)]
pub enum Party {
    Vault,
    Account(Principal),
}

/// An asset movement for the asset port to carry out.
#[derive(Debug)]
pub struct Transfer {
    pub asset: Principal,
    pub from: Party,
    pub to: Party,
    pub amount: i128,
}

/// Whether `p` is the principal with key `key`.
pub open spec fn is_account(p: Party, key: Seq<u8>) -> bool {
    match p {
        Party::Vault => false,
        Party::Account(a) => a@ == key,
    }
}

/// Whether `t` is the movement that `s` describes.
pub open spec fn carries_out(s: Strategy, t: Transfer) -> bool {
    &&& t.asset@ == s.asset@
    &&& t.amount == s.amount
    &&& match s.action {
        StrategyAction::Supply => t.from is Vault && is_account(t.to, s.pool@),
        StrategyAction::Withdraw => is_account(t.from, s.pool@) && t.to is Vault,
    }
}

/// The pooled-yield vault: configuration, aggregates and the share ledger.
/// The vault's live asset balance is read by the caller and passed in.
#[derive(Debug)]
pub struct TuxedoVault {
    config: Option<VaultConfig>,
    total_shares: i128,
    deposit_basis: i128,
    ledger: ShareLedger,
}

impl TuxedoVault {
    pub closed spec fn spec_config(&self) -> Option<VaultConfig> {
        self.config
    }

    pub closed spec fn spec_total_shares(&self) -> int {
        self.total_shares as int
    }

    pub closed spec fn spec_deposit_basis(&self) -> int {
        self.deposit_basis as int
    }

    pub closed spec fn spec_ledger(&self) -> ShareLedger {
        self.ledger
    }

    pub open spec fn is_initialized(&self) -> bool {
        self.spec_config() is Some
    }

    /// Shares held by the principal with key `p`.
    pub open spec fn spec_user_shares(&self, p: Seq<u8>) -> int {
        self.spec_ledger().shares_of(p)
    }

    /// The vault's invariant: the ledger sums to the outstanding shares, and
    /// nothing is held before initialization.
    pub open spec fn wf(&self) -> bool {
        &&& self.spec_ledger().wf()
        &&& self.spec_ledger().total() == self.spec_total_shares()
        &&& self.spec_total_shares() >= 0
        &&& self.spec_deposit_basis() >= 0
        &&& !self.is_initialized() ==> self.spec_total_shares() == 0
            && self.spec_deposit_basis() == 0
    }

    /// Same configuration and ledger; aggregates may differ.
    pub open spec fn same_accounts(&self, other: &TuxedoVault) -> bool {
        &&& self.spec_config() == other.spec_config()
        &&& forall|p: Seq<u8>| #[trigger] self.spec_user_shares(p) == other.spec_user_shares(p)
    }

    /// Solvency: in every well-formed state the ledger sums to the outstanding
    /// shares, and those shares, valued at the current share value, claim no more
    /// than the live assets.
    pub proof fn lemma_solvency(&self, live_assets: int)
        requires
            self.wf(),
            live_assets >= 0,
        ensures
            self.spec_ledger().total() == self.spec_total_shares(),
            share_value_of(live_assets, self.spec_total_shares()) * self.spec_total_shares() / (
            SCALE as int) <= live_assets,
    {
        lemma_shares_backed(live_assets, self.spec_total_shares());
    }

    /// An uninitialized vault.
    pub fn new() -> (r: TuxedoVault)
        ensures
            r.wf(),
            !r.is_initialized(),
            r.spec_total_shares() == 0,
            r.spec_deposit_basis() == 0,
            forall|p: Seq<u8>| #[trigger] r.spec_user_shares(p) == 0,
    {
        TuxedoVault { config: None, total_shares: 0, deposit_basis: 0, ledger: ShareLedger::new() }
    }

    /// An initialized vault rebuilt from stored parts: its configuration, its
    /// deposit basis, and the listed share balances, whose sum becomes the
    /// outstanding shares. `InvalidAmount` if the basis is negative or a balance
    /// is not positive; `ArithmeticOverflow` if the balances overflow `i128`.
    pub fn restore(config: VaultConfig, deposit_basis: i128, holdings: &Vec<(Principal, i128)>) -> (r:
        Result<TuxedoVault, VaultError>)
        ensures
            (deposit_basis < 0 || exists|k: int|
                0 <= k < holdings@.len() && #[trigger] holdings@[k].1 <= 0) ==> r == Err::<
                TuxedoVault,
                VaultError,
            >(VaultError::InvalidAmount),
            (deposit_basis >= 0 && forall|k: int|
                0 <= k < holdings@.len() ==> #[trigger] holdings@[k].1 > 0) ==> (r is Ok
                <==> listed_total(holdings@) <= i128::MAX),
            r is Err ==> r == Err::<TuxedoVault, VaultError>(VaultError::InvalidAmount) || r == Err::<
                TuxedoVault,
                VaultError,
            >(VaultError::ArithmeticOverflow),
            r matches Ok(v) ==> {
                &&& v.wf()
                &&& v.spec_config() == Some(config)
                &&& v.spec_deposit_basis() == deposit_basis
                &&& v.spec_total_shares() == listed_total(holdings@)
                &&& forall|p: Seq<u8>| #[trigger]
                    v.spec_user_shares(p) == listed_shares(holdings@, p)
            },
    {
        if deposit_basis < 0 {
            return Err(VaultError::InvalidAmount);
        }
        let mut i: usize = 0;
        while i < holdings.len()
            invariant
                i <= holdings@.len(),
                forall|k: int| 0 <= k < i ==> #[trigger] holdings@[k].1 > 0,
            decreases holdings@.len() - i,
        {
            if holdings[i].1 <= 0 {
                return Err(VaultError::InvalidAmount);
            }
            i = i + 1;
        }
        let (ledger, total) = match ShareLedger::from_list(holdings) {
            Some(lt) => lt,
            None => {
                return Err(VaultError::ArithmeticOverflow);
            },
        };
        proof {
            ledger.lemma_bounds(Seq::empty());
        }
        Ok(TuxedoVault { config: Some(config), total_shares: total, deposit_basis, ledger })
    }

    /// The share balances, one pair per holder.
    pub fn holdings(&self) -> (r: Vec<(Principal, i128)>)
        requires
            self.wf(),
        ensures
            listed_total(r@) == self.spec_total_shares(),
            forall|p: Seq<u8>| #[trigger] listed_shares(r@, p) == self.spec_user_shares(p),
    {
        self.ledger.to_list()
    }

    /// Sets the roles and the asset, once.
    pub fn initialize(
        &mut self,
        admin: Principal,
        agent: Principal,
        platform: Principal,
        usdc_asset: Principal,
    ) -> (r: Result<(), VaultError>)
        requires
            old(self).wf(),
        ensures
            final(self).wf(),
            old(self).is_initialized() ==> r == Err::<(), VaultError>(VaultError::AlreadyInitialized)
                && *final(self) == *old(self),
            !old(self).is_initialized() ==> r is Ok,
            !old(self).is_initialized() ==> final(self).spec_config() == Some(
                (VaultConfig { admin, agent, platform, asset: usdc_asset }),
            ),
            !old(self).is_initialized() ==> final(self).spec_total_shares() == 0
                && final(self).spec_deposit_basis() == 0,
            !old(self).is_initialized() ==> forall|p: Seq<u8>|
                #[trigger] final(self).spec_user_shares(p) == 0,
    {
        if self.config.is_some() {
            return Err(VaultError::AlreadyInitialized);
        }
        self.config = Some(VaultConfig { admin, agent, platform, asset: usdc_asset });
        proof {
            assert forall|p: Seq<u8>| #[trigger] self.spec_user_shares(p) == 0 by {
                self.ledger.lemma_bounds(p);
            }
        }
        Ok(())
    }

    /// Current share value for a vault holding `live_assets`.
    pub fn get_share_value(&self, live_assets: i128) -> (r: Result<i128, VaultError>)
        requires
            self.wf(),
            live_assets >= 0,
        ensures
            int_result(r) == share_value_outcome(live_assets as int, self.spec_total_shares()),
    {
        share_value(live_assets, self.total_shares)
    }

    /// Mints shares to `user` for `amount` assets at the current share value.
    /// On success the caller pulls `amount` of the asset from `user` into the vault.
    pub fn deposit(&mut self, user: &Principal, amount: i128, live_assets: i128) -> (r: Result<
        i128,
        VaultError,
    >)
        requires
            old(self).wf(),
            old(self).is_initialized(),
            live_assets >= 0,
        ensures
            final(self).wf(),
            int_result(r) == deposit_outcome(
                amount as int,
                live_assets as int,
                old(self).spec_total_shares(),
                old(self).spec_deposit_basis(),
            ),
            r is Err ==> *final(self) == *old(self),
            r matches Ok(m) ==> {
                &&& final(self).spec_config() == old(self).spec_config()
                &&& final(self).spec_total_shares() == old(self).spec_total_shares() + m
                &&& final(self).spec_deposit_basis() == old(self).spec_deposit_basis() + amount
                &&& forall|p: Seq<u8>|
                    #[trigger] final(self).spec_user_shares(p) == if p == user@ {
                        old(self).spec_user_shares(p) + m
                    } else {
                        old(self).spec_user_shares(p)
                    }
            },
    {
        if amount <= 0 {
            return Err(VaultError::InvalidAmount);
        }
        let value = match share_value(live_assets, self.total_shares) {
            Ok(v) => v,
            Err(e) => {
                return Err(e);
            },
        };
        let minted = match shares_minted(amount, value) {
            Ok(m) => m,
            Err(e) => {
                return Err(e);
            },
        };
        if minted <= 0 {
            return Err(VaultError::InvalidAmount);
        }
        let new_total = match self.total_shares.checked_add(minted) {
            Some(t) => t,
            None => {
                return Err(VaultError::ArithmeticOverflow);
            },
        };
        let new_basis = match self.deposit_basis.checked_add(amount) {
            Some(b) => b,
            None => {
                return Err(VaultError::ArithmeticOverflow);
            },
        };
        self.ledger.credit(user, minted);
        self.total_shares = new_total;
        self.deposit_basis = new_basis;
        Ok(minted)
    }

    /// Burns `shares` of `user` and returns the assets they are worth.
    /// On success the caller pushes the returned amount from the vault to `user`.
    pub fn withdraw(&mut self, user: &Principal, shares: i128, live_assets: i128) -> (r: Result<
        i128,
        VaultError,
    >)
        requires
            old(self).wf(),
            old(self).is_initialized(),
            live_assets >= 0,
        ensures
            final(self).wf(),
            int_result(r) == withdraw_outcome(
                shares as int,
                old(self).spec_user_shares(user@),
                live_assets as int,
                old(self).spec_total_shares(),
                old(self).spec_deposit_basis(),
            ),
            r is Err ==> *final(self) == *old(self),
            r is Ok ==> {
                &&& final(self).spec_config() == old(self).spec_config()
                &&& final(self).spec_total_shares() == old(self).spec_total_shares() - shares
                &&& final(self).spec_deposit_basis() == old(self).spec_deposit_basis()
                    - basis_reduction_of(
                    old(self).spec_deposit_basis(),
                    shares as int,
                    old(self).spec_total_shares(),
                )
                &&& forall|p: Seq<u8>|
                    #[trigger] final(self).spec_user_shares(p) == if p == user@ {
                        old(self).spec_user_shares(p) - shares
                    } else {
                        old(self).spec_user_shares(p)
                    }
            },
    {
        if shares <= 0 {
            return Err(VaultError::InvalidAmount);
        }
        let held = self.ledger.balance(user);
        if held < shares {
            return Err(VaultError::InsufficientShares);
        }
        proof {
            self.ledger.lemma_bounds(user@);
        }
        let value = match share_value(live_assets, self.total_shares) {
            Ok(v) => v,
            Err(e) => {
                return Err(e);
            },
        };
        let assets = match assets_for_shares(shares, value) {
            Ok(a) => a,
            Err(e) => {
                return Err(e);
            },
        };
        if assets <= 0 {
            return Err(VaultError::InvalidAmount);
        }
        if live_assets < assets {
            return Err(VaultError::InsufficientBalance);
        }
        let reduction = match basis_reduction(self.deposit_basis, shares, self.total_shares) {
            Ok(d) => d,
            Err(e) => {
                return Err(e);
            },
        };
        proof {
            let b = self.deposit_basis as int;
            let s = shares as int;
            let t = self.total_shares as int;
            assert(t > 0);
            assert(b * s <= b * t) by (nonlinear_arith)
                requires
                    0 <= b,
                    s <= t,
            ;
            assert(b * s / t <= b) by (nonlinear_arith)
                requires
                    0 <= b,
                    0 < t,
                    b * s <= b * t,
            ;
            assert(b * s / t >= 0) by (nonlinear_arith)
                requires
                    0 <= b,
                    0 < t,
                    0 <= s,
            ;
        }
        self.ledger.debit(user, shares);
        self.total_shares = self.total_shares - shares;
        self.deposit_basis = self.deposit_basis - reduction;
        Ok(assets)
    }

    /// Measures yield above the deposit basis and takes the platform fee from it;
    /// the rest joins the basis. On success the caller pushes the fee from the vault
    /// to the platform.
    pub fn distribute_yield(&mut self, live_assets: i128) -> (r: Result<(i128, i128), VaultError>)
        requires
            old(self).wf(),
            old(self).is_initialized(),
            live_assets >= 0,
        ensures
            final(self).wf(),
            match r {
                Ok((y, f)) => {
                    &&& yield_split_outcome(live_assets as int, old(self).spec_deposit_basis())
                        == Ok::<(int, int), VaultError>((y as int, f as int))
                    &&& final(self).spec_deposit_basis() == old(self).spec_deposit_basis() + y - f
                    &&& final(self).spec_total_shares() == old(self).spec_total_shares()
                    &&& final(self).same_accounts(old(self))
                },
                Err(e) => {
                    &&& yield_split_outcome(live_assets as int, old(self).spec_deposit_basis())
                        == Err::<(int, int), VaultError>(e)
                    &&& *final(self) == *old(self)
                },
            },
    {
        let (yield_earned, fee) = match split_yield(live_assets, self.deposit_basis) {
            Ok(p) => p,
            Err(e) => {
                return Err(e);
            },
        };
        proof {
            let y = yield_earned as int;
            assert(y * 200 / 10000 <= y) by (nonlinear_arith)
                requires
                    y > 0,
            ;
        }
        self.deposit_basis = self.deposit_basis + (yield_earned - fee);
        Ok((yield_earned, fee))
    }

    /// Shares outstanding.
    pub fn get_total_shares(&self) -> (r: i128)
        ensures
            r == self.spec_total_shares(),
    {
        self.total_shares
    }

    /// Shares held by `user`.
    pub fn get_user_shares(&self, user: &Principal) -> (r: i128)
        requires
            self.wf(),
        ensures
            r == self.spec_user_shares(user@),
    {
        self.ledger.balance(user)
    }

    /// Number of principals holding shares.
    pub fn get_holder_count(&self) -> (r: usize)
        ensures
            r == self.spec_ledger().entries().len(),
    {
        self.ledger.holder_count()
    }

    /// Aggregates and the share value for a vault holding `live_assets`.
    pub fn get_vault_stats(&self, live_assets: i128) -> (r: Result<VaultStats, VaultError>)
        requires
            self.wf(),
            live_assets >= 0,
        ensures
            match r {
                Ok(s) => {
                    &&& share_value_outcome(live_assets as int, self.spec_total_shares()) == Ok::<
                        int,
                        VaultError,
                    >(s.share_value as int)
                    &&& s.total_assets == live_assets
                    &&& s.total_shares == self.spec_total_shares()
                    &&& s.initial_deposits == self.spec_deposit_basis()
                },
                Err(e) => share_value_outcome(live_assets as int, self.spec_total_shares()) == Err::<
                    int,
                    VaultError,
                >(e),
            },
    {
        let value = match share_value(live_assets, self.total_shares) {
            Ok(v) => v,
            Err(e) => {
                return Err(e);
            },
        };
        Ok(
            VaultStats {
                total_assets: live_assets,
                total_shares: self.total_shares,
                share_value: value,
                initial_deposits: self.deposit_basis,
            },
        )
    }

    /// The deposit basis.
    pub fn get_deposit_basis(&self) -> (r: i128)
        ensures
            r == self.spec_deposit_basis(),
    {
        self.deposit_basis
    }

    pub fn is_ready(&self) -> (r: bool)
        ensures
            r == self.is_initialized(),
    {
        self.config.is_some()
    }

    pub fn get_admin(&self) -> (r: &Principal)
        requires
            self.is_initialized(),
        ensures
            r@ == self.spec_config()->0.admin@,
    {
        &self.config.as_ref().unwrap().admin
    }

    pub fn get_agent(&self) -> (r: &Principal)
        requires
            self.is_initialized(),
        ensures
            r@ == self.spec_config()->0.agent@,
    {
        &self.config.as_ref().unwrap().agent
    }

    pub fn get_platform(&self) -> (r: &Principal)
        requires
            self.is_initialized(),
        ensures
            r@ == self.spec_config()->0.platform@,
    {
        &self.config.as_ref().unwrap().platform
    }

    /// The asset the vault accepts.
    pub fn get_asset(&self) -> (r: &Principal)
        requires
            self.is_initialized(),
        ensures
            r@ == self.spec_config()->0.asset@,
    {
        &self.config.as_ref().unwrap().asset
    }

    /// The movement that `strategy` asks for, if `caller` is the vault's agent.
    /// It changes no share, basis or ledger entry.
    pub fn agent_execute(&self, caller: &Principal, strategy: &Strategy) -> (r: Result<
        Transfer,
        VaultError,
    >)
        requires
            self.is_initialized(),
        ensures
            caller@ != self.spec_config()->0.agent@ ==> r == Err::<Transfer, VaultError>(
                VaultError::NotAuthorized,
            ),
            caller@ == self.spec_config()->0.agent@ && strategy.amount <= 0 ==> r == Err::<
                Transfer,
                VaultError,
            >(VaultError::InvalidAmount),
            caller@ == self.spec_config()->0.agent@ && strategy.amount > 0 ==> (r matches Ok(
                t,
            ) && carries_out(*strategy, t)),
    {
        let config = self.config.as_ref().unwrap();
        if !caller.same(&config.agent) {
            return Err(VaultError::NotAuthorized);
        }
        if strategy.amount <= 0 {
            return Err(VaultError::InvalidAmount);
        }
        let venue = Party::Account(strategy.pool.duplicate());
        let (from, to) = match strategy.action {
            StrategyAction::Supply => (Party::Vault, venue),
            StrategyAction::Withdraw => (venue, Party::Vault),
        };
        Ok(Transfer { asset: strategy.asset.duplicate(), from, to, amount: strategy.amount })
    }
}

} // verus!
