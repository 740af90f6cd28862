use vstd::prelude::*;

use crate::ledger::ShareLedger;
use crate::principal::Principal;

verus! {

/// Why a farming operation was refused.
#[derive(Clone, Copy, Debug, PartialEq, Eq, PartialOrd, Ord, Structural)]
pub enum FarmingError {
    AlreadyInitialized,
    NotAuthorized,
    PoolNotFound,
    InvalidAmount,
    InsufficientBalance,
    TokenError,
}

/// A staking pool: its id, the token it accepts, and each staker's amount.
#[derive(Debug)]
pub struct Pool {
    id: Principal,
    token: Principal,
    staked: i128,
    stakes: ShareLedger,
}

impl Pool {
    pub closed spec fn spec_id(&self) -> Seq<u8> {
        self.id@
    }

    pub closed spec fn spec_token(&self) -> Seq<u8> {
        self.token@
    }

    pub closed spec fn spec_stakes(&self) -> ShareLedger {
        self.stakes
    }

    pub closed spec fn wf(&self) -> bool {
        self.stakes.wf() && self.staked == self.stakes.total()
    }
}

/// The pool with key `id` in `s`; a later entry shadows an earlier one.
pub open spec fn find_pool(s: Seq<Pool>, id: Seq<u8>) -> Option<Pool>
    decreases s.len(),
{
    if s.len() == 0 {
        None
    } else if s.last().spec_id() == id {
        Some(s.last())
    } else {
        find_pool(s.drop_last(), id)
    }
}

proof fn lemma_find_absent(s: Seq<Pool>, id: Seq<u8>)
    requires
        forall|k: int| 0 <= k < s.len() ==> #[trigger] s[k].spec_id() != id,
    ensures
        find_pool(s, id) is None,
    decreases s.len(),
{
    if s.len() > 0 {
        assert(s.last() == s[s.len() - 1]);
        assert forall|k: int| 0 <= k < s.drop_last().len() implies #[trigger] s.drop_last()[k].spec_id()
            != id by {
            assert(s.drop_last()[k] == s[k]);
        }
        lemma_find_absent(s.drop_last(), id);
    }
}

proof fn lemma_find_at(s: Seq<Pool>, i: int, id: Seq<u8>)
    requires
        0 <= i < s.len(),
        s[i].spec_id() == id,
        forall|k: int| i < k < s.len() ==> #[trigger] s[k].spec_id() != id,
    ensures
        find_pool(s, id) == Some(s[i]),
    decreases s.len(),
{
    assert(s.last() == s[s.len() - 1]);
    if i < s.len() - 1 {
        assert forall|k: int| i < k < s.drop_last().len() implies #[trigger] s.drop_last()[k].spec_id()
            != id by {
            assert(s.drop_last()[k] == s[k]);
        }
        lemma_find_at(s.drop_last(), i, id);
    }
}

proof fn lemma_find_update(s: Seq<Pool>, i: int, p: Pool)
    requires
        0 <= i < s.len(),
        s[i].spec_id() == p.spec_id(),
        forall|k: int| i < k < s.len() ==> #[trigger] s[k].spec_id() != p.spec_id(),
    ensures
        forall|q: Seq<u8>|
            #[trigger] find_pool(s.update(i, p), q) == if q == p.spec_id() {
                Some(p)
            } else {
                find_pool(s, q)
            },
    decreases s.len(),
{
    let t = s.update(i, p);
    let n = s.len() - 1;
    assert(s.last() == s[n]);
    assert(t.last() == t[n]);
    if i == n {
        assert(t.drop_last() =~= s.drop_last());
    } else {
        assert(t.drop_last() =~= s.drop_last().update(i, p));
        assert forall|k: int| i < k < s.drop_last().len() implies #[trigger] s.drop_last()[k].spec_id()
            != p.spec_id() by {
            assert(s.drop_last()[k] == s[k]);
        }
        lemma_find_update(s.drop_last(), i, p);
        assert forall|q: Seq<u8>| #[trigger] find_pool(t, q) == if q == p.spec_id() {
            Some(p)
        } else {
            find_pool(s, q)
        } by {
            assert(find_pool(t.drop_last(), q) == find_pool(s.drop_last().update(i, p), q));
        }
    }
}

proof fn lemma_find_push(s: Seq<Pool>, p: Pool)
    ensures
        forall|q: Seq<u8>|
            #[trigger] find_pool(s.push(p), q) == if q == p.spec_id() {
                Some(p)
            } else {
                find_pool(s, q)
            },
{
    assert(s.push(p).drop_last() =~= s);
}

proof fn lemma_update_keeps_wf(s: Seq<Pool>, i: int, p: Pool)
    requires
        0 <= i < s.len(),
        p.wf(),
        forall|k: int| 0 <= k < s.len() ==> #[trigger] s[k].wf(),
    ensures
        forall|k: int| 0 <= k < s.len() ==> #[trigger] s.update(i, p)[k].wf(),
{
}

/// Staked amount of `user` in `pool`, or 0.
pub open spec fn stake_in(pool: Option<Pool>, user: Seq<u8>) -> int {
    match pool {
        Some(p) => p.spec_stakes().shares_of(user),
        None => 0,
    }
}

/// Staking pools, their stakes, and the TUX rewards the owner hands out.
#[derive(Debug)]
pub struct TuxFarming {
    config: Option<(Principal, Principal)>,
    pools: Vec<Pool>,
}

impl TuxFarming {
    pub closed spec fn spec_config(&self) -> Option<(Principal, Principal)> {
        self.config
    }

    pub closed spec fn spec_pools(&self) -> Seq<Pool> {
        self.pools@
    }

    pub open spec fn is_initialized(&self) -> bool {
        self.spec_config() is Some
    }

    pub open spec fn spec_owner(&self) -> Seq<u8> {
        match self.spec_config() {
            Some((owner, _)) => owner@,
            None => Seq::empty(),
        }
    }

    pub open spec fn spec_tux_token(&self) -> Seq<u8> {
        match self.spec_config() {
            Some((_, token)) => token@,
            None => Seq::empty(),
        }
    }

    /// Token accepted by the pool `id`, if it exists.
    pub open spec fn pool_token(&self, id: Seq<u8>) -> Option<Seq<u8>> {
        match find_pool(self.spec_pools(), id) {
            Some(p) => Some(p.spec_token()),
            None => None,
        }
    }

    /// Amount that `user` has staked in the pool `id`.
    pub open spec fn stake_of(&self, user: Seq<u8>, id: Seq<u8>) -> int {
        stake_in(find_pool(self.spec_pools(), id), user)
    }

    pub open spec fn wf(&self) -> bool {
        forall|i: int| 0 <= i < self.spec_pools().len() ==> #[trigger] self.spec_pools()[i].wf()
    }

    pub fn new() -> (r: TuxFarming)
        ensures
            r.wf(),
            !r.is_initialized(),
            forall|q: Seq<u8>| #[trigger] r.pool_token(q) is None,
    {
        TuxFarming { config: None, pools: Vec::new() }
    }

    pub fn is_ready(&self) -> (r: bool)
        ensures
            r == self.is_initialized(),
    {
        self.config.is_some()
    }

    /// Sets the owner and the TUX token, once.
    pub fn initialize(&mut self, admin: Principal, tux_token: Principal) -> (r: Result<
        (),
        FarmingError,
    >)
        requires
            old(self).wf(),
        ensures
            final(self).wf(),
            old(self).is_initialized() ==> r == Err::<(), FarmingError>(
                FarmingError::AlreadyInitialized,
            ) && *final(self) == *old(self),
            !old(self).is_initialized() ==> r is Ok && final(self).spec_config() == Some(
                (admin, tux_token),
            ) && final(self).spec_pools() == old(self).spec_pools(),
    {
        if self.config.is_some() {
            return Err(FarmingError::AlreadyInitialized);
        }
        self.config = Some((admin, tux_token));
        proof {
            assert forall|k: int| 0 <= k < self.spec_pools().len() implies #[trigger] self.spec_pools()[
                k].wf() by {
                assert(self.spec_pools()[k] == old(self).spec_pools()[k]);
            }
        }
        Ok(())
    }

    /// Index of the last pool with key `id`.
    fn find(&self, id: &Principal) -> (r: Option<usize>)
        ensures
            match r {
                Some(i) => {
                    &&& i < self.pools@.len()
                    &&& self.pools@[i as int].spec_id() == id@
                    &&& forall|k: int|
                        i < k < self.pools@.len() ==> #[trigger] self.pools@[k].spec_id() != id@
                },
                None => forall|k: int|
                    0 <= k < self.pools@.len() ==> #[trigger] self.pools@[k].spec_id() != id@,
            },
    {
        let mut i: usize = self.pools.len();
        while i > 0
            invariant
                i <= self.pools@.len(),
                forall|k: int| i <= k < self.pools@.len() ==> #[trigger] self.pools@[k].spec_id() != id@,
            decreases i,
        {
            i = i - 1;
            if self.pools[i].id.same(id) {
                return Some(i);
            }
        }
        None
    }

    /// Opens the pool `pool_id` for `staking_token`, or points an existing pool
    /// at it; stakes are kept.
    pub fn add_pool(&mut self, admin: &Principal, pool_id: &Principal, staking_token: &Principal) -> (r:
        Result<(), FarmingError>)
        requires
            old(self).wf(),
            old(self).is_initialized(),
        ensures
            final(self).wf(),
            final(self).spec_config() == old(self).spec_config(),
            admin@ != old(self).spec_owner() ==> r == Err::<(), FarmingError>(
                FarmingError::NotAuthorized,
            ),
            admin@ == old(self).spec_owner() ==> r is Ok,
            r is Err ==> *final(self) == *old(self),
            r is Ok ==> forall|q: Seq<u8>| #[trigger]
                final(self).pool_token(q) == if q == pool_id@ {
                    Some(staking_token@)
                } else {
                    old(self).pool_token(q)
                },
            r is Ok ==> forall|u: Seq<u8>, q: Seq<u8>| #[trigger]
                final(self).stake_of(u, q) == old(self).stake_of(u, q),
    {
        if !admin.same(&self.config.as_ref().unwrap().0) {
            return Err(FarmingError::NotAuthorized);
        }
        let ghost s = self.pools@;
        match self.find(pool_id) {
            Some(i) => {
                let old_pool = self.pools.remove(i);
                let pool = Pool {
                    id: old_pool.id,
                    token: staking_token.duplicate(),
                    staked: old_pool.staked,
                    stakes: old_pool.stakes,
                };
                self.pools.insert(i, pool);
                proof {
                    assert(self.pools@ =~= s.update(i as int, pool));
                    lemma_find_at(s, i as int, pool_id@);
                    assert(old(self).spec_pools()[i as int].wf());
                    lemma_find_update(s, i as int, pool);
                    lemma_update_keeps_wf(s, i as int, pool);
                }
            },
            None => {
                let pool = Pool {
                    id: pool_id.duplicate(),
                    token: staking_token.duplicate(),
                    staked: 0,
                    stakes: ShareLedger::new(),
                };
                self.pools.push(pool);
                proof {
                    lemma_find_absent(s, pool_id@);
                    lemma_find_push(s, pool);
                    assert forall|k: int| 0 <= k < self.spec_pools().len() implies #[trigger] self.spec_pools()[
                k].wf() by {
                        if k < s.len() {
                            assert(self.spec_pools()[k] == old(self).spec_pools()[k]);
                        }
                    }
                    assert forall|u: Seq<u8>, q: Seq<u8>| #[trigger]
                        self.stake_of(u, q) == old(self).stake_of(u, q) by {
                        assert(self.pools@ == s.push(pool));
                    }
                }
            },
        }
        Ok(())
    }

    /// Records `amount` staked by `user` in `pool_id` and returns the token the
    /// caller then pulls from `user`. An amount that would take the pool's
    /// total past `i128::MAX` is refused as invalid.
    pub fn stake(&mut self, user: &Principal, pool_id: &Principal, amount: i128) -> (r: Result<
        Principal,
        FarmingError,
    >)
        requires
            old(self).wf(),
        ensures
            final(self).wf(),
            final(self).spec_config() == old(self).spec_config(),
            amount <= 0 ==> (r matches Err(e) && e == FarmingError::InvalidAmount),
            amount > 0 && old(self).pool_token(pool_id@) is None ==> (r matches Err(e) && e
                == FarmingError::PoolNotFound),
            r is Err ==> *final(self) == *old(self),
            r matches Ok(t) ==> {
                &&& Some(t@) == old(self).pool_token(pool_id@)
                &&& forall|q: Seq<u8>| #[trigger]
                    final(self).pool_token(q) == old(self).pool_token(q)
                &&& forall|u: Seq<u8>, q: Seq<u8>| #[trigger]
                    final(self).stake_of(u, q) == if u == user@ && q == pool_id@ {
                        old(self).stake_of(u, q) + amount
                    } else {
                        old(self).stake_of(u, q)
                    }
            },
    {
        if amount <= 0 {
            return Err(FarmingError::InvalidAmount);
        }
        let ghost s = self.pools@;
        let i = match self.find(pool_id) {
            Some(i) => i,
            None => {
                proof {
                    lemma_find_absent(s, pool_id@);
                }
                return Err(FarmingError::PoolNotFound);
            },
        };
        proof {
            lemma_find_at(s, i as int, pool_id@);
            assert(old(self).spec_pools()[i as int].wf());
        }
        let staked = match self.pools[i].staked.checked_add(amount) {
            Some(t) => t,
            None => {
                return Err(FarmingError::InvalidAmount);
            },
        };
        let mut pool = self.pools.remove(i);
        pool.stakes.credit(user, amount);
        pool.staked = staked;
        let token = pool.token.duplicate();
        self.pools.insert(i, pool);
        proof {
            assert(self.pools@ =~= s.update(i as int, pool));
            lemma_find_update(s, i as int, pool);
            lemma_update_keeps_wf(s, i as int, pool);
        }
        Ok(token)
    }

    /// Takes `amount` off `user`'s stake in `pool_id` and returns the token the
    /// caller then pushes back to `user`.
    pub fn unstake(&mut self, user: &Principal, pool_id: &Principal, amount: i128) -> (r: Result<
        Principal,
        FarmingError,
    >)
        requires
            old(self).wf(),
        ensures
            final(self).wf(),
            final(self).spec_config() == old(self).spec_config(),
            amount <= 0 ==> (r matches Err(e) && e == FarmingError::InvalidAmount),
            amount > 0 && old(self).stake_of(user@, pool_id@) < amount ==> (r matches Err(e) && e
                == FarmingError::InsufficientBalance),
            amount > 0 && old(self).stake_of(user@, pool_id@) >= amount ==> r is Ok,
            r is Err ==> *final(self) == *old(self),
            r matches Ok(t) ==> {
                &&& Some(t@) == old(self).pool_token(pool_id@)
                &&& forall|q: Seq<u8>| #[trigger]
                    final(self).pool_token(q) == old(self).pool_token(q)
                &&& forall|u: Seq<u8>, q: Seq<u8>| #[trigger]
                    final(self).stake_of(u, q) == if u == user@ && q == pool_id@ {
                        old(self).stake_of(u, q) - amount
                    } else {
                        old(self).stake_of(u, q)
                    }
            },
    {
        if amount <= 0 {
            return Err(FarmingError::InvalidAmount);
        }
        let ghost s = self.pools@;
        let i = match self.find(pool_id) {
            Some(i) => i,
            None => {
                proof {
                    lemma_find_absent(s, pool_id@);
                }
                return Err(FarmingError::InsufficientBalance);
            },
        };
        proof {
            lemma_find_at(s, i as int, pool_id@);
            assert(old(self).spec_pools()[i as int].wf());
        }
        let current = self.pools[i].stakes.balance(user);
        if current < amount {
            return Err(FarmingError::InsufficientBalance);
        }
        proof {
            self.pools@[i as int].stakes.lemma_bounds(user@);
        }
        let mut pool = self.pools.remove(i);
        pool.stakes.debit(user, amount);
        pool.staked = pool.staked - amount;
        let token = pool.token.duplicate();
        self.pools.insert(i, pool);
        proof {
            assert(self.pools@ =~= s.update(i as int, pool));
            lemma_find_update(s, i as int, pool);
            lemma_update_keeps_wf(s, i as int, pool);
        }
        Ok(token)
    }

    /// Whether `admin` may hand `amount` TUX out as rewards; on success returns
    /// the TUX token, which the caller pushes from the farm to the recipient.
    pub fn mint_rewards(&self, admin: &Principal, amount: i128) -> (r: Result<
        Principal,
        FarmingError,
    >)
        requires
            self.is_initialized(),
        ensures
            admin@ != self.spec_owner() ==> (r matches Err(e) && e == FarmingError::NotAuthorized),
            admin@ == self.spec_owner() && amount <= 0 ==> (r matches Err(e) && e
                == FarmingError::InvalidAmount),
            admin@ == self.spec_owner() && amount > 0 ==> (r matches Ok(t) && t@
                == self.spec_tux_token()),
    {
        let config = self.config.as_ref().unwrap();
        if !admin.same(&config.0) {
            return Err(FarmingError::NotAuthorized);
        }
        if amount <= 0 {
            return Err(FarmingError::InvalidAmount);
        }
        Ok(config.1.duplicate())
    }

    /// Token accepted by the pool `pool_id`.
    pub fn get_pool_token(&self, pool_id: &Principal) -> (r: Result<&Principal, FarmingError>)
        ensures
            match r {
                Ok(t) => self.pool_token(pool_id@) == Some(t@),
                Err(e) => self.pool_token(pool_id@) is None && e == FarmingError::PoolNotFound,
            },
    {
        let ghost s = self.pools@;
        match self.find(pool_id) {
            Some(i) => {
                proof {
                    lemma_find_at(s, i as int, pool_id@);
                }
                Ok(&self.pools[i].token)
            },
            None => {
                proof {
                    lemma_find_absent(s, pool_id@);
                }
                Err(FarmingError::PoolNotFound)
            },
        }
    }

    /// Amount that `user` has staked in `pool_id`.
    pub fn get_user_stake(&self, user: &Principal, pool_id: &Principal) -> (r: i128)
        requires
            self.wf(),
        ensures
            r == self.stake_of(user@, pool_id@),
    {
        let ghost s = self.pools@;
        match self.find(pool_id) {
            Some(i) => {
                proof {
                    lemma_find_at(s, i as int, pool_id@);
                    assert(self.spec_pools()[i as int].wf());
                }
                self.pools[i].stakes.balance(user)
            },
            None => {
                proof {
                    lemma_find_absent(s, pool_id@);
                }
                0
            },
        }
    }

    pub fn get_admin(&self) -> (r: &Principal)
        requires
            self.is_initialized(),
        ensures
            r@ == self.spec_owner(),
    {
        &self.config.as_ref().unwrap().0
    }

    pub fn get_tux_token(&self) -> (r: &Principal)
        requires
            self.is_initialized(),
        ensures
            r@ == self.spec_tux_token(),
    {
        &self.config.as_ref().unwrap().1
    }
}

} // verus!
