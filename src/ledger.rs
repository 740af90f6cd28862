use vstd::prelude::*;

use crate::principal::Principal;

verus! {

/// One principal's positive share balance.
#[derive(Debug)]
pub struct Holding {
    pub holder: Principal,
    pub shares: i128,
}

/// Sum of all balances in `s`.
pub open spec fn sum_shares(s: Seq<Holding>) -> int
    decreases s.len(),
{
    if s.len() == 0 {
        0
    } else {
        sum_shares(s.drop_last()) + s.last().shares
    }
}

/// Balance of the principal with key `p` in `s` (0 when it holds none).
pub open spec fn shares_in(s: Seq<Holding>, p: Seq<u8>) -> int
    decreases s.len(),
{
    if s.len() == 0 {
        0
    } else if s.last().holder@ == p {
        s.last().shares as int
    } else {
        shares_in(s.drop_last(), p)
    }
}

/// Balances are positive and each principal has at most one entry.
pub open spec fn holdings_wf(s: Seq<Holding>) -> bool {
    &&& forall|i: int| 0 <= i < s.len() ==> #[trigger] s[i].shares > 0
    &&& forall|i: int, j: int|
        0 <= i < j < s.len() ==> #[trigger] s[i].holder@ != #[trigger] s[j].holder@
}

proof fn lemma_wf_drop_last(s: Seq<Holding>)
    requires
        holdings_wf(s),
        s.len() > 0,
    ensures
        holdings_wf(s.drop_last()),
{
    assert forall|i: int, j: int| 0 <= i < j < s.drop_last().len() implies #[trigger] s.drop_last()[i].holder@
        != #[trigger] s.drop_last()[j].holder@ by {
        assert(s.drop_last()[i] == s[i] && s.drop_last()[j] == s[j]);
    }
}

proof fn lemma_absent(s: Seq<Holding>, p: Seq<u8>)
    requires
        forall|i: int| 0 <= i < s.len() ==> #[trigger] s[i].holder@ != p,
    ensures
        shares_in(s, p) == 0,
    decreases s.len(),
{
    if s.len() > 0 {
        assert(s.last() == s[s.len() - 1]);
        assert forall|i: int| 0 <= i < s.drop_last().len() implies #[trigger] s.drop_last()[i].holder@
            != p by {
            assert(s.drop_last()[i] == s[i]);
        }
        lemma_absent(s.drop_last(), p);
    }
}

proof fn lemma_at_index(s: Seq<Holding>, i: int)
    requires
        holdings_wf(s),
        0 <= i < s.len(),
    ensures
        shares_in(s, s[i].holder@) == s[i].shares,
    decreases s.len(),
{
    let n = s.len() - 1;
    assert(s.last() == s[n]);
    if i < n {
        assert(s[i].holder@ != s[n].holder@);
        lemma_wf_drop_last(s);
        assert(s.drop_last()[i] == s[i]);
        lemma_at_index(s.drop_last(), i);
    }
}

/// Every balance is at most the sum, and the sum is not negative.
pub proof fn lemma_share_le_sum(s: Seq<Holding>, p: Seq<u8>)
    requires
        holdings_wf(s),
    ensures
        0 <= shares_in(s, p) <= sum_shares(s),
    decreases s.len(),
{
    if s.len() > 0 {
        assert(s.last() == s[s.len() - 1]);
        lemma_wf_drop_last(s);
        lemma_share_le_sum(s.drop_last(), p);
    }
}

proof fn lemma_push(s: Seq<Holding>, h: Holding)
    ensures
        sum_shares(s.push(h)) == sum_shares(s) + h.shares,
        forall|p: Seq<u8>|
            #[trigger] shares_in(s.push(h), p) == if p == h.holder@ {
                h.shares as int
            } else {
                shares_in(s, p)
            },
{
    assert(s.push(h).drop_last() =~= s);
}

proof fn lemma_update(s: Seq<Holding>, i: int, h: Holding)
    requires
        holdings_wf(s),
        0 <= i < s.len(),
        h.holder@ == s[i].holder@,
    ensures
        sum_shares(s.update(i, h)) == sum_shares(s) - s[i].shares + h.shares,
        forall|p: Seq<u8>|
            #[trigger] shares_in(s.update(i, h), p) == if p == h.holder@ {
                h.shares as int
            } else {
                shares_in(s, p)
            },
    decreases s.len(),
{
    let n = s.len() - 1;
    let t = s.update(i, h);
    assert(s.last() == s[n]);
    assert(t.last() == t[n]);
    if i == n {
        assert(t.drop_last() =~= s.drop_last());
        assert forall|p: Seq<u8>| #[trigger] shares_in(t, p) == if p == h.holder@ {
            h.shares as int
        } else {
            shares_in(s, p)
        } by {}
    } else {
        lemma_wf_drop_last(s);
        assert(t.drop_last() =~= s.drop_last().update(i, h));
        assert(s.drop_last()[i] == s[i]);
        lemma_update(s.drop_last(), i, h);
        assert(s[i].holder@ != s[n].holder@);
        assert forall|p: Seq<u8>| #[trigger] shares_in(t, p) == if p == h.holder@ {
            h.shares as int
        } else {
            shares_in(s, p)
        } by {
            assert(shares_in(t.drop_last(), p) == shares_in(s.drop_last().update(i, h), p));
        }
    }
}

proof fn lemma_remove(s: Seq<Holding>, i: int)
    requires
        holdings_wf(s),
        0 <= i < s.len(),
    ensures
        sum_shares(s.remove(i)) == sum_shares(s) - s[i].shares,
        forall|p: Seq<u8>|
            #[trigger] shares_in(s.remove(i), p) == if p == s[i].holder@ {
                0
            } else {
                shares_in(s, p)
            },
    decreases s.len(),
{
    let n = s.len() - 1;
    let t = s.remove(i);
    assert(s.last() == s[n]);
    lemma_wf_drop_last(s);
    if i == n {
        assert(t =~= s.drop_last());
        assert forall|k: int| 0 <= k < t.len() implies #[trigger] t[k].holder@ != s[i].holder@ by {
            assert(t[k] == s[k]);
        }
        lemma_absent(t, s[i].holder@);
    } else {
        assert(t.last() == s[n]);
        assert(t.drop_last() =~= s.drop_last().remove(i));
        assert(s.drop_last()[i] == s[i]);
        lemma_remove(s.drop_last(), i);
        assert(s[i].holder@ != s[n].holder@);
        assert forall|p: Seq<u8>| #[trigger] shares_in(t, p) == if p == s[i].holder@ {
            0
        } else {
            shares_in(s, p)
        } by {
            assert(shares_in(t.drop_last(), p) == shares_in(s.drop_last().remove(i), p));
        }
    }
}

/// Sum of the amounts listed for key `p` in `s`.
pub open spec fn listed_shares(s: Seq<(Principal, i128)>, p: Seq<u8>) -> int
    decreases s.len(),
{
    if s.len() == 0 {
        0
    } else {
        listed_shares(s.drop_last(), p) + if s.last().0@ == p {
            s.last().1 as int
        } else {
            0
        }
    }
}

/// Sum of all amounts listed in `s`.
pub open spec fn listed_total(s: Seq<(Principal, i128)>) -> int
    decreases s.len(),
{
    if s.len() == 0 {
        0
    } else {
        listed_total(s.drop_last()) + s.last().1
    }
}

proof fn lemma_listed_prefix(s: Seq<(Principal, i128)>, i: int)
    requires
        0 <= i <= s.len(),
        forall|k: int| 0 <= k < s.len() ==> #[trigger] s[k].1 > 0,
    ensures
        listed_total(s.subrange(0, i)) <= listed_total(s),
    decreases s.len(),
{
    if i < s.len() {
        assert(s.subrange(0, i) =~= s.drop_last().subrange(0, i));
        assert(s.last() == s[s.len() - 1]);
        assert forall|k: int| 0 <= k < s.drop_last().len() implies #[trigger] s.drop_last()[k].1 > 0 by {
            assert(s.drop_last()[k] == s[k]);
        }
        lemma_listed_prefix(s.drop_last(), i);
    } else {
        assert(s.subrange(0, i) =~= s);
    }
}

proof fn lemma_listed_absent(r: Seq<(Principal, i128)>, p: Seq<u8>)
    requires
        forall|k: int| 0 <= k < r.len() ==> #[trigger] r[k].0@ != p,
    ensures
        listed_shares(r, p) == 0,
    decreases r.len(),
{
    if r.len() > 0 {
        assert(r.last() == r[r.len() - 1]);
        assert forall|k: int| 0 <= k < r.drop_last().len() implies #[trigger] r.drop_last()[k].0@ != p by {
            assert(r.drop_last()[k] == r[k]);
        }
        lemma_listed_absent(r.drop_last(), p);
    }
}

proof fn lemma_listed_matches(r: Seq<(Principal, i128)>, s: Seq<Holding>)
    requires
        holdings_wf(s),
        r.len() == s.len(),
        forall|k: int|
            #![trigger r[k]]
            0 <= k < r.len() ==> r[k].0@ == s[k].holder@ && r[k].1 == s[k].shares,
    ensures
        listed_total(r) == sum_shares(s),
        forall|p: Seq<u8>| #[trigger] listed_shares(r, p) == shares_in(s, p),
    decreases r.len(),
{
    if r.len() > 0 {
        let n = r.len() - 1;
        assert(r.last() == r[n]);
        assert(s.last() == s[n]);
        lemma_wf_drop_last(s);
        assert(r[n].1 == s[n].shares);
        assert forall|k: int| 0 <= k < r.drop_last().len() implies #[trigger] r.drop_last()[k].0@
            == s.drop_last()[k].holder@ && r.drop_last()[k].1 == s.drop_last()[k].shares by {
            assert(r.drop_last()[k] == r[k]);
            assert(s.drop_last()[k] == s[k]);
        }
        lemma_listed_matches(r.drop_last(), s.drop_last());
        assert forall|p: Seq<u8>| #[trigger] listed_shares(r, p) == shares_in(s, p) by {
            assert(r[n].0@ == s[n].holder@);
            assert(shares_in(s.drop_last(), p) == listed_shares(r.drop_last(), p));
            if s[n].holder@ == p {
                assert forall|k: int| 0 <= k < r.drop_last().len() implies #[trigger] r.drop_last()[k].0@
                    != p by {
                    assert(r.drop_last()[k] == r[k]);
                    assert(s[k].holder@ != s[n].holder@);
                }
                lemma_listed_absent(r.drop_last(), p);
                lemma_absent(s.drop_last(), p);
            }
        }
    }
}

/// The per-principal share balances of the vault.
#[derive(Debug)]
pub struct ShareLedger {
    holdings: Vec<Holding>,
}

impl ShareLedger {
    pub closed spec fn entries(&self) -> Seq<Holding> {
        self.holdings@
    }

    pub open spec fn wf(&self) -> bool {
        holdings_wf(self.entries())
    }

    /// Balance of the principal with key `p`.
    pub open spec fn shares_of(&self, p: Seq<u8>) -> int {
        shares_in(self.entries(), p)
    }

    /// Sum of all balances.
    pub open spec fn total(&self) -> int {
        sum_shares(self.entries())
    }

    pub fn new() -> (r: ShareLedger)
        ensures
            r.wf(),
            r.total() == 0,
            forall|p: Seq<u8>| #[trigger] r.shares_of(p) == 0,
    {
        ShareLedger { holdings: Vec::new() }
    }

    /// A ledger holding the listed amounts; a key listed twice holds the sum.
    /// `None` unless every amount is positive and their sum fits in `i128`.
    pub fn from_list(list: &Vec<(Principal, i128)>) -> (r: Option<(ShareLedger, i128)>)
        ensures
            r is Some <==> (forall|k: int| 0 <= k < list@.len() ==> #[trigger] list@[k].1 > 0)
                && listed_total(list@) <= i128::MAX,
            r matches Some((l, t)) ==> {
                &&& l.wf()
                &&& t == l.total()
                &&& l.total() == listed_total(list@)
                &&& forall|p: Seq<u8>| #[trigger] l.shares_of(p) == listed_shares(list@, p)
            },
    {
        let mut i: usize = 0;
        while i < list.len()
            invariant
                i <= list@.len(),
                forall|k: int| 0 <= k < i ==> #[trigger] list@[k].1 > 0,
            decreases list@.len() - i,
        {
            if list[i].1 <= 0 {
                return None;
            }
            i = i + 1;
        }
        let mut ledger = ShareLedger::new();
        let mut total: i128 = 0;
        let mut j: usize = 0;
        while j < list.len()
            invariant
                j <= list@.len(),
                forall|k: int| 0 <= k < list@.len() ==> #[trigger] list@[k].1 > 0,
                ledger.wf(),
                total == ledger.total(),
                total == listed_total(list@.subrange(0, j as int)),
                forall|p: Seq<u8>| #[trigger]
                    ledger.shares_of(p) == listed_shares(list@.subrange(0, j as int), p),
            decreases list@.len() - j,
        {
            let ghost pre = list@.subrange(0, j as int);
            let ghost next = list@.subrange(0, j as int + 1);
            assert(next.drop_last() =~= pre);
            assert(next.last() == list@[j as int]);
            let amount = list[j].1;
            total = match total.checked_add(amount) {
                Some(t) => t,
                None => {
                    proof {
                        lemma_listed_prefix(list@, j as int + 1);
                    }
                    return None;
                },
            };
            ledger.credit(&list[j].0, amount);
            j = j + 1;
        }
        assert(list@.subrange(0, j as int) =~= list@);
        Some((ledger, total))
    }

    /// The balances, one pair per principal.
    pub fn to_list(&self) -> (r: Vec<(Principal, i128)>)
        requires
            self.wf(),
        ensures
            listed_total(r@) == self.total(),
            forall|p: Seq<u8>| #[trigger] listed_shares(r@, p) == self.shares_of(p),
            r@.len() == self.entries().len(),
            forall|k: int|
                0 <= k < r@.len() ==> #[trigger] r@[k].0@ == self.entries()[k].holder@ && r@[k].1
                    == self.entries()[k].shares,
    {
        let mut out: Vec<(Principal, i128)> = Vec::new();
        let mut i: usize = 0;
        while i < self.holdings.len()
            invariant
                i <= self.holdings@.len(),
                out@.len() == i,
                forall|k: int|
                    0 <= k < i ==> #[trigger] out@[k].0@ == self.holdings@[k].holder@ && out@[k].1
                        == self.holdings@[k].shares,
            decreases self.holdings@.len() - i,
        {
            out.push((self.holdings[i].holder.duplicate(), self.holdings[i].shares));
            i = i + 1;
        }
        proof {
            lemma_listed_matches(out@, self.holdings@);
        }
        out
    }

    /// Number of principals with a nonzero balance.
    pub fn holder_count(&self) -> (r: usize)
        ensures
            r == self.entries().len(),
    {
        self.holdings.len()
    }

    /// Sum and bounds of the balances.
    pub proof fn lemma_bounds(&self, p: Seq<u8>)
        requires
            self.wf(),
        ensures
            0 <= self.shares_of(p) <= self.total(),
    {
        lemma_share_le_sum(self.entries(), p);
    }

    fn find(&self, p: &Principal) -> (r: Option<usize>)
        ensures
            match r {
                Some(i) => i < self.entries().len() && self.entries()[i as int].holder@ == p@,
                None => forall|k: int|
                    0 <= k < self.entries().len() ==> #[trigger] self.entries()[k].holder@ != p@,
            },
    {
        let mut i: usize = 0;
        while i < self.holdings.len()
            invariant
                i <= self.holdings@.len(),
                forall|k: int| 0 <= k < i ==> #[trigger] self.holdings@[k].holder@ != p@,
            decreases self.holdings@.len() - i,
        {
            if self.holdings[i].holder.same(p) {
                return Some(i);
            }
            i = i + 1;
        }
        None
    }

    /// Balance of `p`.
    pub fn balance(&self, p: &Principal) -> (r: i128)
        requires
            self.wf(),
        ensures
            r == self.shares_of(p@),
    {
        match self.find(p) {
            Some(i) => {
                proof {
                    lemma_at_index(self.entries(), i as int);
                }
                self.holdings[i].shares
            },
            None => {
                proof {
                    lemma_absent(self.entries(), p@);
                }
                0
            },
        }
    }

    /// Adds `amount` shares to `p`'s balance.
    pub fn credit(&mut self, p: &Principal, amount: i128)
        requires
            old(self).wf(),
            amount > 0,
            old(self).total() + amount <= i128::MAX,
        ensures
            final(self).wf(),
            final(self).total() == old(self).total() + amount,
            forall|q: Seq<u8>|
                #[trigger] final(self).shares_of(q) == if q == p@ {
                    old(self).shares_of(q) + amount
                } else {
                    old(self).shares_of(q)
                },
    {
        let ghost s = self.holdings@;
        match self.find(p) {
            Some(i) => {
                proof {
                    lemma_at_index(s, i as int);
                    lemma_share_le_sum(s, p@);
                }
                let cur = self.holdings[i].shares;
                let h = Holding { holder: p.duplicate(), shares: cur + amount };
                proof {
                    lemma_update(s, i as int, h);
                }
                self.holdings.set(i, h);
                assert(self.holdings@ == s.update(i as int, h));
                assert forall|a: int, b: int|
                    0 <= a < b < self.holdings@.len() implies #[trigger] self.holdings@[a].holder@
                    != #[trigger] self.holdings@[b].holder@ by {
                    assert(s[a].holder@ != s[b].holder@);
                }
            },
            None => {
                let h = Holding { holder: p.duplicate(), shares: amount };
                proof {
                    lemma_absent(s, p@);
                    lemma_push(s, h);
                }
                self.holdings.push(h);
                assert(self.holdings@ == s.push(h));
            },
        }
    }

    /// Takes `amount` shares from `p`'s balance; an emptied entry is removed.
    pub fn debit(&mut self, p: &Principal, amount: i128)
        requires
            old(self).wf(),
            0 < amount <= old(self).shares_of(p@),
        ensures
            final(self).wf(),
            final(self).total() == old(self).total() - amount,
            forall|q: Seq<u8>|
                #[trigger] final(self).shares_of(q) == if q == p@ {
                    old(self).shares_of(q) - amount
                } else {
                    old(self).shares_of(q)
                },
    {
        let ghost s = self.holdings@;
        match self.find(p) {
            Some(i) => {
                proof {
                    lemma_at_index(s, i as int);
                }
                let cur = self.holdings[i].shares;
                if cur == amount {
                    proof {
                        lemma_remove(s, i as int);
                    }
                    let _ = self.holdings.remove(i);
                    assert(self.holdings@ == s.remove(i as int));
                    assert forall|a: int, b: int|
                        0 <= a < b < self.holdings@.len() implies #[trigger] self.holdings@[a].holder@
                        != #[trigger] self.holdings@[b].holder@ by {
                        let a0 = if a < i { a } else { a + 1 };
                        let b0 = if b < i { b } else { b + 1 };
                        assert(s[a0].holder@ != s[b0].holder@);
                    }
                } else {
                    let h = Holding { holder: p.duplicate(), shares: cur - amount };
                    proof {
                        lemma_update(s, i as int, h);
                    }
                    self.holdings.set(i, h);
                    assert(self.holdings@ == s.update(i as int, h));
                    assert forall|a: int, b: int|
                        0 <= a < b < self.holdings@.len() implies #[trigger] self.holdings@[a].holder@
                        != #[trigger] self.holdings@[b].holder@ by {
                        assert(s[a].holder@ != s[b].holder@);
                    }
                }
            },
            None => {
                proof {
                    lemma_absent(s, p@);
                }
            },
        }
    }
}

} // verus!
