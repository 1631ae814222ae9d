//! The staking ledger: its store, its accrual rule, and its operations.
use vstd::prelude::*;
use crate::entries::{
    entries_map, lemma_lookup, lemma_push, lemma_remove, lemma_update, owners_distinct, Entries,
};
use crate::types::{
    AccountId, Balance, BlockNumber, Claimed, Staked, StakingError, StakingErrorView,
    StakingPosition, Unstaked, Withdrawal, BALANCE_OVERFLOW, EXCEEDS_STAKE, NO_STAKE_TO_CLAIM,
    NO_STAKE_TO_UNSTAKE,
};

verus! {

/// The reward that `position` has accrued at block `now`: one unit per block
/// elapsed since it was last settled, and nothing when the clock has not
/// moved past that block.
pub open spec fn reward_at(position: StakingPosition, now: BlockNumber) -> Balance {
    if now <= position.last_action_block {
        0
    } else {
        (now - position.last_action_block) as Balance
    }
}

/// The payout notice for settling a reward of `amount` to `user`: none when
/// nothing has accrued.
pub open spec fn claim_of(user: AccountId, amount: Balance) -> Option<Claimed> {
    if amount > 0 {
        Some(Claimed { user, amount })
    } else {
        None
    }
}

/// Appending a participant that is not yet listed keeps the list free of
/// repeats and adds exactly that participant.
proof fn lemma_push_active(s: Seq<AccountId>, k: AccountId)
    requires
        s.no_duplicates(),
        !s.contains(k),
    ensures
        s.push(k).no_duplicates(),
        forall|q: AccountId| #[trigger] s.push(k).contains(q) <==> s.contains(q) || q == k,
{
    let t = s.push(k);
    assert forall|q: AccountId| #[trigger] t.contains(q) <==> s.contains(q) || q == k by {
        if s.contains(q) {
            let j = choose|j: int| 0 <= j < s.len() && s[j] == q;
            assert(t[j] == q);
        }
        if q == k {
            assert(t[s.len() as int] == q);
        }
    }
}

/// Taking the entry at `i` out of a list free of repeats removes exactly the
/// participant listed there.
proof fn lemma_remove_active(s: Seq<AccountId>, i: int)
    requires
        s.no_duplicates(),
        0 <= i < s.len(),
    ensures
        s.remove(i).no_duplicates(),
        forall|q: AccountId| #[trigger] s.remove(i).contains(q) <==> s.contains(q) && q != s[i],
{
    let t = s.remove(i);
    assert forall|a: int, b: int| 0 <= a < t.len() && 0 <= b < t.len() && a != b implies t[a] != t[b] by {
        let sa = if a < i { a } else { a + 1 };
        let sb = if b < i { b } else { b + 1 };
        assert(t[a] == s[sa]);
        assert(t[b] == s[sb]);
    }
    assert forall|q: AccountId| #[trigger] t.contains(q) <==> s.contains(q) && q != s[i] by {
        if s.contains(q) && q != s[i] {
            let j = choose|j: int| 0 <= j < s.len() && s[j] == q;
            if j < i {
                assert(t[j] == q);
            } else {
                assert(t[j - 1] == q);
            }
        }
        if t.contains(q) {
            let j = choose|j: int| 0 <= j < t.len() && t[j] == q;
            let sj = if j < i { j } else { j + 1 };
            assert(s[sj] == q);
        }
    }
}

/// Positions and an active list that fit together: one entry per
/// participant, every entry holds a stake, and the active list names each
/// participant with an entry exactly once.
pub open spec fn parts_consistent(entries: Entries, active: Seq<AccountId>) -> bool {
    &&& owners_distinct(entries)
    &&& forall|i: int| 0 <= i < entries.len() ==> #[trigger] entries[i].1.stake_amount > 0
    &&& active.no_duplicates()
    &&& forall|k: AccountId|
        active.contains(k) <==> #[trigger] entries_map(entries).contains_key(k)
}

/// The index of `who`'s entry in `entries`, if it has one.
fn index_of_owner(entries: &Vec<(AccountId, StakingPosition)>, who: &AccountId) -> (r: Option<
    usize,
>)
    ensures
        match r {
            Some(i) => i < entries@.len() && entries@[i as int].0 == *who,
            None => !entries_map(entries@).contains_key(*who),
        },
{
    let mut i: usize = 0;
    while i < entries.len()
        invariant
            i <= entries@.len(),
            forall|j: int| 0 <= j < i ==> entries@[j].0 != *who,
        decreases entries@.len() - i,
    {
        if entries[i].0 == *who {
            return Some(i);
        }
        i = i + 1;
    }
    None
}

/// The index of `who` in `list`, if it is there.
fn index_of(list: &Vec<AccountId>, who: &AccountId) -> (r: Option<usize>)
    ensures
        match r {
            Some(i) => i < list@.len() && list@[i as int] == *who,
            None => !list@.contains(*who),
        },
{
    let mut i: usize = 0;
    while i < list.len()
        invariant
            i <= list@.len(),
            forall|j: int| 0 <= j < i ==> list@[j] != *who,
        decreases list@.len() - i,
    {
        if list[i] == *who {
            return Some(i);
        }
        i = i + 1;
    }
    None
}

/// Whether `entries` and `active` fit together as a store.
fn parts_fit(entries: &Vec<(AccountId, StakingPosition)>, active: &Vec<AccountId>) -> (r: bool)
    ensures
        r == parts_consistent(entries@, active@),
{
    let n = entries.len();
    let mut i: usize = 0;
    while i < n
        invariant
            n == entries@.len(),
            i <= n,
            forall|a: int| 0 <= a < i ==> #[trigger] entries@[a].1.stake_amount > 0,
            forall|a: int, b: int|
                0 <= a < i && 0 <= b < n && a != b ==> entries@[a].0 != entries@[b].0,
        decreases n - i,
    {
        if entries[i].1.stake_amount == 0 {
            return false;
        }
        let mut j: usize = 0;
        while j < n
            invariant
                n == entries@.len(),
                i < n,
                j <= n,
                forall|b: int| 0 <= b < j && b != i ==> entries@[i as int].0 != entries@[b].0,
            decreases n - j,
        {
            if j != i && entries[j].0 == entries[i].0 {
                return false;
            }
            j = j + 1;
        }
        i = i + 1;
    }
    let m = active.len();
    let mut i: usize = 0;
    while i < m
        invariant
            m == active@.len(),
            n == entries@.len(),
            owners_distinct(entries@),
            forall|a: int| 0 <= a < n ==> #[trigger] entries@[a].1.stake_amount > 0,
            i <= m,
            forall|a: int, b: int| 0 <= a < i && 0 <= b < m && a != b ==> active@[a] != active@[b],
            forall|a: int| 0 <= a < i ==> entries_map(entries@).contains_key(#[trigger] active@[a]),
        decreases m - i,
    {
        let mut j: usize = 0;
        while j < m
            invariant
                m == active@.len(),
                i < m,
                j <= m,
                forall|b: int| 0 <= b < j && b != i ==> active@[i as int] != active@[b],
            decreases m - j,
        {
            if j != i && active[j] == active[i] {
                return false;
            }
            j = j + 1;
        }
        if index_of_owner(entries, &active[i]).is_none() {
            assert(active@.contains(active@[i as int]));
            return false;
        }
        i = i + 1;
    }
    let mut i: usize = 0;
    while i < n
        invariant
            m == active@.len(),
            n == entries@.len(),
            owners_distinct(entries@),
            i <= n,
            forall|a: int| 0 <= a < i ==> active@.contains(#[trigger] entries@[a].0),
        decreases n - i,
    {
        if index_of(active, &entries[i].0).is_none() {
            proof {
                lemma_lookup(entries@, i as int);
            }
            return false;
        }
        i = i + 1;
    }
    assert forall|k: AccountId| active@.contains(k) <==> #[trigger] entries_map(entries@).contains_key(
        k,
    ) by {
        if active@.contains(k) {
            let a = choose|a: int| 0 <= a < m && active@[a] == k;
            assert(entries_map(entries@).contains_key(active@[a]));
        }
        if entries_map(entries@).contains_key(k) {
            let a = choose|a: int| 0 <= a < n && #[trigger] entries@[a].0 == k;
            assert(active@.contains(entries@[a].0));
        }
    }
    true
}

/// The store: the rate fixed at creation, the positions of the participants,
/// and the list of the participants that hold a stake.
#[derive(Clone, Debug)]
pub struct Staking {
    apy: u64,
    stake_positions: Vec<(AccountId, StakingPosition)>,
    staked_addresses: Vec<AccountId>,
}

impl Staking {
    /// The rate parameter given at creation.
    pub closed spec fn rate(&self) -> u64 {
        self.apy
    }

    /// Each participant's position.
    pub closed spec fn positions(&self) -> Map<AccountId, StakingPosition> {
        entries_map(self.stake_positions@)
    }

    /// The participants that currently hold a stake, in list order.
    pub closed spec fn active_list(&self) -> Seq<AccountId> {
        self.staked_addresses@
    }

    /// The participants that currently hold a stake.
    pub open spec fn active(&self) -> Set<AccountId> {
        self.active_list().to_set()
    }

    /// What `id` has staked: nothing when it holds no position.
    pub open spec fn stake_of(&self, id: AccountId) -> Balance {
        if self.positions().contains_key(id) {
            self.positions()[id].stake_amount
        } else {
            0
        }
    }

    /// The reward `id` has accrued at block `now`: nothing when it holds no
    /// position.
    pub open spec fn reward_of(&self, id: AccountId, now: BlockNumber) -> Balance {
        if self.positions().contains_key(id) {
            reward_at(self.positions()[id], now)
        } else {
            0
        }
    }

    /// The store is consistent.
    pub closed spec fn wf(&self) -> bool {
        parts_consistent(self.stake_positions@, self.staked_addresses@)
    }

    /// An empty ledger with the given rate.
    pub fn new(apy: u64) -> (r: Staking)
        ensures
            r.wf(),
            r.rate() == apy,
            r.positions() == Map::<AccountId, StakingPosition>::empty(),
            r.active_list() == Seq::<AccountId>::empty(),
    {
        let r = Staking { apy, stake_positions: Vec::new(), staked_addresses: Vec::new() };
        assert(r.positions() =~= Map::<AccountId, StakingPosition>::empty());
        r
    }

    /// The reward that `staking_position` has accrued at block `now`.
    pub fn calculate_rewards(&self, staking_position: &StakingPosition, now: BlockNumber) -> (r:
        Balance)
        ensures
            r == reward_at(*staking_position, now),
    {
        if now <= staking_position.last_action_block {
            return 0;
        }
        (now - staking_position.last_action_block) as Balance
    }

    /// What `account` has staked.
    pub fn get_account_stake(&self, account: AccountId) -> (r: Balance)
        requires
            self.wf(),
        ensures
            r == self.stake_of(account),
    {
        match index_of_owner(&self.stake_positions, &account) {
            Some(i) => {
                proof {
                    lemma_lookup(self.stake_positions@, i as int);
                }
                self.stake_positions[i].1.stake_amount
            },
            None => 0,
        }
    }

    /// The reward `user` has accrued at block `now`.
    pub fn rewards_for_user(&self, user: AccountId, now: BlockNumber) -> (r: Balance)
        requires
            self.wf(),
        ensures
            r == self.reward_of(user, now),
    {
        match index_of_owner(&self.stake_positions, &user) {
            Some(i) => {
                proof {
                    lemma_lookup(self.stake_positions@, i as int);
                }
                let position = self.stake_positions[i].1;
                self.calculate_rewards(&position, now)
            },
            None => 0,
        }
    }

    /// The position of `id` after a deposit of `amount` at block `now`: a top
    /// up keeps the block of the last settlement, a first deposit starts it at
    /// `now`.
    pub open spec fn deposited(&self, id: AccountId, amount: Balance, now: BlockNumber)
        -> StakingPosition {
        if self.positions().contains_key(id) {
            StakingPosition {
                stake_amount: (self.positions()[id].stake_amount + amount) as Balance,
                last_action_block: self.positions()[id].last_action_block,
            }
        } else {
            StakingPosition { stake_amount: amount, last_action_block: now }
        }
    }

    /// Deposits `transferred_amount` for `caller` at block `now`.
    ///
    /// Fails, leaving the ledger as it was, only when the new stake would not
    /// fit in a `Balance`. Otherwise the caller's stake grows by exactly the
    /// amount, the caller is active, and the returned notice records the
    /// deposit.
    pub fn stake(&mut self, caller: AccountId, transferred_amount: Balance, now: BlockNumber) -> (r:
        Result<Staked, StakingError>)
        requires
            old(self).wf(),
            transferred_amount > 0,
        ensures
            final(self).wf(),
            final(self).rate() == old(self).rate(),
            r is Err <==> old(self).stake_of(caller) + transferred_amount > Balance::MAX,
            r is Err ==> r->Err_0@ == StakingErrorView::Other(BALANCE_OVERFLOW@) && *final(self)
                == *old(self),
            r is Ok ==> {
                &&& r->Ok_0 == (Staked { user: caller, amount: transferred_amount })
                &&& final(self).positions() == old(self).positions().insert(
                    caller,
                    old(self).deposited(caller, transferred_amount, now),
                )
                &&& final(self).active() == old(self).active().insert(caller)
                &&& final(self).stake_of(caller) == old(self).stake_of(caller) + transferred_amount
            },
    {
        match index_of_owner(&self.stake_positions, &caller) {
            Some(i) => {
                proof {
                    lemma_lookup(self.stake_positions@, i as int);
                }
                let position = self.stake_positions[i].1;
                match position.stake_amount.checked_add(transferred_amount) {
                    Some(new_balance) => {
                        let updated = StakingPosition {
                            stake_amount: new_balance,
                            last_action_block: position.last_action_block,
                        };
                        proof {
                            lemma_update(self.stake_positions@, i as int, updated);
                        }
                        self.stake_positions.set(i, (caller, updated));
                    },
                    None => {
                        return Err(StakingError::Other(String::from_str(BALANCE_OVERFLOW)));
                    },
                }
            },
            None => {
                let created = StakingPosition {
                    stake_amount: transferred_amount,
                    last_action_block: now,
                };
                proof {
                    lemma_push(self.stake_positions@, caller, created);
                }
                self.stake_positions.push((caller, created));
            },
        }
        if index_of(&self.staked_addresses, &caller).is_none() {
            proof {
                lemma_push_active(self.staked_addresses@, caller);
            }
            self.staked_addresses.push(caller);
        }
        assert(self.active() =~= old(self).active().insert(caller));
        Ok(Staked { user: caller, amount: transferred_amount })
    }

    /// Settles `caller`'s reward at block `now`.
    ///
    /// Fails, leaving the ledger as it was, when the caller holds no
    /// position. Otherwise the position's settlement block moves to `now`
    /// with its stake unchanged, and the result is the payout of the reward
    /// accrued until then, if any accrued.
    pub fn claim_reward(&mut self, caller: AccountId, now: BlockNumber) -> (r: Result<
        Option<Claimed>,
        StakingError,
    >)
        requires
            old(self).wf(),
        ensures
            final(self).wf(),
            final(self).rate() == old(self).rate(),
            final(self).active_list() == old(self).active_list(),
            !old(self).positions().contains_key(caller) ==> {
                &&& r is Err
                &&& r->Err_0@ == StakingErrorView::ClaimingRewardError(NO_STAKE_TO_CLAIM@)
                &&& *final(self) == *old(self)
            },
            old(self).positions().contains_key(caller) ==> {
                &&& r == Ok::<Option<Claimed>, StakingError>(
                    claim_of(caller, old(self).reward_of(caller, now)),
                )
                &&& final(self).positions() == old(self).positions().insert(
                    caller,
                    StakingPosition {
                        stake_amount: old(self).stake_of(caller),
                        last_action_block: now,
                    },
                )
                &&& final(self).reward_of(caller, now) == 0
            },
    {
        let reward = self.rewards_for_user(caller, now);
        match index_of_owner(&self.stake_positions, &caller) {
            Some(i) => {
                proof {
                    lemma_lookup(self.stake_positions@, i as int);
                }
                let settled = StakingPosition {
                    stake_amount: self.stake_positions[i].1.stake_amount,
                    last_action_block: now,
                };
                proof {
                    lemma_update(self.stake_positions@, i as int, settled);
                }
                self.stake_positions.set(i, (caller, settled));
                if reward > 0 {
                    Ok(Some(Claimed { user: caller, amount: reward }))
                } else {
                    Ok(None)
                }
            },
            None => Err(StakingError::ClaimingRewardError(String::from_str(NO_STAKE_TO_CLAIM))),
        }
    }

    /// Withdraws `unstake_amount` of `caller`'s stake at block `now`.
    ///
    /// Fails, leaving the ledger as it was, when the caller holds no position
    /// or holds less than the amount. A withdrawal of the whole stake settles
    /// the reward accrued until `now` and removes the caller's position and
    /// its place among the active participants. A partial one lowers the
    /// stake by exactly the amount, moves the settlement block to `now` and
    /// pays no reward.
    pub fn unstake(&mut self, caller: AccountId, unstake_amount: Balance, now: BlockNumber) -> (r:
        Result<Withdrawal, StakingError>)
        requires
            old(self).wf(),
            unstake_amount > 0,
        ensures
            final(self).wf(),
            final(self).rate() == old(self).rate(),
            !old(self).positions().contains_key(caller) ==> {
                &&& r is Err
                &&& r->Err_0@ == StakingErrorView::UnstakeError(NO_STAKE_TO_UNSTAKE@)
            },
            old(self).positions().contains_key(caller) && unstake_amount > old(self).stake_of(
                caller,
            ) ==> {
                &&& r is Err
                &&& r->Err_0@ == StakingErrorView::UnstakeError(EXCEEDS_STAKE@)
            },
            unstake_amount > old(self).stake_of(caller) ==> {
                &&& r is Err
                &&& r->Err_0 is UnstakeError
                &&& *final(self) == *old(self)
            },
            unstake_amount == old(self).stake_of(caller) ==> {
                &&& r == Ok::<Withdrawal, StakingError>(
                    Withdrawal {
                        claimed: claim_of(caller, old(self).reward_of(caller, now)),
                        unstaked: Unstaked { user: caller, amount: unstake_amount },
                    },
                )
                &&& final(self).positions() == old(self).positions().remove(caller)
                &&& final(self).active() == old(self).active().remove(caller)
                &&& final(self).stake_of(caller) == 0
                &&& final(self).reward_of(caller, now) == 0
            },
            unstake_amount < old(self).stake_of(caller) ==> {
                &&& r == Ok::<Withdrawal, StakingError>(
                    Withdrawal {
                        claimed: None,
                        unstaked: Unstaked { user: caller, amount: unstake_amount },
                    },
                )
                &&& final(self).positions() == old(self).positions().insert(
                    caller,
                    StakingPosition {
                        stake_amount: (old(self).stake_of(caller) - unstake_amount) as Balance,
                        last_action_block: now,
                    },
                )
                &&& final(self).active() == old(self).active()
                &&& final(self).stake_of(caller) == old(self).stake_of(caller) - unstake_amount
            },
    {
        let i = match index_of_owner(&self.stake_positions, &caller) {
            Some(i) => i,
            None => {
                return Err(StakingError::UnstakeError(String::from_str(NO_STAKE_TO_UNSTAKE)));
            },
        };
        proof {
            lemma_lookup(self.stake_positions@, i as int);
        }
        let staked = self.stake_positions[i].1.stake_amount;
        if unstake_amount > staked {
            return Err(StakingError::UnstakeError(String::from_str(EXCEEDS_STAKE)));
        }
        let rest_stake = staked - unstake_amount;
        if rest_stake == 0 {
            let claimed = match self.claim_reward(caller, now) {
                Ok(claimed) => claimed,
                Err(e) => {
                    return Err(e);
                },
            };
            if let Some(k) = index_of_owner(&self.stake_positions, &caller) {
                proof {
                    lemma_remove(self.stake_positions@, k as int);
                }
                self.stake_positions.remove(k);
            }
            match index_of(&self.staked_addresses, &caller) {
                Some(j) => {
                    proof {
                        lemma_remove_active(self.staked_addresses@, j as int);
                    }
                    self.staked_addresses.remove(j);
                },
                None => {},
            }
            assert(self.active() =~= old(self).active().remove(caller));
            Ok(
                Withdrawal {
                    claimed,
                    unstaked: Unstaked { user: caller, amount: unstake_amount },
                },
            )
        } else {
            let reduced = StakingPosition { stake_amount: rest_stake, last_action_block: now };
            proof {
                lemma_update(self.stake_positions@, i as int, reduced);
            }
            self.stake_positions.set(i, (caller, reduced));
            Ok(
                Withdrawal {
                    claimed: None,
                    unstaked: Unstaked { user: caller, amount: unstake_amount },
                },
            )
        }
    }

    /// The rate parameter given at creation.
    pub fn apy(&self) -> (r: u64)
        ensures
            r == self.rate(),
    {
        self.apy
    }

    /// The participants that currently hold a stake.
    pub fn staked_addresses(&self) -> (r: &Vec<AccountId>)
        ensures
            r@ == self.active_list(),
    {
        &self.staked_addresses
    }

    /// Whether `account` currently holds a stake.
    pub fn is_staked(&self, account: AccountId) -> (r: bool)
        ensures
            r == self.active().contains(account),
    {
        index_of(&self.staked_addresses, &account).is_some()
    }

    /// In a consistent store, a participant is active exactly when it has a
    /// stake, and the active list names no participant twice.
    pub proof fn lemma_active_iff_staked(&self)
        requires
            self.wf(),
        ensures
            self.active_list().no_duplicates(),
            forall|id: AccountId| #[trigger] self.active().contains(id) <==> self.stake_of(id) > 0,
    {
        assert forall|id: AccountId| #[trigger] self.active().contains(id) <==> self.stake_of(id)
            > 0 by {
            if self.positions().contains_key(id) {
                let j = choose|j: int|
                    0 <= j < self.stake_positions@.len() && #[trigger] self.stake_positions@[j].0
                        == id;
                lemma_lookup(self.stake_positions@, j);
            }
        }
    }

    /// Rebuilds a ledger from its stored parts, as `into_parts` gives them:
    /// none when the parts do not fit together.
    pub fn from_parts(
        apy: u64,
        stake_positions: Vec<(AccountId, StakingPosition)>,
        staked_addresses: Vec<AccountId>,
    ) -> (r: Option<Staking>)
        ensures
            r is Some <==> parts_consistent(stake_positions@, staked_addresses@),
            r is Some ==> {
                &&& r->Some_0.wf()
                &&& r->Some_0.rate() == apy
                &&& r->Some_0.positions() == entries_map(stake_positions@)
                &&& r->Some_0.active_list() == staked_addresses@
            },
    {
        if parts_fit(&stake_positions, &staked_addresses) {
            Some(Staking { apy, stake_positions, staked_addresses })
        } else {
            None
        }
    }

    /// The ledger's parts: its rate, its entries and its active list.
    pub fn into_parts(self) -> (r: (u64, Vec<(AccountId, StakingPosition)>, Vec<AccountId>))
        requires
            self.wf(),
        ensures
            parts_consistent(r.1@, r.2@),
            r.0 == self.rate(),
            entries_map(r.1@) == self.positions(),
            r.2@ == self.active_list(),
    {
        (self.apy, self.stake_positions, self.staked_addresses)
    }
}

} // verus!
