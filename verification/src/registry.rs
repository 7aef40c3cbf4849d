use vstd::prelude::*;
use crate::errors::StakeError;

verus! {

/// A token-holding account as the external asset registry tracks it,
/// together with the delegated-capability relation on it: the delegate (if
/// any) granted transfer rights over the held token, and whether transfers
/// are currently locked by that delegate.
#[derive(Clone, Copy, Debug)]
pub struct Holding {
    pub id: u64,
    pub owner: u64,
    pub asset: u64,
    pub balance: u64,
    pub delegate: Option<u64>,
    pub locked: bool,
}

/// The registry's canonical descriptor linking a unique asset to its master
/// record.
#[derive(Clone, Copy, Debug, PartialEq, Eq, Structural)]
pub struct AssetRef {
    pub asset: u64,
    pub master_record: u64,
}

/// A reward-token account and its balance.
#[derive(Clone, Copy, Debug, PartialEq, Eq, Structural)]
pub struct RewardAccount {
    pub id: u64,
    pub balance: u64,
}

/// A model of the external asset registry: token-holding accounts with their
/// delegated capabilities, asset master records, and reward-token balances.
pub struct AssetRegistry {
    pub holdings: Vec<Holding>,
    pub assets: Vec<AssetRef>,
    pub reward_accounts: Vec<RewardAccount>,
}

impl AssetRegistry {
    /// Well-formed: account identities are unique, and a transfer lock is
    /// only ever held through a live delegation.
    pub open spec fn wf(self) -> bool {
        &&& forall|i: int, j: int|
            #![trigger self.holdings@[i], self.holdings@[j]]
            0 <= i < self.holdings@.len() && 0 <= j < self.holdings@.len() && i != j
                ==> self.holdings@[i].id != self.holdings@[j].id
        &&& forall|i: int, j: int|
            #![trigger self.reward_accounts@[i], self.reward_accounts@[j]]
            0 <= i < self.reward_accounts@.len() && 0 <= j < self.reward_accounts@.len() && i != j
                ==> self.reward_accounts@[i].id != self.reward_accounts@[j].id
        &&& forall|i: int|
            0 <= i < self.holdings@.len() && (#[trigger] self.holdings@[i]).locked
                ==> self.holdings@[i].delegate is Some
    }

    /// Is `token_account` a known holding?
    pub open spec fn has_holding(self, token_account: u64) -> bool {
        exists|i: int|
            0 <= i < self.holdings@.len() && (#[trigger] self.holdings@[i]).id == token_account
    }

    /// Index of the holding named `token_account`, where one exists.
    pub open spec fn holding_index(self, token_account: u64) -> int {
        choose|i: int|
            0 <= i < self.holdings@.len() && (#[trigger] self.holdings@[i]).id == token_account
    }

    /// The holding named `token_account`, where one exists.
    pub open spec fn holding_of(self, token_account: u64) -> Holding {
        self.holdings@[self.holding_index(token_account)]
    }

    /// Does the registry link `master_record` to `asset`?
    pub open spec fn valid_master(self, asset: u64, master_record: u64) -> bool {
        exists|i: int|
            0 <= i < self.assets@.len() && (#[trigger] self.assets@[i]) == (AssetRef {
                asset,
                master_record,
            })
    }

    /// Is `account` a known reward-token account?
    pub open spec fn has_reward_account(self, account: u64) -> bool {
        exists|i: int|
            0 <= i < self.reward_accounts@.len() && (#[trigger] self.reward_accounts@[i]).id
                == account
    }

    /// Index of the reward account named `account`, where one exists.
    pub open spec fn reward_index(self, account: u64) -> int {
        choose|i: int|
            0 <= i < self.reward_accounts@.len() && (#[trigger] self.reward_accounts@[i]).id
                == account
    }

    /// Balance of the reward account named `account`, where one exists.
    pub open spec fn reward_balance(self, account: u64) -> u64 {
        self.reward_accounts@[self.reward_index(account)].balance
    }

    /// In a well-formed registry an account identity names at most one
    /// holding.
    pub proof fn lemma_holding_unique(self, token_account: u64, i: int)
        requires
            self.wf(),
            0 <= i < self.holdings@.len(),
            self.holdings@[i].id == token_account,
        ensures
            i == self.holding_index(token_account),
            self.has_holding(token_account),
    {
        assert(self.has_holding(token_account));
    }

    /// In a well-formed registry an identity names at most one reward
    /// account.
    pub proof fn lemma_reward_unique(self, account: u64, i: int)
        requires
            self.wf(),
            0 <= i < self.reward_accounts@.len(),
            self.reward_accounts@[i].id == account,
        ensures
            i == self.reward_index(account),
            self.has_reward_account(account),
    {
        assert(self.has_reward_account(account));
    }

    /// Replacing one holding by another with the same identity keeps the
    /// registry well formed and leaves every other holding untouched.
    proof fn lemma_holdings_update(pre: AssetRegistry, post: AssetRegistry, k: int, nh: Holding)
        requires
            pre.wf(),
            0 <= k < pre.holdings@.len(),
            nh.id == pre.holdings@[k].id,
            nh.locked ==> nh.delegate is Some,
            post.holdings@ == pre.holdings@.update(k, nh),
            post.assets == pre.assets,
            post.reward_accounts == pre.reward_accounts,
        ensures
            post.wf(),
            post.has_holding(nh.id),
            post.holding_of(nh.id) == nh,
            forall|t: u64| t != nh.id ==> post.has_holding(t) == pre.has_holding(t),
            forall|t: u64|
                t != nh.id && pre.has_holding(t) ==> post.holding_of(t) == pre.holding_of(t),
    {
        post.lemma_holding_unique(nh.id, k);
        assert forall|t: u64| t != nh.id implies post.has_holding(t) == pre.has_holding(t) by {
            if pre.has_holding(t) {
                let i = pre.holding_index(t);
                assert(post.holdings@[i].id == t);
            }
            if post.has_holding(t) {
                let i = post.holding_index(t);
                assert(pre.holdings@[i].id == t);
            }
        }
        assert forall|t: u64| t != nh.id && pre.has_holding(t) implies post.holding_of(t)
            == pre.holding_of(t) by {
            let i = pre.holding_index(t);
            assert(post.holdings@[i].id == t);
            post.lemma_holding_unique(t, i);
        }
    }

    /// Two well-formed registries with the same holdings table agree on
    /// every holding.
    pub proof fn lemma_same_holdings(a: AssetRegistry, b: AssetRegistry, token_account: u64)
        requires
            a.wf(),
            b.wf(),
            a.holdings == b.holdings,
        ensures
            a.has_holding(token_account) == b.has_holding(token_account),
            a.has_holding(token_account) ==> a.holding_of(token_account) == b.holding_of(
                token_account,
            ),
    {
        if a.has_holding(token_account) {
            let i = a.holding_index(token_account);
            assert(b.holdings@[i].id == token_account);
            b.lemma_holding_unique(token_account, i);
        }
        if b.has_holding(token_account) {
            let i = b.holding_index(token_account);
            assert(a.holdings@[i].id == token_account);
            a.lemma_holding_unique(token_account, i);
        }
    }

    /// Two registries with the same asset table agree on every master-record
    /// linkage.
    pub proof fn lemma_same_assets(a: AssetRegistry, b: AssetRegistry, asset: u64, master_record: u64)
        requires
            a.assets == b.assets,
        ensures
            a.valid_master(asset, master_record) == b.valid_master(asset, master_record),
    {
        if a.valid_master(asset, master_record) {
            let i = choose|i: int|
                0 <= i < a.assets@.len() && (#[trigger] a.assets@[i]) == (AssetRef {
                    asset,
                    master_record,
                });
            assert(b.assets@[i] == (AssetRef { asset, master_record }));
        }
        if b.valid_master(asset, master_record) {
            let i = choose|i: int|
                0 <= i < b.assets@.len() && (#[trigger] b.assets@[i]) == (AssetRef {
                    asset,
                    master_record,
                });
            assert(a.assets@[i] == (AssetRef { asset, master_record }));
        }
    }

    /// Two well-formed registries with the same reward-account table agree on
    /// every reward account, balance, and issuance decision.
    pub proof fn lemma_same_rewards(a: AssetRegistry, b: AssetRegistry, account: u64)
        requires
            a.wf(),
            b.wf(),
            a.reward_accounts == b.reward_accounts,
        ensures
            a.has_reward_account(account) == b.has_reward_account(account),
            a.has_reward_account(account) ==> a.reward_balance(account) == b.reward_balance(
                account,
            ),
            forall|amount: u64| a.can_issue(account, amount) == b.can_issue(account, amount),
    {
        if a.has_reward_account(account) {
            let i = a.reward_index(account);
            assert(b.reward_accounts@[i].id == account);
            b.lemma_reward_unique(account, i);
        }
        if b.has_reward_account(account) {
            let i = b.reward_index(account);
            assert(a.reward_accounts@[i].id == account);
            a.lemma_reward_unique(account, i);
        }
    }

    /// An empty registry.
    pub fn new() -> (r: AssetRegistry)
        ensures
            r.wf(),
            forall|t: u64| !r.has_holding(t),
            forall|a: u64| !r.has_reward_account(a),
            forall|a: u64, m: u64| !r.valid_master(a, m),
    {
        AssetRegistry { holdings: Vec::new(), assets: Vec::new(), reward_accounts: Vec::new() }
    }

    /// Register a holding.  Refused, with nothing changed, where the
    /// identity is already taken or a transfer lock is claimed without a
    /// delegation; accepted otherwise, leaving every other entry untouched.
    pub fn add_holding(&mut self, h: Holding) -> (r: bool)
        requires
            old(self).wf(),
        ensures
            final(self).wf(),
            r <==> (!old(self).has_holding(h.id) && (h.locked ==> h.delegate is Some)),
            !r ==> *final(self) == *old(self),
            r ==> final(self).holdings@ == old(self).holdings@.push(h),
            r ==> final(self).has_holding(h.id) && final(self).holding_of(h.id) == h,
            forall|t: u64| t != h.id ==> final(self).has_holding(t) == old(self).has_holding(t),
            forall|t: u64|
                t != h.id && old(self).has_holding(t) ==> final(self).holding_of(t) == old(
                    self,
                ).holding_of(t),
            final(self).assets == old(self).assets,
            final(self).reward_accounts == old(self).reward_accounts,
    {
        if self.find_holding(h.id).is_some() {
            return false;
        }
        if h.locked && h.delegate.is_none() {
            return false;
        }
        let ghost pre = *self;
        self.holdings.push(h);
        proof {
            let n = pre.holdings@.len() as int;
            assert forall|i: int, j: int|
                0 <= i < self.holdings@.len() && 0 <= j < self.holdings@.len() && i != j implies self
                .holdings@[i].id != self.holdings@[j].id by {
                if i < n && j < n {
                    assert(pre.holdings@[i].id != pre.holdings@[j].id);
                } else if i == n && j < n {
                    assert(pre.holdings@[j].id != h.id);
                } else if j == n && i < n {
                    assert(pre.holdings@[i].id != h.id);
                }
            }
            self.lemma_holding_unique(h.id, n);
            assert forall|t: u64| t != h.id implies self.has_holding(t) == pre.has_holding(t) by {
                if pre.has_holding(t) {
                    let i = pre.holding_index(t);
                    assert(self.holdings@[i].id == t);
                }
                if self.has_holding(t) {
                    let i = self.holding_index(t);
                    assert(pre.holdings@[i].id == t);
                }
            }
            assert forall|t: u64| t != h.id && pre.has_holding(t) implies self.holding_of(t)
                == pre.holding_of(t) by {
                let i = pre.holding_index(t);
                assert(self.holdings@[i].id == t);
                self.lemma_holding_unique(t, i);
            }
        }
        true
    }

    /// Register an asset's canonical master record.
    pub fn add_asset(&mut self, a: AssetRef)
        requires
            old(self).wf(),
        ensures
            final(self).wf(),
            final(self).assets@ == old(self).assets@.push(a),
            final(self).valid_master(a.asset, a.master_record),
            forall|x: u64, m: u64|
                old(self).valid_master(x, m) ==> final(self).valid_master(x, m),
            final(self).holdings == old(self).holdings,
            final(self).reward_accounts == old(self).reward_accounts,
    {
        let ghost pre = *self;
        self.assets.push(a);
        proof {
            let n = pre.assets@.len() as int;
            assert(self.assets@[n] == a);
            assert forall|x: u64, m: u64| pre.valid_master(x, m) implies self.valid_master(
                x,
                m,
            ) by {
                let i = choose|i: int|
                    0 <= i < pre.assets@.len() && (#[trigger] pre.assets@[i]) == (AssetRef {
                        asset: x,
                        master_record: m,
                    });
                assert(self.assets@[i] == (AssetRef { asset: x, master_record: m }));
            }
        }
    }

    /// Register a reward-token account.  Refused, with nothing changed,
    /// where the identity is already taken.
    pub fn add_reward_account(&mut self, a: RewardAccount) -> (r: bool)
        requires
            old(self).wf(),
        ensures
            final(self).wf(),
            r <==> !old(self).has_reward_account(a.id),
            !r ==> *final(self) == *old(self),
            r ==> final(self).has_reward_account(a.id) && final(self).reward_balance(a.id)
                == a.balance,
            forall|x: u64|
                x != a.id ==> final(self).has_reward_account(x) == old(self).has_reward_account(x),
            forall|x: u64|
                x != a.id && old(self).has_reward_account(x) ==> final(self).reward_balance(x)
                    == old(self).reward_balance(x),
            final(self).holdings == old(self).holdings,
            final(self).assets == old(self).assets,
    {
        if self.find_reward_account(a.id).is_some() {
            return false;
        }
        let ghost pre = *self;
        self.reward_accounts.push(a);
        proof {
            let n = pre.reward_accounts@.len() as int;
            assert forall|i: int, j: int|
                0 <= i < self.reward_accounts@.len() && 0 <= j < self.reward_accounts@.len() && i
                    != j implies self.reward_accounts@[i].id != self.reward_accounts@[j].id by {
                if i < n && j < n {
                    assert(pre.reward_accounts@[i].id != pre.reward_accounts@[j].id);
                } else if i == n && j < n {
                    assert(pre.reward_accounts@[j].id != a.id);
                } else if j == n && i < n {
                    assert(pre.reward_accounts@[i].id != a.id);
                }
            }
            self.lemma_reward_unique(a.id, n);
            assert forall|x: u64| x != a.id implies self.has_reward_account(x) == pre
                .has_reward_account(x) by {
                if pre.has_reward_account(x) {
                    let i = pre.reward_index(x);
                    assert(self.reward_accounts@[i].id == x);
                }
                if self.has_reward_account(x) {
                    let i = self.reward_index(x);
                    assert(pre.reward_accounts@[i].id == x);
                }
            }
            assert forall|x: u64| x != a.id && pre.has_reward_account(x) implies self
                .reward_balance(x) == pre.reward_balance(x) by {
                let i = pre.reward_index(x);
                assert(self.reward_accounts@[i].id == x);
                self.lemma_reward_unique(x, i);
            }
        }
        true
    }

    /// Linear scan for the holding named `token_account`.
    pub fn find_holding(&self, token_account: u64) -> (r: Option<usize>)
        ensures
            match r {
                Some(i) => i < self.holdings@.len() && self.holdings@[i as int].id
                    == token_account,
                None => !self.has_holding(token_account),
            },
    {
        let mut i: usize = 0;
        while i < self.holdings.len()
            invariant
                i <= self.holdings@.len(),
                forall|j: int| 0 <= j < i ==> (#[trigger] self.holdings@[j]).id != token_account,
            decreases self.holdings@.len() - i,
        {
            if self.holdings[i].id == token_account {
                return Some(i);
            }
            i += 1;
        }
        None
    }

    /// Linear scan for the reward account named `account`.
    pub fn find_reward_account(&self, account: u64) -> (r: Option<usize>)
        ensures
            match r {
                Some(i) => i < self.reward_accounts@.len() && self.reward_accounts@[i as int].id
                    == account,
                None => !self.has_reward_account(account),
            },
    {
        let mut i: usize = 0;
        while i < self.reward_accounts.len()
            invariant
                i <= self.reward_accounts@.len(),
                forall|j: int|
                    0 <= j < i ==> (#[trigger] self.reward_accounts@[j]).id != account,
            decreases self.reward_accounts@.len() - i,
        {
            if self.reward_accounts[i].id == account {
                return Some(i);
            }
            i += 1;
        }
        None
    }

    /// Does the registry link `master_record` to `asset`?
    pub fn check_master(&self, asset: u64, master_record: u64) -> (r: bool)
        ensures
            r == self.valid_master(asset, master_record),
    {
        let mut i: usize = 0;
        while i < self.assets.len()
            invariant
                i <= self.assets@.len(),
                forall|j: int|
                    0 <= j < i ==> (#[trigger] self.assets@[j]) != (AssetRef {
                        asset,
                        master_record,
                    }),
            decreases self.assets@.len() - i,
        {
            if self.assets[i].asset == asset && self.assets[i].master_record == master_record {
                return true;
            }
            i += 1;
        }
        false
    }

    /// A copy of the holding named `token_account`, where one exists.
    pub fn holding_state(&self, token_account: u64) -> (r: Option<Holding>)
        requires
            self.wf(),
        ensures
            match r {
                Some(h) => self.has_holding(token_account) && h == self.holding_of(token_account),
                None => !self.has_holding(token_account),
            },
    {
        match self.find_holding(token_account) {
            Some(k) => {
                proof {
                    self.lemma_holding_unique(token_account, k as int);
                }
                Some(self.holdings[k])
            },
            None => None,
        }
    }

    /// The balance of the reward account named `account`, where one exists.
    pub fn reward_balance_of(&self, account: u64) -> (r: Option<u64>)
        requires
            self.wf(),
        ensures
            match r {
                Some(b) => self.has_reward_account(account) && b == self.reward_balance(account),
                None => !self.has_reward_account(account),
            },
    {
        match self.find_reward_account(account) {
            Some(k) => {
                proof {
                    self.lemma_reward_unique(account, k as int);
                }
                Some(self.reward_accounts[k].balance)
            },
            None => None,
        }
    }

    /// May the holder grant a transfer capability of `amount` on
    /// `token_account`?  The holder must control an unlocked account holding
    /// at least `amount`.
    pub open spec fn can_grant(self, holder: u64, token_account: u64, amount: u64) -> bool {
        &&& self.has_holding(token_account)
        &&& self.holding_of(token_account).owner == holder
        &&& amount <= self.holding_of(token_account).balance
        &&& !self.holding_of(token_account).locked
    }

    /// Grant the delegate a transfer capability of `amount` on
    /// `token_account`, authorized by the holder.
    ///
    /// Fails with `DelegationDenied`, and changes nothing, exactly when the
    /// holder does not control the account, the balance is short, or the
    /// account is locked.
    pub fn grant(&mut self, holder: u64, token_account: u64, delegate: u64, amount: u64) -> (r:
        Result<(), StakeError>)
        requires
            old(self).wf(),
        ensures
            final(self).wf(),
            r is Ok <==> old(self).can_grant(holder, token_account, amount),
            r is Err ==> *final(self) == *old(self) && r->Err_0 == StakeError::DelegationDenied,
            r is Ok ==> final(self).has_holding(token_account) && final(self).holding_of(
                token_account,
            ) == (Holding { delegate: Some(delegate), ..old(self).holding_of(token_account) }),
            forall|t: u64| t != token_account ==> final(self).has_holding(t) == old(self).has_holding(t),
            forall|t: u64|
                t != token_account && old(self).has_holding(t) ==> final(self).holding_of(t) == old(
                    self,
                ).holding_of(t),
            final(self).assets == old(self).assets,
            final(self).reward_accounts == old(self).reward_accounts,
    {
        let k = match self.find_holding(token_account) {
            Some(k) => k,
            None => { return Err(StakeError::DelegationDenied); },
        };
        proof {
            self.lemma_holding_unique(token_account, k as int);
        }
        let h = self.holdings[k];
        if h.owner != holder || amount > h.balance || h.locked {
            return Err(StakeError::DelegationDenied);
        }
        let ghost pre = *self;
        let nh = Holding { delegate: Some(delegate), ..h };
        self.holdings.set(k, nh);
        proof {
            AssetRegistry::lemma_holdings_update(pre, *self, k as int, nh);
        }
        Ok(())
    }

    /// May the delegate lock transfers on `token_account` against the given
    /// asset and master record?
    pub open spec fn can_lock(
        self,
        delegate: u64,
        token_account: u64,
        master_record: u64,
        asset: u64,
    ) -> bool {
        &&& self.has_holding(token_account)
        &&& self.holding_of(token_account).delegate == Some(delegate)
        &&& self.holding_of(token_account).asset == asset
        &&& self.valid_master(asset, master_record)
        &&& !self.holding_of(token_account).locked
    }

    /// The error a refused lock reports: a missing account, a delegate
    /// mismatch or a second lock is a denied delegation; a broken
    /// asset/master-record linkage is an invalid asset reference.
    pub open spec fn lock_error(
        self,
        delegate: u64,
        token_account: u64,
        master_record: u64,
        asset: u64,
    ) -> StakeError {
        if !self.has_holding(token_account) || self.holding_of(token_account).delegate != Some(
            delegate,
        ) {
            StakeError::DelegationDenied
        } else if self.holding_of(token_account).asset != asset || !self.valid_master(
            asset,
            master_record,
        ) {
            StakeError::InvalidAssetReference
        } else {
            StakeError::DelegationDenied
        }
    }

    /// Lock transfers on `token_account`, authorized by the delegate.
    ///
    /// Succeeds exactly when the account is delegated to `delegate`, not yet
    /// locked, and the asset and master record match the registry's linkage;
    /// on failure nothing changes and the reported error follows
    /// `lock_error`.
    pub fn lock(
        &mut self,
        delegate: u64,
        token_account: u64,
        master_record: u64,
        asset: u64,
    ) -> (r: Result<(), StakeError>)
        requires
            old(self).wf(),
        ensures
            final(self).wf(),
            r is Ok <==> old(self).can_lock(delegate, token_account, master_record, asset),
            r is Err ==> *final(self) == *old(self) && r->Err_0 == old(self).lock_error(
                delegate,
                token_account,
                master_record,
                asset,
            ),
            r is Ok ==> final(self).has_holding(token_account) && final(self).holding_of(
                token_account,
            ) == (Holding { locked: true, ..old(self).holding_of(token_account) }),
            forall|t: u64| t != token_account ==> final(self).has_holding(t) == old(self).has_holding(t),
            forall|t: u64|
                t != token_account && old(self).has_holding(t) ==> final(self).holding_of(t) == old(
                    self,
                ).holding_of(t),
            final(self).assets == old(self).assets,
            final(self).reward_accounts == old(self).reward_accounts,
    {
        let k = match self.find_holding(token_account) {
            Some(k) => k,
            None => { return Err(StakeError::DelegationDenied); },
        };
        proof {
            self.lemma_holding_unique(token_account, k as int);
        }
        let h = self.holdings[k];
        let delegate_matches = match h.delegate {
            Some(d) => d == delegate,
            None => false,
        };
        if !delegate_matches {
            return Err(StakeError::DelegationDenied);
        }
        if h.asset != asset || !self.check_master(asset, master_record) {
            return Err(StakeError::InvalidAssetReference);
        }
        if h.locked {
            return Err(StakeError::DelegationDenied);
        }
        let ghost pre = *self;
        let nh = Holding { locked: true, ..h };
        self.holdings.set(k, nh);
        proof {
            AssetRegistry::lemma_holdings_update(pre, *self, k as int, nh);
        }
        Ok(())
    }

    /// May the delegate unlock transfers on `token_account`?  The inverse of
    /// `can_lock`: the account must currently be locked under this delegate.
    pub open spec fn can_unlock(
        self,
        delegate: u64,
        token_account: u64,
        master_record: u64,
        asset: u64,
    ) -> bool {
        &&& self.has_holding(token_account)
        &&& self.holding_of(token_account).delegate == Some(delegate)
        &&& self.holding_of(token_account).asset == asset
        &&& self.valid_master(asset, master_record)
        &&& self.holding_of(token_account).locked
    }

    /// The error a refused unlock reports, with the same precedence as
    /// `lock_error`.
    pub open spec fn unlock_error(
        self,
        delegate: u64,
        token_account: u64,
        master_record: u64,
        asset: u64,
    ) -> StakeError {
        if !self.has_holding(token_account) || self.holding_of(token_account).delegate != Some(
            delegate,
        ) {
            StakeError::DelegationDenied
        } else if self.holding_of(token_account).asset != asset || !self.valid_master(
            asset,
            master_record,
        ) {
            StakeError::InvalidAssetReference
        } else {
            StakeError::DelegationDenied
        }
    }

    /// Unlock transfers on `token_account`, authorized by the delegate that
    /// locked it: the symmetric inverse of `lock`.
    pub fn unlock(
        &mut self,
        delegate: u64,
        token_account: u64,
        master_record: u64,
        asset: u64,
    ) -> (r: Result<(), StakeError>)
        requires
            old(self).wf(),
        ensures
            final(self).wf(),
            r is Ok <==> old(self).can_unlock(delegate, token_account, master_record, asset),
            r is Err ==> *final(self) == *old(self) && r->Err_0 == old(self).unlock_error(
                delegate,
                token_account,
                master_record,
                asset,
            ),
            r is Ok ==> final(self).has_holding(token_account) && final(self).holding_of(
                token_account,
            ) == (Holding { locked: false, ..old(self).holding_of(token_account) }),
            forall|t: u64| t != token_account ==> final(self).has_holding(t) == old(self).has_holding(t),
            forall|t: u64|
                t != token_account && old(self).has_holding(t) ==> final(self).holding_of(t) == old(
                    self,
                ).holding_of(t),
            final(self).assets == old(self).assets,
            final(self).reward_accounts == old(self).reward_accounts,
    {
        let k = match self.find_holding(token_account) {
            Some(k) => k,
            None => { return Err(StakeError::DelegationDenied); },
        };
        proof {
            self.lemma_holding_unique(token_account, k as int);
        }
        let h = self.holdings[k];
        let delegate_matches = match h.delegate {
            Some(d) => d == delegate,
            None => false,
        };
        if !delegate_matches {
            return Err(StakeError::DelegationDenied);
        }
        if h.asset != asset || !self.check_master(asset, master_record) {
            return Err(StakeError::InvalidAssetReference);
        }
        if !h.locked {
            return Err(StakeError::DelegationDenied);
        }
        let ghost pre = *self;
        let nh = Holding { locked: false, ..h };
        self.holdings.set(k, nh);
        proof {
            AssetRegistry::lemma_holdings_update(pre, *self, k as int, nh);
        }
        Ok(())
    }

    /// May the holder revoke the delegation on `token_account`?  The holder
    /// must control the account, a delegation must exist, and the account
    /// must no longer be locked.
    pub open spec fn can_revoke(self, holder: u64, token_account: u64) -> bool {
        &&& self.has_holding(token_account)
        &&& self.holding_of(token_account).owner == holder
        &&& self.holding_of(token_account).delegate is Some
        &&& !self.holding_of(token_account).locked
    }

    /// Remove the delegation on `token_account`, authorized by the holder.
    ///
    /// Fails with `DelegationDenied`, and changes nothing, exactly when
    /// `can_revoke` does not hold.
    pub fn revoke(&mut self, holder: u64, token_account: u64) -> (r: Result<(), StakeError>)
        requires
            old(self).wf(),
        ensures
            final(self).wf(),
            r is Ok <==> old(self).can_revoke(holder, token_account),
            r is Err ==> *final(self) == *old(self) && r->Err_0 == StakeError::DelegationDenied,
            r is Ok ==> final(self).has_holding(token_account) && final(self).holding_of(
                token_account,
            ) == (Holding { delegate: None, ..old(self).holding_of(token_account) }),
            forall|t: u64| t != token_account ==> final(self).has_holding(t) == old(self).has_holding(t),
            forall|t: u64|
                t != token_account && old(self).has_holding(t) ==> final(self).holding_of(t) == old(
                    self,
                ).holding_of(t),
            final(self).assets == old(self).assets,
            final(self).reward_accounts == old(self).reward_accounts,
    {
        let k = match self.find_holding(token_account) {
            Some(k) => k,
            None => { return Err(StakeError::DelegationDenied); },
        };
        proof {
            self.lemma_holding_unique(token_account, k as int);
        }
        let h = self.holdings[k];
        if h.owner != holder || h.delegate.is_none() || h.locked {
            return Err(StakeError::DelegationDenied);
        }
        let ghost pre = *self;
        let nh = Holding { delegate: None, ..h };
        self.holdings.set(k, nh);
        proof {
            AssetRegistry::lemma_holdings_update(pre, *self, k as int, nh);
        }
        Ok(())
    }

    /// May `amount` reward units be issued to `account`?  The account must
    /// exist and its balance must not overflow.
    pub open spec fn can_issue(self, account: u64, amount: u64) -> bool {
        &&& self.has_reward_account(account)
        &&& self.reward_balance(account) + amount <= u64::MAX
    }

    /// Issue `amount` reward units to `account`.
    ///
    /// Fails with `RewardIssuanceFailed`, and changes nothing, exactly when
    /// the account is unknown or its balance would overflow.
    pub fn issue(&mut self, account: u64, amount: u64) -> (r: Result<(), StakeError>)
        requires
            old(self).wf(),
        ensures
            final(self).wf(),
            r is Ok <==> old(self).can_issue(account, amount),
            r is Err ==> *final(self) == *old(self) && r->Err_0 == StakeError::RewardIssuanceFailed,
            r is Ok ==> final(self).has_reward_account(account) && final(self).reward_balance(
                account,
            ) == old(self).reward_balance(account) + amount,
            forall|a: u64|
                a != account ==> final(self).has_reward_account(a) == old(self).has_reward_account(a),
            forall|a: u64|
                a != account && old(self).has_reward_account(a) ==> final(self).reward_balance(a)
                    == old(self).reward_balance(a),
            final(self).holdings == old(self).holdings,
            final(self).assets == old(self).assets,
    {
        let k = match self.find_reward_account(account) {
            Some(k) => k,
            None => { return Err(StakeError::RewardIssuanceFailed); },
        };
        proof {
            self.lemma_reward_unique(account, k as int);
        }
        let acc = self.reward_accounts[k];
        if amount > u64::MAX - acc.balance {
            return Err(StakeError::RewardIssuanceFailed);
        }
        let ghost pre = *self;
        let na = RewardAccount { id: acc.id, balance: acc.balance + amount };
        self.reward_accounts.set(k, na);
        proof {
            self.lemma_reward_unique(account, k as int);
            assert forall|a: u64| a != account implies self.has_reward_account(a) == pre
                .has_reward_account(a) by {
                if pre.has_reward_account(a) {
                    let i = pre.reward_index(a);
                    assert(self.reward_accounts@[i].id == a);
                }
                if self.has_reward_account(a) {
                    let i = self.reward_index(a);
                    assert(pre.reward_accounts@[i].id == a);
                }
            }
            assert forall|a: u64| a != account && pre.has_reward_account(a) implies self
                .reward_balance(a) == pre.reward_balance(a) by {
                let i = pre.reward_index(a);
                assert(self.reward_accounts@[i].id == a);
                self.lemma_reward_unique(a, i);
            }
        }
        Ok(())
    }
}

} // verus!
