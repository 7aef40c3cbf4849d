use vstd::prelude::*;
use crate::errors::StakeError;
use crate::ledger::StakeLedger;
use crate::ledger::StakeRecord;
use crate::registry::AssetRegistry;
use crate::registry::Holding;
use crate::reward::compute_reward;
use crate::reward::reward_amount;

verus! {

/// What a completed unstake hands back: the reward owed for the elapsed
/// stake, and whether issuing it succeeded.  A refused issuance is recorded
/// here rather than aborting the unstake.
#[derive(Clone, Copy, Debug, PartialEq, Eq, Structural)]
pub struct UnstakeReceipt {
    pub reward: u64,
    pub reward_issued: bool,
}

/// The staking core: the stake ledger, a model of the external asset
/// registry, and the custody authority that holds delegated transfer rights
/// over staked tokens.
pub struct StakingProtocol {
    pub registry: AssetRegistry,
    pub ledger: StakeLedger,
    pub custody_authority: u64,
}

impl StakingProtocol {
    /// While a stake record lives, the pair's holding must still exist, be
    /// controlled by the staking holder, be delegated to the custody
    /// authority, and be transfer-locked.
    pub open spec fn staked_holding_ok(self, r: StakeRecord) -> bool {
        &&& self.registry.has_holding(r.token_account)
        &&& self.registry.holding_of(r.token_account).owner == r.holder
        &&& self.registry.holding_of(r.token_account).delegate == Some(self.custody_authority)
        &&& self.registry.holding_of(r.token_account).locked
    }

    /// Well-formed: both components are well formed, and every live stake
    /// record is matched by a delegated and locked holding.
    pub open spec fn wf(self) -> bool {
        &&& self.registry.wf()
        &&& self.ledger.wf()
        &&& forall|i: int|
            0 <= i < self.ledger.records@.len() ==> self.staked_holding_ok(
                #[trigger] self.ledger.records@[i],
            )
    }

    /// A fresh protocol over a registry, with nothing staked.
    pub fn new(registry: AssetRegistry, custody_authority: u64) -> (r: StakingProtocol)
        requires
            registry.wf(),
        ensures
            r.wf(),
            r.registry == registry,
            r.custody_authority == custody_authority,
            forall|h: u64, t: u64| !r.ledger.has_record(h, t),
    {
        StakingProtocol { registry, ledger: StakeLedger::new(), custody_authority }
    }

    /// Is the pair currently staked?
    pub fn is_staked(&self, holder: u64, token_account: u64) -> (r: bool)
        ensures
            r == self.ledger.has_record(holder, token_account),
    {
        match self.ledger.find_record(holder, token_account) {
            Some(i) => {
                proof {
                    assert(crate::ledger::is_for(
                        self.ledger.records@[i as int],
                        holder,
                        token_account,
                    ));
                }
                true
            },
            None => false,
        }
    }

    /// When the pair's stake started, where it is staked.
    pub fn staked_at(&self, holder: u64, token_account: u64) -> (r: Option<u64>)
        requires
            self.wf(),
        ensures
            match r {
                Some(t) => self.ledger.has_record(holder, token_account) && t
                    == self.ledger.stake_time(holder, token_account),
                None => !self.ledger.has_record(holder, token_account),
            },
    {
        match self.ledger.find_record(holder, token_account) {
            Some(i) => {
                proof {
                    self.ledger.lemma_record_unique(holder, token_account, i as int);
                }
                Some(self.ledger.records[i].stake_started_at)
            },
            None => None,
        }
    }

    /// May `stake` succeed?  The pair must be unstaked, the holder must
    /// control an unlocked holding with the token in it, and the asset and
    /// master record handed in must match the registry's linkage.
    pub open spec fn stake_allowed(
        self,
        holder: u64,
        token_account: u64,
        master_record: u64,
        asset: u64,
    ) -> bool {
        &&& !self.ledger.has_record(holder, token_account)
        &&& self.registry.can_grant(holder, token_account, 1)
        &&& self.registry.holding_of(token_account).asset == asset
        &&& self.registry.valid_master(asset, master_record)
    }

    /// The error a refused `stake` reports, in the order the sequence fails:
    /// an existing record first, then the grant, then the asset linkage.
    pub open spec fn stake_error(
        self,
        holder: u64,
        token_account: u64,
        master_record: u64,
        asset: u64,
    ) -> StakeError {
        if self.ledger.has_record(holder, token_account) {
            StakeError::AlreadyStaked
        } else if !self.registry.can_grant(holder, token_account, 1) {
            StakeError::DelegationDenied
        } else {
            StakeError::InvalidAssetReference
        }
    }

    /// Everything a successful `stake` changes, and everything it must not
    /// touch: exactly one new record for the pair carrying the stake time,
    /// the pair's holding delegated to the custody authority and locked, and
    /// every other pair, holding, asset and reward balance unchanged.
    pub open spec fn stake_ok_post(
        pre: StakingProtocol,
        post: StakingProtocol,
        holder: u64,
        token_account: u64,
        now: u64,
    ) -> bool {
        &&& post.wf()
        &&& post.custody_authority == pre.custody_authority
        &&& !pre.ledger.has_record(holder, token_account)
        &&& pre.registry.has_holding(token_account)
        &&& post.ledger.records@ == pre.ledger.records@.push(
            StakeRecord { holder, token_account, stake_started_at: now },
        )
        &&& post.ledger.has_record(holder, token_account)
        &&& post.ledger.stake_time(holder, token_account) == now
        &&& post.registry.has_holding(token_account)
        &&& post.registry.holding_of(token_account) == (Holding {
            delegate: Some(pre.custody_authority),
            locked: true,
            ..pre.registry.holding_of(token_account)
        })
        &&& forall|t: u64|
            t != token_account ==> post.registry.has_holding(t) == pre.registry.has_holding(t)
        &&& forall|t: u64|
            t != token_account && pre.registry.has_holding(t) ==> post.registry.holding_of(t)
                == pre.registry.holding_of(t)
        &&& forall|h: u64, t: u64|
            !(h == holder && t == token_account) ==> post.ledger.has_record(h, t)
                == pre.ledger.has_record(h, t)
        &&& forall|h: u64, t: u64|
            !(h == holder && t == token_account) && pre.ledger.has_record(h, t)
                ==> post.ledger.stake_time(h, t) == pre.ledger.stake_time(h, t)
        &&& post.registry.assets == pre.registry.assets
        &&& post.registry.reward_accounts == pre.registry.reward_accounts
    }

    /// Stake the token held by `token_account` for `holder` at time `now`.
    ///
    /// The sequence is grant, then lock, then record creation, applied as one
    /// all-or-nothing unit: any refusal aborts the whole operation with the
    /// first failing step's error and no state change at all.
    pub fn stake(
        &mut self,
        holder: u64,
        token_account: u64,
        master_record: u64,
        asset: u64,
        now: u64,
    ) -> (r: Result<(), StakeError>)
        requires
            old(self).wf(),
        ensures
            final(self).wf(),
            final(self).custody_authority == old(self).custody_authority,
            r is Ok <==> old(self).stake_allowed(holder, token_account, master_record, asset),
            r is Err ==> *final(self) == *old(self) && r->Err_0 == old(self).stake_error(
                holder,
                token_account,
                master_record,
                asset,
            ),
            r is Ok ==> StakingProtocol::stake_ok_post(
                *old(self),
                *final(self),
                holder,
                token_account,
                now,
            ),
    {
        // The record store refuses a second record at the pair's derived
        // address: an already-staked pair fails before any registry call.
        if self.ledger.find_record(holder, token_account).is_some() {
            return Err(StakeError::AlreadyStaked);
        }
        // Pre-flight every step's conditions so that the sequence below is
        // all-or-nothing: nothing is mutated before every step is known to
        // go through.
        let k = match self.registry.find_holding(token_account) {
            Some(k) => k,
            None => { return Err(StakeError::DelegationDenied); },
        };
        proof {
            self.registry.lemma_holding_unique(token_account, k as int);
        }
        let h = self.registry.holdings[k];
        if h.owner != holder || h.balance < 1 || h.locked {
            return Err(StakeError::DelegationDenied);
        }
        if h.asset != asset || !self.registry.check_master(asset, master_record) {
            return Err(StakeError::InvalidAssetReference);
        }
        let ghost pre = *self;
        let custody = self.custody_authority;
        // Grant the transfer capability over the single token to the custody
        // authority, authorized by the holder.
        match self.registry.grant(holder, token_account, custody, 1) {
            Ok(()) => {},
            Err(e) => {
                proof {
                    assert(false);
                }
                return Err(e);
            },
        }
        let ghost g1 = *self;
        // Lock transfers, authorized by the custody authority.
        proof {
            AssetRegistry::lemma_same_assets(
                g1.registry,
                pre.registry,
                asset,
                master_record,
            );
        }
        match self.registry.lock(custody, token_account, master_record, asset) {
            Ok(()) => {},
            Err(e) => {
                proof {
                    assert(false);
                }
                return Err(e);
            },
        }
        // Create the pair's stake record.
        match self.ledger.open(holder, token_account, now) {
            Ok(()) => {},
            Err(e) => {
                proof {
                    assert(false);
                }
                return Err(e);
            },
        }
        proof {
            let rec = StakeRecord { holder, token_account, stake_started_at: now };
            let n = pre.ledger.records@.len() as int;
            assert forall|i: int| 0 <= i < self.ledger.records@.len() implies self
                .staked_holding_ok(#[trigger] self.ledger.records@[i]) by {
                if i < n {
                    let r0 = pre.ledger.records@[i];
                    assert(self.ledger.records@[i] == r0);
                    assert(pre.staked_holding_ok(r0));
                    // An old record on this very token account would mean the
                    // holding was already locked, which the grant refused.
                    assert(r0.token_account != token_account);
                } else {
                    assert(self.ledger.records@[i] == rec);
                }
            }
        }
        Ok(())
    }

    /// May `unstake` succeed?  The pair must be staked, the asset and master
    /// record handed in must match the registry's linkage, and the clock
    /// must not have run backwards past the recorded stake start.
    pub open spec fn unstake_allowed(
        self,
        holder: u64,
        token_account: u64,
        master_record: u64,
        asset: u64,
        now: u64,
    ) -> bool {
        &&& self.ledger.has_record(holder, token_account)
        &&& self.registry.holding_of(token_account).asset == asset
        &&& self.registry.valid_master(asset, master_record)
        &&& self.ledger.stake_time(holder, token_account) <= now
    }

    /// The error a refused `unstake` reports: a missing record first, then
    /// the asset linkage, then the clock invariant.
    pub open spec fn unstake_error(
        self,
        holder: u64,
        token_account: u64,
        master_record: u64,
        asset: u64,
        now: u64,
    ) -> StakeError {
        if !self.ledger.has_record(holder, token_account) {
            StakeError::NotStaked
        } else if self.registry.holding_of(token_account).asset != asset
            || !self.registry.valid_master(asset, master_record) {
            StakeError::InvalidAssetReference
        } else {
            StakeError::ClockInvariantViolation
        }
    }

    /// Everything a successful `unstake` changes, and everything it must
    /// not: the pair's record destroyed, its holding unlocked and no longer
    /// delegated, the reward equal to the elapsed seconds and credited
    /// exactly when issuance was possible, and every other pair, holding,
    /// asset and reward balance unchanged.
    pub open spec fn unstake_ok_post(
        pre: StakingProtocol,
        post: StakingProtocol,
        holder: u64,
        token_account: u64,
        reward_account: u64,
        now: u64,
        receipt: UnstakeReceipt,
    ) -> bool {
        &&& post.wf()
        &&& post.custody_authority == pre.custody_authority
        &&& pre.ledger.has_record(holder, token_account)
        &&& pre.registry.has_holding(token_account)
        &&& !post.ledger.has_record(holder, token_account)
        &&& post.ledger.records@.len() == pre.ledger.records@.len() - 1
        &&& post.registry.has_holding(token_account)
        &&& post.registry.holding_of(token_account) == (Holding {
            delegate: None,
            locked: false,
            ..pre.registry.holding_of(token_account)
        })
        &&& receipt.reward == reward_amount(pre.ledger.stake_time(holder, token_account), now)
        &&& receipt.reward_issued == pre.registry.can_issue(reward_account, receipt.reward)
        &&& receipt.reward_issued ==> post.registry.has_reward_account(reward_account)
            && post.registry.reward_balance(reward_account) == pre.registry.reward_balance(
            reward_account,
        ) + receipt.reward
        &&& !receipt.reward_issued ==> post.registry.reward_accounts
            == pre.registry.reward_accounts
        &&& forall|t: u64|
            t != token_account ==> post.registry.has_holding(t) == pre.registry.has_holding(t)
        &&& forall|t: u64|
            t != token_account && pre.registry.has_holding(t) ==> post.registry.holding_of(t)
                == pre.registry.holding_of(t)
        &&& forall|h: u64, t: u64|
            !(h == holder && t == token_account) ==> post.ledger.has_record(h, t)
                == pre.ledger.has_record(h, t)
        &&& forall|h: u64, t: u64|
            !(h == holder && t == token_account) && pre.ledger.has_record(h, t)
                ==> post.ledger.stake_time(h, t) == pre.ledger.stake_time(h, t)
        &&& forall|a: u64|
            a != reward_account ==> post.registry.has_reward_account(a)
                == pre.registry.has_reward_account(a)
        &&& forall|a: u64|
            a != reward_account && pre.registry.has_reward_account(a)
                ==> post.registry.reward_balance(a) == pre.registry.reward_balance(a)
        &&& post.registry.assets == pre.registry.assets
    }

    /// Unstake the pair's token at time `now`, crediting the reward to
    /// `reward_account`.
    ///
    /// The sequence is unlock, record destruction, reward computation and
    /// issuance, then revocation.  A missing record, a broken asset linkage
    /// or a backwards clock aborts the whole operation with no state change;
    /// a refused reward issuance does not: the token is still released and
    /// the refusal is recorded in the receipt.
    pub fn unstake(
        &mut self,
        holder: u64,
        token_account: u64,
        master_record: u64,
        asset: u64,
        reward_account: u64,
        now: u64,
    ) -> (r: Result<UnstakeReceipt, StakeError>)
        requires
            old(self).wf(),
        ensures
            final(self).wf(),
            final(self).custody_authority == old(self).custody_authority,
            r is Ok <==> old(self).unstake_allowed(holder, token_account, master_record, asset, now),
            r is Err ==> *final(self) == *old(self) && r->Err_0 == old(self).unstake_error(
                holder,
                token_account,
                master_record,
                asset,
                now,
            ),
            r is Ok ==> StakingProtocol::unstake_ok_post(
                *old(self),
                *final(self),
                holder,
                token_account,
                reward_account,
                now,
                r->Ok_0,
            ),
    {
        // A pair with no record fails before any registry call.
        let i = match self.ledger.find_record(holder, token_account) {
            Some(i) => i,
            None => { return Err(StakeError::NotStaked); },
        };
        proof {
            self.ledger.lemma_record_unique(holder, token_account, i as int);
            assert(self.staked_holding_ok(self.ledger.records@[i as int]));
        }
        let started_at = self.ledger.records[i].stake_started_at;
        // Pre-flight the remaining abortable conditions: the asset linkage
        // and the clock.  Reward issuance is deliberately not one of them.
        let k = match self.registry.find_holding(token_account) {
            Some(k) => k,
            None => {
                proof {
                    assert(false);
                }
                return Err(StakeError::NotStaked);
            },
        };
        proof {
            self.registry.lemma_holding_unique(token_account, k as int);
        }
        let h = self.registry.holdings[k];
        if h.asset != asset || !self.registry.check_master(asset, master_record) {
            return Err(StakeError::InvalidAssetReference);
        }
        if now < started_at {
            return Err(StakeError::ClockInvariantViolation);
        }
        let ghost pre = *self;
        let custody = self.custody_authority;
        // Unlock transfers, authorized by the custody authority.
        match self.registry.unlock(custody, token_account, master_record, asset) {
            Ok(()) => {},
            Err(e) => {
                proof {
                    assert(false);
                }
                return Err(e);
            },
        }
        // Destroy the pair's record, handing back its stored start time.
        let stored = match self.ledger.close(holder, token_account) {
            Ok(t) => t,
            Err(e) => {
                proof {
                    assert(false);
                }
                return Err(e);
            },
        };
        let ghost g2 = *self;
        // Compute the reward owed for the elapsed stake.
        let amount = match compute_reward(stored, now) {
            Ok(a) => a,
            Err(e) => {
                proof {
                    assert(false);
                }
                return Err(e);
            },
        };
        // Issue the reward, best-effort: a refusal is recorded, never fatal.
        let issued = match self.registry.issue(reward_account, amount) {
            Ok(()) => true,
            Err(_) => false,
        };
        let ghost g3 = *self;
        proof {
            AssetRegistry::lemma_same_rewards(g2.registry, pre.registry, reward_account);
        }
        // Remove the delegation, authorized by the holder.
        match self.registry.revoke(holder, token_account) {
            Ok(()) => {},
            Err(e) => {
                proof {
                    assert(false);
                }
                return Err(e);
            },
        }
        proof {
            AssetRegistry::lemma_same_rewards(self.registry, g3.registry, reward_account);
            let nrec = self.ledger.records@.len() as int;
            assert forall|j: int| 0 <= j < nrec implies self.staked_holding_ok(
                #[trigger] self.ledger.records@[j],
            ) by {
                let r0 = self.ledger.records@[j];
                assert(self.ledger.has_record(r0.holder, r0.token_account));
                assert(pre.ledger.has_record(r0.holder, r0.token_account));
                let j0 = pre.ledger.record_index(r0.holder, r0.token_account);
                assert(crate::ledger::is_for(pre.ledger.records@[j0], r0.holder, r0.token_account));
                assert(pre.staked_holding_ok(pre.ledger.records@[j0]));
                // A surviving record on this very token account would mean
                // two holders own the same holding.
                assert(r0.token_account != token_account);
            }
            assert forall|a: u64|
                a != reward_account && pre.registry.has_reward_account(a) implies self
                .registry.reward_balance(a) == pre.registry.reward_balance(a) by {
                AssetRegistry::lemma_same_rewards(g2.registry, pre.registry, a);
                AssetRegistry::lemma_same_rewards(self.registry, g3.registry, a);
            }
            assert forall|a: u64| a != reward_account implies self.registry.has_reward_account(a)
                == pre.registry.has_reward_account(a) by {
                AssetRegistry::lemma_same_rewards(g2.registry, pre.registry, a);
                AssetRegistry::lemma_same_rewards(self.registry, g3.registry, a);
            }
        }
        Ok(UnstakeReceipt { reward: amount, reward_issued: issued })
    }

    /// Round trip: a successful `stake` followed by a successful `unstake`
    /// of the same pair returns the pair to the unstaked state — no record,
    /// no delegation, no transfer lock — whatever became of reward issuance;
    /// the reward equals the elapsed seconds and is credited exactly when
    /// issuance was possible; and no other pair, holding, asset or reward
    /// balance is touched.
    pub proof fn lemma_stake_unstake_round_trip(
        pre: StakingProtocol,
        mid: StakingProtocol,
        post: StakingProtocol,
        holder: u64,
        token_account: u64,
        reward_account: u64,
        stake_now: u64,
        unstake_now: u64,
        receipt: UnstakeReceipt,
    )
        requires
            pre.wf(),
            StakingProtocol::stake_ok_post(pre, mid, holder, token_account, stake_now),
            StakingProtocol::unstake_ok_post(
                mid,
                post,
                holder,
                token_account,
                reward_account,
                unstake_now,
                receipt,
            ),
        ensures
            !post.ledger.has_record(holder, token_account),
            post.ledger.records@.len() == pre.ledger.records@.len(),
            post.registry.has_holding(token_account),
            post.registry.holding_of(token_account) == (Holding {
                delegate: None,
                locked: false,
                ..pre.registry.holding_of(token_account)
            }),
            receipt.reward == reward_amount(stake_now, unstake_now),
            receipt.reward_issued == pre.registry.can_issue(reward_account, receipt.reward),
            receipt.reward_issued ==> post.registry.has_reward_account(reward_account)
                && post.registry.reward_balance(reward_account) == pre.registry.reward_balance(
                reward_account,
            ) + receipt.reward,
            !receipt.reward_issued ==> post.registry.reward_accounts
                == pre.registry.reward_accounts,
            forall|t: u64|
                t != token_account ==> post.registry.has_holding(t) == pre.registry.has_holding(t),
            forall|t: u64|
                t != token_account && pre.registry.has_holding(t) ==> post.registry.holding_of(t)
                    == pre.registry.holding_of(t),
            forall|h: u64, t: u64|
                !(h == holder && t == token_account) ==> post.ledger.has_record(h, t)
                    == pre.ledger.has_record(h, t),
    {
        AssetRegistry::lemma_same_rewards(mid.registry, pre.registry, reward_account);
    }
}

} // verus!
