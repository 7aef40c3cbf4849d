use vstd::prelude::*;
use crate::errors::StakeError;

verus! {

/// One stake record: the sole persistent entity of the core.  Addressed by
/// the (holder, token account) pair; `stake_started_at` is set exactly once
/// at creation and never updated.
#[derive(Clone, Copy, Debug, PartialEq, Eq, Structural)]
pub struct StakeRecord {
    pub holder: u64,
    pub token_account: u64,
    pub stake_started_at: u64,
}

/// Does record `r` belong to the (holder, token account) pair?
pub open spec fn is_for(r: StakeRecord, holder: u64, token_account: u64) -> bool {
    r.holder == holder && r.token_account == token_account
}

/// Do two records address the same (holder, token account) pair?
pub open spec fn same_pair(a: StakeRecord, b: StakeRecord) -> bool {
    a.holder == b.holder && a.token_account == b.token_account
}

/// The stake ledger: owns every live stake record and keeps at most one
/// per (holder, token account) pair.
///
/// The storage deposit that accompanies a record is the host store's rent
/// bookkeeping: charged to the holder when `open` creates the record and
/// refunded when `close` destroys it.  It travels with the record's
/// existence and is not tracked beyond it.
pub struct StakeLedger {
    pub records: Vec<StakeRecord>,
}

impl StakeLedger {
    /// Well-formed: no two live records address the same pair.
    pub open spec fn wf(self) -> bool {
        forall|i: int, j: int|
            0 <= i < self.records@.len() && 0 <= j < self.records@.len() && i != j
                ==> !same_pair(#[trigger] self.records@[i], #[trigger] self.records@[j])
    }

    /// Is there a live record for the pair?
    pub open spec fn has_record(self, holder: u64, token_account: u64) -> bool {
        exists|i: int|
            0 <= i < self.records@.len() && is_for(
                #[trigger] self.records@[i],
                holder,
                token_account,
            )
    }

    /// Index of the pair's record, where one exists.
    pub open spec fn record_index(self, holder: u64, token_account: u64) -> int {
        choose|i: int|
            0 <= i < self.records@.len() && is_for(
                #[trigger] self.records@[i],
                holder,
                token_account,
            )
    }

    /// Stored stake start time of the pair's record, where one exists.
    pub open spec fn stake_time(self, holder: u64, token_account: u64) -> u64 {
        self.records@[self.record_index(holder, token_account)].stake_started_at
    }

    /// In a well-formed ledger a pair has at most one record: any index whose
    /// record addresses the pair is the pair's record index.
    pub proof fn lemma_record_unique(self, holder: u64, token_account: u64, i: int)
        requires
            self.wf(),
            0 <= i < self.records@.len(),
            is_for(self.records@[i], holder, token_account),
        ensures
            i == self.record_index(holder, token_account),
            self.has_record(holder, token_account),
    {
        assert(self.has_record(holder, token_account));
        let j = self.record_index(holder, token_account);
        if i != j {
            assert(same_pair(self.records@[i], self.records@[j]));
        }
    }

    /// An empty ledger: no pair is staked.
    pub fn new() -> (r: StakeLedger)
        ensures
            r.wf(),
            r.records@.len() == 0,
            forall|h: u64, t: u64| !r.has_record(h, t),
    {
        StakeLedger { records: Vec::new() }
    }

    /// Linear scan for the pair's record.
    pub fn find_record(&self, holder: u64, token_account: u64) -> (r: Option<usize>)
        ensures
            match r {
                Some(i) => i < self.records@.len() && is_for(
                    self.records@[i as int],
                    holder,
                    token_account,
                ),
                None => !self.has_record(holder, token_account),
            },
    {
        let mut i: usize = 0;
        while i < self.records.len()
            invariant
                i <= self.records@.len(),
                forall|j: int|
                    0 <= j < i ==> !is_for(#[trigger] self.records@[j], holder, token_account),
            decreases self.records@.len() - i,
        {
            if self.records[i].holder == holder && self.records[i].token_account == token_account {
                return Some(i);
            }
            i += 1;
        }
        None
    }

    /// Create the pair's record with `stake_started_at = now`.
    ///
    /// Fails with `AlreadyStaked`, and changes nothing, exactly when the pair
    /// already has a record; on success the new record is the pair's only
    /// one, and every other pair is untouched.
    pub fn open(&mut self, holder: u64, token_account: u64, now: u64) -> (r: Result<
        (),
        StakeError,
    >)
        requires
            old(self).wf(),
        ensures
            final(self).wf(),
            r is Ok <==> !old(self).has_record(holder, token_account),
            r is Err ==> *final(self) == *old(self) && r->Err_0 == StakeError::AlreadyStaked,
            r is Ok ==> final(self).records@ == old(self).records@.push(
                StakeRecord { holder, token_account, stake_started_at: now },
            ),
            r is Ok ==> final(self).has_record(holder, token_account) && final(self).stake_time(
                holder,
                token_account,
            ) == now,
            forall|h: u64, t: u64|
                !(h == holder && t == token_account) ==> final(self).has_record(h, t)
                    == old(self).has_record(h, t),
            forall|h: u64, t: u64|
                !(h == holder && t == token_account) && old(self).has_record(h, t)
                    ==> final(self).stake_time(h, t) == old(self).stake_time(h, t),
    {
        if self.find_record(holder, token_account).is_some() {
            return Err(StakeError::AlreadyStaked);
        }
        let ghost pre = *self;
        let rec = StakeRecord { holder, token_account, stake_started_at: now };
        self.records.push(rec);
        proof {
            let n = pre.records@.len() as int;
            assert forall|i: int, j: int|
                0 <= i < self.records@.len() && 0 <= j < self.records@.len() && i != j implies !same_pair(
                self.records@[i],
                self.records@[j],
            ) by {
                if i < n && j < n {
                    assert(!same_pair(pre.records@[i], pre.records@[j]));
                } else if i == n && j < n {
                    assert(!is_for(pre.records@[j], holder, token_account));
                } else if j == n && i < n {
                    assert(!is_for(pre.records@[i], holder, token_account));
                }
            }
            self.lemma_record_unique(holder, token_account, n);
            assert forall|h: u64, t: u64| !(h == holder && t == token_account) implies self
                .has_record(h, t) == pre.has_record(h, t) by {
                if pre.has_record(h, t) {
                    let i = pre.record_index(h, t);
                    assert(is_for(self.records@[i], h, t));
                }
                if self.has_record(h, t) {
                    let i = self.record_index(h, t);
                    assert(i < n && is_for(pre.records@[i], h, t));
                }
            }
            assert forall|h: u64, t: u64|
                !(h == holder && t == token_account) && pre.has_record(h, t) implies self
                .stake_time(h, t) == pre.stake_time(h, t) by {
                let i = pre.record_index(h, t);
                assert(is_for(self.records@[i], h, t));
                self.lemma_record_unique(h, t, i);
                pre.lemma_record_unique(h, t, i);
            }
        }
        Ok(())
    }

    /// Destroy the pair's record and hand back its stored start time.
    ///
    /// Fails with `NotStaked`, and changes nothing, exactly when the pair has
    /// no record; on success the pair has no record left and every other pair
    /// is untouched.
    pub fn close(&mut self, holder: u64, token_account: u64) -> (r: Result<u64, StakeError>)
        requires
            old(self).wf(),
        ensures
            final(self).wf(),
            r is Ok <==> old(self).has_record(holder, token_account),
            r is Err ==> *final(self) == *old(self) && r->Err_0 == StakeError::NotStaked,
            r is Ok ==> r->Ok_0 == old(self).stake_time(holder, token_account),
            r is Ok ==> !final(self).has_record(holder, token_account),
            r is Ok ==> final(self).records@.len() == old(self).records@.len() - 1,
            forall|h: u64, t: u64|
                !(h == holder && t == token_account) ==> final(self).has_record(h, t)
                    == old(self).has_record(h, t),
            forall|h: u64, t: u64|
                !(h == holder && t == token_account) && old(self).has_record(h, t)
                    ==> final(self).stake_time(h, t) == old(self).stake_time(h, t),
    {
        let found = self.find_record(holder, token_account);
        let i = match found {
            Some(i) => i,
            None => { return Err(StakeError::NotStaked); },
        };
        let ghost pre = *self;
        proof {
            pre.lemma_record_unique(holder, token_account, i as int);
        }
        let rec = self.records[i];
        self.records.remove(i);
        proof {
            let n = pre.records@.len() as int;
            pre.records@.remove_ensures(i as int);
            assert forall|a: int, b: int|
                0 <= a < self.records@.len() && 0 <= b < self.records@.len() && a != b implies !same_pair(
                self.records@[a],
                self.records@[b],
            ) by {
                let a0: int = if a < i { a } else { a + 1 };
                let b0: int = if b < i { b } else { b + 1 };
                assert(self.records@[a] == pre.records@[a0]);
                assert(self.records@[b] == pre.records@[b0]);
                assert(!same_pair(pre.records@[a0], pre.records@[b0]));
            }
            assert forall|h: u64, t: u64| #[trigger]
                self.has_record(h, t) implies pre.has_record(h, t) && !(h == holder && t
                == token_account) by {
                let a = self.record_index(h, t);
                let a0: int = if a < i { a } else { a + 1 };
                assert(self.records@[a] == pre.records@[a0]);
                assert(is_for(pre.records@[a0], h, t));
                if h == holder && t == token_account {
                    assert(same_pair(pre.records@[a0], pre.records@[i as int]));
                }
            }
            assert forall|h: u64, t: u64|
                !(h == holder && t == token_account) && pre.has_record(h, t) implies self
                .has_record(h, t) && self.stake_time(h, t) == pre.stake_time(h, t) by {
                let a0 = pre.record_index(h, t);
                assert(is_for(pre.records@[a0], h, t));
                let a: int = if a0 < i { a0 } else { a0 - 1 };
                assert(self.records@[a] == pre.records@[a0]);
                self.lemma_record_unique(h, t, a);
                pre.lemma_record_unique(h, t, a0);
            }
        }
        Ok(rec.stake_started_at)
    }
}

} // verus!
