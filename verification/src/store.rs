use vstd::prelude::*;

use crate::errors::LotteryError;
use crate::pool::{claim_check, AccountId, Lottery, LotteryView};

verus! {

/// Whether the arena holds a pool keyed by this manager and round.
pub open spec fn spec_has_pool(
    s: Seq<LotteryView>,
    lottery_manager: AccountId,
    lottery_id: u64,
) -> bool {
    exists|i: int|
        0 <= i < s.len() && s[i].lottery_manager == lottery_manager && s[i].lottery_id
            == lottery_id
}

/// The position of the pool keyed by this manager and round; in a
/// well-formed arena the key picks it uniquely.
pub open spec fn spec_pool_index(
    s: Seq<LotteryView>,
    lottery_manager: AccountId,
    lottery_id: u64,
) -> int {
    choose|i: int|
        0 <= i < s.len() && s[i].lottery_manager == lottery_manager && s[i].lottery_id
            == lottery_id
}

/// The arena of pool records: every round's pool, independently addressed
/// by its creator and round number, as the ledger addresses the records it
/// stores. Records enter through `insert_pool` and leave only through a
/// settled claim.
pub struct PoolStore {
    pools: Vec<Lottery>,
}

impl View for PoolStore {
    type V = Seq<LotteryView>;

    closed spec fn view(&self) -> Seq<LotteryView> {
        self.pools@.map_values(|l: Lottery| l@)
    }
}

impl PoolStore {
    /// Every held record is well formed and no two share a key.
    pub open spec fn wf(&self) -> bool {
        &&& (forall|i: int| 0 <= i < self@.len() ==> self@[i].wf())
        &&& (forall|i: int, j: int|
            0 <= i < j < self@.len() ==> !(self@[i].lottery_manager == self@[j].lottery_manager
                && self@[i].lottery_id == self@[j].lottery_id))
    }

    /// An empty arena.
    pub fn new() -> (s: PoolStore)
        ensures
            s@ =~= Seq::<LotteryView>::empty(),
            s.wf(),
    {
        PoolStore { pools: Vec::new() }
    }

    /// How many pool records the arena holds.
    pub fn len(&self) -> (n: usize)
        ensures
            n == self@.len(),
    {
        self.pools.len()
    }

    /// The position of the record keyed by this manager and round, if any.
    fn find_index(&self, lottery_manager: AccountId, lottery_id: u64) -> (r: Option<usize>)
        ensures
            match r {
                Some(i) => 0 <= i < self@.len() && self@[i as int].lottery_manager
                    == lottery_manager && self@[i as int].lottery_id == lottery_id,
                None => !spec_has_pool(self@, lottery_manager, lottery_id),
            },
    {
        let mut i: usize = 0;
        while i < self.pools.len()
            invariant
                i <= self@.len(),
                self@.len() == self.pools@.len(),
                forall|k: int|
                    0 <= k < i ==> !(self@[k].lottery_manager == lottery_manager
                        && self@[k].lottery_id == lottery_id),
            decreases self@.len() - i,
        {
            if self.pools[i].lottery_manager == lottery_manager && self.pools[i].lottery_id
                == lottery_id {
                return Some(i);
            }
            i = i + 1;
        }
        None
    }

    /// Whether the arena holds a pool keyed by this manager and round.
    pub fn has_pool(&self, lottery_manager: AccountId, lottery_id: u64) -> (r: bool)
        ensures
            r == spec_has_pool(self@, lottery_manager, lottery_id),
    {
        self.find_index(lottery_manager, lottery_id).is_some()
    }

    /// Files a newly started pool under its key, as the ledger's atomic
    /// create does: it succeeds exactly when no record with that key exists
    /// yet, and on refusal nothing changes.
    pub fn insert_pool(&mut self, pool: Lottery) -> (r: bool)
        requires
            old(self).wf(),
            pool@.wf(),
        ensures
            final(self).wf(),
            r == !spec_has_pool(old(self)@, pool@.lottery_manager, pool@.lottery_id),
            r ==> final(self)@ == old(self)@.push(pool@),
            !r ==> final(self)@ == old(self)@,
    {
        if self.has_pool(pool.lottery_manager, pool.lottery_id) {
            return false;
        }
        let ghost pre = self@;
        let ghost poolv = pool@;
        self.pools.push(pool);
        proof {
            assert(self@ =~= pre.push(poolv));
        }
        true
    }

    /// A read-only view of the record keyed by this manager and round.
    pub fn get_pool(&self, lottery_manager: AccountId, lottery_id: u64) -> (r: Option<&Lottery>)
        requires
            self.wf(),
        ensures
            match r {
                Some(l) => spec_has_pool(self@, lottery_manager, lottery_id) && l@ == self@[
                    spec_pool_index(self@, lottery_manager, lottery_id)
                ],
                None => !spec_has_pool(self@, lottery_manager, lottery_id),
            },
    {
        match self.find_index(lottery_manager, lottery_id) {
            Some(i) => {
                proof {
                    self.lemma_key_picks_index(lottery_manager, lottery_id, i as int);
                }
                Some(&self.pools[i])
            },
            None => None,
        }
    }

    /// In a well-formed arena, an index whose record carries the key is the
    /// one the key picks.
    proof fn lemma_key_picks_index(
        &self,
        lottery_manager: AccountId,
        lottery_id: u64,
        i: int,
    )
        requires
            self.wf(),
            0 <= i < self@.len(),
            self@[i].lottery_manager == lottery_manager,
            self@[i].lottery_id == lottery_id,
        ensures
            spec_pool_index(self@, lottery_manager, lottery_id) == i,
    {
        let j = spec_pool_index(self@, lottery_manager, lottery_id);
        assert(0 <= j < self@.len() && self@[j].lottery_manager == lottery_manager && self@[
            j
        ].lottery_id == lottery_id);
        if i < j {
            assert(!(self@[i].lottery_manager == self@[j].lottery_manager && self@[i].lottery_id
                == self@[j].lottery_id));
        } else if j < i {
            assert(!(self@[j].lottery_manager == self@[i].lottery_manager && self@[j].lottery_id
                == self@[i].lottery_id));
        }
    }

    /// Takes the record keyed by this manager and round out of the arena, to
    /// be mutated through the pool's operations and re-filed: the ledger's
    /// load-modify-store on one account, performed within one transaction.
    /// `None` means no record carries that key.
    pub fn take_pool(&mut self, lottery_manager: AccountId, lottery_id: u64) -> (r: Option<
        Lottery,
    >)
        requires
            old(self).wf(),
        ensures
            final(self).wf(),
            match r {
                None => !spec_has_pool(old(self)@, lottery_manager, lottery_id) && final(self)@
                    == old(self)@,
                Some(l) => ({
                    let i = spec_pool_index(old(self)@, lottery_manager, lottery_id);
                    &&& spec_has_pool(old(self)@, lottery_manager, lottery_id)
                    &&& l@ == old(self)@[i]
                    &&& l@.wf()
                    &&& final(self)@ == old(self)@.remove(i)
                }),
            },
    {
        let i = match self.find_index(lottery_manager, lottery_id) {
            Some(i) => i,
            None => {
                return None;
            },
        };
        proof {
            self.lemma_key_picks_index(lottery_manager, lottery_id, i as int);
        }
        let ghost pre = self@;
        let pool = self.pools.remove(i);
        proof {
            assert(self@ =~= pre.remove(i as int));
        }
        Some(pool)
    }

    /// Settles the pool keyed by this manager and round: checked against the
    /// recorded winner, the claim removes the record from the arena — it no
    /// longer exists anywhere — and reports the custodied amount, the whole
    /// pot, that moves to the winner. `None` means no record carries that
    /// key; a refused claim reports its error and changes nothing.
    pub fn claim_prize(
        &mut self,
        lottery_manager: AccountId,
        lottery_id: u64,
        claimant: AccountId,
    ) -> (r: Option<Result<u64, LotteryError>>)
        requires
            old(self).wf(),
        ensures
            final(self).wf(),
            match r {
                None => !spec_has_pool(old(self)@, lottery_manager, lottery_id) && final(self)@
                    == old(self)@,
                Some(res) => ({
                    let i = spec_pool_index(old(self)@, lottery_manager, lottery_id);
                    let v = old(self)@[i];
                    &&& spec_has_pool(old(self)@, lottery_manager, lottery_id)
                    &&& match claim_check(v, claimant) {
                        Some(e) => res == Err::<u64, LotteryError>(e) && final(self)@ == old(
                            self,
                        )@,
                        None => res == Ok::<u64, LotteryError>(v.total_pot) && final(self)@
                            == old(self)@.remove(i) && !spec_has_pool(
                            final(self)@,
                            lottery_manager,
                            lottery_id,
                        ),
                    }
                }),
            },
    {
        let i = match self.find_index(lottery_manager, lottery_id) {
            Some(i) => i,
            None => {
                return None;
            },
        };
        proof {
            self.lemma_key_picks_index(lottery_manager, lottery_id, i as int);
        }
        let ghost pre = self@;
        let pool = self.pools.remove(i);
        proof {
            assert(self@ =~= pre.remove(i as int));
        }
        match pool.claim_prize(claimant) {
            Ok(amount) => {
                proof {
                    assert forall|k: int|
                        0 <= k < self@.len() implies !(self@[k].lottery_manager
                        == lottery_manager && self@[k].lottery_id == lottery_id) by {
                        if k < i {
                            assert(self@[k] == pre[k]);
                        } else {
                            assert(self@[k] == pre[k + 1]);
                        }
                    }
                }
                Some(Ok(amount))
            },
            Err((pool, e)) => {
                let ghost poolv = pool@;
                self.pools.insert(i, pool);
                proof {
                    assert(self@ =~= pre.remove(i as int).insert(i as int, poolv));
                    assert(self@ =~= pre);
                }
                Some(Err(e))
            },
        }
    }
}

} // verus!
