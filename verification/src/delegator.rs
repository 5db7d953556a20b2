//! Delegators: the delegations an account has made to collators, and their
//! total.

use vstd::prelude::*;

use crate::set::{
    has_owner, insert_position, lemma_place_exists, lemma_position_of_owner, lemma_remove_undoes_insert, lemma_sum_insert_remove, lemma_sum_split,
    lemma_sum_with_amount, position_of_owner, sum_amounts, with_amount, OrderedSet,
};
use crate::stake::Stake;
use crate::{AccountId, Balance};

verus! {

/// The delegations of one account, at most `MAX` of them, and their total.
#[derive(Debug, PartialEq, Eq)]
pub struct Delegator<const MAX: u32> {
    pub delegations: OrderedSet<MAX>,
    pub total: Balance,
}

impl<const MAX: u32> Delegator<MAX> {
    /// The total is the sum of the delegations.
    pub open spec fn total_matches(&self) -> bool {
        self.total == sum_amounts(self.delegations@)
    }

    /// The amount delegated to `collator` (meaningful where there is a
    /// delegation to it).
    pub open spec fn delegation_to(&self, collator: AccountId) -> Balance {
        self.delegations@[position_of_owner(self.delegations@, collator)].amount
    }

    /// Removing a delegation right after adding it gives back the delegator
    /// as it was, where the total did not saturate: `add_delegation` ending
    /// in `Ok(true)` and then `rm_delegation` of the same collator.
    pub proof fn lemma_rm_undoes_add(self, stake: Stake)
        requires
            self.delegations.wf(),
            !has_owner(self.delegations@, stake.owner),
            self.total + stake.amount <= u128::MAX,
        ensures
            ({
                let added = self.delegations@.insert(
                    insert_position(self.delegations@, stake.amount),
                    stake,
                );
                let i = position_of_owner(added, stake.owner);
                &&& has_owner(added, stake.owner)
                &&& added.remove(i) == self.delegations@
                &&& self.total.saturating_add(stake.amount).saturating_sub(added[i].amount)
                    == self.total
            }),
    {
        lemma_remove_undoes_insert(self.delegations@, stake);
    }

    /// A delegator with one delegation of `amount` to `collator`. Fails, and
    /// hands the delegation back, where a set may hold no delegation at all
    /// (`MAX` is 0).
    pub fn try_new(collator: AccountId, amount: Balance) -> (r: Result<Self, Vec<Stake>>)
        ensures
            match r {
                Ok(d) => {
                    &&& 0 < MAX
                    &&& d.delegations.wf()
                    &&& d.delegations@ == seq![Stake { owner: collator, amount }]
                    &&& d.total == amount
                    &&& d.total_matches()
                },
                Err(v) => MAX == 0 && v@ == seq![Stake { owner: collator, amount }],
            },
    {
        let v = vec![Stake { owner: collator, amount }];
        if v.len() > MAX as usize {
            return Err(v);
        }
        proof {
            assert(v@.drop_last() =~= Seq::<Stake>::empty());
            assert(sum_amounts(v@.drop_last()) == 0);
            assert(sum_amounts(v@) == amount);
        }
        Ok(Delegator { delegations: OrderedSet::from_sorted_set(v), total: amount })
    }

    /// Adds a new delegation.
    ///
    /// If already delegating to the same account, this call returns false and
    /// doesn't insert the new delegation. Where the set is full it returns
    /// the position the delegation would have taken, and changes nothing.
    pub fn add_delegation(&mut self, stake: Stake) -> (r: Result<bool, usize>)
        ensures
            match r {
                Ok(true) => {
                    &&& !has_owner(old(self).delegations@, stake.owner)
                    &&& old(self).delegations@.len() < MAX
                    &&& final(self).delegations@ == old(self).delegations@.insert(
                        insert_position(old(self).delegations@, stake.amount),
                        stake,
                    )
                    &&& final(self).total == old(self).total.saturating_add(stake.amount)
                },
                Ok(false) => {
                    &&& has_owner(old(self).delegations@, stake.owner)
                    &&& *final(self) == *old(self)
                },
                Err(p) => {
                    &&& !has_owner(old(self).delegations@, stake.owner)
                    &&& old(self).delegations@.len() == MAX
                    &&& p == insert_position(old(self).delegations@, stake.amount)
                    &&& *final(self) == *old(self)
                },
            },
            old(self).total_matches() && old(self).total + stake.amount <= u128::MAX
                ==> final(self).total_matches(),
    {
        proof {
            use_type_invariant(&self.delegations);
        }
        let amt = stake.amount;
        let ghost s = self.delegations@;
        match self.delegations.try_insert(stake) {
            Ok(true) => {
                proof {
                    lemma_place_exists(s, amt, s.len() as int);
                    lemma_sum_insert_remove(s, insert_position(s, amt), stake);
                }
                self.total = self.total.saturating_add(amt);
                Ok(true)
            },
            Ok(false) => Ok(false),
            Err(p) => Err(p),
        }
    }

    /// Returns Some(remaining stake for delegator) if the delegation for the
    /// collator exists. Returns `None` otherwise.
    pub fn rm_delegation(&mut self, collator: &AccountId) -> (r: Option<Balance>)
        ensures
            match r {
                Some(left) => {
                    let i = position_of_owner(old(self).delegations@, *collator);
                    &&& has_owner(old(self).delegations@, *collator)
                    &&& final(self).delegations@ == old(self).delegations@.remove(i)
                    &&& final(self).total == old(self).total.saturating_sub(
                        old(self).delegation_to(*collator),
                    )
                    &&& left == final(self).total
                },
                None => {
                    &&& !has_owner(old(self).delegations@, *collator)
                    &&& *final(self) == *old(self)
                },
            },
            old(self).total_matches() ==> final(self).total_matches(),
    {
        proof {
            use_type_invariant(&self.delegations);
        }
        let ghost s = self.delegations@;
        let amt = self.delegations.remove(&Stake { owner: *collator, amount: 0 });
        if let Some(removed) = amt {
            let balance = removed.amount;
            proof {
                let i = position_of_owner(s, *collator);
                assert(0 <= i < s.len());
                lemma_sum_insert_remove(s, i, removed);
            }
            self.total = self.total.saturating_sub(balance);
            Some(self.total)
        } else {
            None
        }
    }

    /// Adds `more` to the delegation to `collator` and to the total, both
    /// saturating, and returns the new amount of the delegation. Returns None
    /// if delegation was not found.
    pub fn inc_delegation(&mut self, collator: AccountId, more: Balance) -> (r: Option<Balance>)
        ensures
            match r {
                Some(amount) => {
                    let i = position_of_owner(old(self).delegations@, collator);
                    &&& has_owner(old(self).delegations@, collator)
                    &&& amount == old(self).delegation_to(collator).saturating_add(more)
                    &&& final(self).delegations@ == with_amount(old(self).delegations@, i, amount)
                    &&& final(self).total == old(self).total.saturating_add(more)
                },
                None => {
                    &&& !has_owner(old(self).delegations@, collator)
                    &&& *final(self) == *old(self)
                },
            },
            old(self).total_matches() && old(self).total + more <= u128::MAX
                ==> final(self).total_matches(),
    {
        proof {
            use_type_invariant(&self.delegations);
        }
        if let Ok(i) = self.delegations.linear_search(&Stake { owner: collator, amount: 0 }) {
            let ghost s = self.delegations@;
            let amount = self.delegations.get(i).amount.saturating_add(more);
            proof {
                lemma_position_of_owner(s, collator, i as int);
                lemma_sum_split(s, i as int);
                lemma_sum_with_amount(s, i as int, amount);
            }
            self.delegations.set_amount(i, amount);
            self.total = self.total.saturating_add(more);
            Some(amount)
        } else {
            None
        }
    }

    /// Returns Some(Some(balance)) if successful, None if delegation was not
    /// found and Some(None) if delegated stake would underflow.
    ///
    /// On success `less` is taken from the delegation to `collator` and from
    /// the total, and `balance` is what is left of the delegation; the
    /// delegation must stay above zero, else the delegator should remove it.
    pub fn dec_delegation(&mut self, collator: AccountId, less: Balance) -> (r: Option<
        Option<Balance>,
    >)
        ensures
            match r {
                Some(Some(amount)) => {
                    let i = position_of_owner(old(self).delegations@, collator);
                    &&& has_owner(old(self).delegations@, collator)
                    &&& old(self).delegation_to(collator) > less
                    &&& amount == old(self).delegation_to(collator) - less
                    &&& final(self).delegations@ == with_amount(old(self).delegations@, i, amount)
                    &&& final(self).total == old(self).total.saturating_sub(less)
                },
                Some(None) => {
                    &&& has_owner(old(self).delegations@, collator)
                    &&& old(self).delegation_to(collator) <= less
                    &&& *final(self) == *old(self)
                },
                None => {
                    &&& !has_owner(old(self).delegations@, collator)
                    &&& *final(self) == *old(self)
                },
            },
            old(self).total_matches() ==> final(self).total_matches(),
    {
        proof {
            use_type_invariant(&self.delegations);
        }
        if let Ok(i) = self.delegations.linear_search(&Stake { owner: collator, amount: 0 }) {
            let ghost s = self.delegations@;
            proof {
                lemma_position_of_owner(s, collator, i as int);
            }
            if self.delegations.get(i).amount > less {
                let amount = self.delegations.get(i).amount.saturating_sub(less);
                proof {
                    lemma_sum_split(s, i as int);
                    lemma_sum_with_amount(s, i as int, amount);
                }
                self.delegations.set_amount(i, amount);
                self.total = self.total.saturating_sub(less);
                Some(Some(amount))
            } else {
                Some(None)
            }
        } else {
            None
        }
    }
}

} // verus!
