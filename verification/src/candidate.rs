//! Collator candidates: their own stake, the delegations that back them,
//! their total backing, status and commission.

use sp_arithmetic::Permill;
use vstd::prelude::*;

use crate::permill::{permill_from_parts, permill_of_parts};
use crate::set::{
    has_owner, lemma_position_of_owner, lemma_sum_split, lemma_sum_with_amount, position_of_owner,
    sum_amounts, with_amount, OrderedSet,
};
use crate::stake::Stake;
use crate::{AccountId, Balance, SessionIndex};

verus! {

/// The activity status of the collator.
#[derive(Clone, Copy, Debug, PartialEq, Eq, Structural)]
pub enum CandidateStatus {
    /// Committed to be online and producing valid blocks (not equivocating)
    Active,
    /// Staked until the inner round
    Leaving(SessionIndex),
}

impl Default for CandidateStatus {
    /// Active.
    fn default() -> (s: CandidateStatus)
        ensures
            s == CandidateStatus::Active,
    {
        CandidateStatus::Active
    }
}

/// The candidate record without a commission.
#[derive(Clone, Debug, PartialEq, Eq)]
pub struct OldCandidate<const MAX: u32> {
    pub id: AccountId,
    pub stake: Balance,
    pub delegators: OrderedSet<MAX>,
    pub total: Balance,
    pub status: CandidateStatus,
}

/// Global collator state with commission fee, staked funds, and delegations
#[derive(Clone, Debug, PartialEq, Eq)]
pub struct Candidate<const MAX: u32> {
    /// Account id of the candidate.
    pub id: AccountId,
    /// The stake that the candidate put down.
    pub stake: Balance,
    /// The delegators that back the candidate.
    pub delegators: OrderedSet<MAX>,
    /// The total backing a collator has.
    ///
    /// Should equal the sum of all delegators stake adding collators stake
    pub total: Balance,
    /// The current status of the candidate. Indicates whether a candidate is
    /// active or leaving the candidate pool
    pub status: CandidateStatus,
    /// Commission of the collator
    pub commission: Permill,
}

impl<const MAX: u32> Candidate<MAX> {
    /// The total backing is the candidate's own stake plus every delegation.
    pub open spec fn total_matches(&self) -> bool {
        self.total == self.stake + sum_amounts(self.delegators@)
    }

    /// The amount that `delegator` delegated to this candidate (meaningful
    /// where it has delegated).
    pub open spec fn delegation_of(&self, delegator: AccountId) -> Balance {
        self.delegators@[position_of_owner(self.delegators@, delegator)].amount
    }

    /// An active candidate with no delegators and no commission, whose total
    /// is its own stake.
    pub fn new(id: AccountId, stake: Balance) -> (c: Self)
        ensures
            c.id == id,
            c.stake == stake,
            c.delegators.wf(),
            c.delegators@ == Seq::<Stake>::empty(),
            c.total == stake,
            c.status == CandidateStatus::Active,
            c.commission == permill_of_parts(0),
            c.total_matches(),
    {
        let total = stake;
        Candidate {
            id,
            stake,
            delegators: OrderedSet::new(),
            total,
            status: CandidateStatus::Active,
            commission: permill_from_parts(0),
        }
    }

    pub fn is_active(&self) -> (b: bool)
        ensures
            b == (self.status == CandidateStatus::Active),
    {
        self.status == CandidateStatus::Active
    }

    pub fn is_leaving(&self) -> (b: bool)
        ensures
            b == (self.status is Leaving),
    {
        matches!(self.status, CandidateStatus::Leaving(_))
    }

    /// Leaving, and the round it leaves at is at most `when`.
    pub fn can_exit(&self, when: u32) -> (b: bool)
        ensures
            b == (self.status matches CandidateStatus::Leaving(at) && at <= when),
    {
        match self.status {
            CandidateStatus::Leaving(at) => at <= when,
            CandidateStatus::Active => false,
        }
    }

    pub fn revert_leaving(&mut self)
        ensures
            *final(self) == (Candidate { status: CandidateStatus::Active, ..*old(self) }),
    {
        self.status = CandidateStatus::Active;
    }

    /// Adds `more` to the candidate's stake and to its total, both
    /// saturating.
    pub fn stake_more(&mut self, more: Balance)
        ensures
            *final(self) == (Candidate {
                stake: old(self).stake.saturating_add(more),
                total: old(self).total.saturating_add(more),
                ..*old(self)
            }),
            old(self).total_matches() && old(self).total + more <= u128::MAX
                ==> final(self).total_matches(),
    {
        self.stake = self.stake.saturating_add(more);
        self.total = self.total.saturating_add(more);
    }

    /// Takes `less` from the candidate's stake and its total, and returns the
    /// stake left, where `less` is below the stake. Returns `None`, and
    /// changes nothing, where `less` is at least the stake (the collator
    /// should leave instead).
    pub fn stake_less(&mut self, less: Balance) -> (r: Option<Balance>)
        ensures
            match r {
                Some(left) => {
                    &&& old(self).stake > less
                    &&& left == old(self).stake - less
                    &&& *final(self) == (Candidate {
                        stake: left,
                        total: old(self).total.saturating_sub(less),
                        ..*old(self)
                    })
                },
                None => old(self).stake <= less && *final(self) == *old(self),
            },
            old(self).total_matches() ==> final(self).total_matches(),
    {
        if self.stake > less {
            self.stake = self.stake.saturating_sub(less);
            self.total = self.total.saturating_sub(less);
            Some(self.stake)
        } else {
            None
        }
    }

    /// Adds `more` to the delegation of `delegator`, if it has one, and to
    /// the total, both saturating; the delegators stay sorted.
    pub fn inc_delegator(&mut self, delegator: AccountId, more: Balance)
        ensures
            has_owner(old(self).delegators@, delegator) ==> {
                let i = position_of_owner(old(self).delegators@, delegator);
                let amount = old(self).delegation_of(delegator).saturating_add(more);
                &&& final(self).delegators@ == with_amount(old(self).delegators@, i, amount)
                &&& *final(self) == (Candidate {
                    delegators: final(self).delegators,
                    total: old(self).total.saturating_add(more),
                    ..*old(self)
                })
            },
            !has_owner(old(self).delegators@, delegator) ==> *final(self) == *old(self),
            old(self).total_matches() && old(self).total + more <= u128::MAX
                ==> final(self).total_matches(),
    {
        proof {
            use_type_invariant(&self.delegators);
        }
        if let Ok(i) = self.delegators.linear_search(&Stake { owner: delegator, amount: 0 }) {
            let ghost s = self.delegators@;
            let amount = self.delegators.get(i).amount.saturating_add(more);
            proof {
                lemma_position_of_owner(s, delegator, i as int);
                lemma_sum_split(s, i as int);
                lemma_sum_with_amount(s, i as int, amount);
            }
            self.delegators.set_amount(i, amount);
            self.total = self.total.saturating_add(more);
        }
    }

    /// Takes `less` from the delegation of `delegator`, if it has one,
    /// stopping at zero, and takes from the total what the delegation lost,
    /// so that the total stays the candidate's stake plus its delegations;
    /// the delegators stay sorted.
    pub fn dec_delegator(&mut self, delegator: AccountId, less: Balance)
        ensures
            has_owner(old(self).delegators@, delegator) ==> {
                let i = position_of_owner(old(self).delegators@, delegator);
                let before = old(self).delegation_of(delegator);
                let amount = before.saturating_sub(less);
                &&& final(self).delegators@ == with_amount(old(self).delegators@, i, amount)
                &&& *final(self) == (Candidate {
                    delegators: final(self).delegators,
                    total: old(self).total.saturating_sub((before - amount) as u128),
                    ..*old(self)
                })
            },
            !has_owner(old(self).delegators@, delegator) ==> *final(self) == *old(self),
            old(self).total_matches() ==> final(self).total_matches(),
    {
        proof {
            use_type_invariant(&self.delegators);
        }
        if let Ok(i) = self.delegators.linear_search(&Stake { owner: delegator, amount: 0 }) {
            let ghost s = self.delegators@;
            let before = self.delegators.get(i).amount;
            let amount = before.saturating_sub(less);
            proof {
                lemma_position_of_owner(s, delegator, i as int);
                lemma_sum_split(s, i as int);
                lemma_sum_with_amount(s, i as int, amount);
            }
            self.delegators.set_amount(i, amount);
            self.total = self.total.saturating_sub(before - amount);
        }
    }

    pub fn leave_candidates(&mut self, round: SessionIndex)
        ensures
            *final(self) == (Candidate { status: CandidateStatus::Leaving(round), ..*old(self) }),
    {
        self.status = CandidateStatus::Leaving(round);
    }

    pub fn set_commission(&mut self, commission: Permill)
        ensures
            *final(self) == (Candidate { commission, ..*old(self) }),
    {
        self.commission = commission;
    }
}

} // verus!
