//! A stake: an amount of funds directed at an account.

use std::cmp::Ordering;
use vstd::prelude::*;
use vstd::std_specs::cmp::PartialOrdSpec;

use crate::{AccountId, Balance};

verus! {

/// A struct represented an amount of staked funds.
///
/// The stake has a destination account (to which the stake is directed) and
/// an amount of funds staked.
#[derive(Clone, Copy, Debug, PartialEq, Eq, Structural)]
pub struct Stake {
    /// The account that is backed by the stake.
    pub owner: AccountId,
    /// The amount of backing the `owner` received.
    pub amount: Balance,
}

/// A reward has the shape of a stake.
pub type Reward = Stake;

/// The order of stakes.
///
/// Two stakes are equal exactly when their owners are equal, so that one
/// account never occurs twice in an ordered set. Otherwise they are ordered
/// by amount, and a stake is greater than a stake of another owner with the
/// same amount (existing members keep their place when amounts tie).
pub open spec fn stake_order(a: Stake, b: Stake) -> Ordering {
    if a.owner == b.owner {
        Ordering::Equal
    } else if a.amount == b.amount {
        Ordering::Greater
    } else if a.amount < b.amount {
        Ordering::Less
    } else {
        Ordering::Greater
    }
}

/// Two stakes are equal exactly when they have the same owner, whatever
/// their amounts.
pub proof fn lemma_equal_exactly_for_same_owner(a: Stake, b: Stake)
    ensures
        (stake_order(a, b) == Ordering::Equal) <==> a.owner == b.owner,
{
}

/// Of two stakes of different owners and different amounts, the one with
/// the smaller amount is the lesser and the other the greater, and swapping
/// them swaps the answer.
pub proof fn lemma_order_by_amount(a: Stake, b: Stake)
    requires
        a.owner != b.owner,
        a.amount != b.amount,
    ensures
        (stake_order(a, b) == Ordering::Less) <==> a.amount < b.amount,
        (stake_order(a, b) == Ordering::Greater) <==> b.amount < a.amount,
        (stake_order(a, b) == Ordering::Less) <==> (stake_order(b, a) == Ordering::Greater),
{
}

/// Of two stakes of different owners and equal amounts, each is greater
/// than the other: existing members keep their place.
pub proof fn lemma_equal_amounts_greater(a: Stake, b: Stake)
    requires
        a.owner != b.owner,
        a.amount == b.amount,
    ensures
        stake_order(a, b) == Ordering::Greater,
        stake_order(b, a) == Ordering::Greater,
{
}

/// `partial_cmp` always answers, and orders stakes as `cmp` does: equal
/// exactly for the same owner, otherwise by amount, ties greater.
pub proof fn lemma_partial_cmp_orders_by_amount(a: Stake, b: Stake)
    ensures
        a.partial_cmp_spec(&b) == Some(stake_order(a, b)),
        (a.partial_cmp_spec(&b) == Some(Ordering::Equal)) <==> a.owner == b.owner,
        a.owner != b.owner && a.amount != b.amount ==> ((a.partial_cmp_spec(&b) == Some(
            Ordering::Less,
        )) <==> a.amount < b.amount),
        a.owner != b.owner && a.amount != b.amount ==> ((a.partial_cmp_spec(&b) == Some(
            Ordering::Greater,
        )) <==> b.amount < a.amount),
        a.owner != b.owner && a.amount == b.amount ==> a.partial_cmp_spec(&b) == Some(
            Ordering::Greater,
        ),
{
}

impl Stake {
    /// Compares two stakes by `stake_order`.
    pub fn cmp(&self, other: &Stake) -> (ord: Ordering)
        ensures
            ord == stake_order(*self, *other),
    {
        if self.owner == other.owner {
            Ordering::Equal
        } else if self.amount == other.amount {
            Ordering::Greater
        } else if self.amount < other.amount {
            Ordering::Less
        } else {
            Ordering::Greater
        }
    }
}

impl PartialOrd for Stake {
    fn partial_cmp(&self, other: &Stake) -> (ord: Option<Ordering>) {
        Some(self.cmp(other))
    }
}

impl vstd::std_specs::cmp::PartialOrdSpecImpl for Stake {
    open spec fn obeys_partial_cmp_spec() -> bool {
        true
    }

    open spec fn partial_cmp_spec(&self, other: &Stake) -> Option<Ordering> {
        Some(stake_order(*self, *other))
    }
}

impl Default for Stake {
    fn default() -> (s: Stake)
        ensures
            s.owner == 0,
            s.amount == 0,
    {
        Stake { owner: 0, amount: 0 }
    }
}

impl From<AccountId> for Stake {
    /// A stake of nothing for `owner`.
    fn from(owner: AccountId) -> (s: Stake) {
        Stake { owner, amount: 0 }
    }
}

impl vstd::std_specs::convert::FromSpecImpl<AccountId> for Stake {
    open spec fn obeys_from_spec() -> bool {
        true
    }

    open spec fn from_spec(owner: AccountId) -> Stake {
        Stake { owner, amount: 0 }
    }
}

} // verus!
