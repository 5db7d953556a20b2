//! Round bookkeeping and the plain records of the pallet: total stake,
//! delegation counter and delayed payout information.

use vstd::prelude::*;

use crate::{Balance, BlockNumber, SessionIndex};

verus! {

/// The current round index and transition information.
#[derive(Clone, Copy, Debug, PartialEq, Eq, Structural)]
pub struct RoundInfo {
    /// Current round index.
    pub current: SessionIndex,
    /// The first block of the current round.
    pub first: BlockNumber,
    /// The length of the current round in blocks.
    pub length: BlockNumber,
}

/// The round is over at `now`: `length` or more blocks were produced after
/// `first`.
pub open spec fn round_is_over(r: RoundInfo, now: BlockNumber) -> bool {
    now.saturating_sub(r.first) >= r.length
}

/// The round that follows `r` when it starts at `now`.
pub open spec fn next_round(r: RoundInfo, now: BlockNumber) -> RoundInfo {
    RoundInfo { current: r.current.saturating_add(1), first: now, length: r.length }
}

/// A round that starts at `now` is over at `now` exactly when rounds have
/// no length.
pub proof fn lemma_next_round_not_over_at_start(r: RoundInfo, now: BlockNumber)
    ensures
        round_is_over(next_round(r, now), now) <==> r.length == 0,
{
}

/// A round is over once `length` blocks were produced after its first one.
pub proof fn lemma_round_over_after_length(r: RoundInfo, now: BlockNumber)
    requires
        r.first + r.length <= now,
    ensures
        round_is_over(r, now),
{
}

/// The round is over at `now` exactly when its `length` blocks have all
/// been produced after `first`, that is `now` is at least `first + length`,
/// or when rounds have no length at all: never before, whatever the length.
pub proof fn lemma_round_over_exactly_after_length(r: RoundInfo, now: BlockNumber)
    ensures
        round_is_over(r, now) <==> (r.first as int + r.length as int <= now as int || r.length
            == 0),
        0 < r.length && (now as int) < (r.first as int) + (r.length as int) ==> !round_is_over(
            r,
            now,
        ),
{
}

/// The next round starts at `now`, has the same length, and its index is
/// one more, staying at the greatest index once it is reached.
pub proof fn lemma_next_round_keeps_length(r: RoundInfo, now: BlockNumber)
    ensures
        next_round(r, now).length == r.length,
        next_round(r, now).first == now,
        r.current < u32::MAX ==> next_round(r, now).current as int == r.current as int + 1,
        r.current == u32::MAX ==> next_round(r, now).current == u32::MAX,
{
}

impl RoundInfo {
    pub fn new(current: SessionIndex, first: BlockNumber, length: BlockNumber) -> (r: RoundInfo)
        ensures
            r == (RoundInfo { current, first, length }),
    {
        RoundInfo { current, first, length }
    }

    /// Checks if the round should be updated.
    ///
    /// The round should update if `self.length` or more blocks where produced
    /// after `self.first`.
    pub fn should_update(&self, now: BlockNumber) -> (b: bool)
        ensures
            b == round_is_over(*self, now),
    {
        let l = now.saturating_sub(self.first);
        l >= self.length
    }

    /// Starts a new round.
    pub fn update(&mut self, now: BlockNumber)
        ensures
            *final(self) == next_round(*old(self), now),
    {
        self.current = self.current.saturating_add(1u32);
        self.first = now;
    }
}

impl Default for RoundInfo {
    /// Round 0, starting at block 0, 20 blocks long.
    fn default() -> (r: RoundInfo)
        ensures
            r == (RoundInfo { current: 0, first: 0, length: 20 }),
    {
        RoundInfo::new(0u32, 0u64, 20u64)
    }
}

/// The total stake of the pallet.
///
/// The stake includes both collators' and delegators' staked funds.
#[derive(Clone, Copy, Debug, PartialEq, Eq, Structural)]
pub struct TotalStake {
    pub collators: Balance,
    pub delegators: Balance,
}

impl Default for TotalStake {
    /// No stake.
    fn default() -> (t: TotalStake)
        ensures
            t == (TotalStake { collators: 0, delegators: 0 }),
    {
        TotalStake { collators: 0, delegators: 0 }
    }
}

/// The number of delegations a delegator has done within the last session in
/// which they delegated.
#[derive(Clone, Copy, Debug, PartialEq, Eq, Structural)]
pub struct DelegationCounter {
    /// The index of the last delegation.
    pub round: SessionIndex,
    /// The number of delegations made within round.
    pub counter: u32,
}

impl Default for DelegationCounter {
    /// Round 0, no delegation.
    fn default() -> (c: DelegationCounter)
        ensures
            c == (DelegationCounter { round: 0, counter: 0 }),
    {
        DelegationCounter { round: 0, counter: 0 }
    }
}

/// Info needed to make delayed payments to stakers after round end
#[derive(Clone, Copy, Debug, PartialEq, Eq, Structural)]
pub struct DelayedPayoutInfoT {
    /// The round index for which payouts should be made
    pub round: SessionIndex,
    /// total stake in the round
    pub total_stake: Balance,
    /// total issuance for round
    pub total_issuance: Balance,
}

impl Default for DelayedPayoutInfoT {
    /// Round 0, nothing staked or issued.
    fn default() -> (d: DelayedPayoutInfoT)
        ensures
            d == (DelayedPayoutInfoT { round: 0, total_stake: 0, total_issuance: 0 }),
    {
        DelayedPayoutInfoT { round: 0, total_stake: 0, total_issuance: 0 }
    }
}

} // verus!
