//! Staking types of a parachain collator-selection pallet: stakes, the
//! ordered set of delegations that backs a collator, collator candidates,
//! delegators and round bookkeeping.
//!
//! Account ids are `u64`, balances `u128`, block numbers `u64` and session
//! indices `u32`; the bound on an ordered set is a const generic.

use vstd::prelude::*;

pub mod candidate;
pub mod delegator;
pub mod permill;
pub mod round;
pub mod set;
pub mod stake;

verus! {

/// The identifier of an account.
pub type AccountId = u64;

/// An amount of funds.
pub type Balance = u128;

/// The number of a block.
pub type BlockNumber = u64;

/// The index of a session (a staking round).
pub type SessionIndex = u32;

} // verus!
