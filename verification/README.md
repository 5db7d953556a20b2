# parachain_staking

Staking records of a parachain collator-selection pallet, verified with Verus.

- `src/stake.rs`: `Stake` and its order (equal owners compare equal, otherwise by amount).
- `src/set.rs`: `OrderedSet`, at most `MAX` stakes, one per account, greatest amount first;
  its type invariant and the lemmas about insertion, removal and sums.
- `src/candidate.rs`: collator candidates; every operation keeps
  `total == stake + sum of delegations` where the arithmetic does not saturate.
- `src/delegator.rs`: delegators; every operation keeps `total == sum of delegations`
  under the same proviso.
- `src/round.rs`: round bookkeeping and the plain pallet records.
- `src/permill.rs`: the trusted items for `sp_arithmetic::Permill`.
- `app/lib.rs`: SCALE-encodable copies of the plain records (the codec derives cannot
  stand in verified code), with conversions both ways.
