use parachain_staking::candidate::{Candidate, CandidateStatus, OldCandidate};
use parachain_staking::delegator::Delegator;
use parachain_staking::round::{DelayedPayoutInfoT, DelegationCounter, RoundInfo, TotalStake};
use parachain_staking::stake::Stake;
use sp_arithmetic::Permill;

fn stake(owner: u64, amount: u128) -> Stake {
    Stake { owner, amount }
}

fn delegators<const MAX: u32>(c: &Candidate<MAX>) -> Vec<(u64, u128)> {
    c.delegators.get_inner().iter().map(|x| (x.owner, x.amount)).collect()
}

fn delegations<const MAX: u32>(d: &Delegator<MAX>) -> Vec<(u64, u128)> {
    d.delegations.get_inner().iter().map(|x| (x.owner, x.amount)).collect()
}

fn backed_candidate() -> Candidate<4> {
    let mut c = Candidate::<4>::new(1, 100);
    assert_eq!(c.delegators.try_insert(stake(10, 50)), Ok(true));
    assert_eq!(c.delegators.try_insert(stake(11, 30)), Ok(true));
    assert_eq!(c.delegators.try_insert(stake(12, 30)), Ok(true));
    c.total = 210;
    c
}

#[test]
fn candidate_new() {
    let c = Candidate::<4>::new(1, 100);
    assert_eq!(c.id, 1);
    assert_eq!(c.stake, 100);
    assert_eq!(c.total, 100);
    assert_eq!(c.delegators.len(), 0);
    assert_eq!(c.status, CandidateStatus::Active);
    assert_eq!(c.commission, Permill::zero());
    assert!(c.is_active());
    assert!(!c.is_leaving());
}

#[test]
fn candidate_status_default_is_active() {
    assert_eq!(CandidateStatus::default(), CandidateStatus::Active);
}

#[test]
fn candidate_leave_exit_and_revert() {
    let mut c = Candidate::<4>::new(1, 100);
    assert!(!c.can_exit(1000));
    c.leave_candidates(5);
    assert_eq!(c.status, CandidateStatus::Leaving(5));
    assert!(c.is_leaving());
    assert!(!c.is_active());
    assert!(!c.can_exit(4));
    assert!(c.can_exit(5));
    assert!(c.can_exit(6));
    c.revert_leaving();
    assert!(c.is_active());
    assert!(!c.can_exit(6));
}

#[test]
fn candidate_set_commission() {
    let mut c = Candidate::<4>::new(1, 100);
    c.set_commission(Permill::from_percent(10));
    assert_eq!(c.commission, Permill::from_parts(100_000));
}

#[test]
fn candidate_stake_more_adds_and_saturates() {
    let mut c = Candidate::<4>::new(1, 100);
    c.stake_more(50);
    assert_eq!((c.stake, c.total), (150, 150));
    c.stake_more(u128::MAX);
    assert_eq!((c.stake, c.total), (u128::MAX, u128::MAX));
}

#[test]
fn candidate_stake_less() {
    let mut c = backed_candidate();
    assert_eq!(c.stake_less(40), Some(60));
    assert_eq!((c.stake, c.total), (60, 170));
    assert_eq!(c.stake_less(60), None);
    assert_eq!(c.stake_less(61), None);
    assert_eq!((c.stake, c.total), (60, 170));
}

#[test]
fn candidate_inc_delegator_resorts() {
    let mut c = backed_candidate();
    c.inc_delegator(12, 25);
    assert_eq!(delegators(&c), vec![(12, 55), (10, 50), (11, 30)]);
    assert_eq!(c.total, 235);
    c.inc_delegator(99, 25);
    assert_eq!(delegators(&c), vec![(12, 55), (10, 50), (11, 30)]);
    assert_eq!(c.total, 235);
}

#[test]
fn candidate_dec_delegator_resorts_and_saturates() {
    let mut c = backed_candidate();
    c.dec_delegator(10, 20);
    assert_eq!(delegators(&c), vec![(10, 30), (11, 30), (12, 30)]);
    assert_eq!(c.total, 190);
    c.dec_delegator(11, 100);
    assert_eq!(delegators(&c), vec![(10, 30), (12, 30), (11, 0)]);
    assert_eq!(c.total, 160);
    c.dec_delegator(99, 5);
    assert_eq!(c.total, 160);
}

#[test]
fn candidate_dec_delegator_below_zero_keeps_total_matching() {
    let mut c = Candidate::<4>::new(1, 100);
    c.delegators.try_insert(stake(10, 50)).unwrap();
    c.total = 150;
    c.dec_delegator(10, 60);
    assert_eq!(delegators(&c), vec![(10, 0)]);
    assert_eq!(c.total, 100);
}

#[test]
fn candidate_total_stays_stake_plus_delegations() {
    let mut c = backed_candidate();
    c.stake_more(7);
    c.inc_delegator(11, 3);
    c.dec_delegator(10, 8);
    c.dec_delegator(12, 1000);
    assert_eq!(c.stake_less(2), Some(105));
    let sum: u128 = c.delegators.get_inner().iter().map(|s| s.amount).sum();
    assert_eq!(c.total, c.stake + sum);
}

#[test]
fn old_candidate_holds_fields() {
    let c = Candidate::<2>::new(3, 8);
    let o = OldCandidate::<2> {
        id: c.id,
        stake: c.stake,
        delegators: c.delegators.clone(),
        total: c.total,
        status: c.status,
    };
    assert_eq!(o.total, 8);
}

#[test]
fn delegator_try_new() {
    let d = Delegator::<2>::try_new(7, 40).unwrap();
    assert_eq!(delegations(&d), vec![(7, 40)]);
    assert_eq!(d.total, 40);
    assert_eq!(Delegator::<0>::try_new(7, 40).err(), Some(vec![stake(7, 40)]));
}

#[test]
fn delegator_add_delegation() {
    let mut d = Delegator::<2>::try_new(7, 40).unwrap();
    assert_eq!(d.add_delegation(stake(8, 60)), Ok(true));
    assert_eq!(delegations(&d), vec![(8, 60), (7, 40)]);
    assert_eq!(d.total, 100);
    assert_eq!(d.add_delegation(stake(8, 5)), Ok(false));
    assert_eq!(d.total, 100);
    assert_eq!(d.add_delegation(stake(9, 50)), Err(1));
    assert_eq!(delegations(&d), vec![(8, 60), (7, 40)]);
    assert_eq!(d.total, 100);
}

#[test]
fn delegator_rm_delegation() {
    let mut d = Delegator::<3>::try_new(7, 40).unwrap();
    d.add_delegation(stake(8, 60)).unwrap();
    assert_eq!(d.rm_delegation(&7), Some(60));
    assert_eq!(delegations(&d), vec![(8, 60)]);
    assert_eq!(d.rm_delegation(&7), None);
    assert_eq!(d.total, 60);
}

#[test]
fn delegator_rm_undoes_add() {
    let mut d = Delegator::<3>::try_new(7, 40).unwrap();
    let before = delegations(&d);
    assert_eq!(d.add_delegation(stake(8, 40)), Ok(true));
    assert_eq!(d.rm_delegation(&8), Some(40));
    assert_eq!(delegations(&d), before);
    assert_eq!(d.total, 40);
}

#[test]
fn delegator_inc_delegation() {
    let mut d = Delegator::<3>::try_new(7, 40).unwrap();
    d.add_delegation(stake(8, 60)).unwrap();
    assert_eq!(d.inc_delegation(7, 30), Some(70));
    assert_eq!(delegations(&d), vec![(7, 70), (8, 60)]);
    assert_eq!(d.total, 130);
    assert_eq!(d.inc_delegation(9, 30), None);
    assert_eq!(d.total, 130);
}

#[test]
fn delegator_dec_delegation() {
    let mut d = Delegator::<3>::try_new(7, 40).unwrap();
    d.add_delegation(stake(8, 60)).unwrap();
    assert_eq!(d.dec_delegation(8, 25), Some(Some(35)));
    assert_eq!(delegations(&d), vec![(7, 40), (8, 35)]);
    assert_eq!(d.total, 75);
    assert_eq!(d.dec_delegation(8, 35), Some(None));
    assert_eq!(d.dec_delegation(8, 36), Some(None));
    assert_eq!(d.dec_delegation(9, 1), None);
    assert_eq!(d.total, 75);
}

#[test]
fn round_default_and_new() {
    let r = RoundInfo::default();
    assert_eq!((r.current, r.first, r.length), (0, 0, 20));
    assert_eq!(RoundInfo::new(3, 100, 10), RoundInfo { current: 3, first: 100, length: 10 });
}

#[test]
fn round_should_update() {
    let r = RoundInfo::new(3, 100, 10);
    assert!(!r.should_update(50));
    assert!(!r.should_update(109));
    assert!(r.should_update(110));
    assert!(r.should_update(111));
}

#[test]
fn round_update_starts_next_round() {
    let mut r = RoundInfo::new(3, 100, 10);
    r.update(112);
    assert_eq!(r, RoundInfo { current: 4, first: 112, length: 10 });
    assert!(!r.should_update(112));
    let mut last = RoundInfo::new(u32::MAX, 0, 0);
    last.update(5);
    assert_eq!(last.current, u32::MAX);
    assert!(last.should_update(5));
}

#[test]
fn plain_records_default() {
    assert_eq!(TotalStake::default(), TotalStake { collators: 0, delegators: 0 });
    assert_eq!(DelegationCounter::default(), DelegationCounter { round: 0, counter: 0 });
    assert_eq!(
        DelayedPayoutInfoT::default(),
        DelayedPayoutInfoT { round: 0, total_stake: 0, total_issuance: 0 }
    );
}
