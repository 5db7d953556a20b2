use std::cmp::Ordering;

use parachain_staking::set::OrderedSet;
use parachain_staking::stake::{Reward, Stake};

fn stake(owner: u64, amount: u128) -> Stake {
    Stake { owner, amount }
}

fn contents<const MAX: u32>(s: &OrderedSet<MAX>) -> Vec<(u64, u128)> {
    s.get_inner().iter().map(|x| (x.owner, x.amount)).collect()
}

#[test]
fn stake_cmp_same_owner_is_equal() {
    assert_eq!(stake(1, 10).cmp(&stake(1, 20)), Ordering::Equal);
    assert_eq!(stake(1, 20).cmp(&stake(1, 10)), Ordering::Equal);
}

#[test]
fn stake_cmp_equal_amounts_is_greater_both_ways() {
    assert_eq!(stake(1, 10).cmp(&stake(2, 10)), Ordering::Greater);
    assert_eq!(stake(2, 10).cmp(&stake(1, 10)), Ordering::Greater);
}

#[test]
fn stake_cmp_by_amount() {
    assert_eq!(stake(1, 10).cmp(&stake(2, 20)), Ordering::Less);
    assert_eq!(stake(1, 30).cmp(&stake(2, 20)), Ordering::Greater);
}

#[test]
fn stake_partial_cmp_and_operators() {
    assert_eq!(stake(1, 10).partial_cmp(&stake(2, 20)), Some(Ordering::Less));
    assert_eq!(stake(1, 10).partial_cmp(&stake(1, 99)), Some(Ordering::Equal));
    assert!(stake(1, 10) < stake(2, 20));
    assert!(stake(3, 30) > stake(2, 20));
    assert!(!(stake(1, 10) < stake(2, 10)));
}

#[test]
fn stake_from_owner_and_default() {
    assert_eq!(Stake::from(7u64), stake(7, 0));
    assert_eq!(Stake::default(), stake(0, 0));
    let r: Reward = stake(4, 5);
    assert_eq!(r.amount, 5);
}

#[test]
fn set_new_is_empty() {
    let s = OrderedSet::<3>::new();
    assert_eq!(s.len(), 0);
    assert!(contents(&s).is_empty());
}

#[test]
fn set_try_insert_keeps_greatest_first_and_ties_in_join_order() {
    let mut s = OrderedSet::<5>::new();
    assert_eq!(s.try_insert(stake(1, 10)), Ok(true));
    assert_eq!(s.try_insert(stake(2, 30)), Ok(true));
    assert_eq!(s.try_insert(stake(3, 10)), Ok(true));
    assert_eq!(s.try_insert(stake(4, 20)), Ok(true));
    assert_eq!(contents(&s), vec![(2, 30), (4, 20), (1, 10), (3, 10)]);
}

#[test]
fn set_try_insert_same_owner_is_refused() {
    let mut s = OrderedSet::<5>::new();
    assert_eq!(s.try_insert(stake(1, 10)), Ok(true));
    assert_eq!(s.try_insert(stake(1, 50)), Ok(false));
    assert_eq!(contents(&s), vec![(1, 10)]);
}

#[test]
fn set_try_insert_into_full_set_gives_position() {
    let mut s = OrderedSet::<2>::new();
    assert_eq!(s.try_insert(stake(1, 10)), Ok(true));
    assert_eq!(s.try_insert(stake(2, 30)), Ok(true));
    assert_eq!(s.try_insert(stake(3, 20)), Err(1));
    assert_eq!(s.try_insert(stake(4, 5)), Err(2));
    assert_eq!(s.try_insert(stake(2, 1)), Ok(false));
    assert_eq!(contents(&s), vec![(2, 30), (1, 10)]);
}

#[test]
fn set_zero_bound_holds_nothing() {
    let mut s = OrderedSet::<0>::new();
    assert_eq!(s.try_insert(stake(1, 10)), Err(0));
    assert_eq!(s.len(), 0);
}

#[test]
fn set_linear_search_found_and_insert_position() {
    let mut s = OrderedSet::<5>::new();
    s.try_insert(stake(1, 30)).unwrap();
    s.try_insert(stake(2, 20)).unwrap();
    s.try_insert(stake(3, 10)).unwrap();
    assert_eq!(s.linear_search(&stake(2, 0)), Ok(1));
    assert_eq!(s.linear_search(&stake(3, 1000)), Ok(2));
    assert_eq!(s.linear_search(&stake(9, 25)), Err(1));
    assert_eq!(s.linear_search(&stake(9, 20)), Err(2));
    assert_eq!(s.linear_search(&stake(9, 5)), Err(3));
    assert_eq!(s.linear_search(&stake(9, 40)), Err(0));
}

#[test]
fn set_remove_returns_the_stake() {
    let mut s = OrderedSet::<5>::new();
    s.try_insert(stake(1, 30)).unwrap();
    s.try_insert(stake(2, 20)).unwrap();
    s.try_insert(stake(3, 10)).unwrap();
    assert_eq!(s.remove(&stake(2, 0)), Some(stake(2, 20)));
    assert_eq!(contents(&s), vec![(1, 30), (3, 10)]);
    assert_eq!(s.remove(&stake(2, 0)), None);
    assert_eq!(contents(&s), vec![(1, 30), (3, 10)]);
}

#[test]
fn set_remove_undoes_insert() {
    let mut s = OrderedSet::<5>::new();
    s.try_insert(stake(1, 30)).unwrap();
    s.try_insert(stake(2, 20)).unwrap();
    let before = s.clone();
    assert_eq!(s.try_insert(stake(3, 20)), Ok(true));
    assert_eq!(s.remove(&stake(3, 0)), Some(stake(3, 20)));
    assert_eq!(s, before);
}

#[test]
fn set_amount_moves_stake_and_keeps_ties() {
    let mut s = OrderedSet::<5>::new();
    s.try_insert(stake(1, 30)).unwrap();
    s.try_insert(stake(2, 20)).unwrap();
    s.try_insert(stake(3, 20)).unwrap();
    s.try_insert(stake(4, 10)).unwrap();
    // raised to a tie with the first: stays behind it
    s.set_amount(3, 30);
    assert_eq!(contents(&s), vec![(1, 30), (4, 30), (2, 20), (3, 20)]);
    // lowered to a tie: goes in front of the stakes that were behind it
    s.set_amount(0, 20);
    assert_eq!(contents(&s), vec![(4, 30), (1, 20), (2, 20), (3, 20)]);
    // lowered below everything
    s.set_amount(1, 1);
    assert_eq!(contents(&s), vec![(4, 30), (2, 20), (3, 20), (1, 1)]);
    // raised above everything
    s.set_amount(3, 100);
    assert_eq!(contents(&s), vec![(1, 100), (4, 30), (2, 20), (3, 20)]);
}

#[test]
fn set_from_sorted_set_and_get() {
    let s = OrderedSet::<3>::from_sorted_set(vec![stake(5, 9), stake(6, 3)]);
    assert_eq!(s.len(), 2);
    assert_eq!(*s.get(1), stake(6, 3));
}

#[test]
fn set_try_from_sorted_set_checks_order_owners_and_bound() {
    let ok = OrderedSet::<3>::try_from_sorted_set(vec![stake(1, 9), stake(2, 9), stake(3, 1)]);
    assert_eq!(contents(&ok.unwrap()), vec![(1, 9), (2, 9), (3, 1)]);
    let unsorted = vec![stake(1, 1), stake(2, 9)];
    assert_eq!(OrderedSet::<3>::try_from_sorted_set(unsorted.clone()).err(), Some(unsorted));
    let twice = vec![stake(1, 9), stake(1, 1)];
    assert_eq!(OrderedSet::<3>::try_from_sorted_set(twice.clone()).err(), Some(twice));
    let too_many = vec![stake(1, 9), stake(2, 1)];
    assert_eq!(OrderedSet::<1>::try_from_sorted_set(too_many.clone()).err(), Some(too_many));
    assert!(OrderedSet::<0>::try_from_sorted_set(vec![]).is_ok());
}
