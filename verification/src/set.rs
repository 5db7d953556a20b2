//! An ordered set of stakes: at most `MAX` stakes, no account twice, kept
//! from the greatest to the lowest amount.

use std::cmp::Ordering;
use vstd::prelude::*;

use crate::stake::Stake;
use crate::{AccountId, Balance};

verus! {

/// The amounts never increase from front to back.
pub open spec fn sorted_greatest_to_lowest(s: Seq<Stake>) -> bool {
    forall|i: int, j: int| 0 <= i < j < s.len() ==> s[i].amount >= s[j].amount
}

/// No account owns two stakes.
pub open spec fn owners_unique(s: Seq<Stake>) -> bool {
    forall|i: int, j: int| 0 <= i < j < s.len() ==> s[i].owner != s[j].owner
}

/// Some stake belongs to `owner`.
pub open spec fn has_owner(s: Seq<Stake>, owner: AccountId) -> bool {
    exists|i: int| 0 <= i < s.len() && s[i].owner == owner
}

/// The position of the stake of `owner` (meaningful where `has_owner` holds
/// and owners are unique).
pub open spec fn position_of_owner(s: Seq<Stake>, owner: AccountId) -> int {
    choose|i: int| 0 <= i < s.len() && s[i].owner == owner
}

/// A stake of `amount` is placed in front of the stake at `j` of `s`: that
/// stake is smaller, or equal and at or after `tie`. Stakes of equal amount
/// in front of `tie` stay in front.
pub open spec fn goes_before(s: Seq<Stake>, amount: Balance, tie: int, j: int) -> bool {
    s[j].amount < amount || (s[j].amount == amount && j >= tie)
}

/// `p` is the first position of `s` in front of which a stake of `amount`
/// goes, or the length of `s` where there is none.
pub open spec fn is_place(s: Seq<Stake>, amount: Balance, tie: int, p: int) -> bool {
    &&& 0 <= p <= s.len()
    &&& forall|j: int| 0 <= j < p ==> !goes_before(s, amount, tie, j)
    &&& p < s.len() ==> goes_before(s, amount, tie, p)
}

/// Where a stake of `amount` goes into `s`, ties in front of `tie` first.
pub open spec fn place(s: Seq<Stake>, amount: Balance, tie: int) -> int {
    choose|p: int| is_place(s, amount, tie, p)
}

/// Where a new stake of `amount` goes: after every stake that is not
/// smaller, so that among equal amounts the first to join comes first.
pub open spec fn insert_position(s: Seq<Stake>, amount: Balance) -> int {
    place(s, amount, s.len() as int)
}

/// The stakes after the amount of the stake at `index` is set to `amount`
/// and the order restored, stakes of equal amount keeping their order.
pub open spec fn with_amount(s: Seq<Stake>, index: int, amount: Balance) -> Seq<Stake> {
    let rest = s.remove(index);
    rest.insert(place(rest, amount, index), Stake { owner: s[index].owner, amount })
}

/// At most one position is a place.
pub proof fn lemma_place_unique(s: Seq<Stake>, amount: Balance, tie: int, p: int)
    requires
        is_place(s, amount, tie, p),
    ensures
        place(s, amount, tie) == p,
{
    let q = place(s, amount, tie);
    assert(is_place(s, amount, tie, q));
    if q < p {
        assert(!goes_before(s, amount, tie, q));
    } else if p < q {
        assert(!goes_before(s, amount, tie, p));
    }
}

/// The sum of the amounts of `s`.
pub open spec fn sum_amounts(s: Seq<Stake>) -> nat
    decreases s.len(),
{
    if s.len() == 0 {
        0
    } else {
        sum_amounts(s.drop_last()) + s.last().amount as nat
    }
}

/// The sum over two sequences put together is the sum of their sums.
pub proof fn lemma_sum_concat(a: Seq<Stake>, b: Seq<Stake>)
    ensures
        sum_amounts(a + b) == sum_amounts(a) + sum_amounts(b),
    decreases b.len(),
{
    if b.len() == 0 {
        assert(a + b =~= a);
    } else {
        assert((a + b).drop_last() =~= a + b.drop_last());
        lemma_sum_concat(a, b.drop_last());
    }
}

/// Splits the sum around the stake at `i`.
pub proof fn lemma_sum_split(s: Seq<Stake>, i: int)
    requires
        0 <= i < s.len(),
    ensures
        sum_amounts(s) == sum_amounts(s.take(i)) + s[i].amount + sum_amounts(s.skip(i + 1)),
        sum_amounts(s.remove(i)) == sum_amounts(s.take(i)) + sum_amounts(s.skip(i + 1)),
{
    assert(s =~= s.take(i) + seq![s[i]] + s.skip(i + 1));
    assert(s.remove(i) =~= s.take(i) + s.skip(i + 1));
    assert(seq![s[i]].drop_last() =~= Seq::<Stake>::empty());
    assert(sum_amounts(Seq::<Stake>::empty()) == 0);
    assert(sum_amounts(seq![s[i]]) == s[i].amount);
    lemma_sum_concat(s.take(i) + seq![s[i]], s.skip(i + 1));
    lemma_sum_concat(s.take(i), seq![s[i]]);
    lemma_sum_concat(s.take(i), s.skip(i + 1));
}

/// Inserting a stake adds its amount to the sum; removing one takes it away.
pub proof fn lemma_sum_insert_remove(s: Seq<Stake>, i: int, x: Stake)
    ensures
        0 <= i <= s.len() ==> sum_amounts(s.insert(i, x)) == sum_amounts(s) + x.amount,
        0 <= i < s.len() ==> sum_amounts(s.remove(i)) + s[i].amount == sum_amounts(s),
{
    if 0 <= i <= s.len() {
        let t = s.insert(i, x);
        assert(t.remove(i) =~= s);
        lemma_sum_split(t, i);
    }
    if 0 <= i < s.len() {
        lemma_sum_split(s, i);
    }
}

/// Every sequence has a place for every amount and tie position.
pub proof fn lemma_place_exists(s: Seq<Stake>, amount: Balance, tie: int)
    ensures
        is_place(s, amount, tie, place(s, amount, tie)),
{
    lemma_place_from(s, amount, tie, 0);
}

proof fn lemma_place_from(s: Seq<Stake>, amount: Balance, tie: int, k: int)
    requires
        0 <= k <= s.len(),
        forall|j: int| 0 <= j < k ==> !goes_before(s, amount, tie, j),
    ensures
        is_place(s, amount, tie, place(s, amount, tie)),
    decreases s.len() - k,
{
    if k == s.len() || goes_before(s, amount, tie, k) {
        assert(is_place(s, amount, tie, k));
    } else {
        lemma_place_from(s, amount, tie, k + 1);
    }
}

/// Setting the amount of one stake and restoring the order changes the sum
/// by the change of that amount.
pub proof fn lemma_sum_with_amount(s: Seq<Stake>, index: int, amount: Balance)
    requires
        0 <= index < s.len(),
    ensures
        sum_amounts(with_amount(s, index, amount)) + s[index].amount == sum_amounts(s) + amount,
{
    let rest = s.remove(index);
    lemma_place_exists(rest, amount, index);
    let x = Stake { owner: s[index].owner, amount };
    lemma_sum_insert_remove(s, index, x);
    lemma_sum_insert_remove(rest, place(rest, amount, index), x);
}

/// Putting a stake at its place keeps the set sorted and its owners
/// distinct, whatever the tie position.
pub proof fn lemma_insert_at_place(s: Seq<Stake>, x: Stake, tie: int, p: int)
    requires
        sorted_greatest_to_lowest(s),
        owners_unique(s),
        !has_owner(s, x.owner),
        is_place(s, x.amount, tie, p),
    ensures
        sorted_greatest_to_lowest(s.insert(p, x)),
        owners_unique(s.insert(p, x)),
        s.insert(p, x).len() == s.len() + 1,
{
    let t = s.insert(p, x);
    assert forall|i: int, j: int| 0 <= i < j < t.len() implies t[i].amount >= t[j].amount by {
        if j < p {
        } else if j == p {
            assert(!goes_before(s, x.amount, tie, i));
        } else if i < p {
            assert(!goes_before(s, x.amount, tie, i));
            assert(goes_before(s, x.amount, tie, p));
        } else if i == p {
            assert(goes_before(s, x.amount, tie, p));
            assert(t[j] == s[j - 1]);
        } else {
        }
    }
    assert forall|i: int, j: int| 0 <= i < j < t.len() implies t[i].owner != t[j].owner by {
        if i == p {
            assert(t[j] == s[j - 1]);
        } else if j == p {
            assert(t[i] == s[i]);
        }
    }
}

/// Taking a stake out keeps the set sorted and its owners distinct.
pub proof fn lemma_remove_keeps_order(s: Seq<Stake>, i: int)
    requires
        sorted_greatest_to_lowest(s),
        owners_unique(s),
        0 <= i < s.len(),
    ensures
        sorted_greatest_to_lowest(s.remove(i)),
        owners_unique(s.remove(i)),
        !has_owner(s.remove(i), s[i].owner),
{
    let r = s.remove(i);
    assert forall|a: int, b: int| 0 <= a < b < r.len() implies r[a].amount >= r[b].amount
        && r[a].owner != r[b].owner by {
        let oa = if a < i { a } else { a + 1 };
        let ob = if b < i { b } else { b + 1 };
        assert(r[a] == s[oa]);
        assert(r[b] == s[ob]);
    }
    if has_owner(r, s[i].owner) {
        let k = choose|k: int| 0 <= k < r.len() && r[k].owner == s[i].owner;
        let ok = if k < i { k } else { k + 1 };
        assert(r[k] == s[ok]);
    }
}

/// With distinct owners, the stake of `owner` found at `i` is the one at
/// `position_of_owner`.
pub proof fn lemma_position_of_owner(s: Seq<Stake>, owner: AccountId, i: int)
    requires
        owners_unique(s),
        0 <= i < s.len(),
        s[i].owner == owner,
    ensures
        has_owner(s, owner),
        position_of_owner(s, owner) == i,
{
    let k = position_of_owner(s, owner);
    assert(0 <= k < s.len() && s[k].owner == owner);
    if k < i {
    } else if i < k {
    }
}

/// In a sorted sequence, a new stake of `amount` goes where the stakes in
/// front of it are all at least `amount` and those from it on all smaller.
pub proof fn lemma_insert_position_splits(s: Seq<Stake>, amount: Balance)
    requires
        sorted_greatest_to_lowest(s),
    ensures
        0 <= insert_position(s, amount) <= s.len(),
        forall|j: int| 0 <= j < insert_position(s, amount) ==> s[j].amount >= amount,
        forall|j: int| insert_position(s, amount) <= j < s.len() ==> s[j].amount < amount,
{
    lemma_place_exists(s, amount, s.len() as int);
    let p = insert_position(s, amount);
    assert forall|j: int| 0 <= j < p implies s[j].amount >= amount by {
        assert(!goes_before(s, amount, s.len() as int, j));
    }
    assert forall|j: int| p <= j < s.len() implies s[j].amount < amount by {
        assert(goes_before(s, amount, s.len() as int, p));
    }
}

/// Setting the amount of the stake at `index` to `amount`: the stakes stay
/// sorted and distinct, the stake of that owner now has `amount`, the other
/// stakes keep their order, the stakes in front of it are at least `amount`
/// and those behind at most `amount`, and of the stakes of equal amount
/// those in front of it were in front of it before, those behind it were
/// behind it before.
pub proof fn lemma_with_amount_moves_one_stake(s: Seq<Stake>, index: int, amount: Balance)
    requires
        sorted_greatest_to_lowest(s),
        owners_unique(s),
        0 <= index < s.len(),
    ensures
        ({
            let t = with_amount(s, index, amount);
            let k = position_of_owner(t, s[index].owner);
            &&& t.len() == s.len()
            &&& sorted_greatest_to_lowest(t)
            &&& owners_unique(t)
            &&& has_owner(t, s[index].owner)
            &&& 0 <= k < t.len()
            &&& t[k] == (Stake { owner: s[index].owner, amount })
            &&& t.remove(k) == s.remove(index)
            &&& forall|j: int| 0 <= j < k ==> t[j].amount >= amount
            &&& forall|j: int| k < j < t.len() ==> t[j].amount <= amount
            &&& forall|j: int| 0 <= j < k && t[j].amount == amount ==> j < index
            &&& forall|j: int| k < j < t.len() && t[j].amount == amount ==> j > index
        }),
{
    let rest = s.remove(index);
    let moved = Stake { owner: s[index].owner, amount };
    lemma_remove_keeps_order(s, index);
    lemma_place_exists(rest, amount, index);
    let p = place(rest, amount, index);
    lemma_insert_at_place(rest, moved, index, p);
    let t = rest.insert(p, moved);
    assert(t == with_amount(s, index, amount));
    lemma_position_of_owner(t, s[index].owner, p);
    assert(t.remove(p) =~= rest);
    assert forall|j: int| 0 <= j < p implies t[j].amount >= amount && (t[j].amount == amount
        ==> j < index) by {
        assert(t[j] == rest[j]);
        assert(!goes_before(rest, amount, index, j));
    }
    assert forall|j: int| p < j < t.len() implies t[j].amount <= amount && (t[j].amount == amount
        ==> j > index) by {
        assert(t[j] == rest[j - 1]);
        assert(goes_before(rest, amount, index, p));
    }
}

/// A new stake goes behind every stake that is not smaller: among equal
/// amounts, existing members keep the front.
pub proof fn lemma_new_stake_behind_equal(s: Seq<Stake>, amount: Balance, j: int)
    requires
        0 <= j < s.len(),
        s[j].amount >= amount,
        sorted_greatest_to_lowest(s),
    ensures
        j < insert_position(s, amount),
{
    lemma_place_exists(s, amount, s.len() as int);
    let p = insert_position(s, amount);
    if p <= j {
        assert(goes_before(s, amount, s.len() as int, p));
    }
}

/// Removing the stake of an owner that was just inserted gives back the
/// stakes from before the insertion, and the inserted stake.
pub proof fn lemma_remove_undoes_insert(s: Seq<Stake>, x: Stake)
    requires
        owners_unique(s),
        !has_owner(s, x.owner),
    ensures
        ({
            let t = s.insert(insert_position(s, x.amount), x);
            &&& has_owner(t, x.owner)
            &&& t[position_of_owner(t, x.owner)] == x
            &&& t.remove(position_of_owner(t, x.owner)) == s
        }),
{
    let p = insert_position(s, x.amount);
    lemma_place_exists(s, x.amount, s.len() as int);
    let t = s.insert(p, x);
    assert forall|i: int, j: int| 0 <= i < j < t.len() implies t[i].owner != t[j].owner by {
        if i == p {
            assert(t[j] == s[j - 1]);
        } else if j == p {
            assert(t[i] == s[i]);
        } else {
            let oi = if i < p { i } else { i - 1 };
            let oj = if j < p { j } else { j - 1 };
            assert(t[i] == s[oi]);
            assert(t[j] == s[oj]);
        }
    }
    lemma_position_of_owner(t, x.owner, p);
    assert(t.remove(p) =~= s);
}

/// The stake at `i` is the first one of `owner`.
pub open spec fn found_at(s: Seq<Stake>, owner: AccountId, i: usize) -> bool {
    &&& i < s.len()
    &&& s[i as int].owner == owner
    &&& forall|j: int| 0 <= j < i ==> s[j].owner != owner
}

/// No stake is of `value.owner`, and `value` would be inserted at `p`.
pub open spec fn missing_at(s: Seq<Stake>, value: Stake, p: usize) -> bool {
    &&& !has_owner(s, value.owner)
    &&& is_place(s, value.amount, s.len() as int, p as int)
}

/// The amount of the stake at `i`.
pub open spec fn amount_at(s: Seq<Stake>, i: usize) -> Balance {
    s[i as int].amount
}

/// A set of distinct stakes, bounded by `MAX` and sorted from the greatest to
/// the lowest amount.
#[derive(Debug, PartialEq, Eq)]
pub struct OrderedSet<const MAX: u32> {
    inner: Vec<Stake>,
}

impl<const MAX: u32> View for OrderedSet<MAX> {
    type V = Seq<Stake>;

    closed spec fn view(&self) -> Seq<Stake> {
        self.inner@
    }
}

impl<const MAX: u32> Clone for OrderedSet<MAX> {
    /// The same stakes.
    fn clone(&self) -> (c: Self)
        ensures
            c@ == self@,
    {
        proof {
            use_type_invariant(self);
        }
        let v = self.inner.clone();
        proof {
            assert(v@ =~= self@);
        }
        OrderedSet { inner: v }
    }
}

impl<const MAX: u32> OrderedSet<MAX> {
    /// Holds of every set: sorted, no account twice, at most `MAX` stakes.
    #[verifier::type_invariant]
    pub open spec fn wf(&self) -> bool {
        &&& sorted_greatest_to_lowest(self@)
        &&& owners_unique(self@)
        &&& self@.len() <= MAX
    }

    /// The empty set.
    pub fn new() -> (s: Self)
        ensures
            s.wf(),
            s@ == Seq::<Stake>::empty(),
    {
        OrderedSet { inner: Vec::new() }
    }

    /// A set made of stakes that are already sorted and distinct.
    pub fn from_sorted_set(v: Vec<Stake>) -> (s: Self)
        requires
            sorted_greatest_to_lowest(v@),
            owners_unique(v@),
            v@.len() <= MAX,
        ensures
            s.wf(),
            s@ == v@,
    {
        OrderedSet { inner: v }
    }

    /// A set made of the stakes of `v`, where they are sorted from the
    /// greatest to the lowest amount, of distinct owners and at most `MAX`;
    /// otherwise `v` is handed back.
    pub fn try_from_sorted_set(v: Vec<Stake>) -> (r: Result<Self, Vec<Stake>>)
        ensures
            r is Ok <==> (sorted_greatest_to_lowest(v@) && owners_unique(v@) && v@.len() <= MAX),
            r matches Ok(s) ==> s@ == v@,
            r matches Err(w) ==> w@ == v@,
    {
        let n = v.len();
        if n > MAX as usize {
            return Err(v);
        }
        let mut i: usize = 0;
        while i < n
            invariant
                n == v@.len(),
                i <= n,
                forall|a: int, b: int|
                    0 <= a < i && a < b < n ==> v@[a].amount >= v@[b].amount && v@[a].owner
                        != v@[b].owner,
            decreases n - i,
        {
            let mut j: usize = i + 1;
            while j < n
                invariant
                    n == v@.len(),
                    i < n,
                    i < j <= n,
                    forall|a: int, b: int|
                        0 <= a < i && a < b < n ==> v@[a].amount >= v@[b].amount && v@[a].owner
                            != v@[b].owner,
                    forall|b: int|
                        i < b < j ==> v@[i as int].amount >= v@[b].amount && v@[i as int].owner
                            != v@[b].owner,
                decreases n - j,
            {
                if v[i].amount < v[j].amount || v[i].owner == v[j].owner {
                    return Err(v);
                }
                j = j + 1;
            }
            i = i + 1;
        }
        Ok(OrderedSet { inner: v })
    }

    /// The stakes, from the greatest to the lowest.
    pub fn get_inner(&self) -> (v: &Vec<Stake>)
        ensures
            v@ == self@,
    {
        &self.inner
    }

    /// The number of stakes.
    pub fn len(&self) -> (n: usize)
        ensures
            n == self@.len(),
    {
        self.inner.len()
    }

    /// The stake at `index`.
    pub fn get(&self, index: usize) -> (s: &Stake)
        requires
            index < self@.len(),
        ensures
            *s == self@[index as int],
    {
        &self.inner[index]
    }

    /// Inserts `value` where it keeps the set sorted, unless its owner has
    /// a stake already (`Ok(false)`, nothing changes) or the set is full
    /// (`Err` with the position where it would have gone, nothing changes).
    /// Among equal amounts the new stake goes last.
    pub fn try_insert(&mut self, value: Stake) -> (r: Result<bool, usize>)
        ensures
            match r {
                Ok(true) => {
                    &&& !has_owner(old(self)@, value.owner)
                    &&& old(self)@.len() < MAX
                    &&& is_place(
                        old(self)@,
                        value.amount,
                        old(self)@.len() as int,
                        insert_position(old(self)@, value.amount),
                    )
                    &&& final(self)@ == old(self)@.insert(
                        insert_position(old(self)@, value.amount),
                        value,
                    )
                },
                Ok(false) => {
                    &&& has_owner(old(self)@, value.owner)
                    &&& *final(self) == *old(self)
                },
                Err(p) => {
                    &&& !has_owner(old(self)@, value.owner)
                    &&& old(self)@.len() == MAX
                    &&& p == insert_position(old(self)@, value.amount)
                    &&& is_place(old(self)@, value.amount, old(self)@.len() as int, p as int)
                    &&& *final(self) == *old(self)
                },
            },
    {
        proof {
            use_type_invariant(&*self);
        }
        match self.linear_search(&value) {
            Ok(_) => Ok(false),
            Err(loc) => {
                proof {
                    lemma_place_unique(self@, value.amount, self@.len() as int, loc as int);
                }
                if self.inner.len() < MAX as usize {
                    proof {
                        lemma_insert_at_place(self@, value, self@.len() as int, loc as int);
                    }
                    let mut v = self.take_inner();
                    v.insert(loc, value);
                    self.inner = v;
                    Ok(true)
                } else {
                    Err(loc)
                }
            },
        }
    }

    /// Removes and returns the stake of `value.owner`, if there is one.
    pub fn remove(&mut self, value: &Stake) -> (r: Option<Stake>)
        ensures
            match r {
                Some(x) => {
                    let i = position_of_owner(old(self)@, value.owner);
                    &&& has_owner(old(self)@, value.owner)
                    &&& x == old(self)@[i]
                    &&& final(self)@ == old(self)@.remove(i)
                },
                None => {
                    &&& !has_owner(old(self)@, value.owner)
                    &&& *final(self) == *old(self)
                },
            },
    {
        proof {
            use_type_invariant(&*self);
        }
        match self.linear_search(value) {
            Ok(loc) => {
                proof {
                    lemma_position_of_owner(self@, value.owner, loc as int);
                    lemma_remove_keeps_order(self@, loc as int);
                }
                let mut v = self.take_inner();
                let removed = v.remove(loc);
                self.inner = v;
                Some(removed)
            },
            Err(_) => None,
        }
    }

    /// Sets the amount of the stake at `index` and restores the order from
    /// the greatest to the lowest amount; stakes of equal amount keep the
    /// order they had.
    pub fn set_amount(&mut self, index: usize, amount: Balance)
        requires
            index < old(self)@.len(),
        ensures
            is_place(
                old(self)@.remove(index as int),
                amount,
                index as int,
                place(old(self)@.remove(index as int), amount, index as int),
            ),
            final(self)@ == with_amount(old(self)@, index as int, amount),
    {
        proof {
            use_type_invariant(&*self);
        }
        let ghost s = self@;
        proof {
            lemma_remove_keeps_order(s, index as int);
        }
        let mut v = self.take_inner();
        let taken = v.remove(index);
        let moved = Stake { owner: taken.owner, amount };
        let n = v.len();
        let mut p: usize = 0;
        while p < n
            invariant
                n == v@.len(),
                index < s.len(),
                v@ == s.remove(index as int),
                p <= n,
                forall|j: int| 0 <= j < p ==> !goes_before(v@, amount, index as int, j),
            ensures
                p <= n,
                forall|j: int| 0 <= j < p ==> !goes_before(v@, amount, index as int, j),
                p < n ==> goes_before(v@, amount, index as int, p as int),
            decreases n - p,
        {
            if v[p].amount < amount || (v[p].amount == amount && p >= index) {
                break;
            }
            p = p + 1;
        }
        proof {
            assert(is_place(v@, amount, index as int, p as int));
            lemma_place_unique(v@, amount, index as int, p as int);
            lemma_insert_at_place(v@, moved, index as int, p as int);
        }
        v.insert(p, moved);
        self.inner = v;
    }

    /// Moves the stakes out, leaving the set empty for the moment.
    fn take_inner(&mut self) -> (v: Vec<Stake>)
        ensures
            v@ == old(self)@,
            final(self)@ == Seq::<Stake>::empty(),
    {
        let mut v = Vec::new();
        std::mem::swap(&mut v, &mut self.inner);
        v
    }

    /// Searches the set, from the front, for the stake of `value.owner`.
    ///
    /// Returns `Ok` with its position where there is one, else `Err` with
    /// the position where `value` would be inserted: in front of the first
    /// stake with a smaller amount.
    pub fn linear_search(&self, value: &Stake) -> (r: Result<usize, usize>)
        ensures
            match r {
                Ok(i) => found_at(self@, value.owner, i),
                Err(p) => missing_at(self@, *value, p),
            },
    {
        let size = self.inner.len();
        let mut loc = size;
        let mut i: usize = 0;
        while i < size
            invariant
                size == self@.len(),
                i <= size,
                loc <= size,
                forall|j: int| 0 <= j < i ==> self@[j].owner != value.owner,
                loc == size ==> forall|j: int| 0 <= j < i ==> self@[j].amount >= value.amount,
                loc < size ==> {
                    &&& loc < i
                    &&& amount_at(self@, loc) < value.amount
                    &&& forall|j: int| 0 <= j < loc ==> self@[j].amount >= value.amount
                },
            decreases size - i,
        {
            match self.inner[i].cmp(value) {
                Ordering::Equal => {
                    return Ok(i);
                },
                Ordering::Less => {
                    if loc == size {
                        loc = i;
                    }
                },
                Ordering::Greater => {},
            }
            i = i + 1;
        }
        Err(loc)
    }
}

} // verus!
