//! Stable sorting of records by an integer key (creation time for boards,
//! position for columns and cards).
use vstd::prelude::*;

use crate::models::{Board, Card, Column};

verus! {

broadcast use vstd::seq_lib::group_to_multiset_ensures;

/// A record that is listed in the order of an integer key.
pub trait OrderedRecord: View + Sized {
    spec fn order_key(v: Self::V) -> int;

    fn key_value(&self) -> (r: i128)
        ensures
            r == Self::order_key(self@),
    ;

    fn copy_record(&self) -> (r: Self)
        ensures
            r@ == self@,
    ;
}

impl OrderedRecord for Board {
    open spec fn order_key(v: Self::V) -> int {
        v.created_at as int
    }

    fn key_value(&self) -> (r: i128) {
        self.created_at
    }

    fn copy_record(&self) -> (r: Self) {
        self.clone()
    }
}

impl OrderedRecord for Column {
    open spec fn order_key(v: Self::V) -> int {
        v.position as int
    }

    fn key_value(&self) -> (r: i128) {
        self.position as i128
    }

    fn copy_record(&self) -> (r: Self) {
        self.clone()
    }
}

impl OrderedRecord for Card {
    open spec fn order_key(v: Self::V) -> int {
        v.position as int
    }

    fn key_value(&self) -> (r: i128) {
        self.position as i128
    }

    fn copy_record(&self) -> (r: Self) {
        self.clone()
    }
}

pub open spec fn views_of<T: View>(s: Seq<T>) -> Seq<T::V> {
    s.map_values(|x: T| x@)
}

/// The records are in non-decreasing key order.
pub open spec fn sorted_by_key<T: OrderedRecord>(s: Seq<T::V>) -> bool {
    forall|i: int, j: int|
        0 <= i < j < s.len() ==> T::order_key(#[trigger] s[i]) <= T::order_key(#[trigger] s[j])
}

/// Copies of the records of `v`, stably sorted by key.
pub fn sorted_copy<T: OrderedRecord>(v: &Vec<T>) -> (r: Vec<T>)
    ensures
        views_of(r@).to_multiset() == views_of(v@).to_multiset(),
        sorted_by_key::<T>(views_of(r@)),
{
    let mut r: Vec<T> = Vec::new();
    let mut i: usize = 0;
    while i < v.len()
        invariant
            i <= v.len(),
            views_of(r@).to_multiset() == views_of(v@).take(i as int).to_multiset(),
            sorted_by_key::<T>(views_of(r@)),
        decreases v.len() - i,
    {
        let x = v[i].copy_record();
        let kx = x.key_value();
        let mut k: usize = 0;
        while k < r.len() && r[k].key_value() <= kx
            invariant
                k <= r.len(),
                forall|j: int| 0 <= j < k ==> T::order_key(#[trigger] r@[j]@) <= kx,
            decreases r.len() - k,
        {
            k = k + 1;
        }
        let ghost old_r = r@;
        r.insert(k, x);
        proof {
            assert(views_of(r@) =~= views_of(old_r).insert(k as int, x@));
            assert(views_of(v@).take(i + 1) =~= views_of(v@).take(i as int).push(v@[i as int]@));
            assert forall|a: int, b: int| 0 <= a < b < views_of(r@).len() implies T::order_key(
                #[trigger] views_of(r@)[a],
            ) <= T::order_key(#[trigger] views_of(r@)[b]) by {
                if b < k {
                    assert(views_of(r@)[a] == views_of(old_r)[a]);
                    assert(views_of(r@)[b] == views_of(old_r)[b]);
                } else if b == k {
                    assert(views_of(r@)[a] == old_r[a]@);
                } else if a == k {
                    assert(views_of(r@)[b] == old_r[b - 1]@);
                    if k < old_r.len() {
                        assert(T::order_key(old_r[k as int]@) > kx);
                        if b - 1 > k {
                            assert(views_of(old_r)[k as int] == old_r[k as int]@);
                            assert(views_of(old_r)[b - 1] == old_r[b - 1]@);
                        }
                    }
                } else if a < k {
                    assert(views_of(r@)[a] == old_r[a]@);
                    assert(views_of(r@)[b] == old_r[b - 1]@);
                    assert(views_of(old_r)[a] == old_r[a]@);
                    assert(views_of(old_r)[b - 1] == old_r[b - 1]@);
                } else {
                    assert(views_of(r@)[a] == old_r[a - 1]@);
                    assert(views_of(r@)[b] == old_r[b - 1]@);
                    assert(views_of(old_r)[a - 1] == old_r[a - 1]@);
                    assert(views_of(old_r)[b - 1] == old_r[b - 1]@);
                }
            }
        }
        i = i + 1;
    }
    assert(views_of(v@).take(v@.len() as int) =~= views_of(v@));
    r
}

} // verus!
