use vstd::prelude::*;
use vstd::multiset::Multiset;
use crate::orders::{BuyOrder, SellOrder, copy_buys, copy_sells};

verus! {

/// An order record that can be compared field by field.
pub(crate) trait BookEntry: Copy {
    fn same_as(&self, other: &Self) -> (r: bool)
        ensures
            r == (*self == *other),
    ;
}

impl BookEntry for BuyOrder {
    fn same_as(&self, other: &Self) -> (r: bool) {
        self.size == other.size && self.price == other.price && self.timestamp == other.timestamp
    }
}

impl BookEntry for SellOrder {
    fn same_as(&self, other: &Self) -> (r: bool) {
        self.size == other.size && self.price == other.price && self.timestamp == other.timestamp
    }
}

/// The entries of `a` that do not occur in `b`, in their order in `a`.
pub open spec fn missing_from<T>(a: Seq<T>, b: Seq<T>) -> Seq<T> {
    a.filter(|x: T| !b.contains(x))
}

/// What changed on one side of the book between two snapshots: the entries
/// that appeared (`add`) and those that went away (`delete`).
pub struct BookChanges<T> {
    pub add: Vec<T>,
    pub delete: Vec<T>,
}

impl<T> BookChanges<T> {
    /// Nothing appeared and nothing went away.
    pub fn is_empty(&self) -> (r: bool)
        ensures
            r == (self.add@.len() == 0 && self.delete@.len() == 0),
    {
        self.add.len() == 0 && self.delete.len() == 0
    }
}

fn contains_entry<T: BookEntry>(v: &Vec<T>, x: &T) -> (r: bool)
    ensures
        r == v@.contains(*x),
{
    let n = v.len();
    for i in 0..n
        invariant
            n == v@.len(),
            forall|k: int| 0 <= k < i ==> v@[k] != *x,
    {
        if v[i].same_as(x) {
            return true;
        }
    }
    false
}

fn entries_missing_from<T: BookEntry>(a: &Vec<T>, b: &Vec<T>) -> (r: Vec<T>)
    ensures
        r@ == missing_from(a@, b@),
{
    let ghost pred = |x: T| !b@.contains(x);
    let mut r: Vec<T> = Vec::new();
    let n = a.len();
    for i in 0..n
        invariant
            n == a@.len(),
            pred == (|x: T| !b@.contains(x)),
            r@ == a@.take(i as int).filter(pred),
    {
        let x = a[i];
        proof {
            assert(a@.take(i + 1) =~= a@.take(i as int).push(x));
            a@.take(i as int).lemma_filter_push(x, pred);
        }
        let present = contains_entry(b, &x);
        assert(pred(x) == !present);
        if !present {
            r.push(x);
        }
    }
    proof {
        assert(a@.take(n as int) =~= a@);
    }
    r
}

/// The changes between the `old` and `new` snapshots of the book, buy side
/// first: on each side, the entries of `new` missing from `old` are added,
/// and the entries of `old` missing from `new` are deleted.
pub fn compare_old_new(
    old: &(Vec<BuyOrder>, Vec<SellOrder>),
    new: &(Vec<BuyOrder>, Vec<SellOrder>),
) -> (r: (BookChanges<BuyOrder>, BookChanges<SellOrder>))
    ensures
        r.0.add@ == missing_from(new.0@, old.0@),
        r.0.delete@ == missing_from(old.0@, new.0@),
        r.1.add@ == missing_from(new.1@, old.1@),
        r.1.delete@ == missing_from(old.1@, new.1@),
{
    let add_buy = entries_missing_from(&new.0, &old.0);
    let delete_buy = entries_missing_from(&old.0, &new.0);
    let add_sell = entries_missing_from(&new.1, &old.1);
    let delete_sell = entries_missing_from(&old.1, &new.1);
    (BookChanges { add: add_buy, delete: delete_buy }, BookChanges { add: add_sell, delete: delete_sell })
}

/// One refresh of a client that last saw `buffered`, given the book's
/// current snapshot: where something appeared or went away, the changes are
/// returned for sending and `buffered` becomes a copy of `current`;
/// otherwise nothing is sent and `buffered` stays as it was.
pub fn update_client(
    buffered: &mut (Vec<BuyOrder>, Vec<SellOrder>),
    current: &(Vec<BuyOrder>, Vec<SellOrder>),
) -> (r: Option<(BookChanges<BuyOrder>, BookChanges<SellOrder>)>)
    ensures
        ({
            let changed = missing_from(current.0@, old(buffered).0@).len() > 0
                || missing_from(old(buffered).0@, current.0@).len() > 0
                || missing_from(current.1@, old(buffered).1@).len() > 0
                || missing_from(old(buffered).1@, current.1@).len() > 0;
            if changed {
                &&& r matches Some((buys, sells))
                &&& buys.add@ == missing_from(current.0@, old(buffered).0@)
                &&& buys.delete@ == missing_from(old(buffered).0@, current.0@)
                &&& sells.add@ == missing_from(current.1@, old(buffered).1@)
                &&& sells.delete@ == missing_from(old(buffered).1@, current.1@)
                &&& final(buffered).0@ == current.0@
                &&& final(buffered).1@ == current.1@
            } else {
                &&& r is None
                &&& final(buffered).0@ == old(buffered).0@
                &&& final(buffered).1@ == old(buffered).1@
            }
        }),
{
    let reset = compare_old_new(buffered, current);
    if !(reset.0.is_empty() && reset.1.is_empty()) {
        *buffered = (copy_buys(&current.0), copy_sells(&current.1));
        Some(reset)
    } else {
        None
    }
}

/// A snapshot compared with itself shows no change: nothing is missing from it.
pub proof fn lemma_missing_from_itself<T>(a: Seq<T>)
    ensures
        missing_from(a, a).len() == 0,
{
    let pred = |x: T| !a.contains(x);
    if a.filter(pred).len() > 0 {
        let x = a.filter(pred)[0];
        a.lemma_filter_pred(pred, 0);
        assert(a.filter(pred).contains(x));
        a.lemma_filter_contains_rev(pred, x);
    }
}

/// The diff keeps every entry of `a` that `b` lacks, as many times as `a`
/// holds it, and nothing else.
pub proof fn lemma_missing_from_counts<T>(a: Seq<T>, b: Seq<T>, x: T)
    ensures
        missing_from(a, b).to_multiset().count(x) == if b.contains(x) {
            0
        } else {
            a.to_multiset().count(x)
        },
        missing_from(a, b).contains(x) <==> a.contains(x) && !b.contains(x),
        missing_from(a, b).len() <= a.len(),
    decreases a.len(),
{
    broadcast use {vstd::seq_lib::group_to_multiset_ensures, vstd::multiset::group_multiset_axioms};

    let pred = |y: T| !b.contains(y);
    if a.len() == 0 {
        assert(a.filter(pred) =~= Seq::<T>::empty());
        assert(a.to_multiset() =~= Multiset::<T>::empty());
        assert(missing_from(a, b).to_multiset() =~= Multiset::<T>::empty());
    } else {
        let d = a.drop_last();
        let l = a.last();
        lemma_missing_from_counts(d, b, x);
        assert(d.push(l) =~= a);
        d.lemma_filter_push(l, pred);
        assert(missing_from(d, b) == d.filter(pred));
        assert(a.to_multiset() == d.to_multiset().insert(l));
        if pred(l) {
            assert(missing_from(a, b) == d.filter(pred).push(l));
            assert(missing_from(a, b).to_multiset() == d.filter(pred).to_multiset().insert(l));
        } else {
            assert(missing_from(a, b) == d.filter(pred));
        }
    }
    assert(missing_from(a, b).to_multiset().len() == missing_from(a, b).len());
    assert(missing_from(a, b).contains(x) <==> missing_from(a, b).to_multiset().count(x) > 0);
    assert(a.contains(x) <==> a.to_multiset().count(x) > 0);
}

} // verus!
