use vstd::prelude::*;
use vstd::multiset::Multiset;
use std::collections::HashMap;
use crate::orders::{BuyOrder, SellOrder, sell_lt, sells_sorted};
use crate::ranked::{insert_sell, lemma_insert_sell, place_sell};
use crate::diff::BookEntry;

verus! {

broadcast use vstd::std_specs::hash::group_hash_axioms;

/// `s` sorted by sell rank, ascending, with orders of equal rank in their
/// order in `s` (a stable sort).
pub open spec fn sorted_sells(s: Seq<SellOrder>) -> Seq<SellOrder>
    decreases s.len(),
{
    if s.len() == 0 {
        Seq::empty()
    } else {
        insert_sell(sorted_sells(s.drop_first()), s.first())
    }
}

/// `i` is the first index at which `a` and `b` differ, within the shorter of the two.
pub open spec fn is_first_mismatch<T>(a: Seq<T>, b: Seq<T>, i: int) -> bool {
    &&& 0 <= i < a.len()
    &&& i < b.len()
    &&& a[i] != b[i]
    &&& forall|k: int| 0 <= k < i ==> a[k] == b[k]
}

/// The first index at which `a` and `b` differ, or `-1` where they agree on
/// the shorter length.
pub open spec fn first_mismatch<T>(a: Seq<T>, b: Seq<T>) -> int {
    if exists|i: int| is_first_mismatch(a, b, i) {
        choose|i: int| is_first_mismatch(a, b, i)
    } else {
        -1
    }
}

/// Index `k` mapped to `s[k]`, for `lo <= k < hi`.
pub open spec fn index_map<T>(s: Seq<T>, lo: int, hi: int) -> Map<usize, T> {
    Map::new(|k: usize| lo <= k < hi, |k: usize| s[k as int])
}

/// Index `k` mapped to `v`, for `lo <= k < hi`.
pub open spec fn fill_map<T>(lo: int, hi: int, v: T) -> Map<usize, T> {
    Map::new(|k: usize| lo <= k < hi, |k: usize| v)
}

/// An order of size, price and timestamp zero: a slot to be cleared.
pub open spec fn empty_buy() -> BuyOrder {
    BuyOrder { size: 0, price: 0, timestamp: 0 }
}

/// An order of size, price and timestamp zero: a slot to be cleared.
pub open spec fn empty_sell() -> SellOrder {
    SellOrder { size: 0, price: 0, timestamp: 0 }
}

/// The slots of the buy side to refresh, going from `o` to `n`: from the first
/// index at which they differ (or from the end of `o`) to the end of `n`, and
/// the slots past the end of `n`, cleared; `None` where they are equal.
pub open spec fn changed_buys(o: Seq<BuyOrder>, n: Seq<BuyOrder>) -> Option<Map<usize, BuyOrder>> {
    let m = first_mismatch(o, n);
    if n.len() > o.len() {
        Some(index_map(n, if m == -1 { o.len() as int } else { m }, n.len() as int))
    } else if n.len() == o.len() {
        if m == -1 {
            None
        } else {
            Some(index_map(n, m, n.len() as int))
        }
    } else if m == -1 {
        Some(fill_map(n.len() as int, o.len() as int, empty_buy()))
    } else {
        Some(
            index_map(n, m, n.len() as int).union_prefer_right(
                fill_map(n.len() as int, o.len() as int, empty_buy()),
            ),
        )
    }
}

/// The slots of the sell side to refresh, going from `o` to `n`, both taken in
/// rank order: from the first index at which they differ (or from the end of
/// `o`) to the end of `n`, and the slots past the end of `n`, cleared; `None`
/// where they are equal.
pub open spec fn changed_sells(o: Seq<SellOrder>, n: Seq<SellOrder>) -> Option<Map<usize, SellOrder>> {
    let so = sorted_sells(o);
    let sn = sorted_sells(n);
    let m = first_mismatch(so, sn);
    if n.len() > o.len() {
        Some(index_map(sn, if m == -1 { o.len() as int } else { m }, n.len() as int))
    } else if n.len() == o.len() {
        if m == -1 {
            None
        } else {
            Some(index_map(sn, m, n.len() as int))
        }
    } else if m == -1 {
        Some(fill_map(n.len() as int, o.len() as int, empty_sell()))
    } else {
        Some(
            index_map(sn, m, n.len() as int).union_prefer_right(
                fill_map(n.len() as int, o.len() as int, empty_sell()),
            ),
        )
    }
}

/// Sorts sell orders by rank, stably.
pub fn sort_sells(v: &Vec<SellOrder>) -> (r: Vec<SellOrder>)
    ensures
        r@ == sorted_sells(v@),
{
    let mut r: Vec<SellOrder> = Vec::new();
    let mut i: usize = v.len();
    proof {
        assert(v@.skip(i as int) =~= Seq::<SellOrder>::empty());
    }
    while i > 0
        invariant
            i <= v@.len(),
            r@ == sorted_sells(v@.skip(i as int)),
        decreases i,
    {
        i = i - 1;
        proof {
            assert(v@.skip(i as int).drop_first() =~= v@.skip(i + 1));
            assert(v@.skip(i as int).first() == v@[i as int]);
        }
        place_sell(&mut r, v[i]);
    }
    proof {
        assert(v@.skip(0) =~= v@);
    }
    r
}

fn first_mismatch_of<T: BookEntry>(a: &Vec<T>, b: &Vec<T>) -> (m: Option<usize>)
    ensures
        match m {
            Some(i) => is_first_mismatch(a@, b@, i as int) && first_mismatch(a@, b@) == i,
            None => first_mismatch(a@, b@) == -1,
        },
{
    let stop = if a.len() < b.len() { a.len() } else { b.len() };
    for i in 0..stop
        invariant
            stop <= a@.len(),
            stop <= b@.len(),
            stop == a@.len() || stop == b@.len(),
            forall|k: int| 0 <= k < i ==> a@[k] == b@[k],
    {
        if !a[i].same_as(&b[i]) {
            proof {
                assert(is_first_mismatch(a@, b@, i as int));
                let c = choose|j: int| is_first_mismatch(a@, b@, j);
                assert(c == i);
            }
            return Some(i);
        }
    }
    proof {
        assert(!exists|j: int| is_first_mismatch(a@, b@, j));
    }
    None
}

fn index_entries<T: Copy>(s: &Vec<T>, lo: usize, hi: usize) -> (m: HashMap<usize, T>)
    requires
        lo <= hi <= s@.len(),
    ensures
        m@ == index_map(s@, lo as int, hi as int),
{
    let mut m: HashMap<usize, T> = HashMap::new();
    for k in lo..hi
        invariant
            hi <= s@.len(),
            m@ == index_map(s@, lo as int, k as int),
    {
        m.insert(k, s[k]);
        proof {
            assert(m@ =~= index_map(s@, lo as int, k + 1));
        }
    }
    proof {
        assert(m@ =~= index_map(s@, lo as int, hi as int));
    }
    m
}

fn fill_entries<T: Copy>(m: &mut HashMap<usize, T>, lo: usize, hi: usize, v: T)
    requires
        lo <= hi,
    ensures
        final(m)@ == old(m)@.union_prefer_right(fill_map(lo as int, hi as int, v)),
{
    let ghost start = m@;
    for k in lo..hi
        invariant
            m@ == start.union_prefer_right(fill_map(lo as int, k as int, v)),
    {
        m.insert(k, v);
        proof {
            assert(m@ =~= start.union_prefer_right(fill_map(lo as int, k + 1, v)));
        }
    }
    proof {
        assert(m@ =~= start.union_prefer_right(fill_map(lo as int, hi as int, v)));
    }
}

/// Which slots of each side of the book to refresh, going from the `old`
/// snapshot to the `new` one, buy side first (see `changed_buys` and
/// `changed_sells`; the sell sides are compared in rank order).
pub fn compare_things(
    old: &(Vec<BuyOrder>, Vec<SellOrder>),
    new: &(Vec<BuyOrder>, Vec<SellOrder>),
) -> (r: (Option<HashMap<usize, BuyOrder>>, Option<HashMap<usize, SellOrder>>))
    ensures
        match r.0 {
            Some(h) => changed_buys(old.0@, new.0@) == Some(h@),
            None => changed_buys(old.0@, new.0@) is None,
        },
        match r.1 {
            Some(h) => changed_sells(old.1@, new.1@) == Some(h@),
            None => changed_sells(old.1@, new.1@) is None,
        },
{
    // Buy side, compared as it stands.
    let newb = &new.0;
    let oldb = &old.0;
    let newlen = newb.len();
    let oldlen = oldb.len();
    let frombuy = first_mismatch_of(oldb, newb);
    let changed_buys = if newlen > oldlen {
        match frombuy {
            None => Some(index_entries(newb, oldlen, newlen)),
            Some(from) => Some(index_entries(newb, from, newlen)),
        }
    } else if newlen == oldlen {
        match frombuy {
            None => None,
            Some(from) => Some(index_entries(newb, from, newlen)),
        }
    } else {
        match frombuy {
            None => {
                let mut a: HashMap<usize, BuyOrder> = HashMap::new();
                fill_entries(&mut a, newlen, oldlen, BuyOrder { size: 0, price: 0, timestamp: 0 });
                proof {
                    assert(a@ =~= fill_map(newlen as int, oldlen as int, empty_buy()));
                }
                Some(a)
            },
            Some(from) => {
                let mut a = index_entries(newb, from, newlen);
                fill_entries(&mut a, newlen, oldlen, BuyOrder { size: 0, price: 0, timestamp: 0 });
                Some(a)
            },
        }
    };

    // Sell side, compared in rank order.
    let news = sort_sells(&new.1);
    let olds = sort_sells(&old.1);
    proof {
        lemma_sorted_sells(new.1@);
        lemma_sorted_sells(old.1@);
    }
    let newlen = news.len();
    let oldlen = olds.len();
    let fromsell = first_mismatch_of(&olds, &news);
    let changed_sells = if newlen > oldlen {
        match fromsell {
            None => Some(index_entries(&news, oldlen, newlen)),
            Some(from) => Some(index_entries(&news, from, newlen)),
        }
    } else if newlen == oldlen {
        match fromsell {
            None => None,
            Some(from) => Some(index_entries(&news, from, newlen)),
        }
    } else {
        match fromsell {
            None => {
                let mut a: HashMap<usize, SellOrder> = HashMap::new();
                fill_entries(&mut a, newlen, oldlen, SellOrder { size: 0, price: 0, timestamp: 0 });
                proof {
                    assert(a@ =~= fill_map(newlen as int, oldlen as int, empty_sell()));
                }
                Some(a)
            },
            Some(from) => {
                let mut a = index_entries(&news, from, newlen);
                fill_entries(&mut a, newlen, oldlen, SellOrder { size: 0, price: 0, timestamp: 0 });
                Some(a)
            },
        }
    };

    (changed_buys, changed_sells)
}

/// Sorting sell orders yields them in rank order, and the same orders.
pub proof fn lemma_sorted_sells(s: Seq<SellOrder>)
    ensures
        sells_sorted(sorted_sells(s)),
        sorted_sells(s).to_multiset() == s.to_multiset(),
        sorted_sells(s).len() == s.len(),
    decreases s.len(),
{
    broadcast use vstd::seq_lib::group_to_multiset_ensures;

    if s.len() > 0 {
        lemma_sorted_sells(s.drop_first());
        lemma_insert_sell(sorted_sells(s.drop_first()), s.first());
        assert(s =~= seq![s.first()] + s.drop_first());
        vstd::seq_lib::lemma_multiset_commutative(seq![s.first()], s.drop_first());
        assert(seq![s.first()] =~= Seq::<SellOrder>::empty().push(s.first()));
        assert(Seq::<SellOrder>::empty().to_multiset() =~= Multiset::empty());
    } else {
        assert(s.to_multiset() =~= Multiset::empty());
    }
}

/// Comparing a snapshot with itself finds nothing to refresh on either side.
pub proof fn lemma_compare_same_snapshot(buys: Seq<BuyOrder>, sells: Seq<SellOrder>)
    ensures
        changed_buys(buys, buys) is None,
        changed_sells(sells, sells) is None,
{
    assert(!exists|i: int| is_first_mismatch(buys, buys, i));
    let s = sorted_sells(sells);
    assert(!exists|i: int| is_first_mismatch(s, s, i));
}

/// Sequences that differ somewhere within their shorter length have a first
/// mismatch, and it comes no later than that index.
proof fn lemma_first_mismatch_found<T>(a: Seq<T>, b: Seq<T>, j: int)
    requires
        0 <= j < a.len(),
        j < b.len(),
        a[j] != b[j],
    ensures
        is_first_mismatch(a, b, first_mismatch(a, b)),
        first_mismatch(a, b) <= j,
    decreases j,
{
    if forall|k: int| 0 <= k < j ==> a[k] == b[k] {
        assert(is_first_mismatch(a, b, j));
        let c = choose|i: int| is_first_mismatch(a, b, i);
        assert(c == j);
    } else {
        let k = choose|k: int| 0 <= k < j && a[k] != b[k];
        lemma_first_mismatch_found(a, b, k);
    }
}

/// Where there is no first mismatch, the sequences agree on their shorter length.
proof fn lemma_first_mismatch_none<T>(a: Seq<T>, b: Seq<T>)
    ensures
        first_mismatch(a, b) == -1 ==> forall|k: int| 0 <= k < a.len() && k < b.len() ==> a[k] == b[k],
        first_mismatch(a, b) != -1 ==> is_first_mismatch(a, b, first_mismatch(a, b)),
{
    if first_mismatch(a, b) == -1 {
        assert forall|k: int| 0 <= k < a.len() && k < b.len() implies a[k] == b[k] by {
            if a[k] != b[k] {
                lemma_first_mismatch_found(a, b, k);
            }
        }
    }
}

/// Applying the buy-side refresh to the old side gives the new one: slots in
/// the map take their mapped order, the others keep the old one; `None`
/// means nothing changed; the slots past the end of the new side are exactly
/// those up to the old side's end, each cleared.
pub proof fn lemma_changed_buys_round_trip(o: Seq<BuyOrder>, n: Seq<BuyOrder>)
    ensures
        changed_buys(o, n) is None ==> o == n,
        changed_buys(o, n) matches Some(m) ==> {
            &&& forall|k: usize|
                k < n.len() ==> n[k as int] == (if #[trigger] m.contains_key(k) {
                    m[k]
                } else {
                    o[k as int]
                })
            &&& forall|k: usize| k >= n.len() ==> (#[trigger] m.contains_key(k) <==> k < o.len())
            &&& forall|k: usize| n.len() <= k < o.len() ==> #[trigger] m[k] == empty_buy()
        },
{
    lemma_first_mismatch_none(o, n);
    if changed_buys(o, n) is None {
        assert(o =~= n);
    }
}

/// Applying the sell-side refresh to the old side in rank order gives the new
/// side in rank order: slots in the map take their mapped order, the others
/// keep the old one; `None` means the two are equal in rank order; the slots
/// past the end of the new side are exactly those up to the old side's end,
/// each cleared.
pub proof fn lemma_changed_sells_round_trip(o: Seq<SellOrder>, n: Seq<SellOrder>)
    ensures
        changed_sells(o, n) is None ==> sorted_sells(o) == sorted_sells(n),
        changed_sells(o, n) matches Some(m) ==> {
            &&& forall|k: usize|
                k < n.len() ==> sorted_sells(n)[k as int] == (if #[trigger] m.contains_key(k) {
                    m[k]
                } else {
                    sorted_sells(o)[k as int]
                })
            &&& forall|k: usize| k >= n.len() ==> (#[trigger] m.contains_key(k) <==> k < o.len())
            &&& forall|k: usize| n.len() <= k < o.len() ==> #[trigger] m[k] == empty_sell()
        },
{
    lemma_sorted_sells(o);
    lemma_sorted_sells(n);
    lemma_first_mismatch_none(sorted_sells(o), sorted_sells(n));
    if changed_sells(o, n) is None {
        assert(sorted_sells(o) =~= sorted_sells(n));
    }
}

/// No two orders of `s` share both price and timestamp.
pub open spec fn sell_keys_unique(s: Seq<SellOrder>) -> bool {
    forall|i: int, j: int|
        0 <= i < j < s.len() ==> (#[trigger] s[i]).price != (#[trigger] s[j]).price || s[i].timestamp
            != s[j].timestamp
}

/// An order found at two positions of `s` occurs at least twice in it.
proof fn lemma_two_positions_count(s: Seq<SellOrder>, i: int, j: int)
    requires
        0 <= i < s.len(),
        0 <= j < s.len(),
        i != j,
        s[i] == s[j],
    ensures
        s.to_multiset().count(s[i]) >= 2,
{
    broadcast use {vstd::seq_lib::group_to_multiset_ensures, vstd::multiset::group_multiset_axioms};

    let r = s.remove(j);
    let k = if i < j { i } else { i - 1 };
    assert(r[k] == s[i]);
    assert(r.contains(s[i]));
    assert(r.to_multiset().count(s[i]) > 0);
    assert(r.to_multiset() == s.to_multiset().remove(s[j]));
    assert(s.to_multiset().remove(s[j]).count(s[i]) > 0);
}

/// An order that occurs at least twice in `s` stands at two positions of it.
proof fn lemma_count_two_positions(s: Seq<SellOrder>, x: SellOrder) -> (pq: (int, int))
    requires
        s.to_multiset().count(x) >= 2,
    ensures
        0 <= pq.0 < s.len(),
        0 <= pq.1 < s.len(),
        pq.0 != pq.1,
        s[pq.0] == x,
        s[pq.1] == x,
{
    broadcast use {vstd::seq_lib::group_to_multiset_ensures, vstd::multiset::group_multiset_axioms};

    assert(s.contains(x));
    let p = choose|p: int| 0 <= p < s.len() && s[p] == x;
    let r = s.remove(p);
    assert(r.to_multiset() == s.to_multiset().remove(s[p]));
    assert(r.to_multiset().count(x) > 0);
    assert(r.contains(x));
    let q0 = choose|q: int| 0 <= q < r.len() && r[q] == x;
    let q = if q0 < p { q0 } else { q0 + 1 };
    assert(s[q] == r[q0]);
    (p, q)
}

/// Unique keys carry over to any sequence with the same orders.
proof fn lemma_sell_keys_unique_transfers(a: Seq<SellOrder>, b: Seq<SellOrder>)
    requires
        sell_keys_unique(a),
        a.to_multiset() == b.to_multiset(),
    ensures
        sell_keys_unique(b),
{
    broadcast use vstd::seq_lib::group_to_multiset_ensures;

    assert forall|i: int, j: int| 0 <= i < j < b.len() implies (#[trigger] b[i]).price != (
    #[trigger] b[j]).price || b[i].timestamp != b[j].timestamp by {
        if b[i].price == b[j].price && b[i].timestamp == b[j].timestamp {
            if b[i] == b[j] {
                lemma_two_positions_count(b, i, j);
                let (p, q) = lemma_count_two_positions(a, b[i]);
                if p < q {
                    assert(a[p].price != a[q].price || a[p].timestamp != a[q].timestamp);
                } else {
                    assert(a[q].price != a[p].price || a[q].timestamp != a[p].timestamp);
                }
            } else {
                assert(b.contains(b[i]));
                assert(b.contains(b[j]));
                assert(b.to_multiset().count(b[i]) > 0);
                assert(b.to_multiset().count(b[j]) > 0);
                assert(a.to_multiset().count(b[i]) > 0);
                assert(a.to_multiset().count(b[j]) > 0);
                assert(a.contains(b[i]));
                assert(a.contains(b[j]));
                let p = choose|p: int| 0 <= p < a.len() && a[p] == b[i];
                let q = choose|q: int| 0 <= q < a.len() && a[q] == b[j];
                if p < q {
                    assert(a[p].price != a[q].price || a[p].timestamp != a[q].timestamp);
                } else {
                    assert(a[q].price != a[p].price || a[q].timestamp != a[p].timestamp);
                }
            }
        }
    }
}

/// Two sequences in rank order that hold the same orders, no two of which
/// share price and timestamp, are the same sequence.
proof fn lemma_sorted_unique_equal(s: Seq<SellOrder>, t: Seq<SellOrder>)
    requires
        sells_sorted(s),
        sells_sorted(t),
        sell_keys_unique(s),
        s.to_multiset() == t.to_multiset(),
    ensures
        s == t,
    decreases s.len(),
{
    broadcast use vstd::seq_lib::group_to_multiset_ensures;

    lemma_sell_keys_unique_transfers(s, t);
    assert(s.to_multiset().len() == s.len());
    assert(t.to_multiset().len() == t.len());
    if s.len() == 0 {
        assert(t.len() == 0);
        assert(s =~= t);
    } else {
        let x = s.last();
        let y = t.last();
        assert(s[s.len() - 1] == x);
        assert(t[t.len() - 1] == y);
        assert(s.contains(x));
        assert(s.to_multiset().count(x) > 0);
        assert(t.to_multiset().count(x) > 0);
        assert(t.contains(x));
        assert(t.contains(y));
        assert(t.to_multiset().count(y) > 0);
        assert(s.to_multiset().count(y) > 0);
        assert(s.contains(y));
        if x != y {
            let p = choose|p: int| 0 <= p < t.len() && t[p] == x;
            let q = choose|q: int| 0 <= q < s.len() && s[q] == y;
            assert(p < t.len() - 1);
            assert(q < s.len() - 1);
            assert(!sell_lt(t[t.len() - 1], t[p]));
            assert(!sell_lt(s[s.len() - 1], s[q]));
            assert(t[p].price != t[t.len() - 1].price || t[p].timestamp != t[t.len() - 1].timestamp);
            assert(false);
        }
        let sd = s.drop_last();
        let td = t.drop_last();
        assert(s.remove(s.len() - 1) =~= sd);
        assert(t.remove(t.len() - 1) =~= td);
        assert(sd.to_multiset() == s.to_multiset().remove(x));
        assert(td.to_multiset() == t.to_multiset().remove(y));
        assert(sells_sorted(sd));
        assert(sells_sorted(td));
        assert(sell_keys_unique(sd));
        lemma_sorted_unique_equal(sd, td);
        assert(s =~= sd.push(x));
        assert(t =~= td.push(y));
    }
}

/// Where no two sell orders on either side share price and timestamp, the
/// sell-side refresh does not depend on the order in which either side lists
/// its orders.
pub proof fn lemma_changed_sells_permutation(
    o: Seq<SellOrder>,
    n: Seq<SellOrder>,
    o2: Seq<SellOrder>,
    n2: Seq<SellOrder>,
)
    requires
        sell_keys_unique(o),
        sell_keys_unique(n),
        o2.to_multiset() == o.to_multiset(),
        n2.to_multiset() == n.to_multiset(),
    ensures
        changed_sells(o2, n2) == changed_sells(o, n),
{
    broadcast use vstd::seq_lib::group_to_multiset_ensures;

    lemma_sorted_sells(o);
    lemma_sorted_sells(n);
    lemma_sorted_sells(o2);
    lemma_sorted_sells(n2);
    lemma_sell_keys_unique_transfers(o, sorted_sells(o));
    lemma_sell_keys_unique_transfers(n, sorted_sells(n));
    lemma_sorted_unique_equal(sorted_sells(o), sorted_sells(o2));
    lemma_sorted_unique_equal(sorted_sells(n), sorted_sells(n2));
    assert(o2.to_multiset().len() == o2.len());
    assert(o.to_multiset().len() == o.len());
    assert(n2.to_multiset().len() == n2.len());
    assert(n.to_multiset().len() == n.len());
}

/// The buy-side refresh sends exactly the slots that changed: a slot below the
/// new side's length is in the map just when it lies past the old side's end
/// or at or after some index where the two sides differ.
pub proof fn lemma_changed_buys_only_changed_slots(o: Seq<BuyOrder>, n: Seq<BuyOrder>)
    ensures
        changed_buys(o, n) matches Some(m) ==> forall|k: usize|
            k < n.len() ==> (#[trigger] m.contains_key(k) <==> (k >= o.len() || exists|j: int|
                0 <= j <= k && j < o.len() && o[j] != n[j])),
{
    lemma_first_mismatch_none(o, n);
    let fm = first_mismatch(o, n);
    if let Some(m) = changed_buys(o, n) {
        assert forall|k: usize| k < n.len() implies (#[trigger] m.contains_key(k) <==> (k >= o.len()
            || exists|j: int| 0 <= j <= k && j < o.len() && o[j] != n[j])) by {
            if fm != -1 {
                if fm <= k {
                    assert(o[fm] != n[fm]);
                }
            }
        }
    }
}

/// The sell-side refresh sends exactly the slots that changed in rank order:
/// a slot below the new side's length is in the map just when it lies past
/// the old side's end or at or after some index where the two sides, each in
/// rank order, differ.
pub proof fn lemma_changed_sells_only_changed_slots(o: Seq<SellOrder>, n: Seq<SellOrder>)
    ensures
        changed_sells(o, n) matches Some(m) ==> forall|k: usize|
            k < n.len() ==> (#[trigger] m.contains_key(k) <==> (k >= o.len() || exists|j: int|
                0 <= j <= k && j < o.len() && sorted_sells(o)[j] != sorted_sells(n)[j])),
{
    lemma_sorted_sells(o);
    lemma_sorted_sells(n);
    let so = sorted_sells(o);
    let sn = sorted_sells(n);
    lemma_first_mismatch_none(so, sn);
    let fm = first_mismatch(so, sn);
    if let Some(m) = changed_sells(o, n) {
        assert forall|k: usize| k < n.len() implies (#[trigger] m.contains_key(k) <==> (k >= o.len()
            || exists|j: int| 0 <= j <= k && j < o.len() && so[j] != sn[j])) by {
            if fm != -1 {
                if fm <= k {
                    assert(so[fm] != sn[fm]);
                }
            }
        }
    }
}

} // verus!
