use vstd::prelude::*;
use crate::orders::{BuyOrder, SellOrder, buy_lt, buys_sorted, sell_lt, sells_sorted};
use crate::matching::{buy_volume, sell_volume};

verus! {

broadcast use vstd::seq_lib::group_to_multiset_ensures;

/// `x` placed into `s` just after the last element that ranks strictly
/// below it, scanning from the back: in a sorted sequence, before every
/// element of equal rank.
pub open spec fn insert_sell(s: Seq<SellOrder>, x: SellOrder) -> Seq<SellOrder>
    decreases s.len(),
{
    if s.len() == 0 {
        seq![x]
    } else if !sell_lt(s.last(), x) {
        insert_sell(s.drop_last(), x).push(s.last())
    } else {
        s.push(x)
    }
}

/// `x` placed into `s` just after the last element that ranks strictly
/// below it, scanning from the back: in a sorted sequence, before every
/// element of equal rank.
pub open spec fn insert_buy(s: Seq<BuyOrder>, x: BuyOrder) -> Seq<BuyOrder>
    decreases s.len(),
{
    if s.len() == 0 {
        seq![x]
    } else if !buy_lt(s.last(), x) {
        insert_buy(s.drop_last(), x).push(s.last())
    } else {
        s.push(x)
    }
}

pub(crate) fn sell_below(a: &SellOrder, b: &SellOrder) -> (r: bool)
    ensures
        r == sell_lt(*a, *b),
{
    a.price > b.price || (a.price == b.price && a.timestamp > b.timestamp)
}

pub(crate) fn buy_below(a: &BuyOrder, b: &BuyOrder) -> (r: bool)
    ensures
        r == buy_lt(*a, *b),
{
    a.price < b.price || (a.price == b.price && a.timestamp > b.timestamp)
}

/// Places `x` into `v` at the position `insert_sell` describes.
pub(crate) fn place_sell(v: &mut Vec<SellOrder>, x: SellOrder)
    ensures
        final(v)@ == insert_sell(old(v)@, x),
{
    let ghost s = v@;
    let mut p: usize = v.len();
    proof {
        assert(s.take(p as int) =~= s);
        assert(s + s.skip(p as int) =~= s);
    }
    while p > 0 && !sell_below(&v[p - 1], &x)
        invariant
            v@ == s,
            p <= s.len(),
            insert_sell(s, x) == insert_sell(s.take(p as int), x) + s.skip(p as int),
        decreases p,
    {
        proof {
            let t = s.take(p as int);
            assert(t.drop_last() =~= s.take(p - 1));
            assert(t.last() == s[p - 1]);
            assert(seq![s[p - 1]] + s.skip(p as int) =~= s.skip(p - 1));
            assert(insert_sell(s.take(p - 1), x).push(s[p - 1]) + s.skip(p as int)
                =~= insert_sell(s.take(p - 1), x) + s.skip(p - 1));
        }
        p = p - 1;
    }
    proof {
        let t = s.take(p as int);
        if p > 0 {
            assert(t.last() == s[p - 1]);
        } else {
            assert(t =~= Seq::<SellOrder>::empty());
        }
        assert(insert_sell(t, x) =~= t.push(x));
        assert(t.push(x) + s.skip(p as int) =~= s.insert(p as int, x));
    }
    v.insert(p, x);
}

/// Places `x` into `v` at the position `insert_buy` describes.
pub(crate) fn place_buy(v: &mut Vec<BuyOrder>, x: BuyOrder)
    ensures
        final(v)@ == insert_buy(old(v)@, x),
{
    let ghost s = v@;
    let mut p: usize = v.len();
    proof {
        assert(s.take(p as int) =~= s);
        assert(s + s.skip(p as int) =~= s);
    }
    while p > 0 && !buy_below(&v[p - 1], &x)
        invariant
            v@ == s,
            p <= s.len(),
            insert_buy(s, x) == insert_buy(s.take(p as int), x) + s.skip(p as int),
        decreases p,
    {
        proof {
            let t = s.take(p as int);
            assert(t.drop_last() =~= s.take(p - 1));
            assert(t.last() == s[p - 1]);
            assert(seq![s[p - 1]] + s.skip(p as int) =~= s.skip(p - 1));
            assert(insert_buy(s.take(p - 1), x).push(s[p - 1]) + s.skip(p as int)
                =~= insert_buy(s.take(p - 1), x) + s.skip(p - 1));
        }
        p = p - 1;
    }
    proof {
        let t = s.take(p as int);
        if p > 0 {
            assert(t.last() == s[p - 1]);
        } else {
            assert(t =~= Seq::<BuyOrder>::empty());
        }
        assert(insert_buy(t, x) =~= t.push(x));
        assert(t.push(x) + s.skip(p as int) =~= s.insert(p as int, x));
    }
    v.insert(p, x);
}

/// Inserting into a sorted sell sequence keeps it sorted, and adds exactly `x`.
pub proof fn lemma_insert_sell(s: Seq<SellOrder>, x: SellOrder)
    requires
        sells_sorted(s),
    ensures
        sells_sorted(insert_sell(s, x)),
        insert_sell(s, x).to_multiset() == s.to_multiset().insert(x),
        insert_sell(s, x).len() == s.len() + 1,
        forall|i: int|
            0 <= i < insert_sell(s, x).len() ==> #[trigger] insert_sell(s, x)[i] == x
                || s.contains(insert_sell(s, x)[i]),
    decreases s.len(),
{
    if s.len() == 0 {
        assert(insert_sell(s, x) =~= s.push(x));
    } else if !sell_lt(s.last(), x) {
        let d = s.drop_last();
        assert(sells_sorted(d));
        lemma_insert_sell(d, x);
        let r = insert_sell(d, x);
        assert(d.push(s.last()) =~= s);
        assert forall|i: int| 0 <= i < r.len() implies !sell_lt(s.last(), #[trigger] r[i]) by {
            if r[i] != x {
                let k = choose|k: int| 0 <= k < d.len() && d[k] == r[i];
                assert(s[k] == d[k]);
            }
        }
        assert forall|i: int| 0 <= i < r.push(s.last()).len() implies #[trigger] r.push(
            s.last(),
        )[i] == x || s.contains(r.push(s.last())[i]) by {
            if i < r.len() && r[i] != x {
                let k = choose|k: int| 0 <= k < d.len() && d[k] == r[i];
                assert(s[k] == d[k]);
            } else if i == r.len() {
                assert(s[s.len() - 1] == s.last());
            }
        }
    } else {
        assert forall|i: int| 0 <= i < s.push(x).len() implies #[trigger] s.push(x)[i] == x
            || s.contains(s.push(x)[i]) by {
            if i < s.len() {
                assert(s.push(x)[i] == s[i]);
            }
        }
        assert forall|i: int, j: int| 0 <= i < j < s.push(x).len() implies !sell_lt(
            #[trigger] s.push(x)[j],
            #[trigger] s.push(x)[i],
        ) by {
            if j == s.len() {
                assert(!sell_lt(s[s.len() - 1], s[i]) || i == s.len() - 1);
            }
        }
    }
}

/// Inserting into a sorted buy sequence keeps it sorted, and adds exactly `x`.
pub proof fn lemma_insert_buy(s: Seq<BuyOrder>, x: BuyOrder)
    requires
        buys_sorted(s),
    ensures
        buys_sorted(insert_buy(s, x)),
        insert_buy(s, x).to_multiset() == s.to_multiset().insert(x),
        insert_buy(s, x).len() == s.len() + 1,
        forall|i: int|
            0 <= i < insert_buy(s, x).len() ==> #[trigger] insert_buy(s, x)[i] == x
                || s.contains(insert_buy(s, x)[i]),
    decreases s.len(),
{
    if s.len() == 0 {
        assert(insert_buy(s, x) =~= s.push(x));
    } else if !buy_lt(s.last(), x) {
        let d = s.drop_last();
        assert(buys_sorted(d));
        lemma_insert_buy(d, x);
        let r = insert_buy(d, x);
        assert(d.push(s.last()) =~= s);
        assert forall|i: int| 0 <= i < r.len() implies !buy_lt(s.last(), #[trigger] r[i]) by {
            if r[i] != x {
                let k = choose|k: int| 0 <= k < d.len() && d[k] == r[i];
                assert(s[k] == d[k]);
            }
        }
        assert forall|i: int| 0 <= i < r.push(s.last()).len() implies #[trigger] r.push(
            s.last(),
        )[i] == x || s.contains(r.push(s.last())[i]) by {
            if i < r.len() && r[i] != x {
                let k = choose|k: int| 0 <= k < d.len() && d[k] == r[i];
                assert(s[k] == d[k]);
            } else if i == r.len() {
                assert(s[s.len() - 1] == s.last());
            }
        }
    } else {
        assert forall|i: int| 0 <= i < s.push(x).len() implies #[trigger] s.push(x)[i] == x
            || s.contains(s.push(x)[i]) by {
            if i < s.len() {
                assert(s.push(x)[i] == s[i]);
            }
        }
        assert forall|i: int, j: int| 0 <= i < j < s.push(x).len() implies !buy_lt(
            #[trigger] s.push(x)[j],
            #[trigger] s.push(x)[i],
        ) by {
            if j == s.len() {
                assert(!buy_lt(s[s.len() - 1], s[i]) || i == s.len() - 1);
            }
        }
    }
}

/// Inserting an order adds its size to the side's total.
pub proof fn lemma_insert_buy_volume(s: Seq<BuyOrder>, x: BuyOrder)
    ensures
        buy_volume(insert_buy(s, x)) == buy_volume(s) + x.size,
    decreases s.len(),
{
    if s.len() == 0 {
        assert(seq![x].drop_last() =~= Seq::<BuyOrder>::empty());
        assert(buy_volume(Seq::<BuyOrder>::empty()) == 0);
        assert(insert_buy(s, x) =~= seq![x]);
    } else if !buy_lt(s.last(), x) {
        lemma_insert_buy_volume(s.drop_last(), x);
        assert(insert_buy(s, x) == insert_buy(s.drop_last(), x).push(s.last()));
        assert(insert_buy(s.drop_last(), x).push(s.last()).drop_last() =~= insert_buy(s.drop_last(), x));
    } else {
        assert(s.push(x).drop_last() =~= s);
        assert(insert_buy(s, x) == s.push(x));
    }
}

/// Inserting an order adds its size to the side's total.
pub proof fn lemma_insert_sell_volume(s: Seq<SellOrder>, x: SellOrder)
    ensures
        sell_volume(insert_sell(s, x)) == sell_volume(s) + x.size,
    decreases s.len(),
{
    if s.len() == 0 {
        assert(seq![x].drop_last() =~= Seq::<SellOrder>::empty());
        assert(sell_volume(Seq::<SellOrder>::empty()) == 0);
        assert(insert_sell(s, x) =~= seq![x]);
    } else if !sell_lt(s.last(), x) {
        lemma_insert_sell_volume(s.drop_last(), x);
        assert(insert_sell(s, x) == insert_sell(s.drop_last(), x).push(s.last()));
        assert(insert_sell(s.drop_last(), x).push(s.last()).drop_last() =~= insert_sell(s.drop_last(), x));
    } else {
        assert(s.push(x).drop_last() =~= s);
        assert(insert_sell(s, x) == s.push(x));
    }
}

} // verus!
