use vstd::prelude::*;
use crate::orders::{BuyOrder, SellOrder, buy_lt, buys_sorted, sell_lt, sells_sorted};

verus! {

/// The best offer is at or below the best bid, so the two can trade.
pub open spec fn crossed(buys: Seq<BuyOrder>, sells: Seq<SellOrder>) -> bool {
    buys.len() > 0 && sells.len() > 0 && sells.last().price <= buys.last().price
}

/// The book that results from matching the best bid (the last buy order)
/// against the best offer (the last sell order) for as long as they cross.
/// The smaller order is filled and leaves; the larger one stays with its size
/// reduced by the other's; orders of equal size both leave.
pub open spec fn match_orders(buys: Seq<BuyOrder>, sells: Seq<SellOrder>) -> (Seq<BuyOrder>, Seq<SellOrder>)
    decreases buys.len() + sells.len(),
{
    if crossed(buys, sells) {
        let b = buys.last();
        let s = sells.last();
        let remainder = s.size - b.size;
        if remainder == 0 {
            match_orders(buys.drop_last(), sells.drop_last())
        } else if remainder > 0 {
            match_orders(
                buys.drop_last(),
                sells.drop_last().push(
                    SellOrder { size: remainder as i64, price: s.price, timestamp: s.timestamp },
                ),
            )
        } else {
            match_orders(
                buys.drop_last().push(
                    BuyOrder { size: (b.size - s.size) as i64, price: b.price, timestamp: b.timestamp },
                ),
                sells.drop_last(),
            )
        }
    } else {
        (buys, sells)
    }
}

/// Every size difference that `match_orders` computes fits in an `i64`.
pub open spec fn matching_in_range(buys: Seq<BuyOrder>, sells: Seq<SellOrder>) -> bool
    decreases buys.len() + sells.len(),
{
    if crossed(buys, sells) {
        let b = buys.last();
        let s = sells.last();
        let remainder = s.size - b.size;
        &&& i64::MIN <= remainder <= i64::MAX
        &&& if remainder == 0 {
            matching_in_range(buys.drop_last(), sells.drop_last())
        } else if remainder > 0 {
            matching_in_range(
                buys.drop_last(),
                sells.drop_last().push(
                    SellOrder { size: remainder as i64, price: s.price, timestamp: s.timestamp },
                ),
            )
        } else {
            &&& b.size - s.size <= i64::MAX
            &&& matching_in_range(
                buys.drop_last().push(
                    BuyOrder { size: (b.size - s.size) as i64, price: b.price, timestamp: b.timestamp },
                ),
                sells.drop_last(),
            )
        }
    } else {
        true
    }
}

/// Total size of a sequence of buy orders.
pub open spec fn buy_volume(s: Seq<BuyOrder>) -> int
    decreases s.len(),
{
    if s.len() == 0 {
        0
    } else {
        buy_volume(s.drop_last()) + s.last().size
    }
}

/// Total size of a sequence of sell orders.
pub open spec fn sell_volume(s: Seq<SellOrder>) -> int
    decreases s.len(),
{
    if s.len() == 0 {
        0
    } else {
        sell_volume(s.drop_last()) + s.last().size
    }
}

/// Matches the two sides in place, as `match_orders` says, provided every size
/// difference fits in an `i64`; reports whether they all did. Where one does
/// not, it stops at that step and returns `false`.
pub(crate) fn run_matching(buys: &mut Vec<BuyOrder>, sells: &mut Vec<SellOrder>) -> (ok: bool)
    ensures
        ok == matching_in_range(old(buys)@, old(sells)@),
        ok ==> (final(buys)@, final(sells)@) == match_orders(old(buys)@, old(sells)@),
{
    loop
        invariant
            matching_in_range(old(buys)@, old(sells)@) == matching_in_range(buys@, sells@),
            matching_in_range(buys@, sells@) ==> match_orders(old(buys)@, old(sells)@)
                == match_orders(buys@, sells@),
        decreases buys.len() + sells.len(),
    {
        let nb = buys.len();
        let ns = sells.len();
        if nb == 0 || ns == 0 {
            return true;
        }
        let b = buys[nb - 1];
        let s = sells[ns - 1];
        if s.price > b.price {
            return true;
        }
        let ghost bs = buys@;
        let ghost ss = sells@;
        match s.size.checked_sub(b.size) {
            None => {
                return false;
            },
            Some(remainder) => {
                if remainder == 0 {
                    buys.pop();
                    sells.pop();
                } else if remainder > 0 {
                    let rest = SellOrder { size: remainder, price: s.price, timestamp: s.timestamp };
                    sells.set(ns - 1, rest);
                    buys.pop();
                    proof {
                        assert(sells@ =~= ss.drop_last().push(rest));
                    }
                } else {
                    match b.size.checked_sub(s.size) {
                        None => {
                            return false;
                        },
                        Some(left) => {
                            let rest = BuyOrder { size: left, price: b.price, timestamp: b.timestamp };
                            buys.set(nb - 1, rest);
                            sells.pop();
                            proof {
                                assert(buys@ =~= bs.drop_last().push(rest));
                            }
                        },
                    }
                }
            },
        }
    }
}

/// After matching, the book no longer crosses: one side is empty or the best
/// offer is priced above the best bid.
pub proof fn lemma_match_uncrossed(buys: Seq<BuyOrder>, sells: Seq<SellOrder>)
    ensures
        !crossed(match_orders(buys, sells).0, match_orders(buys, sells).1),
    decreases buys.len() + sells.len(),
{
    if crossed(buys, sells) {
        let b = buys.last();
        let s = sells.last();
        let remainder = s.size - b.size;
        if remainder == 0 {
            lemma_match_uncrossed(buys.drop_last(), sells.drop_last());
        } else if remainder > 0 {
            lemma_match_uncrossed(
                buys.drop_last(),
                sells.drop_last().push(
                    SellOrder { size: remainder as i64, price: s.price, timestamp: s.timestamp },
                ),
            );
        } else {
            lemma_match_uncrossed(
                buys.drop_last().push(
                    BuyOrder { size: (b.size - s.size) as i64, price: b.price, timestamp: b.timestamp },
                ),
                sells.drop_last(),
            );
        }
    }
}

/// Matching keeps both sides in rank order.
pub proof fn lemma_match_keeps_sorted(buys: Seq<BuyOrder>, sells: Seq<SellOrder>)
    requires
        buys_sorted(buys),
        sells_sorted(sells),
    ensures
        buys_sorted(match_orders(buys, sells).0),
        sells_sorted(match_orders(buys, sells).1),
    decreases buys.len() + sells.len(),
{
    if crossed(buys, sells) {
        let b = buys.last();
        let s = sells.last();
        let remainder = s.size - b.size;
        let bd = buys.drop_last();
        let sd = sells.drop_last();
        assert(buys_sorted(bd));
        assert(sells_sorted(sd));
        if remainder == 0 {
            lemma_match_keeps_sorted(bd, sd);
        } else if remainder > 0 {
            let rest = SellOrder { size: remainder as i64, price: s.price, timestamp: s.timestamp };
            assert forall|i: int, j: int| 0 <= i < j < sd.push(rest).len() implies !sell_lt(
                #[trigger] sd.push(rest)[j],
                #[trigger] sd.push(rest)[i],
            ) by {
                assert(sells[i] == sd[i]);
                if j < sd.len() {
                    assert(sells[j] == sd[j]);
                } else {
                    assert(sells[sells.len() - 1] == s);
                }
            }
            lemma_match_keeps_sorted(bd, sd.push(rest));
        } else {
            let rest = BuyOrder { size: (b.size - s.size) as i64, price: b.price, timestamp: b.timestamp };
            assert forall|i: int, j: int| 0 <= i < j < bd.push(rest).len() implies !buy_lt(
                #[trigger] bd.push(rest)[j],
                #[trigger] bd.push(rest)[i],
            ) by {
                assert(buys[i] == bd[i]);
                if j < bd.len() {
                    assert(buys[j] == bd[j]);
                } else {
                    assert(buys[buys.len() - 1] == b);
                }
            }
            lemma_match_keeps_sorted(bd.push(rest), sd);
        }
    }
}

/// A trade removes the same quantity from both sides, so the total bid size
/// minus the total offered size is the same before and after matching.
pub proof fn lemma_match_conserves_net_volume(buys: Seq<BuyOrder>, sells: Seq<SellOrder>)
    requires
        matching_in_range(buys, sells),
    ensures
        buy_volume(match_orders(buys, sells).0) - sell_volume(match_orders(buys, sells).1)
            == buy_volume(buys) - sell_volume(sells),
    decreases buys.len() + sells.len(),
{
    if crossed(buys, sells) {
        let b = buys.last();
        let s = sells.last();
        let remainder = s.size - b.size;
        let bd = buys.drop_last();
        let sd = sells.drop_last();
        if remainder == 0 {
            lemma_match_conserves_net_volume(bd, sd);
        } else if remainder > 0 {
            let rest = SellOrder { size: remainder as i64, price: s.price, timestamp: s.timestamp };
            assert(sd.push(rest).drop_last() =~= sd);
            lemma_match_conserves_net_volume(bd, sd.push(rest));
        } else {
            let rest = BuyOrder { size: (b.size - s.size) as i64, price: b.price, timestamp: b.timestamp };
            assert(bd.push(rest).drop_last() =~= bd);
            lemma_match_conserves_net_volume(bd.push(rest), sd);
        }
    }
}

/// Price-time priority: on a side kept in rank order, the order that matching
/// takes first (the last one) ranks at least as high as every other order
/// on that side.
pub proof fn lemma_best_is_last(buys: Seq<BuyOrder>, sells: Seq<SellOrder>)
    requires
        buys_sorted(buys),
        sells_sorted(sells),
    ensures
        buys.len() > 0 ==> forall|i: int| 0 <= i < buys.len() ==> !buy_lt(buys.last(), #[trigger] buys[i]),
        sells.len() > 0 ==> forall|i: int| 0 <= i < sells.len() ==> !sell_lt(sells.last(), #[trigger] sells[i]),
{
    assert forall|i: int| 0 <= i < buys.len() implies !buy_lt(buys.last(), #[trigger] buys[i]) by {
        if i < buys.len() - 1 {
            assert(!buy_lt(buys[buys.len() - 1], buys[i]));
        }
    }
    assert forall|i: int| 0 <= i < sells.len() implies !sell_lt(sells.last(), #[trigger] sells[i]) by {
        if i < sells.len() - 1 {
            assert(!sell_lt(sells[sells.len() - 1], sells[i]));
        }
    }
}

/// On a buy side in rank order, the order that matching takes first (the
/// last) has the highest price, and among the bids at that price the
/// earliest timestamp.
pub proof fn lemma_best_bid_highest_then_earliest(buys: Seq<BuyOrder>)
    requires
        buys_sorted(buys),
        buys.len() > 0,
    ensures
        forall|i: int|
            0 <= i < buys.len() ==> (#[trigger] buys[i]).price <= buys.last().price && (buys[i].price
                == buys.last().price ==> buys.last().timestamp <= buys[i].timestamp),
{
    lemma_best_is_last(buys, Seq::<SellOrder>::empty());
    assert forall|i: int| 0 <= i < buys.len() implies (#[trigger] buys[i]).price <= buys.last().price
        && (buys[i].price == buys.last().price ==> buys.last().timestamp <= buys[i].timestamp) by {
        assert(!buy_lt(buys.last(), buys[i]));
    }
}

/// On a sell side in rank order, the order that matching takes first (the
/// last) has the lowest price, and among the offers at that price the
/// earliest timestamp.
pub proof fn lemma_best_offer_lowest_then_earliest(sells: Seq<SellOrder>)
    requires
        sells_sorted(sells),
        sells.len() > 0,
    ensures
        forall|i: int|
            0 <= i < sells.len() ==> (#[trigger] sells[i]).price >= sells.last().price && (sells[i].price
                == sells.last().price ==> sells.last().timestamp <= sells[i].timestamp),
{
    lemma_best_is_last(Seq::<BuyOrder>::empty(), sells);
    assert forall|i: int| 0 <= i < sells.len() implies (#[trigger] sells[i]).price >= sells.last().price
        && (sells[i].price == sells.last().price ==> sells.last().timestamp <= sells[i].timestamp) by {
        assert(!sell_lt(sells.last(), sells[i]));
    }
}

} // verus!
