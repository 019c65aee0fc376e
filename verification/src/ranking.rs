use vstd::prelude::*;
use core::cmp::Ordering;
use vstd::std_specs::cmp::PartialOrdSpecImpl;
use crate::orders::{BuyOrder, SellOrder, buy_lt, sell_lt};

verus! {

/// How `a` compares with `b` by sell-side rank: `Greater` is the better offer.
pub open spec fn sell_rank(a: SellOrder, b: SellOrder) -> Ordering {
    if sell_lt(a, b) {
        Ordering::Less
    } else if sell_lt(b, a) {
        Ordering::Greater
    } else {
        Ordering::Equal
    }
}

/// How `a` compares with `b` by buy-side rank: `Greater` is the better bid.
pub open spec fn buy_rank(a: BuyOrder, b: BuyOrder) -> Ordering {
    if buy_lt(a, b) {
        Ordering::Less
    } else if buy_lt(b, a) {
        Ordering::Greater
    } else {
        Ordering::Equal
    }
}

impl SellOrder {
    /// Compares by rank: the lower price ranks higher, and at one price the
    /// earlier timestamp ranks higher. The size plays no part.
    pub fn cmp(&self, other: &Self) -> (r: Ordering)
        ensures
            r == sell_rank(*self, *other),
    {
        if self.price == other.price {
            if self.timestamp == other.timestamp {
                Ordering::Equal
            } else if self.timestamp < other.timestamp {
                Ordering::Greater
            } else {
                Ordering::Less
            }
        } else if self.price < other.price {
            Ordering::Greater
        } else {
            Ordering::Less
        }
    }
}

impl BuyOrder {
    /// Compares by rank: the higher price ranks higher, and at one price the
    /// earlier timestamp ranks higher. The size plays no part.
    pub fn cmp(&self, other: &Self) -> (r: Ordering)
        ensures
            r == buy_rank(*self, *other),
    {
        if self.price == other.price {
            if self.timestamp == other.timestamp {
                Ordering::Equal
            } else if self.timestamp < other.timestamp {
                Ordering::Greater
            } else {
                Ordering::Less
            }
        } else if self.price < other.price {
            Ordering::Less
        } else {
            Ordering::Greater
        }
    }
}

impl PartialOrd for SellOrder {
    fn partial_cmp(&self, other: &Self) -> (r: Option<Ordering>) {
        Some(self.cmp(other))
    }
}

impl PartialOrdSpecImpl for SellOrder {
    open spec fn obeys_partial_cmp_spec() -> bool {
        true
    }

    open spec fn partial_cmp_spec(&self, other: &Self) -> Option<Ordering> {
        Some(sell_rank(*self, *other))
    }
}

impl PartialOrd for BuyOrder {
    fn partial_cmp(&self, other: &Self) -> (r: Option<Ordering>) {
        Some(self.cmp(other))
    }
}

impl PartialOrdSpecImpl for BuyOrder {
    open spec fn obeys_partial_cmp_spec() -> bool {
        true
    }

    open spec fn partial_cmp_spec(&self, other: &Self) -> Option<Ordering> {
        Some(buy_rank(*self, *other))
    }
}

/// Rank comparison is antisymmetric: swapping the operands reverses the result.
pub proof fn lemma_sell_rank_antisymmetric(a: SellOrder, b: SellOrder)
    ensures
        sell_rank(a, b) == Ordering::Less <==> sell_rank(b, a) == Ordering::Greater,
        sell_rank(a, b) == Ordering::Equal <==> sell_rank(b, a) == Ordering::Equal,
        sell_rank(a, b) == Ordering::Equal <==> (a.price == b.price && a.timestamp == b.timestamp),
{
}

/// Rank comparison is antisymmetric: swapping the operands reverses the result.
pub proof fn lemma_buy_rank_antisymmetric(a: BuyOrder, b: BuyOrder)
    ensures
        buy_rank(a, b) == Ordering::Less <==> buy_rank(b, a) == Ordering::Greater,
        buy_rank(a, b) == Ordering::Equal <==> buy_rank(b, a) == Ordering::Equal,
        buy_rank(a, b) == Ordering::Equal <==> (a.price == b.price && a.timestamp == b.timestamp),
{
}

/// Ranking is transitive: a strict order on sell orders.
pub proof fn lemma_sell_rank_transitive(a: SellOrder, b: SellOrder, c: SellOrder)
    requires
        sell_lt(a, b),
        sell_lt(b, c),
    ensures
        sell_lt(a, c),
{
}

/// Ranking is transitive: a strict order on buy orders.
pub proof fn lemma_buy_rank_transitive(a: BuyOrder, b: BuyOrder, c: BuyOrder)
    requires
        buy_lt(a, b),
        buy_lt(b, c),
    ensures
        buy_lt(a, c),
{
}

/// Price-time priority among bids: a higher bid ranks above a lower one; at
/// one price the earlier bid ranks above the later one; the size plays no part.
pub proof fn lemma_bid_priority(a: BuyOrder, b: BuyOrder)
    ensures
        a.price > b.price ==> buy_lt(b, a) && !buy_lt(a, b) && buy_rank(a, b) == Ordering::Greater,
        a.price == b.price && a.timestamp < b.timestamp ==> buy_lt(b, a) && !buy_lt(a, b)
            && buy_rank(a, b) == Ordering::Greater,
        a.price == b.price && a.timestamp == b.timestamp ==> !buy_lt(a, b) && !buy_lt(b, a)
            && buy_rank(a, b) == Ordering::Equal,
{
}

/// Price-time priority among offers: a lower offer ranks above a higher one;
/// at one price the earlier offer ranks above the later one; the size plays
/// no part.
pub proof fn lemma_offer_priority(a: SellOrder, b: SellOrder)
    ensures
        a.price < b.price ==> sell_lt(b, a) && !sell_lt(a, b) && sell_rank(a, b) == Ordering::Greater,
        a.price == b.price && a.timestamp < b.timestamp ==> sell_lt(b, a) && !sell_lt(a, b)
            && sell_rank(a, b) == Ordering::Greater,
        a.price == b.price && a.timestamp == b.timestamp ==> !sell_lt(a, b) && !sell_lt(b, a)
            && sell_rank(a, b) == Ordering::Equal,
{
}

} // verus!
