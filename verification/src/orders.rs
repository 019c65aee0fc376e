use vstd::prelude::*;

verus! {

/// The side of the book an incoming order goes to.
#[derive(Clone, Copy, Debug, PartialEq, Eq, Structural)]
pub enum OrderType {
    BUY,
    SELL,
}

/// A resting offer to sell `size` units at `price`, placed at `timestamp`
/// (milliseconds since the Unix epoch).
#[derive(Clone, Copy, Debug, PartialEq, Eq, Structural)]
pub struct SellOrder {
    pub size: i64,
    pub price: u64,
    pub timestamp: u64,
}

/// A resting bid to buy `size` units at `price`, placed at `timestamp`
/// (milliseconds since the Unix epoch).
#[derive(Clone, Copy, Debug, PartialEq, Eq, Structural)]
pub struct BuyOrder {
    pub size: i64,
    pub price: u64,
    pub timestamp: u64,
}

/// An order as a client submits it: `sell` tells the side.
#[derive(Clone, Copy, Debug, PartialEq, Eq, Structural)]
pub struct Transaction {
    pub size: i64,
    pub price: u64,
    pub sell: bool,
}

/// `a` ranks strictly below `b` among sell orders: the lower price is the
/// better offer, and at one price the earlier order is the better one.
pub open spec fn sell_lt(a: SellOrder, b: SellOrder) -> bool {
    a.price > b.price || (a.price == b.price && a.timestamp > b.timestamp)
}

/// `a` ranks strictly below `b` among buy orders: the higher price is the
/// better bid, and at one price the earlier order is the better one.
pub open spec fn buy_lt(a: BuyOrder, b: BuyOrder) -> bool {
    a.price < b.price || (a.price == b.price && a.timestamp > b.timestamp)
}

/// Ascending by rank: the best sell order stands last.
pub open spec fn sells_sorted(s: Seq<SellOrder>) -> bool {
    forall|i: int, j: int| 0 <= i < j < s.len() ==> !sell_lt(#[trigger] s[j], #[trigger] s[i])
}

/// Ascending by rank: the best buy order stands last.
pub open spec fn buys_sorted(s: Seq<BuyOrder>) -> bool {
    forall|i: int, j: int| 0 <= i < j < s.len() ==> !buy_lt(#[trigger] s[j], #[trigger] s[i])
}

pub(crate) fn copy_buys(v: &Vec<BuyOrder>) -> (r: Vec<BuyOrder>)
    ensures
        r@ == v@,
{
    let r = v.clone();
    proof {
        assert(r@ =~= v@);
    }
    r
}

pub(crate) fn copy_sells(v: &Vec<SellOrder>) -> (r: Vec<SellOrder>)
    ensures
        r@ == v@,
{
    let r = v.clone();
    proof {
        assert(r@ =~= v@);
    }
    r
}

} // verus!
