use vstd::prelude::*;
use crate::orders::{BuyOrder, OrderType, SellOrder, buys_sorted, copy_buys, copy_sells, sells_sorted};
use crate::ranked::{
    insert_buy, insert_sell, lemma_insert_buy, lemma_insert_buy_volume, lemma_insert_sell,
    lemma_insert_sell_volume, place_buy, place_sell,
};
use crate::matching::{
    buy_volume, crossed, lemma_match_conserves_net_volume, lemma_match_keeps_sorted,
    lemma_match_uncrossed, match_orders, matching_in_range, run_matching, sell_volume,
};

verus! {

/// The order book: resting buy and sell orders, each side kept in rank order
/// with its best order last, and the snapshot of both sides that was taken by
/// the last `update_state`.
pub struct Book {
    sell_book: Vec<SellOrder>,
    buy_book: Vec<BuyOrder>,
    buffered_state: (Vec<BuyOrder>, Vec<SellOrder>),
}

/// What a `Book` holds, as sequences in ascending rank order.
pub struct BookView {
    pub buys: Seq<BuyOrder>,
    pub sells: Seq<SellOrder>,
    pub buffered_buys: Seq<BuyOrder>,
    pub buffered_sells: Seq<SellOrder>,
}

impl View for Book {
    type V = BookView;

    closed spec fn view(&self) -> BookView {
        BookView {
            buys: self.buy_book@,
            sells: self.sell_book@,
            buffered_buys: self.buffered_state.0@,
            buffered_sells: self.buffered_state.1@,
        }
    }
}

/// The two sides once the order (`order_type`, `price`, `size`, `timestamp`)
/// has been placed on its side of `v`, before any matching.
pub open spec fn placed(
    v: BookView,
    order_type: OrderType,
    price: u64,
    size: i64,
    timestamp: u64,
) -> (Seq<BuyOrder>, Seq<SellOrder>) {
    match order_type {
        OrderType::BUY => (
            insert_buy(v.buys, BuyOrder { size, price, timestamp }),
            v.sells,
        ),
        OrderType::SELL => (
            v.buys,
            insert_sell(v.sells, SellOrder { size, price, timestamp }),
        ),
    }
}

/// Placing the order and matching the book computes only sizes that fit in an `i64`.
pub open spec fn order_fits(
    v: BookView,
    order_type: OrderType,
    price: u64,
    size: i64,
    timestamp: u64,
) -> bool {
    let p = placed(v, order_type, price, size, timestamp);
    matching_in_range(p.0, p.1)
}

impl Clone for Book {
    /// A copy of the book: the same resting orders and the same snapshot.
    fn clone(&self) -> (r: Self)
        ensures
            r@ == self@,
    {
        proof {
            use_type_invariant(self);
        }
        Book {
            sell_book: copy_sells(&self.sell_book),
            buy_book: copy_buys(&self.buy_book),
            buffered_state: (copy_buys(&self.buffered_state.0), copy_sells(&self.buffered_state.1)),
        }
    }
}

impl Book {
    /// Each side is kept in rank order, its best order last.
    #[verifier::type_invariant]
    spec fn sides_in_rank_order(self) -> bool {
        &&& buys_sorted(self.buy_book@)
        &&& sells_sorted(self.sell_book@)
    }

    /// Both sides in rank order.
    pub open spec fn wf(&self) -> bool {
        &&& buys_sorted(self@.buys)
        &&& sells_sorted(self@.sells)
    }

    /// An empty book with an empty snapshot.
    pub fn new() -> (book: Self)
        ensures
            book.wf(),
            book@.buys == Seq::<BuyOrder>::empty(),
            book@.sells == Seq::<SellOrder>::empty(),
            book@.buffered_buys == Seq::<BuyOrder>::empty(),
            book@.buffered_sells == Seq::<SellOrder>::empty(),
    {
        Book {
            sell_book: Vec::new(),
            buy_book: Vec::new(),
            buffered_state: (Vec::new(), Vec::new()),
        }
    }

    /// Places an order of `size` units at `price`, stamped `timestamp`, on the
    /// side `order_type` names, then matches the book until it no longer
    /// crosses.
    pub fn new_order(&mut self, order_type: OrderType, price: u64, size: i64, timestamp: u64)
        requires
            order_fits(old(self)@, order_type, price, size, timestamp),
        ensures
            final(self).wf(),
            (final(self)@.buys, final(self)@.sells) == ({
                let p = placed(old(self)@, order_type, price, size, timestamp);
                match_orders(p.0, p.1)
            }),
            final(self)@.buffered_buys == old(self)@.buffered_buys,
            final(self)@.buffered_sells == old(self)@.buffered_sells,
            !crossed(final(self)@.buys, final(self)@.sells),
            buy_volume(final(self)@.buys) - sell_volume(final(self)@.sells) == buy_volume(
                old(self)@.buys,
            ) - sell_volume(old(self)@.sells) + match order_type {
                OrderType::BUY => size as int,
                OrderType::SELL => -size,
            },
    {
        proof {
            let p = placed(self@, order_type, price, size, timestamp);
            lemma_match_uncrossed(p.0, p.1);
            lemma_match_conserves_net_volume(p.0, p.1);
            lemma_insert_buy_volume(self@.buys, BuyOrder { size, price, timestamp });
            lemma_insert_sell_volume(self@.sells, SellOrder { size, price, timestamp });
        }
        proof {
            use_type_invariant(&*self);
        }
        match order_type {
            OrderType::BUY => {
                proof {
                    lemma_insert_buy(self.buy_book@, BuyOrder { size, price, timestamp });
                }
                let mut buys: Vec<BuyOrder> = Vec::new();
                std::mem::swap(&mut buys, &mut self.buy_book);
                place_buy(&mut buys, BuyOrder { size, price, timestamp });
                self.buy_book = buys;
            },
            OrderType::SELL => {
                proof {
                    lemma_insert_sell(self.sell_book@, SellOrder { size, price, timestamp });
                }
                let mut sells: Vec<SellOrder> = Vec::new();
                std::mem::swap(&mut sells, &mut self.sell_book);
                place_sell(&mut sells, SellOrder { size, price, timestamp });
                self.sell_book = sells;
            },
        }
        self.attempt_match();
    }

    /// Matches the best bid against the best offer for as long as they cross.
    fn attempt_match(&mut self)
        requires
            matching_in_range(old(self)@.buys, old(self)@.sells),
        ensures
            final(self).wf(),
            (final(self)@.buys, final(self)@.sells) == match_orders(old(self)@.buys, old(self)@.sells),
            final(self)@.buffered_buys == old(self)@.buffered_buys,
            final(self)@.buffered_sells == old(self)@.buffered_sells,
    {
        proof {
            use_type_invariant(&*self);
            lemma_match_keeps_sorted(self.buy_book@, self.sell_book@);
        }
        let mut buys: Vec<BuyOrder> = Vec::new();
        let mut sells: Vec<SellOrder> = Vec::new();
        std::mem::swap(&mut buys, &mut self.buy_book);
        std::mem::swap(&mut sells, &mut self.sell_book);
        run_matching(&mut buys, &mut sells);
        self.buy_book = buys;
        self.sell_book = sells;
    }

    /// Whether `new_order` with these arguments computes only sizes that fit
    /// in an `i64`, which it requires; the book is left as it is.
    pub fn order_in_range(&self, order_type: OrderType, price: u64, size: i64, timestamp: u64) -> (r: bool)
        ensures
            r == order_fits(self@, order_type, price, size, timestamp),
    {
        let mut buys = copy_buys(&self.buy_book);
        let mut sells = copy_sells(&self.sell_book);
        match order_type {
            OrderType::BUY => place_buy(&mut buys, BuyOrder { size, price, timestamp }),
            OrderType::SELL => place_sell(&mut sells, SellOrder { size, price, timestamp }),
        }
        run_matching(&mut buys, &mut sells)
    }

    /// Takes a snapshot of both sides, in ascending rank order.
    pub fn update_state(&mut self)
        ensures
            final(self).wf(),
            final(self)@.buffered_buys == old(self)@.buys,
            final(self)@.buffered_sells == old(self)@.sells,
            final(self)@.buys == old(self)@.buys,
            final(self)@.sells == old(self)@.sells,
    {
        proof {
            use_type_invariant(&*self);
        }
        self.buffered_state = (copy_buys(&self.buy_book), copy_sells(&self.sell_book));
    }

    /// The resting buy orders, in ascending rank: the best bid last.
    pub fn buy_book(&self) -> (r: &Vec<BuyOrder>)
        ensures
            r@ == self@.buys,
    {
        &self.buy_book
    }

    /// The resting sell orders, in ascending rank: the best offer last.
    pub fn sell_book(&self) -> (r: &Vec<SellOrder>)
        ensures
            r@ == self@.sells,
    {
        &self.sell_book
    }

    /// The snapshot taken by the last `update_state`, buy side first.
    pub fn buffered_state(&self) -> (r: &(Vec<BuyOrder>, Vec<SellOrder>))
        ensures
            r.0@ == self@.buffered_buys,
            r.1@ == self@.buffered_sells,
    {
        &self.buffered_state
    }
}

} // verus!
