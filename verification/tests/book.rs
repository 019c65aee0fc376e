use orderbook::{Book, BuyOrder, OrderType, SellOrder};

fn buy(size: i64, price: u64, timestamp: u64) -> BuyOrder {
    BuyOrder { size, price, timestamp }
}

fn sell(size: i64, price: u64, timestamp: u64) -> SellOrder {
    SellOrder { size, price, timestamp }
}

fn place(book: &mut Book, t: OrderType, price: u64, size: i64, ts: u64) {
    assert!(book.order_in_range(t, price, size, ts));
    book.new_order(t, price, size, ts);
}

#[test]
fn new_book_is_empty() {
    let book = Book::new();
    assert!(book.buy_book().is_empty());
    assert!(book.sell_book().is_empty());
    assert!(book.buffered_state().0.is_empty());
    assert!(book.buffered_state().1.is_empty());
}

#[test]
fn orders_that_do_not_cross_rest() {
    let mut book = Book::new();
    place(&mut book, OrderType::BUY, 100, 5, 1);
    place(&mut book, OrderType::SELL, 101, 7, 2);
    assert_eq!(book.buy_book(), &vec![buy(5, 100, 1)]);
    assert_eq!(book.sell_book(), &vec![sell(7, 101, 2)]);
}

#[test]
fn equal_sizes_both_leave() {
    let mut book = Book::new();
    place(&mut book, OrderType::BUY, 100, 5, 1);
    place(&mut book, OrderType::SELL, 100, 5, 2);
    assert!(book.buy_book().is_empty());
    assert!(book.sell_book().is_empty());
}

#[test]
fn larger_sell_stays_reduced() {
    let mut book = Book::new();
    place(&mut book, OrderType::SELL, 90, 8, 1);
    place(&mut book, OrderType::BUY, 100, 3, 2);
    assert!(book.buy_book().is_empty());
    assert_eq!(book.sell_book(), &vec![sell(5, 90, 1)]);
}

#[test]
fn larger_buy_stays_reduced() {
    let mut book = Book::new();
    place(&mut book, OrderType::BUY, 100, 5, 1);
    place(&mut book, OrderType::SELL, 90, 3, 2);
    assert_eq!(book.buy_book(), &vec![buy(2, 100, 1)]);
    assert!(book.sell_book().is_empty());
}

#[test]
fn sweep_across_several_offers() {
    let mut book = Book::new();
    place(&mut book, OrderType::SELL, 102, 4, 1);
    place(&mut book, OrderType::SELL, 100, 2, 2);
    place(&mut book, OrderType::SELL, 101, 3, 3);
    place(&mut book, OrderType::SELL, 105, 9, 4);
    // Best offer last: highest price first.
    assert_eq!(
        book.sell_book(),
        &vec![sell(9, 105, 4), sell(4, 102, 1), sell(3, 101, 3), sell(2, 100, 2)]
    );
    place(&mut book, OrderType::BUY, 102, 6, 5);
    // 2 @ 100, then 3 @ 101, then 1 of 4 @ 102.
    assert!(book.buy_book().is_empty());
    assert_eq!(book.sell_book(), &vec![sell(9, 105, 4), sell(3, 102, 1)]);
}

#[test]
fn earlier_bid_at_same_price_trades_first() {
    let mut book = Book::new();
    place(&mut book, OrderType::BUY, 100, 5, 10);
    place(&mut book, OrderType::BUY, 100, 7, 20);
    place(&mut book, OrderType::BUY, 99, 1, 5);
    assert_eq!(
        book.buy_book(),
        &vec![buy(1, 99, 5), buy(7, 100, 20), buy(5, 100, 10)]
    );
    place(&mut book, OrderType::SELL, 100, 6, 30);
    assert_eq!(book.buy_book(), &vec![buy(1, 99, 5), buy(6, 100, 20)]);
    assert!(book.sell_book().is_empty());
}

#[test]
fn book_never_left_crossed() {
    let mut book = Book::new();
    let orders = [
        (OrderType::BUY, 100, 5),
        (OrderType::SELL, 95, 2),
        (OrderType::SELL, 99, 10),
        (OrderType::BUY, 101, 4),
        (OrderType::BUY, 98, 3),
        (OrderType::SELL, 97, 6),
    ];
    for (ts, (t, price, size)) in orders.iter().enumerate() {
        place(&mut book, *t, *price, *size, ts as u64);
        if let (Some(b), Some(s)) = (book.buy_book().last(), book.sell_book().last()) {
            assert!(s.price > b.price);
        }
    }
}

#[test]
fn net_volume_moves_by_the_order_size() {
    let mut book = Book::new();
    let net = |book: &Book| -> i64 {
        book.buy_book().iter().map(|o| o.size).sum::<i64>()
            - book.sell_book().iter().map(|o| o.size).sum::<i64>()
    };
    place(&mut book, OrderType::BUY, 100, 5, 1);
    assert_eq!(net(&book), 5);
    place(&mut book, OrderType::SELL, 100, 8, 2);
    assert_eq!(net(&book), -3);
    assert_eq!(book.sell_book(), &vec![sell(3, 100, 2)]);
    place(&mut book, OrderType::BUY, 101, 10, 3);
    assert_eq!(net(&book), 7);
    assert_eq!(book.buy_book(), &vec![buy(7, 101, 3)]);
}

#[test]
fn update_state_takes_snapshot() {
    let mut book = Book::new();
    place(&mut book, OrderType::BUY, 100, 5, 1);
    place(&mut book, OrderType::BUY, 101, 1, 2);
    place(&mut book, OrderType::SELL, 110, 2, 3);
    book.update_state();
    assert_eq!(book.buffered_state().0, vec![buy(5, 100, 1), buy(1, 101, 2)]);
    assert_eq!(book.buffered_state().1, vec![sell(2, 110, 3)]);
    place(&mut book, OrderType::SELL, 100, 1, 4);
    // The snapshot stays until the next update.
    assert_eq!(book.buffered_state().0, vec![buy(5, 100, 1), buy(1, 101, 2)]);
    book.update_state();
    assert_eq!(book.buffered_state().0, vec![buy(5, 100, 1)]);
}

#[test]
fn order_out_of_range_is_reported() {
    let mut book = Book::new();
    place(&mut book, OrderType::BUY, 100, i64::MIN, 1);
    // Matching would compute 1 - i64::MIN.
    assert!(!book.order_in_range(OrderType::SELL, 100, 1, 2));
    // Not crossing: nothing to compute.
    assert!(book.order_in_range(OrderType::SELL, 101, 1, 2));
    assert_eq!(book.buy_book(), &vec![buy(i64::MIN, 100, 1)]);
}

#[test]
fn negative_sizes_are_matched_as_numbers() {
    let mut book = Book::new();
    place(&mut book, OrderType::BUY, 100, -5, 1);
    place(&mut book, OrderType::SELL, 100, 3, 2);
    // 3 - (-5) = 8 > 0: the buy leaves, the sell keeps 8.
    assert!(book.buy_book().is_empty());
    assert_eq!(book.sell_book(), &vec![sell(8, 100, 2)]);
}

#[test]
fn cloned_book_is_independent() {
    let mut book = Book::new();
    place(&mut book, OrderType::BUY, 100, 5, 1);
    book.update_state();
    let copy = book.clone();
    place(&mut book, OrderType::SELL, 100, 5, 2);
    assert!(book.buy_book().is_empty());
    assert_eq!(copy.buy_book(), &vec![buy(5, 100, 1)]);
    assert_eq!(copy.buffered_state().0, vec![buy(5, 100, 1)]);
}
