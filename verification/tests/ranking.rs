use orderbook::{BuyOrder, SellOrder};
use std::cmp::Ordering;

#[test]
fn sell_cmp_prefers_lower_price() {
    let a = SellOrder { size: 1, price: 10, timestamp: 5 };
    let b = SellOrder { size: 1, price: 11, timestamp: 1 };
    assert_eq!(a.cmp(&b), Ordering::Greater);
    assert_eq!(b.cmp(&a), Ordering::Less);
    assert!(a > b);
    assert_eq!(a.partial_cmp(&b), Some(Ordering::Greater));
}

#[test]
fn sell_cmp_prefers_earlier_at_same_price() {
    let a = SellOrder { size: 1, price: 10, timestamp: 5 };
    let b = SellOrder { size: 9, price: 10, timestamp: 6 };
    assert_eq!(a.cmp(&b), Ordering::Greater);
    assert_eq!(b.cmp(&a), Ordering::Less);
}

#[test]
fn buy_cmp_prefers_higher_price() {
    let a = BuyOrder { size: 1, price: 12, timestamp: 5 };
    let b = BuyOrder { size: 1, price: 11, timestamp: 1 };
    assert_eq!(a.cmp(&b), Ordering::Greater);
    assert_eq!(b.cmp(&a), Ordering::Less);
    assert!(b < a);
    assert_eq!(b.partial_cmp(&a), Some(Ordering::Less));
}

#[test]
fn buy_cmp_prefers_earlier_at_same_price() {
    let a = BuyOrder { size: 1, price: 12, timestamp: 5 };
    let b = BuyOrder { size: 1, price: 12, timestamp: 7 };
    assert_eq!(a.cmp(&b), Ordering::Greater);
}

#[test]
fn size_does_not_rank() {
    let a = BuyOrder { size: 1, price: 12, timestamp: 5 };
    let b = BuyOrder { size: 100, price: 12, timestamp: 5 };
    assert_eq!(a.cmp(&b), Ordering::Equal);
    assert_ne!(a, b);
    let c = SellOrder { size: 1, price: 12, timestamp: 5 };
    let d = SellOrder { size: 2, price: 12, timestamp: 5 };
    assert_eq!(c.cmp(&d), Ordering::Equal);
    assert_eq!(c.partial_cmp(&d), Some(Ordering::Equal));
}
