use orderbook::{
    compare_old_new, compare_things, sort_sells, update_client, BuyOrder, SellOrder,
};

fn buy(size: i64, price: u64, timestamp: u64) -> BuyOrder {
    BuyOrder { size, price, timestamp }
}

fn sell(size: i64, price: u64, timestamp: u64) -> SellOrder {
    SellOrder { size, price, timestamp }
}

#[test]
fn compare_old_new_finds_added_and_deleted() {
    let old = (vec![buy(1, 10, 1), buy(2, 11, 2)], vec![sell(3, 20, 3)]);
    let new = (vec![buy(2, 11, 2), buy(4, 12, 4)], vec![sell(3, 20, 3), sell(5, 21, 5)]);
    let (b, s) = compare_old_new(&old, &new);
    assert_eq!(b.add, vec![buy(4, 12, 4)]);
    assert_eq!(b.delete, vec![buy(1, 10, 1)]);
    assert_eq!(s.add, vec![sell(5, 21, 5)]);
    assert!(s.delete.is_empty());
    assert!(!b.is_empty());
}

#[test]
fn compare_old_new_sees_size_change_as_delete_and_add() {
    let old = (vec![buy(5, 10, 1)], vec![]);
    let new = (vec![buy(3, 10, 1)], vec![]);
    let (b, s) = compare_old_new(&old, &new);
    assert_eq!(b.add, vec![buy(3, 10, 1)]);
    assert_eq!(b.delete, vec![buy(5, 10, 1)]);
    assert!(s.is_empty());
}

#[test]
fn compare_old_new_of_equal_snapshots_is_empty() {
    let snap = (vec![buy(1, 10, 1), buy(1, 10, 1)], vec![sell(3, 20, 3)]);
    let (b, s) = compare_old_new(&snap, &snap);
    assert!(b.is_empty());
    assert!(s.is_empty());
}

#[test]
fn update_client_sends_changes_then_settles() {
    let mut buffered = (vec![], vec![]);
    let current = (vec![buy(1, 10, 1)], vec![sell(2, 20, 2)]);
    let first = update_client(&mut buffered, &current);
    let (b, s) = first.expect("changes expected");
    assert_eq!(b.add, vec![buy(1, 10, 1)]);
    assert_eq!(s.add, vec![sell(2, 20, 2)]);
    assert_eq!(buffered, current);
    assert!(update_client(&mut buffered, &current).is_none());
    assert_eq!(buffered, current);
}

#[test]
fn update_client_keeps_buffer_when_only_order_changes() {
    let mut buffered = (vec![buy(1, 10, 1), buy(2, 11, 2)], vec![]);
    let current = (vec![buy(2, 11, 2), buy(1, 10, 1)], vec![]);
    assert!(update_client(&mut buffered, &current).is_none());
    assert_eq!(buffered.0, vec![buy(1, 10, 1), buy(2, 11, 2)]);
}

#[test]
fn sort_sells_is_stable_by_rank() {
    let v = vec![sell(1, 10, 1), sell(2, 12, 1), sell(3, 10, 1), sell(4, 10, 0)];
    // Ascending rank: higher price first, then later timestamp first; ties keep order.
    assert_eq!(
        sort_sells(&v),
        vec![sell(2, 12, 1), sell(1, 10, 1), sell(3, 10, 1), sell(4, 10, 0)]
    );
    let mut w = v.clone();
    w.sort_by(|a, b| a.cmp(b));
    assert_eq!(sort_sells(&v), w);
}

#[test]
fn compare_things_of_equal_snapshots_is_none() {
    let snap = (vec![buy(1, 10, 1)], vec![sell(2, 20, 2), sell(3, 19, 3)]);
    let (b, s) = compare_things(&snap, &snap);
    assert!(b.is_none());
    assert!(s.is_none());
}

#[test]
fn compare_things_on_growth_refreshes_from_first_difference() {
    let old = (vec![buy(1, 10, 1), buy(2, 11, 2)], vec![sell(2, 20, 2)]);
    let new = (
        vec![buy(1, 10, 1), buy(9, 11, 2), buy(3, 12, 3)],
        vec![sell(2, 20, 2), sell(5, 25, 5)],
    );
    let (b, s) = compare_things(&old, &new);
    let b = b.expect("buy changes");
    assert_eq!(b.len(), 2);
    assert_eq!(b[&1], buy(9, 11, 2));
    assert_eq!(b[&2], buy(3, 12, 3));
    // Sorted new sells: 25 before 20, so they differ at 0.
    let s = s.expect("sell changes");
    assert_eq!(s.len(), 2);
    assert_eq!(s[&0], sell(5, 25, 5));
    assert_eq!(s[&1], sell(2, 20, 2));
}

#[test]
fn compare_things_on_growth_without_difference_sends_the_tail() {
    let old = (vec![buy(1, 10, 1)], vec![]);
    let new = (vec![buy(1, 10, 1), buy(2, 11, 2)], vec![]);
    let (b, s) = compare_things(&old, &new);
    let b = b.expect("buy changes");
    assert_eq!(b.len(), 1);
    assert_eq!(b[&1], buy(2, 11, 2));
    assert!(s.is_none());
}

#[test]
fn compare_things_on_shrink_clears_the_tail() {
    let old = (vec![buy(1, 10, 1), buy(2, 11, 2)], vec![sell(1, 30, 1), sell(2, 20, 2)]);
    let new = (vec![buy(1, 10, 1)], vec![sell(7, 20, 2)]);
    let (b, s) = compare_things(&old, &new);
    let b = b.expect("buy changes");
    assert_eq!(b.len(), 1);
    assert_eq!(b[&1], buy(0, 0, 0));
    // Sorted old sells: 30 then 20; new: 20. They differ at 0.
    let s = s.expect("sell changes");
    assert_eq!(s.len(), 2);
    assert_eq!(s[&0], sell(7, 20, 2));
    assert_eq!(s[&1], sell(0, 0, 0));
}

#[test]
fn compare_things_same_length_difference() {
    let old = (vec![buy(1, 10, 1), buy(2, 11, 2)], vec![sell(1, 30, 1)]);
    let new = (vec![buy(1, 10, 1), buy(5, 11, 2)], vec![sell(1, 30, 1)]);
    let (b, s) = compare_things(&old, &new);
    let b = b.expect("buy changes");
    assert_eq!(b.len(), 1);
    assert_eq!(b[&1], buy(5, 11, 2));
    assert!(s.is_none());
}

#[test]
fn compare_things_refreshes_from_a_late_first_difference() {
    let n = 70001;
    let old_buys: Vec<BuyOrder> = (0..n).map(|i| buy(1, 10, i as u64)).collect();
    let mut new_buys = old_buys.clone();
    new_buys[70000] = buy(2, 10, 70000);
    let (b, s) = compare_things(&(old_buys, vec![]), &(new_buys, vec![]));
    let b = b.expect("buy changes");
    assert_eq!(b.len(), 1);
    assert_eq!(b[&70000], buy(2, 10, 70000));
    assert!(s.is_none());
}

#[test]
fn compare_things_sees_a_difference_at_the_last_of_many() {
    let n = 65536;
    let old_buys: Vec<BuyOrder> = (0..n).map(|i| buy(1, 10, i as u64)).collect();
    let mut new_buys = old_buys.clone();
    new_buys[65535] = buy(2, 10, 65535);
    let (b, _) = compare_things(&(old_buys, vec![]), &(new_buys, vec![]));
    let b = b.expect("buy changes");
    assert_eq!(b.len(), 1);
    assert_eq!(b[&65535], buy(2, 10, 65535));
}

#[test]
fn compare_things_on_shrink_with_early_difference() {
    let old = (vec![buy(2, 9, 2), buy(1, 10, 1)], vec![]);
    let new = (vec![buy(3, 11, 3)], vec![]);
    let (b, s) = compare_things(&old, &new);
    let b = b.expect("buy changes");
    assert_eq!(b.len(), 2);
    assert_eq!(b[&0], buy(3, 11, 3));
    assert_eq!(b[&1], buy(0, 0, 0));
    assert!(s.is_none());
}

#[test]
fn compare_things_sell_side_ignores_input_order() {
    let old_a = (vec![], vec![sell(1, 20, 1), sell(2, 21, 2), sell(3, 19, 3)]);
    let old_b = (vec![], vec![sell(3, 19, 3), sell(1, 20, 1), sell(2, 21, 2)]);
    let new_a = (vec![], vec![sell(5, 20, 1), sell(2, 21, 2)]);
    let new_b = (vec![], vec![sell(2, 21, 2), sell(5, 20, 1)]);
    let (_, s1) = compare_things(&old_a, &new_a);
    let (_, s2) = compare_things(&old_b, &new_b);
    assert_eq!(s1, s2);
    // In rank order: old is 21, 20, 19; new is 21, 20 (resized).
    let s1 = s1.expect("sell changes");
    assert_eq!(s1.len(), 2);
    assert_eq!(s1[&1], sell(5, 20, 1));
    assert_eq!(s1[&2], sell(0, 0, 0));
}

#[test]
fn compare_things_sell_refresh_rebuilds_new_side_in_rank_order() {
    let old = (vec![], vec![sell(1, 30, 1), sell(2, 20, 2)]);
    let new = (vec![], vec![sell(4, 25, 4), sell(2, 20, 2), sell(1, 30, 1)]);
    let (_, s) = compare_things(&old, &new);
    let s = s.expect("sell changes");
    let sorted_old = sort_sells(&old.1);
    let sorted_new = sort_sells(&new.1);
    for k in 0..sorted_new.len() {
        let got = s.get(&k).copied().unwrap_or_else(|| sorted_old[k]);
        assert_eq!(got, sorted_new[k]);
    }
}
