//! A limit order book that matches buy and sell orders by price-time priority,
//! together with the snapshot diffing that feeds connected clients.

mod orders;
mod ranking;
mod ranked;
mod matching;
mod book;
mod diff;
mod snapshot;
mod session;

pub use orders::{BuyOrder, OrderType, SellOrder, Transaction, buy_lt, buys_sorted, sell_lt, sells_sorted};
pub use ranking::{
    buy_rank, lemma_bid_priority, lemma_buy_rank_antisymmetric, lemma_buy_rank_transitive,
    lemma_offer_priority, lemma_sell_rank_antisymmetric, lemma_sell_rank_transitive, sell_rank,
};
pub use ranked::{
    insert_buy, insert_sell, lemma_insert_buy, lemma_insert_buy_volume, lemma_insert_sell,
    lemma_insert_sell_volume,
};
pub use matching::{
    buy_volume, crossed, lemma_best_bid_highest_then_earliest, lemma_best_is_last,
    lemma_best_offer_lowest_then_earliest, lemma_match_conserves_net_volume,
    lemma_match_keeps_sorted, lemma_match_uncrossed, match_orders, matching_in_range, sell_volume,
};
pub use book::{Book, BookView, order_fits, placed};
pub use diff::{
    BookChanges, compare_old_new, lemma_missing_from_counts, lemma_missing_from_itself, missing_from,
    update_client,
};
pub use snapshot::{
    changed_buys, changed_sells, compare_things, empty_buy, empty_sell, fill_map, first_mismatch,
    index_map, is_first_mismatch, lemma_changed_buys_only_changed_slots, lemma_changed_buys_round_trip,
    lemma_changed_sells_only_changed_slots, lemma_changed_sells_permutation,
    lemma_changed_sells_round_trip, lemma_compare_same_snapshot, lemma_sorted_sells,
    sell_keys_unique, sort_sells, sorted_sells,
};
pub use session::{CLIENT_TIMEOUT_NANOS, HeartbeatAction, Server, heartbeat_action};
