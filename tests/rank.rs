use cex_orderbook_agg::amount::Amount;
use cex_orderbook_agg::order::Order;
use cex_orderbook_agg::rank::{rank_asks, rank_bids, spread};

fn order(exchange: &str, price_units: u64) -> Order {
    Order::new(exchange, "ethbtc", Amount::from_units(price_units), Amount::from_units(1))
}

fn prices(v: &[Order]) -> Vec<u64> {
    v.iter().map(|o| o.price.units).collect()
}

#[test]
fn single_bid_and_ask_spread() {
    let bids = vec![order("A", 6_400_000)];
    let asks = vec![order("B", 6_300_000)];
    let top_bids = rank_bids(&bids, 10);
    let top_asks = rank_asks(&asks, 10);
    assert_eq!(prices(&top_bids), vec![6_400_000]);
    assert_eq!(prices(&top_asks), vec![6_300_000]);
    let s = spread(&top_bids, &top_asks);
    assert_eq!(s, 100_000);
    assert_eq!(s as f64 / 1e8, 0.001);
}

#[test]
fn empty_book_ranks_empty() {
    let book: Vec<Order> = vec![];
    let top_bids = rank_bids(&book, 10);
    let top_asks = rank_asks(&book, 10);
    assert!(top_bids.is_empty());
    assert!(top_asks.is_empty());
    assert_eq!(spread(&top_bids, &top_asks), 0);
}

#[test]
fn spread_zero_when_one_side_empty() {
    let one = vec![order("A", 5)];
    let none: Vec<Order> = vec![];
    assert_eq!(spread(&one, &none), 0);
    assert_eq!(spread(&none, &one), 0);
}

#[test]
fn spread_can_be_negative() {
    let bids = vec![order("A", 100)];
    let asks = vec![order("B", 250)];
    assert_eq!(spread(&bids, &asks), -150);
}

#[test]
fn rank_truncates_to_top() {
    let book = vec![order("A", 5), order("A", 3), order("B", 9), order("B", 1)];
    assert_eq!(rank_asks(&book, 0).len(), 0);
    assert_eq!(rank_asks(&book, 2).len(), 2);
    assert_eq!(rank_asks(&book, 4).len(), 4);
    assert_eq!(rank_asks(&book, 100).len(), 4);
    assert_eq!(rank_bids(&book, 3).len(), 3);
}

#[test]
fn rank_sorts_by_price() {
    let book = vec![order("A", 5), order("A", 3), order("B", 9), order("B", 1), order("C", 3)];
    assert_eq!(prices(&rank_asks(&book, 10)), vec![1, 3, 3, 5, 9]);
    assert_eq!(prices(&rank_bids(&book, 10)), vec![9, 5, 3, 3, 1]);
    assert_eq!(prices(&rank_asks(&book, 2)), vec![1, 3]);
    assert_eq!(prices(&rank_bids(&book, 2)), vec![9, 5]);
}

#[test]
fn rank_is_stable_for_equal_prices() {
    let book = vec![order("X", 7), order("A", 3), order("Y", 7), order("B", 3), order("Z", 7)];
    let asks: Vec<String> = rank_asks(&book, 10).into_iter().map(|o| o.exchange).collect();
    assert_eq!(asks, vec!["A", "B", "X", "Y", "Z"]);
    let bids: Vec<String> = rank_bids(&book, 10).into_iter().map(|o| o.exchange).collect();
    assert_eq!(bids, vec!["X", "Y", "Z", "A", "B"]);
    let top2: Vec<String> = rank_bids(&book, 2).into_iter().map(|o| o.exchange).collect();
    assert_eq!(top2, vec!["X", "Y"]);
}

#[test]
fn rank_leaves_book_unchanged() {
    let book = vec![order("A", 5), order("B", 1)];
    let _ = rank_asks(&book, 2);
    assert_eq!(prices(&book), vec![5, 1]);
}
