use cex_orderbook_agg::amount::{parse_amount, Amount};
use cex_orderbook_agg::combine_orderbook::combine_order_books;
use cex_orderbook_agg::order::Order;

fn amount(s: &str) -> Amount {
    parse_amount(s).expect("numeral")
}

fn as_f64(a: Amount) -> f64 {
    a.units as f64 / 1e8
}

fn order(exchange: &str, pair: &str, price: &str, size: &str) -> Order {
    Order::new(exchange, pair, amount(price), amount(size))
}

#[test]
fn test_combine_order_books() {
    let binance_bids = vec![
        order("Binance", "", "0.06339", "74.5795"),
        order("Binance", "", "0.0634", "0.0708"),
    ];
    let bitstamp_asks = vec![
        order("Bitstamp", "", "0.06325351", "0.17432178"),
        order("Bitstamp", "", "0.0632535", "0.7"),
    ];
    let order_books = vec![(binance_bids, bitstamp_asks)];

    let combined_order_book = combine_order_books(order_books, "ethbtc");

    assert_eq!(combined_order_book.len(), 4);
    assert_eq!(combined_order_book[0].exchange, "Binance");
    assert_eq!(combined_order_book[0].pair, "ethbtc");
    assert_eq!(as_f64(combined_order_book[0].price), 0.06339);
    assert_eq!(as_f64(combined_order_book[0].size), 74.5795);

    assert_eq!(combined_order_book[1].exchange, "Binance");
    assert_eq!(combined_order_book[1].pair, "ethbtc");
    assert_eq!(as_f64(combined_order_book[1].price), 0.0634);
    assert_eq!(as_f64(combined_order_book[1].size), 0.0708);

    assert_eq!(combined_order_book[2].exchange, "Bitstamp");
    assert_eq!(combined_order_book[2].pair, "ethbtc");
    assert_eq!(as_f64(combined_order_book[2].price), 0.06325351);
    assert_eq!(as_f64(combined_order_book[2].size), 0.17432178);

    assert_eq!(combined_order_book[3].exchange, "Bitstamp");
    assert_eq!(combined_order_book[3].pair, "ethbtc");
    assert_eq!(as_f64(combined_order_book[3].price), 0.0632535);
    assert_eq!(as_f64(combined_order_book[3].size), 0.7);
}

#[test]
fn combine_two_snapshots_in_input_order() {
    let a = (
        vec![order("A", "x", "0.06339", "74.5795"), order("A", "x", "0.0634", "0.0708")],
        vec![],
    );
    let b = (
        vec![],
        vec![order("B", "y", "0.06325351", "0.17432178"), order("B", "y", "0.0632535", "0.7")],
    );
    let combined = combine_order_books(vec![a, b], "ethbtc");
    let prices: Vec<u64> = combined.iter().map(|o| o.price.units).collect();
    assert_eq!(prices, vec![6339000, 6340000, 6325351, 6325350]);
    let exchanges: Vec<&str> = combined.iter().map(|o| o.exchange.as_str()).collect();
    assert_eq!(exchanges, vec!["A", "A", "B", "B"]);
    assert!(combined.iter().all(|o| o.pair == "ethbtc"));
}

#[test]
fn combine_length_is_sum_of_sides() {
    let s1 = (vec![order("A", "", "1", "1")], vec![order("A", "", "2", "1"), order("A", "", "3", "1")]);
    let s2 = (vec![order("B", "", "4", "1")], vec![]);
    let s3 = (vec![], vec![]);
    let combined = combine_order_books(vec![s1, s2, s3], "p");
    assert_eq!(combined.len(), 4);
    let prices: Vec<u64> = combined.iter().map(|o| o.price.units / 100_000_000).collect();
    assert_eq!(prices, vec![1, 2, 3, 4]);
}

#[test]
fn combine_overwrites_pair() {
    let s = (vec![order("A", "btcusd", "1", "1")], vec![order("B", "ethusd", "2", "1")]);
    let combined = combine_order_books(vec![s], "xyz");
    assert!(combined.iter().all(|o| o.pair == "xyz"));
}

#[test]
fn combine_empty_input() {
    assert!(combine_order_books(vec![], "ethbtc").is_empty());
}
