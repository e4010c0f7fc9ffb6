use cex_orderbook_agg::amount::Amount;
use cex_orderbook_agg::exchanges::simulated_snapshot;
use cex_orderbook_agg::order::Order;
use cex_orderbook_agg::server::{wire_order, MyServer, QueryError, DEFAULT_WINDOW_MS};

fn order(exchange: &str, pair: &str, price_units: u64) -> Order {
    Order::new(exchange, pair, Amount::from_units(price_units), Amount::from_units(1))
}

#[test]
fn server_test_get_top_orders() {
    let server = MyServer::default();
    let snapshots = vec![simulated_snapshot("ethbtc"), simulated_snapshot("ethbtc")];
    let result = server.get_top_orders(snapshots, "ethbtc", 5);
    match result {
        Ok(orders_response) => {
            assert!(orders_response.asks.len() <= 5);
            assert!(orders_response.bids.len() <= 5);
        }
        Err(status) => panic!("Received an error: {:?}", status),
    }
}

#[test]
fn query_merges_sides_across_exchanges() {
    let server = MyServer::new(10);
    let a = (vec![order("A", "x", 6_339_000), order("A", "x", 6_340_000)], vec![order("A", "x", 6_350_000)]);
    let b = (vec![order("B", "y", 6_340_000)], vec![order("B", "y", 6_325_351), order("B", "y", 6_325_350)]);
    let t = server.get_top_orders(vec![a, b], "ethbtc", 2).unwrap();
    let bids: Vec<(u64, &str)> = t.bids.iter().map(|o| (o.price.units, o.exchange.as_str())).collect();
    assert_eq!(bids, vec![(6_340_000, "A"), (6_340_000, "B")]);
    let asks: Vec<u64> = t.asks.iter().map(|o| o.price.units).collect();
    assert_eq!(asks, vec![6_325_350, 6_325_351]);
    assert!(t.bids.iter().chain(t.asks.iter()).all(|o| o.pair == "ethbtc"));
    assert_eq!(t.spread, 6_340_000 - 6_325_350);
}

#[test]
fn query_with_no_data_is_degenerate() {
    let t = MyServer::default().get_top_orders(vec![(vec![], vec![]), (vec![], vec![])], "ethbtc", 10).unwrap();
    assert!(t.bids.is_empty());
    assert!(t.asks.is_empty());
    assert_eq!(t.spread, 0);
}

#[test]
fn query_errors() {
    let server = MyServer::default();
    assert_eq!(server.get_top_orders(vec![], "eth-btc", 5).err(), Some(QueryError::InvalidPair));
    assert_eq!(server.get_top_orders(vec![], "", 5).err(), Some(QueryError::InvalidPair));
    assert_eq!(server.get_top_orders(vec![], "ethbtc", -1).err(), Some(QueryError::NegativeTop));
}

#[test]
fn default_window() {
    assert_eq!(MyServer::default().window_ms, DEFAULT_WINDOW_MS);
    assert_eq!(DEFAULT_WINDOW_MS, 5000);
}

#[test]
fn wire_order_id() {
    let w = wire_order(&order("binance", "ethbtc", 42));
    assert_eq!(w.id, "binance-ethbtc");
    assert_eq!(w.price.units, 42);
}
