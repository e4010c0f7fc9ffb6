use vstd::prelude::*;

use crate::amount::{Amount, UNITS_PER_WHOLE, parse_amount, parsed_amount};
use crate::order::{Order, Snapshot};

verus! {

/// One `[price, size]` level of a Binance depth message, as sent.
#[derive(Clone, Debug)]
pub struct BidOrAsk {
    pub price: String,
    pub size: String,
}

/// The body of a Binance partial-depth message.
#[derive(Clone, Debug)]
pub struct DepthStreamData {
    pub bids: Vec<BidOrAsk>,
    pub asks: Vec<BidOrAsk>,
}

/// A Binance combined-stream message: the stream's name and its depth body.
#[derive(Clone, Debug)]
pub struct DepthStreamWrapper {
    pub stream: String,
    pub data: DepthStreamData,
}

/// A Bitstamp websocket message: its event name and, for `data` events, the
/// book's levels, each a list of strings led by price and size.
#[derive(Clone, Debug)]
pub struct BitstampMessage {
    pub event: String,
    pub bids: Vec<Vec<String>>,
    pub asks: Vec<Vec<String>>,
}

/// Why a feed adapter stopped or a message was refused.
#[derive(Clone, Copy, Debug, PartialEq, Eq, Structural)]
pub enum FeedError {
    /// The connection or its handshake failed.
    Connection,
    /// Reading from an open connection failed.
    Transport,
    /// The exchange closed the connection.
    Closed,
    /// A price or size was not a decimal numeral.
    Parse,
}

/// Exchange names as they tag orders.
pub const BINANCE: &'static str = "binance";

pub const BITSTAMP: &'static str = "Bitstamp";

/// Bitstamp messages carry deep books; only this many levels per side are kept.
pub const BITSTAMP_DEPTH: usize = 20;

pub open spec fn is_symbol_char(c: char) -> bool {
    ('a' <= c && c <= 'z') || ('A' <= c && c <= 'Z') || ('0' <= c && c <= '9')
}

/// A trading pair symbol such as `ethbtc`: non-empty, letters and digits only.
pub open spec fn valid_pair(pair: Seq<char>) -> bool {
    pair.len() > 0 && forall|i: int| 0 <= i < pair.len() ==> is_symbol_char(#[trigger] pair[i])
}

pub fn is_valid_pair(pair: &str) -> (r: bool)
    ensures
        r == valid_pair(pair@),
{
    let n = pair.unicode_len();
    if n == 0 {
        return false;
    }
    let mut i: usize = 0;
    while i < n
        invariant
            i <= n == pair@.len(),
            forall|k: int| 0 <= k < i ==> is_symbol_char(#[trigger] pair@[k]),
        decreases n - i,
    {
        let c = pair.get_char(i);
        if !(('a' <= c && c <= 'z') || ('A' <= c && c <= 'Z') || ('0' <= c && c <= '9')) {
            return false;
        }
        i = i + 1;
    }
    true
}

pub fn str_equal(a: &str, b: &str) -> (r: bool)
    ensures
        r == (a@ == b@),
{
    let n = a.unicode_len();
    if n != b.unicode_len() {
        return false;
    }
    let mut i: usize = 0;
    while i < n
        invariant
            i <= n == a@.len() == b@.len(),
            forall|k: int| 0 <= k < i ==> a@[k] == b@[k],
        decreases n - i,
    {
        if a.get_char(i) != b.get_char(i) {
            return false;
        }
        i = i + 1;
    }
    assert(a@ =~= b@);
    true
}

/// `o` is the order that a level with these price and size strings becomes.
pub open spec fn level_order(
    o: Order,
    price: Seq<char>,
    size: Seq<char>,
    exchange: Seq<char>,
    pair: Seq<char>,
) -> bool {
    &&& o.exchange@ == exchange
    &&& o.pair@ == pair
    &&& parsed_amount(price) == Some(o.price)
    &&& parsed_amount(size) == Some(o.size)
}

pub open spec fn level_parses(price: Seq<char>, size: Seq<char>) -> bool {
    parsed_amount(price).is_some() && parsed_amount(size).is_some()
}

/// Turns Binance levels into orders, failing if any price or size is not a
/// numeral.
pub fn binance_orders(levels: &Vec<BidOrAsk>, pair: &str) -> (r: Result<Vec<Order>, FeedError>)
    ensures
        match r {
            Ok(v) => v@.len() == levels@.len() && forall|i: int|
                0 <= i < v@.len() ==> level_order(
                    #[trigger] v@[i],
                    levels@[i].price@,
                    levels@[i].size@,
                    BINANCE@,
                    pair@,
                ),
            Err(e) => e == FeedError::Parse && exists|i: int|
                0 <= i < levels@.len() && !level_parses(
                    #[trigger] levels@[i].price@,
                    levels@[i].size@,
                ),
        },
        r.is_ok() <==> forall|i: int|
            0 <= i < levels@.len() ==> level_parses(#[trigger] levels@[i].price@, levels@[i].size@),
{
    let mut out: Vec<Order> = Vec::new();
    let mut i: usize = 0;
    while i < levels.len()
        invariant
            i <= levels@.len(),
            out@.len() == i,
            forall|k: int| 0 <= k < i ==> level_parses(#[trigger] levels@[k].price@, levels@[k].size@),
            forall|k: int|
                0 <= k < i ==> level_order(
                    #[trigger] out@[k],
                    levels@[k].price@,
                    levels@[k].size@,
                    BINANCE@,
                    pair@,
                ),
        decreases levels@.len() - i,
    {
        let level = &levels[i];
        let price = parse_amount(level.price.as_str());
        let size = parse_amount(level.size.as_str());
        match (price, size) {
            (Some(p), Some(s)) => {
                out.push(Order::new(BINANCE, pair, p, s));
            },
            _ => {
                assert(!level_parses(levels@[i as int].price@, levels@[i as int].size@));
                return Err(FeedError::Parse);
            },
        }
        i = i + 1;
    }
    Ok(out)
}

/// The snapshot of one Binance depth message: all its bids and asks, tagged
/// `binance` and `pair`. Fails with `Parse` if any level does not parse.
pub fn binance_snapshot(data: &DepthStreamData, pair: &str) -> (r: Result<Snapshot, FeedError>)
    ensures
        match r {
            Ok(s) => {
                &&& s.0@.len() == data.bids@.len()
                &&& s.1@.len() == data.asks@.len()
                &&& forall|i: int|
                    0 <= i < s.0@.len() ==> level_order(
                        #[trigger] s.0@[i],
                        data.bids@[i].price@,
                        data.bids@[i].size@,
                        BINANCE@,
                        pair@,
                    )
                &&& forall|i: int|
                    0 <= i < s.1@.len() ==> level_order(
                        #[trigger] s.1@[i],
                        data.asks@[i].price@,
                        data.asks@[i].size@,
                        BINANCE@,
                        pair@,
                    )
            },
            Err(e) => e == FeedError::Parse,
        },
        r.is_ok() <==> (forall|i: int|
            0 <= i < data.bids@.len() ==> level_parses(
                #[trigger] data.bids@[i].price@,
                data.bids@[i].size@,
            )) && (forall|i: int|
            0 <= i < data.asks@.len() ==> level_parses(
                #[trigger] data.asks@[i].price@,
                data.asks@[i].size@,
            )),
{
    let bids = binance_orders(&data.bids, pair)?;
    let asks = binance_orders(&data.asks, pair)?;
    Ok((bids, asks))
}

pub open spec fn bitstamp_level_ok(level: Seq<String>) -> bool {
    level.len() >= 2 && level_parses(level[0]@, level[1]@)
}

pub open spec fn bitstamp_level_order(o: Order, level: Seq<String>, pair: Seq<char>) -> bool {
    level.len() >= 2 && level_order(o, level[0]@, level[1]@, BITSTAMP@, pair)
}

pub open spec fn depth_of(n: nat) -> nat {
    if n < BITSTAMP_DEPTH {
        n
    } else {
        BITSTAMP_DEPTH as nat
    }
}

/// Turns the first twenty Bitstamp levels into orders, failing if one of
/// them lacks a price and a size or holds a non-numeral.
pub fn bitstamp_orders(levels: &Vec<Vec<String>>, pair: &str) -> (r: Result<Vec<Order>, FeedError>)
    ensures
        r.is_ok() <==> forall|i: int|
            0 <= i < depth_of(levels@.len()) ==> bitstamp_level_ok(#[trigger] levels@[i]@),
        match r {
            Ok(v) => v@.len() == depth_of(levels@.len()) && forall|i: int|
                0 <= i < v@.len() ==> bitstamp_level_order(#[trigger] v@[i], levels@[i]@, pair@),
            Err(e) => e == FeedError::Parse,
        },
{
    let n = if levels.len() < BITSTAMP_DEPTH {
        levels.len()
    } else {
        BITSTAMP_DEPTH
    };
    let mut out: Vec<Order> = Vec::new();
    let mut i: usize = 0;
    while i < n
        invariant
            n == depth_of(levels@.len()),
            n <= levels@.len(),
            i <= n,
            out@.len() == i,
            forall|k: int| 0 <= k < i ==> bitstamp_level_ok(#[trigger] levels@[k]@),
            forall|k: int| 0 <= k < i ==> bitstamp_level_order(#[trigger] out@[k], levels@[k]@, pair@),
        decreases n - i,
    {
        let level = &levels[i];
        if level.len() < 2 {
            return Err(FeedError::Parse);
        }
        let price = parse_amount(level[0].as_str());
        let size = parse_amount(level[1].as_str());
        match (price, size) {
            (Some(p), Some(s)) => {
                out.push(Order::new(BITSTAMP, pair, p, s));
            },
            _ => {
                return Err(FeedError::Parse);
            },
        }
        i = i + 1;
    }
    Ok(out)
}

pub open spec fn is_data_event(event: Seq<char>) -> bool {
    event == "data"@
}

/// The snapshot of one Bitstamp message: `None` for events other than
/// `data`, else the first twenty bids and asks tagged `Bitstamp` and `pair`.
/// Fails with `Parse` if a kept level is malformed.
pub fn bitstamp_snapshot(msg: &BitstampMessage, pair: &str) -> (r: Result<Option<Snapshot>, FeedError>)
    ensures
        !is_data_event(msg.event@) ==> r == Ok::<Option<Snapshot>, FeedError>(None),
        is_data_event(msg.event@) ==> match r {
            Ok(Some(s)) => {
                &&& s.0@.len() == depth_of(msg.bids@.len())
                &&& s.1@.len() == depth_of(msg.asks@.len())
                &&& forall|i: int|
                    0 <= i < s.0@.len() ==> bitstamp_level_order(#[trigger] s.0@[i], msg.bids@[i]@, pair@)
                &&& forall|i: int|
                    0 <= i < s.1@.len() ==> bitstamp_level_order(#[trigger] s.1@[i], msg.asks@[i]@, pair@)
            },
            Ok(None) => false,
            Err(e) => e == FeedError::Parse,
        },
        is_data_event(msg.event@) ==> (r.is_ok() <==> (forall|i: int|
            0 <= i < depth_of(msg.bids@.len()) ==> bitstamp_level_ok(#[trigger] msg.bids@[i]@)) && (
        forall|i: int|
            0 <= i < depth_of(msg.asks@.len()) ==> bitstamp_level_ok(#[trigger] msg.asks@[i]@))),
{
    if !str_equal(msg.event.as_str(), "data") {
        return Ok(None);
    }
    let bids = bitstamp_orders(&msg.bids, pair)?;
    let asks = bitstamp_orders(&msg.asks, pair)?;
    Ok(Some((bids, asks)))
}

/// The Binance partial-depth stream of `pair`: twenty levels every 100 ms.
pub fn binance_stream_url(pair: &str) -> (r: String)
    ensures
        r@ == "wss://stream.binance.com:9443/ws/"@ + pair@ + "@depth20@100ms"@,
{
    let mut url = String::from_str("wss://stream.binance.com:9443/ws/");
    url.append(pair);
    url.append("@depth20@100ms");
    url
}

/// The Bitstamp websocket endpoint.
pub fn bitstamp_stream_url() -> (r: String)
    ensures
        r@ == "wss://ws.bitstamp.net"@,
{
    String::from_str("wss://ws.bitstamp.net")
}

/// The message that subscribes to Bitstamp's live book of `pair`; `None`
/// where `pair` is not a plain symbol (it is written into the message).
pub fn bitstamp_subscribe_message(pair: &str) -> (r: Option<String>)
    ensures
        match r {
            Some(m) => valid_pair(pair@) && m@ == "{\"data\":{\"channel\":\"order_book_"@ + pair@
                + "\"},\"event\":\"bts:subscribe\"}"@,
            None => !valid_pair(pair@),
        },
{
    if !is_valid_pair(pair) {
        return None;
    }
    let mut m = String::from_str("{\"data\":{\"channel\":\"order_book_");
    m.append(pair);
    m.append("\"},\"event\":\"bts:subscribe\"}");
    Some(m)
}

/// Relies on rand::random: a value drawn from the thread-local generator;
/// nothing is known of which.
pub assume_specification<T>[ rand::random::<T> ]() -> (r: T)
    where
        rand::distributions::Standard: rand::distributions::Distribution<T>,
;

/// A simulated Bitstamp order from two random draws: price and size are the
/// draws reduced below one whole unit.
pub fn simulated_order(price_draw: u64, size_draw: u64, pair: &str) -> (r: Order)
    ensures
        r.exchange@ == BITSTAMP@,
        r.pair@ == pair@,
        r.price.units == price_draw % UNITS_PER_WHOLE,
        r.size.units == size_draw % UNITS_PER_WHOLE,
{
    Order::new(
        BITSTAMP,
        pair,
        Amount::from_units(price_draw % UNITS_PER_WHOLE),
        Amount::from_units(size_draw % UNITS_PER_WHOLE),
    )
}

pub open spec fn is_simulated_side(side: Seq<Order>, pair: Seq<char>) -> bool {
    &&& side.len() == BITSTAMP_DEPTH
    &&& forall|i: int|
        0 <= i < side.len() ==> {
            &&& (#[trigger] side[i]).exchange@ == BITSTAMP@
            &&& side[i].pair@ == pair
            &&& side[i].price.units < UNITS_PER_WHOLE
            &&& side[i].size.units < UNITS_PER_WHOLE
        }
}

fn simulated_side(pair: &str) -> (r: Vec<Order>)
    ensures
        is_simulated_side(r@, pair@),
{
    let mut side: Vec<Order> = Vec::new();
    let mut i: usize = 0;
    while i < BITSTAMP_DEPTH
        invariant
            i <= BITSTAMP_DEPTH,
            side@.len() == i,
            forall|k: int|
                0 <= k < i ==> {
                    &&& (#[trigger] side@[k]).exchange@ == BITSTAMP@
                    &&& side@[k].pair@ == pair@
                    &&& side@[k].price.units < UNITS_PER_WHOLE
                    &&& side@[k].size.units < UNITS_PER_WHOLE
                },
        decreases BITSTAMP_DEPTH - i,
    {
        let price_draw: u64 = rand::random::<u64>();
        let size_draw: u64 = rand::random::<u64>();
        side.push(simulated_order(price_draw, size_draw, pair));
        i = i + 1;
    }
    side
}

/// A random Bitstamp-like snapshot of twenty bids and twenty asks, each
/// price and size below one whole unit, for exercising a capture without a
/// connection.
pub fn simulated_snapshot(pair: &str) -> (r: Snapshot)
    ensures
        is_simulated_side(r.0@, pair@),
        is_simulated_side(r.1@, pair@),
{
    let bids = simulated_side(pair);
    let asks = simulated_side(pair);
    (bids, asks)
}

} // verus!
