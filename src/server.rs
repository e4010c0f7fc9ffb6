use vstd::prelude::*;

use crate::amount::Amount;
use crate::combine_orderbook::{combine_order_books, is_combined, sides_concat};
use crate::exchanges::{is_valid_pair, valid_pair};
use crate::order::{Order, Snapshot, relabelled};
use crate::rank::{in_order, insert_by_price, lemma_sort_len, rank_asks, rank_bids, ranked, sort_by_price, spread, spread_of};

verus! {

/// How long a query lets the feed adapters run, by default.
pub const DEFAULT_WINDOW_MS: u64 = 5000;

/// The query service: runs the exchanges' feeds for a fixed window per
/// query, then combines and ranks what they published.
#[derive(Debug)]
pub struct MyServer {
    pub window_ms: u64,
}

impl Default for MyServer {
    fn default() -> (r: MyServer)
        ensures
            r.window_ms == DEFAULT_WINDOW_MS,
    {
        MyServer { window_ms: DEFAULT_WINDOW_MS }
    }
}

/// The answer to a top-of-book query.
#[derive(Debug)]
pub struct TopOrders {
    pub bids: Vec<Order>,
    pub asks: Vec<Order>,
    /// Best bid minus best ask, in 10^-8 units; zero when a side is empty.
    pub spread: i128,
}

/// Why a query was refused.
#[derive(Clone, Copy, Debug, PartialEq, Eq, Structural)]
pub enum QueryError {
    /// The pair is not a plain symbol of letters and digits.
    InvalidPair,
    /// A negative number of orders was asked for.
    NegativeTop,
}

/// An order as the query reply carries it: identified by exchange and pair.
#[derive(Clone, Debug)]
pub struct WireOrder {
    pub id: String,
    pub price: Amount,
    pub size: Amount,
}

/// The orders of one side (bids, or asks) of every snapshot, in order.
pub open spec fn side_concat(books: Seq<Snapshot>, bids: bool) -> Seq<Order>
    decreases books.len(),
{
    if books.len() == 0 {
        Seq::empty()
    } else {
        side_concat(books.drop_last(), bids) + if bids {
            books.last().0@
        } else {
            books.last().1@
        }
    }
}

/// `a` is `b`, order by order, retagged with `pair`.
pub open spec fn relabelled_all(a: Seq<Order>, b: Seq<Order>, pair: Seq<char>) -> bool {
    a.len() == b.len() && forall|i: int| 0 <= i < a.len() ==> relabelled(#[trigger] a[i], b[i], pair)
}

/// `r` holds one side of each of `books`, with nothing on the other side.
pub open spec fn one_side_of(r: Seq<Snapshot>, books: Seq<Snapshot>, bids: bool) -> bool {
    &&& r.len() == books.len()
    &&& forall|i: int|
        0 <= i < r.len() ==> (#[trigger] r[i]).0@ == (if bids {
            books[i].0@
        } else {
            books[i].1@
        }) && r[i].1@.len() == 0
}

proof fn lemma_one_side(r: Seq<Snapshot>, books: Seq<Snapshot>, bids: bool)
    requires
        one_side_of(r, books, bids),
    ensures
        sides_concat(r) == side_concat(books, bids),
    decreases books.len(),
{
    if books.len() > 0 {
        let rl = r.drop_last();
        let bl = books.drop_last();
        assert forall|i: int| 0 <= i < rl.len() implies (#[trigger] rl[i]).0@ == (if bids {
            bl[i].0@
        } else {
            bl[i].1@
        }) && rl[i].1@.len() == 0 by {
            assert(rl[i] == r[i] && bl[i] == books[i]);
        }
        lemma_one_side(rl, bl, bids);
        assert(r.last() == r[r.len() - 1]);
        assert(r.last().1@ =~= Seq::<Order>::empty());
        assert(sides_concat(r) =~= side_concat(books, bids));
    }
}

proof fn lemma_insert_relabelled(ta: Seq<Order>, tb: Seq<Order>, xa: Order, xb: Order, ascending: bool, pair: Seq<char>)
    requires
        relabelled_all(ta, tb, pair),
        relabelled(xa, xb, pair),
    ensures
        relabelled_all(insert_by_price(ta, xa, ascending), insert_by_price(tb, xb, ascending), pair),
    decreases ta.len(),
{
    if ta.len() == 0 {
    } else if in_order(tb.last(), xb, ascending) {
        assert(relabelled(ta[ta.len() - 1], tb[tb.len() - 1], pair));
        let a = ta.push(xa);
        let b = tb.push(xb);
        assert forall|i: int| 0 <= i < a.len() implies relabelled(#[trigger] a[i], b[i], pair) by {
            if i < ta.len() {
                assert(relabelled(ta[i], tb[i], pair));
            }
        }
    } else {
        assert(relabelled(ta[ta.len() - 1], tb[tb.len() - 1], pair));
        let la = ta.drop_last();
        let lb = tb.drop_last();
        assert forall|i: int| 0 <= i < la.len() implies relabelled(#[trigger] la[i], lb[i], pair) by {
            assert(relabelled(ta[i], tb[i], pair));
        }
        lemma_insert_relabelled(la, lb, xa, xb, ascending, pair);
        let ma = insert_by_price(la, xa, ascending);
        let mb = insert_by_price(lb, xb, ascending);
        let a = ma.push(ta.last());
        let b = mb.push(tb.last());
        assert forall|i: int| 0 <= i < a.len() implies relabelled(#[trigger] a[i], b[i], pair) by {
            if i < ma.len() {
                assert(relabelled(ma[i], mb[i], pair));
            }
        }
    }
}

proof fn lemma_sort_relabelled(a: Seq<Order>, b: Seq<Order>, ascending: bool, pair: Seq<char>)
    requires
        relabelled_all(a, b, pair),
    ensures
        relabelled_all(sort_by_price(a, ascending), sort_by_price(b, ascending), pair),
    decreases a.len(),
{
    if a.len() > 0 {
        let la = a.drop_last();
        let lb = b.drop_last();
        assert forall|i: int| 0 <= i < la.len() implies relabelled(#[trigger] la[i], lb[i], pair) by {
            assert(relabelled(a[i], b[i], pair));
        }
        lemma_sort_relabelled(la, lb, ascending, pair);
        assert(relabelled(a[a.len() - 1], b[b.len() - 1], pair));
        lemma_insert_relabelled(
            sort_by_price(la, ascending),
            sort_by_price(lb, ascending),
            a.last(),
            b.last(),
            ascending,
            pair,
        );
    }
}

proof fn lemma_rank_relabelled(a: Seq<Order>, b: Seq<Order>, top: nat, ascending: bool, pair: Seq<char>)
    requires
        relabelled_all(a, b, pair),
    ensures
        relabelled_all(ranked(a, top, ascending), ranked(b, top, ascending), pair),
{
    lemma_sort_relabelled(a, b, ascending, pair);
    lemma_sort_len(a, ascending);
    lemma_sort_len(b, ascending);
    let sa = sort_by_price(a, ascending);
    let sb = sort_by_price(b, ascending);
    let ra = ranked(a, top, ascending);
    let rb = ranked(b, top, ascending);
    assert forall|i: int| 0 <= i < ra.len() implies relabelled(#[trigger] ra[i], rb[i], pair) by {
        assert(relabelled(sa[i], sb[i], pair));
    }
}

/// Splits snapshots into bid-only and ask-only snapshots.
fn split_sides(snapshots: Vec<Snapshot>) -> (r: (Vec<Snapshot>, Vec<Snapshot>))
    ensures
        one_side_of(r.0@, snapshots@, true),
        one_side_of(r.1@, snapshots@, false),
{
    let ghost orig = snapshots@;
    let mut rest = snapshots;
    let n = rest.len();
    let mut bids: Vec<Snapshot> = Vec::new();
    let mut asks: Vec<Snapshot> = Vec::new();
    let mut k: usize = 0;
    while k < n
        invariant
            n == orig.len(),
            k + rest@.len() == n,
            rest@ == orig.skip(k as int),
            bids@.len() == k,
            asks@.len() == k,
            forall|i: int| 0 <= i < k ==> (#[trigger] bids@[i]).0@ == orig[i].0@ && bids@[i].1@.len() == 0,
            forall|i: int| 0 <= i < k ==> (#[trigger] asks@[i]).0@ == orig[i].1@ && asks@[i].1@.len() == 0,
        decreases n - k,
    {
        let (b, a) = rest.remove(0);
        assert(orig[k as int] == (b, a));
        bids.push((b, Vec::new()));
        asks.push((a, Vec::new()));
        assert(orig.skip(k + 1) =~= orig.skip(k as int).remove(0));
        k = k + 1;
    }
    (bids, asks)
}

/// What a successful query answers for these snapshots, pair and `top`:
/// the best `top` bids (highest first) and asks (lowest first) over all
/// snapshots, each tagged with `pair`, and the spread between them.
pub open spec fn answers(t: TopOrders, books: Seq<Snapshot>, pair: Seq<char>, top: nat) -> bool {
    &&& relabelled_all(t.bids@, ranked(side_concat(books, true), top, false), pair)
    &&& relabelled_all(t.asks@, ranked(side_concat(books, false), top, true), pair)
    &&& t.spread == spread_of(t.bids@, t.asks@)
}

impl MyServer {
    pub fn new(window_ms: u64) -> (r: MyServer)
        ensures
            r.window_ms == window_ms,
    {
        MyServer { window_ms }
    }

    /// Answers a top-of-book query from the snapshots that the capture
    /// collected: the bids of all exchanges combined and ranked highest
    /// first, the asks lowest first, `top` of each, and the spread.
    pub fn get_top_orders(&self, snapshots: Vec<Snapshot>, pair: &str, top: i32) -> (r: Result<
        TopOrders,
        QueryError,
    >)
        ensures
            !valid_pair(pair@) ==> r == Err::<TopOrders, QueryError>(QueryError::InvalidPair),
            valid_pair(pair@) && top < 0 ==> r == Err::<TopOrders, QueryError>(QueryError::NegativeTop),
            valid_pair(pair@) && top >= 0 ==> (r matches Ok(t) && answers(t, snapshots@, pair@, top as nat)),
    {
        if !is_valid_pair(pair) {
            return Err(QueryError::InvalidPair);
        }
        if top < 0 {
            return Err(QueryError::NegativeTop);
        }
        let n = top as usize;
        let ghost books = snapshots@;
        let (bid_books, ask_books) = split_sides(snapshots);
        proof {
            lemma_one_side(bid_books@, books, true);
            lemma_one_side(ask_books@, books, false);
        }
        let ghost bid_snaps = bid_books@;
        let ghost ask_snaps = ask_books@;
        let bid_book = combine_order_books(bid_books, pair);
        let ask_book = combine_order_books(ask_books, pair);
        let bids = rank_bids(&bid_book, n);
        let asks = rank_asks(&ask_book, n);
        proof {
            lemma_rank_relabelled(bid_book@, side_concat(books, true), n as nat, false, pair@);
            lemma_rank_relabelled(ask_book@, side_concat(books, false), n as nat, true, pair@);
        }
        let s = spread(&bids, &asks);
        Ok(TopOrders { bids, asks, spread: s })
    }
}

/// The reply form of an order: `id` is `<exchange>-<pair>`.
pub fn wire_order(o: &Order) -> (r: WireOrder)
    ensures
        r.id@ == o.exchange@ + "-"@ + o.pair@,
        r.price == o.price,
        r.size == o.size,
{
    let mut id = o.exchange.clone();
    id.append("-");
    id.append(o.pair.as_str());
    WireOrder { id, price: o.price, size: o.size }
}

} // verus!
