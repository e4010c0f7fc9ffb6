use vstd::prelude::*;

use crate::amount::Amount;
use crate::order::Order;

verus! {

/// `a` may stand before `b`: not above it in ascending order, not below it
/// in descending order.
pub open spec fn in_order(a: Order, b: Order, ascending: bool) -> bool {
    if ascending {
        a.price.units <= b.price.units
    } else {
        a.price.units >= b.price.units
    }
}

/// Inserts `x` into `t` after every order that may stand before it, scanning
/// from the back: `x` ends behind all orders of its own price.
pub open spec fn insert_by_price(t: Seq<Order>, x: Order, ascending: bool) -> Seq<Order>
    decreases t.len(),
{
    if t.len() == 0 {
        seq![x]
    } else if in_order(t.last(), x, ascending) {
        t.push(x)
    } else {
        insert_by_price(t.drop_last(), x, ascending).push(t.last())
    }
}

/// The stable sort of `s` by price: insertion sort, one order at a time.
pub open spec fn sort_by_price(s: Seq<Order>, ascending: bool) -> Seq<Order>
    decreases s.len(),
{
    if s.len() == 0 {
        s
    } else {
        insert_by_price(sort_by_price(s.drop_last(), ascending), s.last(), ascending)
    }
}

pub open spec fn min_len(top: nat, len: nat) -> nat {
    if top < len {
        top
    } else {
        len
    }
}

/// The best `top` orders of `book`: sorted stably by price, then truncated.
pub open spec fn ranked(book: Seq<Order>, top: nat, ascending: bool) -> Seq<Order> {
    sort_by_price(book, ascending).take(min_len(top, book.len()) as int)
}

pub open spec fn sorted_by_price(s: Seq<Order>, ascending: bool) -> bool {
    forall|i: int, j: int| 0 <= i < j < s.len() ==> in_order(#[trigger] s[i], #[trigger] s[j], ascending)
}

pub open spec fn at_price(p: Amount) -> spec_fn(Order) -> bool {
    |o: Order| o.price == p
}

proof fn lemma_insert_at(t: Seq<Order>, x: Order, ascending: bool, j: int)
    requires
        0 <= j <= t.len(),
        forall|k: int| j <= k < t.len() ==> !in_order(#[trigger] t[k], x, ascending),
        j == 0 || in_order(t[j - 1], x, ascending),
    ensures
        insert_by_price(t, x, ascending) == t.insert(j, x),
    decreases t.len(),
{
    if t.len() == 0 {
        assert(t.insert(j, x) =~= seq![x]);
    } else if j == t.len() {
        assert(t.insert(j, x) =~= t.push(x));
    } else {
        let l = t.drop_last();
        assert(!in_order(t[t.len() - 1], x, ascending));
        assert forall|k: int| j <= k < l.len() implies !in_order(#[trigger] l[k], x, ascending) by {
            assert(l[k] == t[k]);
        }
        lemma_insert_at(l, x, ascending, j);
        assert(l.insert(j, x).push(t.last()) =~= t.insert(j, x));
    }
}

proof fn lemma_insert_len(t: Seq<Order>, x: Order, ascending: bool)
    ensures
        insert_by_price(t, x, ascending).len() == t.len() + 1,
    decreases t.len(),
{
    if t.len() > 0 && !in_order(t.last(), x, ascending) {
        lemma_insert_len(t.drop_last(), x, ascending);
    }
}

pub proof fn lemma_sort_len(s: Seq<Order>, ascending: bool)
    ensures
        sort_by_price(s, ascending).len() == s.len(),
    decreases s.len(),
{
    if s.len() > 0 {
        lemma_sort_len(s.drop_last(), ascending);
        lemma_insert_len(sort_by_price(s.drop_last(), ascending), s.last(), ascending);
    }
}

proof fn lemma_insert_bound(t: Seq<Order>, x: Order, y: Order, ascending: bool)
    requires
        forall|k: int| 0 <= k < t.len() ==> in_order(#[trigger] t[k], y, ascending),
        in_order(x, y, ascending),
    ensures
        forall|k: int|
            0 <= k < insert_by_price(t, x, ascending).len() ==> in_order(
                #[trigger] insert_by_price(t, x, ascending)[k],
                y,
                ascending,
            ),
    decreases t.len(),
{
    lemma_insert_len(t, x, ascending);
    if t.len() > 0 && !in_order(t.last(), x, ascending) {
        let l = t.drop_last();
        assert forall|k: int| 0 <= k < l.len() implies in_order(#[trigger] l[k], y, ascending) by {
            assert(l[k] == t[k]);
        }
        lemma_insert_bound(l, x, y, ascending);
        lemma_insert_len(l, x, ascending);
        let r = insert_by_price(l, x, ascending);
        assert forall|k: int| 0 <= k < r.len() + 1 implies in_order(#[trigger] r.push(t.last())[k], y, ascending) by {
            if k < r.len() {
                assert(r.push(t.last())[k] == r[k]);
            }
        }
    }
}

proof fn lemma_insert_sorted(t: Seq<Order>, x: Order, ascending: bool)
    requires
        sorted_by_price(t, ascending),
    ensures
        sorted_by_price(insert_by_price(t, x, ascending), ascending),
    decreases t.len(),
{
    if t.len() == 0 {
    } else if in_order(t.last(), x, ascending) {
        let r = t.push(x);
        assert forall|i: int, j: int| 0 <= i < j < r.len() implies in_order(#[trigger] r[i], #[trigger] r[j], ascending) by {
            if j == t.len() {
                if i < t.len() - 1 {
                    assert(in_order(t[i], t[t.len() - 1], ascending));
                }
            } else {
                assert(r[i] == t[i] && r[j] == t[j]);
            }
        }
    } else {
        let l = t.drop_last();
        let y = t.last();
        assert forall|i: int, j: int| 0 <= i < j < l.len() implies in_order(#[trigger] l[i], #[trigger] l[j], ascending) by {
            assert(l[i] == t[i] && l[j] == t[j]);
        }
        lemma_insert_sorted(l, x, ascending);
        assert forall|k: int| 0 <= k < l.len() implies in_order(#[trigger] l[k], y, ascending) by {
            assert(in_order(t[k], t[t.len() - 1], ascending));
        }
        lemma_insert_bound(l, x, y, ascending);
        lemma_insert_len(l, x, ascending);
        let m = insert_by_price(l, x, ascending);
        let r = m.push(y);
        assert forall|i: int, j: int| 0 <= i < j < r.len() implies in_order(#[trigger] r[i], #[trigger] r[j], ascending) by {
            if j == m.len() {
                assert(in_order(m[i], y, ascending));
            } else {
                assert(r[i] == m[i] && r[j] == m[j]);
            }
        }
    }
}

proof fn lemma_sort_sorted(s: Seq<Order>, ascending: bool)
    ensures
        sorted_by_price(sort_by_price(s, ascending), ascending),
    decreases s.len(),
{
    if s.len() > 0 {
        lemma_sort_sorted(s.drop_last(), ascending);
        lemma_insert_sorted(sort_by_price(s.drop_last(), ascending), s.last(), ascending);
    }
}

proof fn lemma_filter_push(s: Seq<Order>, a: Order, f: spec_fn(Order) -> bool)
    ensures
        s.push(a).filter(f) == if f(a) {
            s.filter(f).push(a)
        } else {
            s.filter(f)
        },
{
    reveal(Seq::filter);
    assert(s.push(a).drop_last() =~= s);
}

proof fn lemma_insert_filter(t: Seq<Order>, x: Order, ascending: bool, p: Amount)
    ensures
        insert_by_price(t, x, ascending).filter(at_price(p)) == t.push(x).filter(at_price(p)),
    decreases t.len(),
{
    let f = at_price(p);
    if t.len() == 0 {
        assert(seq![x] =~= t.push(x));
    } else if !in_order(t.last(), x, ascending) {
        let l = t.drop_last();
        let y = t.last();
        lemma_insert_filter(l, x, ascending, p);
        lemma_filter_push(insert_by_price(l, x, ascending), y, f);
        lemma_filter_push(l, x, f);
        lemma_filter_push(l, y, f);
        lemma_filter_push(l.push(y), x, f);
        lemma_filter_push(l.push(x), y, f);
        assert(l.push(y) =~= t);
        // `x` and `y` differ in price, so at most one of them passes the filter
        assert(!(f(x) && f(y)));
        if f(x) {
            assert(l.filter(f).push(x) == l.push(x).filter(f));
        }
    }
}

proof fn lemma_sort_filter(s: Seq<Order>, ascending: bool, p: Amount)
    ensures
        sort_by_price(s, ascending).filter(at_price(p)) == s.filter(at_price(p)),
    decreases s.len(),
{
    if s.len() > 0 {
        let l = s.drop_last();
        lemma_sort_filter(l, ascending, p);
        lemma_insert_filter(sort_by_price(l, ascending), s.last(), ascending, p);
        lemma_filter_push(sort_by_price(l, ascending), s.last(), at_price(p));
        lemma_filter_push(l, s.last(), at_price(p));
        assert(l.push(s.last()) =~= s);
    }
}

/// Ranking keeps `min(top, len)` orders.
pub proof fn lemma_rank_len(book: Seq<Order>, top: nat, ascending: bool)
    ensures
        ranked(book, top, ascending).len() == min_len(top, book.len()),
{
    lemma_sort_len(book, ascending);
}

/// A ranked list is ordered by price: non-decreasing for asks (ascending),
/// non-increasing for bids (descending).
pub proof fn lemma_rank_sorted(book: Seq<Order>, top: nat, ascending: bool)
    ensures
        sorted_by_price(ranked(book, top, ascending), ascending),
{
    lemma_sort_len(book, ascending);
    lemma_sort_sorted(book, ascending);
    let s = sort_by_price(book, ascending);
    let r = ranked(book, top, ascending);
    assert forall|i: int, j: int| 0 <= i < j < r.len() implies in_order(#[trigger] r[i], #[trigger] r[j], ascending) by {
        assert(r[i] == s[i] && r[j] == s[j]);
    }
}

/// Ranking is stable: the orders of any one price appear in a ranked list in
/// the order they had in the book, as its first few of that price; with
/// `top` at least the book's length, exactly all of them.
pub proof fn lemma_rank_stable(book: Seq<Order>, top: nat, ascending: bool, p: Amount)
    ensures
        ({
            let kept = ranked(book, top, ascending).filter(at_price(p));
            kept == book.filter(at_price(p)).take(kept.len() as int)
        }),
        top >= book.len() ==> ranked(book, top, ascending).filter(at_price(p)) == book.filter(
            at_price(p),
        ),
{
    let f = at_price(p);
    let s = sort_by_price(book, ascending);
    lemma_sort_len(book, ascending);
    lemma_sort_filter(book, ascending, p);
    let n = min_len(top, book.len()) as int;
    let front = s.take(n);
    let back = s.skip(n);
    assert(front + back =~= s);
    Seq::filter_distributes_over_add(front, back, f);
    assert(s.filter(f).take(front.filter(f).len() as int) =~= front.filter(f));
    if top >= book.len() {
        assert(front =~= s);
    }
}

/// Sorts a copy of `book` stably by price and keeps the first `top` orders.
fn rank_orders(book: &Vec<Order>, top: usize, ascending: bool) -> (r: Vec<Order>)
    ensures
        r@ == ranked(book@, top as nat, ascending),
{
    let mut sorted: Vec<Order> = Vec::new();
    let mut i: usize = 0;
    while i < book.len()
        invariant
            i <= book@.len(),
            sorted@ == sort_by_price(book@.take(i as int), ascending),
        decreases book@.len() - i,
    {
        let x = book[i].duplicate();
        let mut j: usize = sorted.len();
        let mut searching = true;
        while searching && j > 0
            invariant
                j <= sorted@.len(),
                forall|k: int| j <= k < sorted@.len() ==> !in_order(#[trigger] sorted@[k], x, ascending),
                !searching ==> j > 0 && in_order(sorted@[j - 1], x, ascending),
            decreases 2 * j + if searching { 1int } else { 0int },
        {
            let p = sorted[j - 1].price.units;
            let fits = if ascending {
                p <= x.price.units
            } else {
                p >= x.price.units
            };
            if fits {
                searching = false;
            } else {
                j = j - 1;
            }
        }
        proof {
            lemma_insert_at(sorted@, x, ascending, j as int);
            assert(book@.take(i + 1).drop_last() =~= book@.take(i as int));
        }
        sorted.insert(j, x);
        i = i + 1;
    }
    proof {
        assert(book@.take(book@.len() as int) =~= book@);
        lemma_sort_len(book@, ascending);
    }
    let n = if top < sorted.len() {
        top
    } else {
        sorted.len()
    };
    sorted.truncate(n);
    sorted
}

/// The `top` cheapest orders of `book`, cheapest first; orders of equal
/// price keep their order in `book`.
pub fn rank_asks(book: &Vec<Order>, top: usize) -> (r: Vec<Order>)
    ensures
        r@ == ranked(book@, top as nat, true),
        r@.len() == min_len(top as nat, book@.len()),
{
    proof {
        lemma_sort_len(book@, true);
    }
    rank_orders(book, top, true)
}

/// The `top` highest-priced orders of `book`, highest first; orders of equal
/// price keep their order in `book`.
pub fn rank_bids(book: &Vec<Order>, top: usize) -> (r: Vec<Order>)
    ensures
        r@ == ranked(book@, top as nat, false),
        r@.len() == min_len(top as nat, book@.len()),
{
    proof {
        lemma_sort_len(book@, false);
    }
    rank_orders(book, top, false)
}

/// The spread of a ranked book, in 10^-8 units: the best bid's price minus
/// the best ask's, or zero where either side is empty.
pub open spec fn spread_of(top_bids: Seq<Order>, top_asks: Seq<Order>) -> int {
    if top_bids.len() > 0 && top_asks.len() > 0 {
        top_bids[0].price.units - top_asks[0].price.units
    } else {
        0
    }
}

/// Best bid price minus best ask price, in 10^-8 units; exactly zero when
/// either list is empty.
pub fn spread(top_bids: &Vec<Order>, top_asks: &Vec<Order>) -> (r: i128)
    ensures
        r == spread_of(top_bids@, top_asks@),
        top_bids@.len() == 0 || top_asks@.len() == 0 ==> r == 0,
{
    if top_bids.len() > 0 && top_asks.len() > 0 {
        top_bids[0].price.units as i128 - top_asks[0].price.units as i128
    } else {
        0
    }
}

} // verus!
