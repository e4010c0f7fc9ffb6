use vstd::prelude::*;

use crate::order::{Order, Snapshot, relabelled};

verus! {

/// All orders of the snapshots in sequence: the bids of the first, its asks,
/// the bids of the second, and so on.
pub open spec fn sides_concat(books: Seq<Snapshot>) -> Seq<Order>
    decreases books.len(),
{
    if books.len() == 0 {
        Seq::empty()
    } else {
        sides_concat(books.drop_last()) + books.last().0@ + books.last().1@
    }
}

/// The number of orders over all sides of all snapshots.
pub open spec fn total_len(books: Seq<Snapshot>) -> nat
    decreases books.len(),
{
    if books.len() == 0 {
        0
    } else {
        total_len(books.drop_last()) + books.last().0@.len() + books.last().1@.len()
    }
}

/// `r` is the combined book of `books` for `pair`: every order in input order,
/// each tagged with `pair`.
pub open spec fn is_combined(r: Seq<Order>, books: Seq<Snapshot>, pair: Seq<char>) -> bool {
    &&& r.len() == sides_concat(books).len()
    &&& forall|i: int| 0 <= i < r.len() ==> relabelled(#[trigger] r[i], sides_concat(books)[i], pair)
}

/// Flattens the snapshots into one book for `pair`: for each snapshot in
/// order, its bids and then its asks, every order retagged with `pair`.
pub fn combine_order_books(order_books: Vec<Snapshot>, pair: &str) -> (r: Vec<Order>)
    ensures
        is_combined(r@, order_books@, pair@),
        forall|i: int| 0 <= i < r@.len() ==> (#[trigger] r@[i]).pair@ == pair@,
{
    let mut combined: Vec<Order> = Vec::new();
    let mut b: usize = 0;
    while b < order_books.len()
        invariant
            b <= order_books@.len(),
            is_combined(combined@, order_books@.take(b as int), pair@),
        decreases order_books@.len() - b,
    {
        let ghost before = combined@;
        let ghost done = sides_concat(order_books@.take(b as int));
        let bids = &order_books[b].0;
        let asks = &order_books[b].1;
        let mut i: usize = 0;
        while i < bids.len()
            invariant
                i <= bids@.len(),
                combined@.len() == done.len() + i,
                forall|k: int| 0 <= k < done.len() ==> combined@[k] == before[k],
                forall|k: int| 0 <= k < before.len() ==> relabelled(#[trigger] before[k], done[k], pair@),
                before.len() == done.len(),
                forall|k: int| 0 <= k < i ==> relabelled(#[trigger] combined@[done.len() + k], bids@[k], pair@),
            decreases bids@.len() - i,
        {
            combined.push(bids[i].with_pair(pair));
            i = i + 1;
        }
        let mut j: usize = 0;
        while j < asks.len()
            invariant
                j <= asks@.len(),
                i == bids@.len(),
                combined@.len() == done.len() + i + j,
                forall|k: int| 0 <= k < done.len() ==> combined@[k] == before[k],
                forall|k: int| 0 <= k < before.len() ==> relabelled(#[trigger] before[k], done[k], pair@),
                before.len() == done.len(),
                forall|k: int| 0 <= k < i ==> relabelled(#[trigger] combined@[done.len() + k], bids@[k], pair@),
                forall|k: int| 0 <= k < j ==> relabelled(#[trigger] combined@[done.len() + i + k], asks@[k], pair@),
            decreases asks@.len() - j,
        {
            combined.push(asks[j].with_pair(pair));
            j = j + 1;
        }
        proof {
            let next = order_books@.take(b + 1);
            assert(next.drop_last() =~= order_books@.take(b as int));
            let all = sides_concat(next);
            assert(all =~= done + bids@ + asks@);
            assert forall|k: int| 0 <= k < combined@.len() implies relabelled(#[trigger] combined@[k], all[k], pair@) by {
                if k < done.len() {
                    assert(all[k] == done[k]);
                    assert(relabelled(before[k], done[k], pair@));
                } else if k < done.len() + i {
                    assert(all[k] == bids@[k - done.len()]);
                    assert(relabelled(combined@[done.len() + (k - done.len())], bids@[k - done.len()], pair@));
                } else {
                    assert(all[k] == asks@[k - done.len() - i]);
                    assert(relabelled(combined@[done.len() + i + (k - done.len() - i)], asks@[k - done.len() - i], pair@));
                }
            }
        }
        b = b + 1;
    }
    assert(order_books@.take(order_books@.len() as int) =~= order_books@);
    combined
}

/// Combining keeps every order: the combined book is as long as all the
/// snapshots' bid and ask lists together.
pub proof fn lemma_combine_len(books: Seq<Snapshot>)
    ensures
        sides_concat(books).len() == total_len(books),
    decreases books.len(),
{
    if books.len() > 0 {
        lemma_combine_len(books.drop_last());
    }
}

proof fn lemma_concat_prefix(books: Seq<Snapshot>, m: int)
    requires
        0 <= m <= books.len(),
    ensures
        sides_concat(books.take(m)).len() <= sides_concat(books).len(),
        forall|k: int|
            0 <= k < sides_concat(books.take(m)).len() ==> #[trigger] sides_concat(books)[k]
                == sides_concat(books.take(m))[k],
    decreases books.len(),
{
    if m == books.len() {
        assert(books.take(m) =~= books);
    } else {
        let l = books.drop_last();
        assert(l.take(m) =~= books.take(m));
        lemma_concat_prefix(l, m);
    }
}

/// Combining keeps the input order: the bids of snapshot `i` start at the
/// combined length of the snapshots before it, and its asks follow its bids.
pub proof fn lemma_combine_order(books: Seq<Snapshot>, i: int)
    requires
        0 <= i < books.len(),
    ensures
        ({
            let start = total_len(books.take(i)) as int;
            let all = sides_concat(books);
            let bids = books[i].0@;
            let asks = books[i].1@;
            &&& forall|j: int| 0 <= j < bids.len() ==> all[start + j] == #[trigger] bids[j]
            &&& forall|j: int| 0 <= j < asks.len() ==> all[start + bids.len() + j] == #[trigger] asks[j]
        }),
{
    let start = total_len(books.take(i)) as int;
    let upto = books.take(i + 1);
    assert(upto.drop_last() =~= books.take(i));
    lemma_combine_len(books.take(i));
    lemma_concat_prefix(books, i + 1);
    let part = sides_concat(upto);
    assert(part == sides_concat(books.take(i)) + books[i].0@ + books[i].1@);
    assert forall|j: int| 0 <= j < books[i].0@.len() implies sides_concat(books)[start + j] == #[trigger] books[i].0@[j] by {
        assert(part[start + j] == books[i].0@[j]);
    }
    assert forall|j: int| 0 <= j < books[i].1@.len() implies sides_concat(books)[start + books[i].0@.len() + j] == #[trigger] books[i].1@[j] by {
        assert(part[start + books[i].0@.len() + j] == books[i].1@[j]);
    }
}

} // verus!
