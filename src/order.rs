use vstd::prelude::*;

use crate::amount::Amount;

verus! {

/// One price level on one side of one exchange's book.
#[derive(Clone, Debug)]
pub struct Order {
    pub exchange: String,
    pub pair: String,
    pub price: Amount,
    pub size: Amount,
}

/// The latest bids and asks published by one exchange.
pub type Snapshot = (Vec<Order>, Vec<Order>);

impl Order {
    pub fn new(exchange: &str, pair: &str, price: Amount, size: Amount) -> (r: Order)
        ensures
            r.exchange@ == exchange@,
            r.pair@ == pair@,
            r.price == price,
            r.size == size,
    {
        Order { exchange: exchange.to_string(), pair: pair.to_string(), price, size }
    }

    /// A field-by-field copy of this order.
    pub fn duplicate(&self) -> (r: Order)
        ensures
            r == *self,
    {
        Order {
            exchange: self.exchange.clone(),
            pair: self.pair.clone(),
            price: self.price,
            size: self.size,
        }
    }

    /// The same order, tagged with another trading pair.
    pub fn with_pair(&self, pair: &str) -> (r: Order)
        ensures
            relabelled(r, *self, pair@),
    {
        Order { exchange: self.exchange.clone(), pair: pair.to_string(), price: self.price, size: self.size }
    }
}

/// `o` is `src` with its pair replaced by `pair`.
pub open spec fn relabelled(o: Order, src: Order, pair: Seq<char>) -> bool {
    &&& o.exchange == src.exchange
    &&& o.pair@ == pair
    &&& o.price == src.price
    &&& o.size == src.size
}

} // verus!
