use vstd::prelude::*;

use crate::order::{spec_ranks_le, MarketOrder, OrderKind, Side};

verus! {

/// One side of a market's order book: resting limit orders with remaining
/// quantity, kept sorted best-first under price-time priority. Asks serve
/// the lowest price first, bids the highest; ties go to the smaller order
/// id, i.e. the order that rested first.
#[derive(Debug)]
pub struct OrderBook {
    side: Side,
    orders: Vec<MarketOrder>,
}

impl OrderBook {
    /// Which side's resting orders this book holds.
    pub closed spec fn spec_side(&self) -> Side {
        self.side
    }

    /// The resting orders, best first.
    pub closed spec fn spec_orders(&self) -> Seq<MarketOrder> {
        self.orders@
    }

    /// Every entry is a live limit order of this side with a positive id;
    /// entries are sorted by priority and carry distinct ids.
    pub open spec fn wf(&self) -> bool {
        &&& forall|i: int|
            0 <= i < self.spec_orders().len() ==> {
                let o = #[trigger] self.spec_orders()[i];
                &&& o.wf()
                &&& o.kind == OrderKind::Limit
                &&& o.remaining_qty > 0
                &&& o.side == self.spec_side()
                &&& o.order_id > 0
            }
        &&& forall|i: int, j: int|
            0 <= i < j < self.spec_orders().len() ==> spec_ranks_le(
                self.spec_side(),
                self.spec_orders()[i],
                self.spec_orders()[j],
            )
        &&& forall|i: int, j: int|
            0 <= i < j < self.spec_orders().len() ==> self.spec_orders()[i].order_id
                != self.spec_orders()[j].order_id
    }

    /// An empty book for `side`.
    pub fn new(side: Side) -> (b: OrderBook)
        ensures
            b.wf(),
            b.spec_side() == side,
            b.spec_orders().len() == 0,
    {
        OrderBook { side, orders: Vec::new() }
    }

    pub fn len(&self) -> (n: usize)
        ensures
            n == self.spec_orders().len(),
    {
        self.orders.len()
    }

    pub fn is_empty(&self) -> (r: bool)
        ensures
            r == (self.spec_orders().len() == 0),
    {
        self.orders.len() == 0
    }

    /// The best resting order, without removing it.
    pub fn peek(&self) -> (r: Option<MarketOrder>)
        ensures
            r is Some <==> self.spec_orders().len() > 0,
            r matches Some(o) ==> o == self.spec_orders()[0],
    {
        if self.orders.len() > 0 {
            Some(self.orders[0])
        } else {
            None
        }
    }

    /// The resting order at position `i`, best first.
    pub fn order_at(&self, i: usize) -> (o: MarketOrder)
        requires
            i < self.spec_orders().len(),
        ensures
            o == self.spec_orders()[i as int],
    {
        self.orders[i]
    }

    /// Remove and return the best resting order.
    pub fn pop_front(&mut self) -> (r: Option<MarketOrder>)
        requires
            old(self).wf(),
        ensures
            final(self).wf(),
            final(self).spec_side() == old(self).spec_side(),
            r is Some <==> old(self).spec_orders().len() > 0,
            r is None ==> *final(self) == *old(self),
            r matches Some(o) ==> o == old(self).spec_orders()[0] && final(self).spec_orders()
                == old(self).spec_orders().remove(0),
    {
        if self.orders.len() == 0 {
            return None;
        }
        let o = self.orders.remove(0);
        proof {
            assert forall|i: int|
                0 <= i < self.spec_orders().len() implies {
                let oo = #[trigger] self.spec_orders()[i];
                &&& oo.wf()
                &&& oo.kind == OrderKind::Limit
                &&& oo.remaining_qty > 0
                &&& oo.side == self.spec_side()
                &&& oo.order_id > 0
            } by {
                assert(self.spec_orders()[i] == old(self).spec_orders()[i + 1]);
            }
        }
        Some(o)
    }

    /// Rest `order` at its priority position. The order's id must be new to
    /// this book; equal-price neighbours with smaller ids keep their place,
    /// so a re-inserted partial fill resumes its original priority.
    pub fn insert(&mut self, order: MarketOrder)
        requires
            old(self).wf(),
            order.wf(),
            order.kind == OrderKind::Limit,
            order.remaining_qty > 0,
            order.side == old(self).spec_side(),
            order.order_id > 0,
            forall|i: int|
                0 <= i < old(self).spec_orders().len() ==> (#[trigger] old(
                    self,
                ).spec_orders()[i]).order_id != order.order_id,
        ensures
            final(self).wf(),
            final(self).spec_side() == old(self).spec_side(),
            exists|k: int|
                0 <= k <= old(self).spec_orders().len() && final(self).spec_orders() == old(
                    self,
                ).spec_orders().insert(k, order),
            old(self).spec_orders().len() == 0 || !spec_ranks_le(
                old(self).spec_side(),
                old(self).spec_orders()[0],
                order,
            ) ==> final(self).spec_orders()[0] == order,
    {
        let i = self.find_insert_pos(&order);
        proof {
            if self.spec_orders().len() == 0 || !spec_ranks_le(
                self.spec_side(),
                self.spec_orders()[0],
                order,
            ) {
                // Nothing may stand before an order that outranks the front.
                assert(i == 0);
            }
        }
        let ghost pre = *self;
        let ghost pos = i as int;
        self.orders.insert(i, order);
        proof {
            assert(self.spec_orders() == pre.spec_orders().insert(pos, order));
            assert forall|a: int|
                0 <= a < self.spec_orders().len() implies {
                let o = #[trigger] self.spec_orders()[a];
                &&& o.wf()
                &&& o.kind == OrderKind::Limit
                &&& o.remaining_qty > 0
                &&& o.side == self.spec_side()
                &&& o.order_id > 0
            } by {
                if a < pos {
                    assert(self.spec_orders()[a] == pre.spec_orders()[a]);
                } else if a > pos {
                    assert(self.spec_orders()[a] == pre.spec_orders()[a - 1]);
                }
            }
            assert forall|a: int, b: int|
                0 <= a < b < self.spec_orders().len() implies spec_ranks_le(
                self.spec_side(),
                self.spec_orders()[a],
                self.spec_orders()[b],
            ) && self.spec_orders()[a].order_id != self.spec_orders()[b].order_id by {
                let sd = self.spec_side();
                if a < pos && b < pos {
                    assert(self.spec_orders()[a] == pre.spec_orders()[a]);
                    assert(self.spec_orders()[b] == pre.spec_orders()[b]);
                } else if a < pos && b == pos {
                    assert(self.spec_orders()[a] == pre.spec_orders()[a]);
                    assert(self.spec_orders()[b] == order);
                } else if a < pos && b > pos {
                    assert(self.spec_orders()[a] == pre.spec_orders()[a]);
                    assert(self.spec_orders()[b] == pre.spec_orders()[b - 1]);
                } else if a == pos && b > pos {
                    assert(self.spec_orders()[a] == order);
                    assert(self.spec_orders()[b] == pre.spec_orders()[b - 1]);
                    // The element displaced at `pos` does not rank at or
                    // before the new order, so the new order strictly
                    // precedes it and everything after it.
                    if pos < pre.spec_orders().len() {
                        assert(!spec_ranks_le(sd, pre.spec_orders()[pos], order));
                        if b - 1 > pos {
                            assert(spec_ranks_le(
                                sd,
                                pre.spec_orders()[pos],
                                pre.spec_orders()[b - 1],
                            ));
                        }
                    }
                } else {
                    assert(self.spec_orders()[a] == pre.spec_orders()[a - 1]);
                    assert(self.spec_orders()[b] == pre.spec_orders()[b - 1]);
                }
            }
        }
    }

    /// The first position whose occupant does not rank at or before
    /// `order`: where `order` belongs under price-time priority.
    fn find_insert_pos(&self, order: &MarketOrder) -> (i: usize)
        requires
            self.wf(),
            order.price is Some,
        ensures
            i <= self.spec_orders().len(),
            forall|k: int|
                0 <= k < i ==> spec_ranks_le(self.spec_side(), self.spec_orders()[k], *order),
            i < self.spec_orders().len() ==> !spec_ranks_le(
                self.spec_side(),
                self.spec_orders()[i as int],
                *order,
            ),
    {
        let n: usize = self.orders.len();
        let mut i: usize = 0;
        loop
            invariant
                i <= n,
                n == self.spec_orders().len(),
                self.wf(),
                order.price is Some,
                forall|k: int|
                    0 <= k < i ==> spec_ranks_le(self.spec_side(), self.spec_orders()[k], *order),
            decreases n - i,
        {
            if i == n {
                return i;
            }
            if !ranks_le_exec(self.side, &self.orders[i], order) {
                return i;
            }
            i = i + 1;
        }
    }
}

fn ranks_le_exec(side: Side, a: &MarketOrder, b: &MarketOrder) -> (r: bool)
    requires
        a.price is Some,
        b.price is Some,
    ensures
        r == spec_ranks_le(side, *a, *b),
{
    let pa = match a.price {
        Some(p) => p,
        None => 0,
    };
    let pb = match b.price {
        Some(p) => p,
        None => 0,
    };
    if pa == pb {
        a.order_id <= b.order_id
    } else {
        match side {
            Side::Sell => pa < pb,
            Side::Buy => pa > pb,
        }
    }
}

/// Law: resting orders at the same price serve first come, first served.
/// In a well-formed book, of two equal-price resting orders the one nearer
/// the front — matched earlier — carries the smaller order id.
pub proof fn lemma_fifo_at_equal_price(book: &OrderBook, i: int, j: int)
    requires
        book.wf(),
        0 <= i < j < book.spec_orders().len(),
        book.spec_orders()[i].spec_limit_price() == book.spec_orders()[j].spec_limit_price(),
    ensures
        book.spec_orders()[i].order_id < book.spec_orders()[j].order_id,
{
    assert(spec_ranks_le(book.spec_side(), book.spec_orders()[i], book.spec_orders()[j]));
}

} // verus!
