use vstd::prelude::*;

verus! {

/// Buy or sell, relative to the market's canonical first symbol: an order
/// spending the first symbol sells it, one spending the second buys it.
#[derive(Clone, Copy, Debug, PartialEq, Eq, Structural)]
pub enum Side {
    Buy,
    Sell,
}

impl Side {
    /// The side resting orders of the other side trade against.
    pub open spec fn spec_opposite(self) -> Side {
        match self {
            Side::Buy => Side::Sell,
            Side::Sell => Side::Buy,
        }
    }
}

/// A market order sweeps the opposite book at any price; a limit order
/// carries a price bound and may rest.
#[derive(Clone, Copy, Debug, PartialEq, Eq, Structural)]
pub enum OrderKind {
    Market,
    Limit,
}

/// What an incoming trade call asks for. The quantity is in whole units of
/// the market's first symbol (the traded asset); a limit price is in units
/// of the second symbol per unit of the first.
#[derive(Debug, PartialEq)]
pub struct TradeRequest {
    pub symbol_source: String,
    pub symbol_dest: String,
    pub source_quantity: u64,
    pub trade_type: OrderKind,
    pub price: Option<u64>,
}

impl TradeRequest {
    /// A positive quantity; a price exactly for limit orders, and positive.
    pub open spec fn wf(&self) -> bool {
        &&& self.source_quantity > 0
        &&& (self.trade_type == OrderKind::Limit <==> self.price is Some)
        &&& (self.price is Some ==> self.price->0 > 0)
    }

    /// Whether the request's shape is acceptable, before any market is
    /// consulted.
    pub fn validate(&self) -> (r: bool)
        ensures
            r == self.wf(),
    {
        match (self.trade_type, self.price) {
            (OrderKind::Limit, Some(p)) => self.source_quantity > 0 && p > 0,
            (OrderKind::Market, None) => self.source_quantity > 0,
            _ => false,
        }
    }
}

impl Clone for TradeRequest {
    fn clone(&self) -> (r: TradeRequest)
        ensures
            r.symbol_source@ == self.symbol_source@,
            r.symbol_dest@ == self.symbol_dest@,
            r.source_quantity == self.source_quantity,
            r.trade_type == self.trade_type,
            r.price == self.price,
    {
        TradeRequest {
            symbol_source: self.symbol_source.clone(),
            symbol_dest: self.symbol_dest.clone(),
            source_quantity: self.source_quantity,
            trade_type: self.trade_type,
            price: self.price,
        }
    }
}

/// An order inside the engine, canonicalised to its market: quantities are
/// units of the pair's first symbol, the side says which way they flow.
/// `order_id` is zero until the engine rests the order in a book.
#[derive(Clone, Copy, Debug, PartialEq)]
pub struct MarketOrder {
    pub order_id: u64,
    pub user_id: i32,
    pub side: Side,
    pub kind: OrderKind,
    pub source_qty: u64,
    pub remaining_qty: u64,
    pub price: Option<u64>,
}

impl MarketOrder {
    /// Invariant carried by every order the engine touches.
    pub open spec fn wf(&self) -> bool {
        &&& self.source_qty > 0
        &&& self.remaining_qty <= self.source_qty
        &&& (self.kind == OrderKind::Limit <==> self.price is Some)
        &&& (self.price is Some ==> self.price->0 > 0)
    }

    /// The limit price; meaningful only for limit orders.
    pub open spec fn spec_limit_price(&self) -> u64 {
        self.price->0
    }

    /// How much of the order has been filled so far.
    pub open spec fn spec_filled(&self) -> int {
        self.source_qty - self.remaining_qty
    }

    /// A fresh, unfilled order for `user_id` built from a request already
    /// canonicalised to `side`.
    pub fn new(request: &TradeRequest, user_id: i32, side: Side) -> (o: MarketOrder)
        requires
            request.wf(),
        ensures
            o.wf(),
            o.order_id == 0,
            o.user_id == user_id,
            o.side == side,
            o.kind == request.trade_type,
            o.source_qty == request.source_quantity,
            o.remaining_qty == request.source_quantity,
            o.price == request.price,
    {
        MarketOrder {
            order_id: 0,
            user_id,
            side,
            kind: request.trade_type,
            source_qty: request.source_quantity,
            remaining_qty: request.source_quantity,
            price: request.price,
        }
    }
}

/// Can the incoming order `taker` trade at a resting order's price
/// `maker_price`? A market order always can; a limit sell needs at least
/// its own price, a limit buy at most its own price.
pub open spec fn price_feasible(taker: MarketOrder, maker_price: u64) -> bool {
    match taker.kind {
        OrderKind::Market => true,
        OrderKind::Limit => if taker.side == Side::Sell {
            maker_price >= taker.spec_limit_price()
        } else {
            maker_price <= taker.spec_limit_price()
        },
    }
}

/// Does resting limit order `a` outrank or tie `b` in the book for `side`?
/// Asks (resting sells) serve the lowest price first, bids the highest;
/// equal prices are served in ascending order id, i.e. first come first
/// served.
pub open spec fn spec_ranks_le(side: Side, a: MarketOrder, b: MarketOrder) -> bool {
    if a.spec_limit_price() == b.spec_limit_price() {
        a.order_id <= b.order_id
    } else if side == Side::Sell {
        a.spec_limit_price() < b.spec_limit_price()
    } else {
        a.spec_limit_price() > b.spec_limit_price()
    }
}

/// Where an order ends up once the engine is done with it.
#[derive(Clone, Copy, Debug, PartialEq, Eq, Structural)]
pub enum OrderStatus {
    /// Fully executed.
    Filled,
    /// A market order that swept what it could; the rest is cancelled.
    PartialUnfilled,
    /// A limit order resting in a book, waiting for a counterparty.
    Resting,
    /// Settlement failed against this order's wallets; taken off the books.
    Failed,
}

/// An entry of a market's append-only completion log.
#[derive(Clone, Copy, Debug, PartialEq)]
pub struct CompletedOrder {
    pub order: MarketOrder,
    pub status: OrderStatus,
}

/// One executed transfer between a taker and a maker, at the maker's price.
#[derive(Clone, Copy, Debug, PartialEq)]
pub struct Fill {
    /// The resting order's id.
    pub maker_order_id: u64,
    /// The resting order's price, which sets the execution price.
    pub price: u64,
    /// How many units of the pair's first symbol changed hands.
    pub qty: u64,
    pub maker_user: i32,
    pub taker_user: i32,
}

/// Law: an order's total filled quantity is exactly the gap between its
/// source and remaining quantities, and never exceeds the source quantity.
pub proof fn lemma_filled_within_source(o: MarketOrder)
    requires
        o.wf(),
    ensures
        o.spec_filled() == o.source_qty - o.remaining_qty,
        0 <= o.spec_filled() <= o.source_qty,
{
}

/// The total quantity of a sequence of fills.
pub open spec fn spec_fills_total(fills: Seq<Fill>) -> int
    decreases fills.len(),
{
    if fills.len() == 0 {
        0
    } else {
        spec_fills_total(fills.drop_last()) + fills.last().qty
    }
}

} // verus!
