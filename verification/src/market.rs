use vstd::prelude::*;
use vstd::seq_lib::*;

use crate::accounts::Accounts;
use crate::book::OrderBook;
use crate::errors::ErrorKind;
use crate::order::{
    price_feasible, spec_fills_total, spec_ranks_le, CompletedOrder, Fill, MarketOrder, OrderKind,
    OrderStatus, Side, TradeRequest,
};
use crate::pair::{canonical_first, canonical_second, SwapPair};

verus! {

/// How many queued orders a market holds before refusing more.
pub const MARKET_INBOX_CAPACITY: usize = 100;

/// How settlement of one fill ended.
#[derive(Clone, Copy, Debug, PartialEq, Eq, Structural)]
pub enum SettleResult {
    /// Both transfers happened.
    Done,
    /// The sell side could not pay or receive; nothing moved.
    SellerFailed,
    /// The buy side could not pay or receive; nothing moved.
    BuyerFailed,
}

/// The net movement settlement causes on the wallet `(u, s)`, as a signed
/// amount: the seller gives `qty` of the pair's first symbol to the buyer
/// and receives `gross` of the second in return. When buyer and seller
/// coincide the movements cancel out.
pub open spec fn spec_transfer_delta(
    u: i32,
    s: Seq<char>,
    seller: i32,
    buyer: i32,
    first: Seq<char>,
    second: Seq<char>,
    qty: int,
    gross: int,
) -> int {
    (if u == buyer && s == first {
        qty
    } else {
        0
    }) - (if u == seller && s == first {
        qty
    } else {
        0
    }) + (if u == seller && s == second {
        gross
    } else {
        0
    }) - (if u == buyer && s == second {
        gross
    } else {
        0
    })
}

/// The verdict settlement must reach on `a`, checking the four wallet
/// operations in their fixed order — seller pays `qty` of `first`, buyer
/// pays `qty * price` of `second`, buyer receives, seller receives — and
/// blaming the first that cannot go through.
pub open spec fn spec_settle_verdict(
    a: Accounts,
    first: Seq<char>,
    second: Seq<char>,
    seller: i32,
    buyer: i32,
    qty: u64,
    price: u64,
) -> SettleResult {
    if !(a.spec_has_wallet(seller, first) && a.spec_balance(seller, first) >= qty) {
        SettleResult::SellerFailed
    } else if qty * price > u64::MAX {
        SettleResult::BuyerFailed
    } else if !(a.spec_has_wallet(buyer, second) && a.spec_balance(buyer, second) >= qty * price) {
        SettleResult::BuyerFailed
    } else if !(a.spec_has_wallet(buyer, first) && (buyer == seller || a.spec_balance(buyer, first)
        + qty <= u64::MAX)) {
        SettleResult::BuyerFailed
    } else if !(a.spec_has_wallet(seller, second) && (seller == buyer || a.spec_balance(
        seller,
        second,
    ) + qty * price <= u64::MAX)) {
        SettleResult::SellerFailed
    } else {
        SettleResult::Done
    }
}

/// The net movement one reported fill causes on the wallet `(u, s)`: the
/// fill's seller and buyer follow from which side the taker was on.
pub open spec fn spec_fill_delta(
    f: Fill,
    u: i32,
    s: Seq<char>,
    taker_side: Side,
    first: Seq<char>,
    second: Seq<char>,
) -> int {
    spec_transfer_delta(
        u,
        s,
        if taker_side == Side::Sell {
            f.taker_user
        } else {
            f.maker_user
        },
        if taker_side == Side::Sell {
            f.maker_user
        } else {
            f.taker_user
        },
        first,
        second,
        f.qty as int,
        f.qty * f.price,
    )
}

/// The net movement a sequence of fills causes on the wallet `(u, s)`.
pub open spec fn spec_fills_delta(
    fills: Seq<Fill>,
    u: i32,
    s: Seq<char>,
    taker_side: Side,
    first: Seq<char>,
    second: Seq<char>,
) -> int
    decreases fills.len(),
{
    if fills.len() == 0 {
        0
    } else {
        spec_fills_delta(fills.drop_last(), u, s, taker_side, first, second) + spec_fill_delta(
            fills.last(),
            u,
            s,
            taker_side,
            first,
            second,
        )
    }
}

/// Settle one fill: transfer `qty` units of `first` from seller to buyer
/// and `qty * price` units of `second` from buyer to seller, atomically —
/// either all four wallet movements happen or none does. The execution
/// price is the resting order's, fixed by the caller.
pub fn settle_fill(
    accounts: &mut Accounts,
    first: &String,
    second: &String,
    seller: i32,
    buyer: i32,
    qty: u64,
    price: u64,
) -> (r: SettleResult)
    requires
        old(accounts).wf(),
        qty > 0,
        price > 0,
        first@ != second@,
    ensures
        final(accounts).wf(),
        forall|u: i32| #[trigger]
            final(accounts).spec_has_user(u) == old(accounts).spec_has_user(u),
        forall|u: i32, s: Seq<char>|
            #[trigger] final(accounts).spec_has_wallet(u, s) == old(accounts).spec_has_wallet(
                u,
                s,
            ),
        r == spec_settle_verdict(*old(accounts), first@, second@, seller, buyer, qty, price),
        r != SettleResult::Done ==> *final(accounts) == *old(accounts),
        r == SettleResult::Done ==> forall|u: i32, s: Seq<char>|
            old(accounts).spec_has_wallet(u, s) ==> #[trigger] final(accounts).spec_balance(u, s)
                == old(accounts).spec_balance(u, s) + spec_transfer_delta(
                u,
                s,
                seller,
                buyer,
                first@,
                second@,
                qty as int,
                (qty * price) as int,
            ),
{
    // Check everything first; only then move money, so failure moves none.
    let seller_src = match accounts.balance_of(seller, first) {
        Some(b) => b,
        None => {
            return SettleResult::SellerFailed;
        },
    };
    if seller_src < qty {
        return SettleResult::SellerFailed;
    }
    let gross = match qty.checked_mul(price) {
        Some(g) => g,
        None => {
            proof {
                assert(qty * price > u64::MAX) by (nonlinear_arith)
                    requires
                        qty > 0,
                        price > 0,
                        !(qty * price <= u64::MAX),
                ;
            }
            return SettleResult::BuyerFailed;
        },
    };
    proof {
        assert(gross > 0) by (nonlinear_arith)
            requires
                qty > 0,
                price > 0,
                gross == qty * price,
        ;
    }
    let buyer_dst = match accounts.balance_of(buyer, second) {
        Some(b) => b,
        None => {
            return SettleResult::BuyerFailed;
        },
    };
    if buyer_dst < gross {
        return SettleResult::BuyerFailed;
    }
    let buyer_src = match accounts.balance_of(buyer, first) {
        Some(b) => b,
        None => {
            return SettleResult::BuyerFailed;
        },
    };
    if seller != buyer && buyer_src > u64::MAX - qty {
        return SettleResult::BuyerFailed;
    }
    let seller_dst = match accounts.balance_of(seller, second) {
        Some(b) => b,
        None => {
            return SettleResult::SellerFailed;
        },
    };
    if seller != buyer && seller_dst > u64::MAX - gross {
        return SettleResult::SellerFailed;
    }
    let ghost a0 = *accounts;
    accounts.debit(seller, first, qty);
    let ghost a1 = *accounts;
    accounts.debit(buyer, second, gross);
    let ghost a2 = *accounts;
    accounts.credit(buyer, first, qty);
    let ghost a3 = *accounts;
    accounts.credit(seller, second, gross);
    proof {
        assert forall|u: i32, s: Seq<char>|
            a0.spec_has_wallet(u, s) implies #[trigger] accounts.spec_balance(u, s)
            == a0.spec_balance(u, s) + spec_transfer_delta(
            u,
            s,
            seller,
            buyer,
            first@,
            second@,
            qty as int,
            gross as int,
        ) by {
            assert(a1.spec_balance(u, s) as int == if u == seller && s == first@ {
                a0.spec_balance(u, s) - qty
            } else {
                a0.spec_balance(u, s) as int
            });
            assert(a2.spec_balance(u, s) as int == if u == buyer && s == second@ {
                a1.spec_balance(u, s) - gross
            } else {
                a1.spec_balance(u, s) as int
            });
            assert(a3.spec_balance(u, s) as int == if u == buyer && s == first@ {
                a2.spec_balance(u, s) + qty
            } else {
                a2.spec_balance(u, s) as int
            });
            assert(accounts.spec_balance(u, s) as int == if u == seller && s == second@ {
                a3.spec_balance(u, s) + gross
            } else {
                a3.spec_balance(u, s) as int
            });
        }
    }
    SettleResult::Done
}

/// Everything required of one fill reported by the engine: positive
/// amounts, the taker named, the execution price within the taker's limit
/// (price improvement only), and a maker that was resting in the book the
/// engine started from, at exactly that price.
pub open spec fn spec_fill_ok(f: Fill, taker: MarketOrder, book0: Seq<MarketOrder>) -> bool {
    &&& f.qty > 0
    &&& f.price > 0
    &&& f.taker_user == taker.user_id
    &&& price_feasible(taker, f.price)
    &&& exists|j: int|
        0 <= j < book0.len() && (#[trigger] book0[j]).order_id == f.maker_order_id
            && book0[j].spec_limit_price() == f.price && book0[j].user_id == f.maker_user
            && f.qty <= book0[j].remaining_qty
}

/// Law: every fill executes at the resting maker's own price, and when
/// the taker carried a limit the execution price is that limit or better
/// for the taker's side — a resting sell never fills below its ask, a
/// resting buy never above its bid, and the taker only ever sees price
/// improvement.
pub proof fn lemma_fill_price_within_limits(f: Fill, taker: MarketOrder, book0: Seq<MarketOrder>)
    requires
        spec_fill_ok(f, taker, book0),
    ensures
        exists|j: int|
            0 <= j < book0.len() && (#[trigger] book0[j]).order_id == f.maker_order_id
                && book0[j].spec_limit_price() == f.price,
        taker.kind == OrderKind::Limit && taker.side == Side::Sell ==> f.price
            >= taker.spec_limit_price(),
        taker.kind == OrderKind::Limit && taker.side == Side::Buy ==> f.price
            <= taker.spec_limit_price(),
{
    let j = choose|j: int|
        0 <= j < book0.len() && (#[trigger] book0[j]).order_id == f.maker_order_id
            && book0[j].spec_limit_price() == f.price && book0[j].user_id == f.maker_user
            && f.qty <= book0[j].remaining_qty;
    assert(book0[j].order_id == f.maker_order_id && book0[j].spec_limit_price() == f.price);
}

/// As `spec_fill_ok`, with the maker found among the first `d` resting
/// orders — the ones the matching loop has consumed so far.
spec fn spec_fill_ok_upto(f: Fill, taker: MarketOrder, book0: Seq<MarketOrder>, d: int) -> bool {
    &&& f.qty > 0
    &&& f.price > 0
    &&& f.taker_user == taker.user_id
    &&& price_feasible(taker, f.price)
    &&& exists|j: int|
        0 <= j < d && d <= book0.len() && (#[trigger] book0[j]).order_id == f.maker_order_id
            && book0[j].spec_limit_price() == f.price && book0[j].user_id == f.maker_user
            && f.qty <= book0[j].remaining_qty
}

/// The smaller of two amounts.
pub open spec fn spec_min2(a: int, b: int) -> int {
    if a < b {
        a
    } else {
        b
    }
}

/// Each fill takes exactly the smaller of what the taker still wanted at
/// that point and what its resting maker still offered: no overfill, no
/// shortfall while both sides have quantity.
pub open spec fn spec_fills_are_min(
    fills: Seq<Fill>,
    taker: MarketOrder,
    book0: Seq<MarketOrder>,
) -> bool {
    forall|k: int|
        #![trigger fills[k]]
        0 <= k < fills.len() ==> exists|j: int|
            0 <= j < book0.len() && (#[trigger] book0[j]).order_id == fills[k].maker_order_id
                && fills[k].qty == spec_min2(
                taker.remaining_qty - spec_fills_total(fills.subrange(0, k)),
                book0[j].remaining_qty as int,
            )
}

/// The completion log holds the fill's maker, fully executed.
pub open spec fn spec_maker_logged(f: Fill, completed: Seq<CompletedOrder>) -> bool {
    exists|c: int|
        0 <= c < completed.len() && (#[trigger] completed[c]).order.order_id == f.maker_order_id
            && completed[c].status == OrderStatus::Filled && completed[c].order.remaining_qty == 0
}

/// A fill's maker ends the run accounted for: either logged `Filled` with
/// nothing left, or back in the book with its remainder reduced by
/// exactly the fill.
pub open spec fn spec_maker_settled(
    f: Fill,
    completed: Seq<CompletedOrder>,
    book: Seq<MarketOrder>,
    book0: Seq<MarketOrder>,
) -> bool {
    ||| spec_maker_logged(f, completed)
    ||| exists|i: int, j: int|
        0 <= i < book.len() && 0 <= j < book0.len() && (#[trigger] book[i]).order_id
            == f.maker_order_id && (#[trigger] book0[j]).order_id == f.maker_order_id
            && book[i].remaining_qty == book0[j].remaining_qty - f.qty
}

/// A log entry the matching loop may add for a resting order: the maker,
/// either fully executed, or logged `Failed` exactly as it rested when its
/// settlement could not go through.
pub open spec fn spec_logged_maker_entry(e: CompletedOrder, book0: Seq<MarketOrder>) -> bool {
    exists|j: int|
        0 <= j < book0.len() && (#[trigger] book0[j]).order_id == e.order.order_id && ((e.status
            == OrderStatus::Filled && e.order.remaining_qty == 0) || (e.status
            == OrderStatus::Failed && e.order == book0[j]))
}

/// A logged maker stays logged as the log grows.
proof fn lemma_logged_persists(f: Fill, c_old: Seq<CompletedOrder>, c_new: Seq<CompletedOrder>)
    requires
        spec_maker_logged(f, c_old),
        c_old.is_prefix_of(c_new),
    ensures
        spec_maker_logged(f, c_new),
{
    let c = choose|c: int|
        0 <= c < c_old.len() && (#[trigger] c_old[c]).order.order_id == f.maker_order_id
            && c_old[c].status == OrderStatus::Filled && c_old[c].order.remaining_qty == 0;
    assert(c_new.subrange(0, c_old.len() as int)[c] == c_new[c]);
    assert(c_new[c] == c_old[c]);
}

/// Settlement of the head-of-book fill the incoming order attempted, run
/// against the state it stopped in, blames the incoming order's own side.
pub open spec fn spec_taker_blocked(
    a: Accounts,
    first: Seq<char>,
    second: Seq<char>,
    order: MarketOrder,
    top: MarketOrder,
) -> bool {
    let qty = if order.remaining_qty < top.remaining_qty {
        order.remaining_qty
    } else {
        top.remaining_qty
    };
    match order.side {
        Side::Sell => spec_settle_verdict(
            a,
            first,
            second,
            order.user_id,
            top.user_id,
            qty,
            top.spec_limit_price(),
        ) == SettleResult::SellerFailed,
        Side::Buy => spec_settle_verdict(
            a,
            first,
            second,
            top.user_id,
            order.user_id,
            qty,
            top.spec_limit_price(),
        ) == SettleResult::BuyerFailed,
    }
}

/// Every order in `book` keeps an id that some order of `book0` already
/// carried: matching never invents resting orders.
pub open spec fn spec_ids_from(book: Seq<MarketOrder>, book0: Seq<MarketOrder>) -> bool {
    forall|i: int|
        0 <= i < book.len() ==> exists|j: int|
            0 <= j < book0.len() && (#[trigger] book[i]).order_id == book0[j].order_id
}

/// The rolling state of the matching loop, tied together: books, accounts,
/// the completion log, the incoming order and the fills so far.
spec fn spec_match_inv(
    taker: MarketOrder,
    ob0: OrderBook,
    d: int,
    opp: OrderBook,
    a0: Accounts,
    a: Accounts,
    c0: Seq<CompletedOrder>,
    c: Seq<CompletedOrder>,
    order: MarketOrder,
    fills: Seq<Fill>,
) -> bool {
    &&& opp.wf()
    &&& opp.spec_side() == ob0.spec_side()
    &&& a.wf()
    &&& (forall|u: i32| #[trigger] a.spec_has_user(u) == a0.spec_has_user(u))
    &&& (forall|u: i32, s: Seq<char>|
        #[trigger] a.spec_has_wallet(u, s) == a0.spec_has_wallet(u, s))
    &&& c0.is_prefix_of(c)
    &&& order.user_id == taker.user_id
    &&& order.side == taker.side
    &&& order.kind == taker.kind
    &&& order.price == taker.price
    &&& order.source_qty == taker.source_qty
    &&& order.order_id == 0
    &&& order.wf()
    &&& order.remaining_qty <= taker.remaining_qty
    &&& spec_fills_total(fills) == taker.remaining_qty - order.remaining_qty
    &&& 0 <= d <= ob0.spec_orders().len()
    &&& opp.spec_orders() == ob0.spec_orders().subrange(d, ob0.spec_orders().len() as int)
    &&& (forall|k: int|
        0 <= k < fills.len() ==> spec_fill_ok_upto(#[trigger] fills[k], taker, ob0.spec_orders(), d))
    &&& (forall|k: int, l: int|
        #![trigger fills[k], fills[l]]
        0 <= k < l < fills.len() && fills[k].price == fills[l].price ==> fills[k].maker_order_id
            < fills[l].maker_order_id)
}

/// What one run of the matching loop hands back.
struct MatchOutcome {
    order: MarketOrder,
    fills: Vec<Fill>,
    taker_failed: bool,
}

/// Exec check matching `price_feasible`.
fn feasible_exec(taker: &MarketOrder, maker_price: u64) -> (r: bool)
    requires
        taker.wf(),
    ensures
        r == price_feasible(*taker, maker_price),
{
    match taker.kind {
        OrderKind::Market => true,
        OrderKind::Limit => {
            let p = match taker.price {
                Some(p) => p,
                None => 0,
            };
            match taker.side {
                Side::Sell => maker_price >= p,
                Side::Buy => maker_price <= p,
            }
        },
    }
}

/// Match the incoming `taker` against the opposite book under price-time
/// priority. Fills execute at the resting order's price; a resting order
/// whose settlement fails is logged `Failed` and matching goes on; if the
/// taker's own settlement fails, matching stops with `taker_failed`.
#[verifier::rlimit(100)]
fn match_taker(
    opposite: &mut OrderBook,
    completed: &mut Vec<CompletedOrder>,
    accounts: &mut Accounts,
    taker: MarketOrder,
    first: &String,
    second: &String,
) -> (out: MatchOutcome)
    requires
        old(opposite).wf(),
        old(opposite).spec_side() == taker.side.spec_opposite(),
        old(accounts).wf(),
        taker.wf(),
        taker.order_id == 0,
        first@ != second@,
    ensures
        final(opposite).wf(),
        final(opposite).spec_side() == old(opposite).spec_side(),
        final(accounts).wf(),
        forall|u: i32| #[trigger]
            final(accounts).spec_has_user(u) == old(accounts).spec_has_user(u),
        forall|u: i32, s: Seq<char>|
            #[trigger] final(accounts).spec_has_wallet(u, s) == old(accounts).spec_has_wallet(
                u,
                s,
            ),
        old(completed)@.is_prefix_of(final(completed)@),
        forall|c: int|
            old(completed)@.len() <= c < final(completed)@.len() ==> spec_logged_maker_entry(
                #[trigger] final(completed)@[c],
                old(opposite).spec_orders(),
            ),
        out.order.user_id == taker.user_id,
        out.order.side == taker.side,
        out.order.kind == taker.kind,
        out.order.price == taker.price,
        out.order.source_qty == taker.source_qty,
        out.order.order_id == 0,
        out.order.wf(),
        out.order.remaining_qty <= taker.remaining_qty,
        spec_fills_total(out.fills@) == taker.remaining_qty - out.order.remaining_qty,
        forall|k: int|
            0 <= k < out.fills@.len() ==> spec_fill_ok(
                #[trigger] out.fills@[k],
                taker,
                old(opposite).spec_orders(),
            ),
        forall|k: int, l: int|
            #![trigger out.fills@[k], out.fills@[l]]
            0 <= k < l < out.fills@.len() && out.fills@[k].price == out.fills@[l].price
                ==> out.fills@[k].maker_order_id < out.fills@[l].maker_order_id,
        spec_ids_from(final(opposite).spec_orders(), old(opposite).spec_orders()),
        spec_fills_are_min(out.fills@, taker, old(opposite).spec_orders()),
        forall|k: int|
            0 <= k < out.fills@.len() ==> spec_maker_settled(
                #[trigger] out.fills@[k],
                final(completed)@,
                final(opposite).spec_orders(),
                old(opposite).spec_orders(),
            ),
        forall|u: i32, s: Seq<char>|
            old(accounts).spec_has_wallet(u, s) ==> #[trigger] final(accounts).spec_balance(u, s)
                == old(accounts).spec_balance(u, s) + spec_fills_delta(
                out.fills@,
                u,
                s,
                taker.side,
                first@,
                second@,
            ),
        out.taker_failed ==> out.order.remaining_qty > 0,
        out.taker_failed ==> final(opposite).spec_orders().len() > 0 && price_feasible(
            taker,
            final(opposite).spec_orders()[0].spec_limit_price(),
        ) && spec_taker_blocked(
            *final(accounts),
            first@,
            second@,
            out.order,
            final(opposite).spec_orders()[0],
        ),
        !out.taker_failed && out.order.remaining_qty > 0 ==> final(opposite).spec_orders().len()
            == 0 || !price_feasible(taker, final(opposite).spec_orders()[0].spec_limit_price()),
{
    let ghost ob0 = *opposite;
    let ghost a0 = *accounts;
    let ghost c0 = completed@;
    let mut order = taker;
    let mut fills: Vec<Fill> = Vec::new();
    let mut taker_failed = false;
    let mut pending: Option<MarketOrder> = None;
    let ghost mut d: int = 0;
    proof {
        assert(opposite.spec_orders() =~= ob0.spec_orders().subrange(
            0,
            ob0.spec_orders().len() as int,
        ));
    }
    loop
        invariant_except_break
            pending is None,
            !taker_failed,
        invariant
            ob0.wf(),
            taker.wf(),
            taker.order_id == 0,
            first@ != second@,
            ob0.spec_side() == taker.side.spec_opposite(),
            spec_match_inv(taker, ob0, d, *opposite, a0, *accounts, c0, completed@, order, fills@),
            forall|u: i32, s: Seq<char>|
                a0.spec_has_wallet(u, s) ==> #[trigger] accounts.spec_balance(u, s)
                    == a0.spec_balance(u, s) + spec_fills_delta(
                    fills@,
                    u,
                    s,
                    taker.side,
                    first@,
                    second@,
                ),
            spec_fills_are_min(fills@, taker, ob0.spec_orders()),
            forall|k: int|
                #![trigger fills@[k]]
                0 <= k < fills@.len() ==> spec_maker_logged(fills@[k], completed@) || (
                pending matches Some(m) && m.order_id == fills@[k].maker_order_id && k
                    == fills@.len() - 1 && exists|j: int|
                    0 <= j < ob0.spec_orders().len() && (#[trigger] ob0.spec_orders()[j]).order_id
                        == m.order_id && m.remaining_qty == ob0.spec_orders()[j].remaining_qty
                        - fills@[k].qty),
            forall|c: int|
                c0.len() <= c < completed@.len() ==> spec_logged_maker_entry(
                    #[trigger] completed@[c],
                    ob0.spec_orders(),
                ),
        ensures
            ob0.wf(),
            spec_match_inv(taker, ob0, d, *opposite, a0, *accounts, c0, completed@, order, fills@),
            forall|u: i32, s: Seq<char>|
                a0.spec_has_wallet(u, s) ==> #[trigger] accounts.spec_balance(u, s)
                    == a0.spec_balance(u, s) + spec_fills_delta(
                    fills@,
                    u,
                    s,
                    taker.side,
                    first@,
                    second@,
                ),
            spec_fills_are_min(fills@, taker, ob0.spec_orders()),
            forall|k: int|
                #![trigger fills@[k]]
                0 <= k < fills@.len() ==> spec_maker_logged(fills@[k], completed@) || (
                pending matches Some(m) && m.order_id == fills@[k].maker_order_id && k
                    == fills@.len() - 1 && exists|j: int|
                    0 <= j < ob0.spec_orders().len() && (#[trigger] ob0.spec_orders()[j]).order_id
                        == m.order_id && m.remaining_qty == ob0.spec_orders()[j].remaining_qty
                        - fills@[k].qty),
            forall|c: int|
                c0.len() <= c < completed@.len() ==> spec_logged_maker_entry(
                    #[trigger] completed@[c],
                    ob0.spec_orders(),
                ),
            pending matches Some(m) ==> {
                &&& m.wf()
                &&& m.kind == OrderKind::Limit
                &&& m.remaining_qty > 0
                &&& m.side == ob0.spec_side()
                &&& m.order_id > 0
                &&& (forall|i: int|
                    0 <= i < opposite.spec_orders().len() ==> (#[trigger] opposite.spec_orders()[i]).order_id
                        != m.order_id)
                &&& 1 <= d <= ob0.spec_orders().len()
                &&& m.order_id == ob0.spec_orders()[d - 1].order_id
                &&& m.price == ob0.spec_orders()[d - 1].price
            },
            taker_failed ==> pending is Some && price_feasible(
                taker,
                pending->0.spec_limit_price(),
            ) && spec_taker_blocked(*accounts, first@, second@, order, pending->0),
            !taker_failed && pending is None && order.remaining_qty > 0
                ==> opposite.spec_orders().len() == 0 || !price_feasible(
                taker,
                opposite.spec_orders()[0].spec_limit_price(),
            ),
            pending is Some && !taker_failed ==> order.remaining_qty == 0,
            taker_failed ==> order.remaining_qty > 0,
        decreases opposite.spec_orders().len(),
    {
        if order.remaining_qty == 0 {
            break;
        }
        let top = match opposite.peek() {
            None => {
                break;
            },
            Some(t) => t,
        };
        let maker_price = match top.price {
            Some(p) => p,
            None => 0,
        };
        if !feasible_exec(&order, maker_price) {
            proof {
                assert(price_feasible(taker, opposite.spec_orders()[0].spec_limit_price())
                    == price_feasible(order, maker_price));
            }
            break;
        }
        let maker = match opposite.pop_front() {
            Some(m) => m,
            None => {
                proof {
                    assert(false);
                }
                break;
            },
        };
        let ghost book_before = ob0.spec_orders();
        proof {
            assert(maker == book_before[d]);
            assert(opposite.spec_orders() =~= book_before.subrange(
                d + 1,
                book_before.len() as int,
            ));
        }
        let fill_qty = if order.remaining_qty < maker.remaining_qty {
            order.remaining_qty
        } else {
            maker.remaining_qty
        };
        let (seller, buyer) = match order.side {
            Side::Sell => (order.user_id, maker.user_id),
            Side::Buy => (maker.user_id, order.user_id),
        };
        let ghost a_pre = *accounts;
        let verdict = settle_fill(accounts, first, second, seller, buyer, fill_qty, maker_price);
        let maker_violated = match (verdict, order.side) {
            (SettleResult::Done, _) => false,
            (SettleResult::SellerFailed, Side::Sell) => false,
            (SettleResult::SellerFailed, Side::Buy) => true,
            (SettleResult::BuyerFailed, Side::Sell) => true,
            (SettleResult::BuyerFailed, Side::Buy) => false,
        };
        match verdict {
            SettleResult::Done => {
                let fill = Fill {
                    maker_order_id: maker.order_id,
                    price: maker_price,
                    qty: fill_qty,
                    maker_user: maker.user_id,
                    taker_user: order.user_id,
                };
                let ghost fills_before = fills@;
                let ghost d_before = d;
                let ghost rem_pre = order.remaining_qty;
                fills.push(fill);
                order.remaining_qty = order.remaining_qty - fill_qty;
                proof {
                    d = d + 1;
                    assert(fills@.drop_last() =~= fills_before);
                    assert(spec_fills_total(fills@) == spec_fills_total(fills_before)
                        + fill_qty);
                    assert forall|u: i32, s: Seq<char>|
                        a0.spec_has_wallet(u, s) implies #[trigger] accounts.spec_balance(u, s)
                        == a0.spec_balance(u, s) + spec_fills_delta(
                        fills@,
                        u,
                        s,
                        taker.side,
                        first@,
                        second@,
                    ) by {
                        assert(spec_fills_delta(fills@, u, s, taker.side, first@, second@)
                            == spec_fills_delta(fills_before, u, s, taker.side, first@, second@)
                            + spec_fill_delta(fill, u, s, taker.side, first@, second@));
                        assert(accounts.spec_balance(u, s) == a_pre.spec_balance(u, s)
                            + spec_transfer_delta(
                            u,
                            s,
                            seller,
                            buyer,
                            first@,
                            second@,
                            fill_qty as int,
                            (fill_qty * maker_price) as int,
                        ));
                        assert(spec_fill_delta(fill, u, s, taker.side, first@, second@)
                            == spec_transfer_delta(
                            u,
                            s,
                            seller,
                            buyer,
                            first@,
                            second@,
                            fill_qty as int,
                            fill_qty * maker_price,
                        ));
                    }
                    assert(spec_fill_ok_upto(fill, taker, book_before, d)) by {
                        assert(book_before[d_before].order_id == fill.maker_order_id);
                    }
                    assert forall|k: int|
                        0 <= k < fills@.len() implies spec_fill_ok_upto(
                        #[trigger] fills@[k],
                        taker,
                        book_before,
                        d,
                    ) by {
                        if k < fills_before.len() {
                            assert(fills@[k] == fills_before[k]);
                            assert(spec_fill_ok_upto(fills_before[k], taker, book_before, d_before));
                        }
                    }
                    assert forall|k: int, l: int|
                        #![trigger fills@[k], fills@[l]]
                        0 <= k < l < fills@.len() && fills@[k].price == fills@[l].price implies fills@[k].maker_order_id
                        < fills@[l].maker_order_id by {
                        if l < fills_before.len() {
                            assert(fills@[k] == fills_before[k]);
                            assert(fills@[l] == fills_before[l]);
                        } else {
                            assert(fills@[l] == fill);
                            assert(fills@[k] == fills_before[k]);
                            let j = choose|j: int|
                                0 <= j < d_before && d_before <= book_before.len() && (
                                #[trigger] book_before[j]).order_id == fills_before[k].maker_order_id
                                    && book_before[j].spec_limit_price() == fills_before[k].price
                                    && book_before[j].user_id == fills_before[k].maker_user;
                            assert(spec_ranks_le(
                                ob0.spec_side(),
                                book_before[j],
                                book_before[d_before],
                            ));
                            assert(book_before[j].order_id != book_before[d_before].order_id);
                        }
                    }
                    assert forall|k: int|
                        #![trigger fills@[k]]
                        0 <= k < fills@.len() implies exists|j: int|
                        0 <= j < book_before.len() && (#[trigger] book_before[j]).order_id
                            == fills@[k].maker_order_id && fills@[k].qty == spec_min2(
                            taker.remaining_qty - spec_fills_total(fills@.subrange(0, k)),
                            book_before[j].remaining_qty as int,
                        ) by {
                        if k < fills_before.len() {
                            assert(fills@[k] == fills_before[k]);
                            assert(fills@.subrange(0, k) =~= fills_before.subrange(0, k));
                            assert(spec_fills_are_min(fills_before, taker, book_before));
                            let j = choose|j: int|
                                0 <= j < book_before.len() && (#[trigger] book_before[j]).order_id
                                    == fills_before[k].maker_order_id && fills_before[k].qty
                                    == spec_min2(
                                    taker.remaining_qty - spec_fills_total(
                                        fills_before.subrange(0, k),
                                    ),
                                    book_before[j].remaining_qty as int,
                                );
                            assert(book_before[j].order_id == fills@[k].maker_order_id
                                && fills@[k].qty == spec_min2(
                                taker.remaining_qty - spec_fills_total(fills@.subrange(0, k)),
                                book_before[j].remaining_qty as int,
                            ));
                        } else {
                            assert(fills@[k] == fill);
                            assert(fills@.subrange(0, k) =~= fills_before);
                            assert(spec_fills_total(fills_before) == taker.remaining_qty
                                - rem_pre);
                            assert(book_before[d_before].order_id == fill.maker_order_id);
                            assert(book_before[d_before].remaining_qty == maker.remaining_qty);
                            assert(fill.qty == spec_min2(
                                rem_pre as int,
                                maker.remaining_qty as int,
                            ));
                        }
                    }
                    assert(spec_fills_are_min(fills@, taker, book_before));
                }
                if maker.remaining_qty > fill_qty {
                    let mut rested = maker;
                    rested.remaining_qty = maker.remaining_qty - fill_qty;
                    proof {
                        assert(order.remaining_qty == 0);
                        assert forall|i: int|
                            0 <= i < opposite.spec_orders().len() implies (
                        #[trigger] opposite.spec_orders()[i]).order_id != rested.order_id by {
                            assert(opposite.spec_orders()[i] == book_before[d + i]);
                        }
                        assert(book_before[d - 1].order_id == rested.order_id);
                        assert(book_before[d - 1].remaining_qty == rested.remaining_qty
                            + fill_qty);
                    }
                    pending = Some(rested);
                    proof {
                        assert forall|k: int|
                            #![trigger fills@[k]]
                            0 <= k < fills@.len() implies spec_maker_logged(fills@[k], completed@)
                            || (pending matches Some(m) && m.order_id == fills@[k].maker_order_id
                                && k == fills@.len() - 1 && exists|j: int|
                                0 <= j < ob0.spec_orders().len() && (
                                #[trigger] ob0.spec_orders()[j]).order_id == m.order_id
                                    && m.remaining_qty == ob0.spec_orders()[j].remaining_qty
                                    - fills@[k].qty) by {
                            if k < fills@.len() - 1 {
                                assert(fills@[k] == fills_before[k]);
                                assert(spec_maker_logged(fills_before[k], completed@));
                            } else {
                                assert(fills@[k] == fill);
                                assert(ob0.spec_orders()[d - 1].order_id == rested.order_id);
                            }
                        }
                    }
                    break;
                } else {
                    let mut done = maker;
                    done.remaining_qty = 0;
                    let ghost comp_before = completed@;
                    completed.push(CompletedOrder { order: done, status: OrderStatus::Filled });
                    proof {
                        assert(comp_before.is_prefix_of(completed@)) by {
                            assert(completed@.subrange(0, comp_before.len() as int)
                                =~= comp_before);
                        }
                        assert(c0.is_prefix_of(completed@)) by {
                            assert(completed@.subrange(0, c0.len() as int) =~= c0);
                        }
                        assert forall|k: int|
                            #![trigger fills@[k]]
                            0 <= k < fills@.len() implies spec_maker_logged(
                            fills@[k],
                            completed@,
                        ) by {
                            if k < fills@.len() - 1 {
                                assert(fills@[k] == fills_before[k]);
                                assert(spec_maker_logged(fills_before[k], comp_before));
                                lemma_logged_persists(fills_before[k], comp_before, completed@);
                            } else {
                                assert(fills@[k] == fill);
                                let c = comp_before.len() as int;
                                assert(completed@[c].order.order_id == fill.maker_order_id);
                                assert(completed@[c].status == OrderStatus::Filled);
                                assert(completed@[c].order.remaining_qty == 0);
                            }
                        }
                        assert forall|c: int|
                            c0.len() <= c < completed@.len() implies spec_logged_maker_entry(
                            #[trigger] completed@[c],
                            ob0.spec_orders(),
                        ) by {
                            if c < comp_before.len() {
                                assert(completed@[c] == comp_before[c]);
                            } else {
                                assert(completed@[c].order.order_id
                                    == ob0.spec_orders()[d - 1].order_id);
                            }
                        }
                    }
                }
            },
            _ => {
                if maker_violated {
                    let ghost comp_before = completed@;
                    completed.push(CompletedOrder { order: maker, status: OrderStatus::Failed });
                    proof {
                        d = d + 1;
                        assert(c0.is_prefix_of(completed@)) by {
                            assert(completed@.subrange(0, c0.len() as int) =~= c0);
                        }
                        assert(comp_before.is_prefix_of(completed@)) by {
                            assert(completed@.subrange(0, comp_before.len() as int)
                                =~= comp_before);
                        }
                        assert forall|k: int|
                            #![trigger fills@[k]]
                            0 <= k < fills@.len() implies spec_maker_logged(
                            fills@[k],
                            completed@,
                        ) by {
                            assert(spec_maker_logged(fills@[k], comp_before));
                            lemma_logged_persists(fills@[k], comp_before, completed@);
                        }
                        assert forall|c: int|
                            c0.len() <= c < completed@.len() implies spec_logged_maker_entry(
                            #[trigger] completed@[c],
                            ob0.spec_orders(),
                        ) by {
                            if c < comp_before.len() {
                                assert(completed@[c] == comp_before[c]);
                            } else {
                                assert(maker == ob0.spec_orders()[d - 1]);
                                assert(completed@[c].order == ob0.spec_orders()[d - 1]);
                            }
                        }
                        assert forall|k: int|
                            0 <= k < fills@.len() implies spec_fill_ok_upto(
                            #[trigger] fills@[k],
                            taker,
                            book_before,
                            d,
                        ) by {
                            assert(spec_fill_ok_upto(fills@[k], taker, book_before, d - 1));
                        }
                    }
                } else {
                    // The incoming order is the violator: put the resting
                    // order back untouched and stop.
                    proof {
                        assert forall|i: int|
                            0 <= i < opposite.spec_orders().len() implies (
                        #[trigger] opposite.spec_orders()[i]).order_id != maker.order_id by {
                            assert(opposite.spec_orders()[i] == book_before[d + 1 + i]);
                        }
                    }
                    pending = Some(maker);
                    taker_failed = true;
                    proof {
                        d = d + 1;
                        assert forall|k: int|
                            0 <= k < fills@.len() implies spec_fill_ok_upto(
                            #[trigger] fills@[k],
                            taker,
                            book_before,
                            d,
                        ) by {
                            assert(spec_fill_ok_upto(fills@[k], taker, book_before, d - 1));
                        }
                        assert(maker == book_before[d - 1]);
                        assert(maker.price is Some && maker.spec_limit_price() == maker_price);
                        assert(*accounts == a_pre);
                        assert(fill_qty == (if order.remaining_qty < maker.remaining_qty {
                            order.remaining_qty
                        } else {
                            maker.remaining_qty
                        }));
                        assert(spec_taker_blocked(*accounts, first@, second@, order, maker));
                    }
                    break;
                }
            },
        }
    }
    // A partially filled or blameless resting order goes back to the front
    // of its book, at its original priority.
    let ghost before_reinsert = *opposite;
    match pending {
        Some(m) => {
            proof {
                // The order going back outranks whatever is left: its
                // price and id are those of the book entry that stood
                // right before the current suffix.
                if before_reinsert.spec_orders().len() > 0 {
                    assert(before_reinsert.spec_orders()[0] == ob0.spec_orders()[d]);
                    assert(spec_ranks_le(
                        ob0.spec_side(),
                        ob0.spec_orders()[d - 1],
                        ob0.spec_orders()[d],
                    ));
                    assert(ob0.spec_orders()[d - 1].order_id != ob0.spec_orders()[d].order_id);
                    assert(!spec_ranks_le(ob0.spec_side(), before_reinsert.spec_orders()[0], m));
                }
            }
            opposite.insert(m);
            proof {
                assert(opposite.spec_orders()[0] == m);
                let k = choose|k: int|
                    0 <= k <= before_reinsert.spec_orders().len() && opposite.spec_orders()
                        == before_reinsert.spec_orders().insert(k, m);
                before_reinsert.spec_orders().insert_ensures(k, m);
                assert forall|i: int|
                    0 <= i < opposite.spec_orders().len() implies exists|j: int|
                    0 <= j < ob0.spec_orders().len() && (#[trigger] opposite.spec_orders()[i]).order_id
                        == ob0.spec_orders()[j].order_id by {
                    if i < k {
                        assert(opposite.spec_orders()[i] == before_reinsert.spec_orders()[i]);
                        assert(before_reinsert.spec_orders()[i] == ob0.spec_orders()[d + i]);
                    } else if i == k {
                        assert(opposite.spec_orders()[i] == m);
                        assert(ob0.spec_orders()[d - 1].order_id == m.order_id);
                    } else {
                        assert(opposite.spec_orders()[i] == before_reinsert.spec_orders()[i - 1]);
                        assert(before_reinsert.spec_orders()[i - 1] == ob0.spec_orders()[d + i
                            - 1]);
                    }
                }
                assert forall|kk: int|
                    #![trigger fills@[kk]]
                    0 <= kk < fills@.len() implies spec_maker_settled(
                    fills@[kk],
                    completed@,
                    opposite.spec_orders(),
                    ob0.spec_orders(),
                ) by {
                    if !spec_maker_logged(fills@[kk], completed@) {
                        assert(m.order_id == fills@[kk].maker_order_id);
                        assert(opposite.spec_orders()[0] == m);
                    }
                }
            }
        },
        None => {
            proof {
                assert forall|i: int|
                    0 <= i < opposite.spec_orders().len() implies exists|j: int|
                    0 <= j < ob0.spec_orders().len() && (#[trigger] opposite.spec_orders()[i]).order_id
                        == ob0.spec_orders()[j].order_id by {
                    assert(opposite.spec_orders()[i] == ob0.spec_orders()[d + i]);
                }
                assert forall|kk: int|
                    #![trigger fills@[kk]]
                    0 <= kk < fills@.len() implies spec_maker_settled(
                    fills@[kk],
                    completed@,
                    opposite.spec_orders(),
                    ob0.spec_orders(),
                ) by {
                    assert(spec_maker_logged(fills@[kk], completed@));
                }
            }
        },
    }
    proof {
        assert forall|k: int|
            0 <= k < fills@.len() implies spec_fill_ok(
            #[trigger] fills@[k],
            taker,
            ob0.spec_orders(),
        ) by {
            assert(spec_fill_ok_upto(fills@[k], taker, ob0.spec_orders(), d));
        }
    }
    MatchOutcome { order, fills, taker_failed }
}

/// What the engine reports after consuming one incoming order: the fills
/// executed, the order's final state, and where it ended up.
pub struct ProcessOutcome {
    pub fills: Vec<Fill>,
    pub order: MarketOrder,
    pub status: OrderStatus,
}

/// One currency-pair market: a bounded inbox of incoming orders, the two
/// price-ordered books of resting limit orders, and an append-only log of
/// finished orders. A single consumer drives `process_next`; the books are
/// touched by nothing else.
#[derive(Debug)]
pub struct Market {
    swap_pair: SwapPair,
    inbox: Vec<MarketOrder>,
    bids: OrderBook,
    asks: OrderBook,
    completed: Vec<CompletedOrder>,
    next_order_id: u64,
}

impl Market {
    pub closed spec fn spec_pair(&self) -> SwapPair {
        self.swap_pair
    }

    pub closed spec fn spec_inbox(&self) -> Seq<MarketOrder> {
        self.inbox@
    }

    pub closed spec fn spec_bids(&self) -> OrderBook {
        self.bids
    }

    pub closed spec fn spec_asks(&self) -> OrderBook {
        self.asks
    }

    pub closed spec fn spec_completed(&self) -> Seq<CompletedOrder> {
        self.completed@
    }

    pub closed spec fn spec_next_order_id(&self) -> u64 {
        self.next_order_id
    }

    /// The book an incoming order of `side` matches against.
    pub open spec fn spec_opposite_book(&self, side: Side) -> OrderBook {
        match side {
            Side::Sell => self.spec_bids(),
            Side::Buy => self.spec_asks(),
        }
    }

    /// The book an incoming order of `side` would rest in.
    pub open spec fn spec_own_book(&self, side: Side) -> OrderBook {
        match side {
            Side::Sell => self.spec_asks(),
            Side::Buy => self.spec_bids(),
        }
    }

    pub open spec fn wf(&self) -> bool {
        &&& self.spec_pair().wf()
        &&& self.spec_bids().wf()
        &&& self.spec_bids().spec_side() == Side::Buy
        &&& self.spec_asks().wf()
        &&& self.spec_asks().spec_side() == Side::Sell
        &&& self.spec_inbox().len() <= MARKET_INBOX_CAPACITY
        &&& (forall|i: int|
            0 <= i < self.spec_inbox().len() ==> (#[trigger] self.spec_inbox()[i]).wf()
                && self.spec_inbox()[i].order_id == 0)
        &&& self.spec_next_order_id() >= 1
        &&& (forall|i: int|
            0 <= i < self.spec_bids().spec_orders().len() ==> (
            #[trigger] self.spec_bids().spec_orders()[i]).order_id < self.spec_next_order_id())
        &&& (forall|i: int|
            0 <= i < self.spec_asks().spec_orders().len() ==> (
            #[trigger] self.spec_asks().spec_orders()[i]).order_id < self.spec_next_order_id())
    }

    /// A fresh market for the two distinct symbols, in either order.
    pub fn new(a: String, b: String) -> (m: Market)
        requires
            a@ != b@,
        ensures
            m.wf(),
            m.spec_pair().spec_first() == canonical_first(a@, b@),
            m.spec_pair().spec_second() == canonical_second(a@, b@),
            m.spec_inbox().len() == 0,
            m.spec_bids().spec_orders().len() == 0,
            m.spec_asks().spec_orders().len() == 0,
            m.spec_completed().len() == 0,
            m.spec_next_order_id() == 1,
    {
        Market {
            swap_pair: SwapPair::new(a, b),
            inbox: Vec::new(),
            bids: OrderBook::new(Side::Buy),
            asks: OrderBook::new(Side::Sell),
            completed: Vec::new(),
            next_order_id: 1,
        }
    }

    pub fn pair(&self) -> (p: &SwapPair)
        ensures
            *p == self.spec_pair(),
    {
        &self.swap_pair
    }

    pub fn inbox_len(&self) -> (n: usize)
        ensures
            n == self.spec_inbox().len(),
    {
        self.inbox.len()
    }

    pub fn next_order_id(&self) -> (n: u64)
        ensures
            n == self.spec_next_order_id(),
    {
        self.next_order_id
    }

    pub fn completed_len(&self) -> (n: usize)
        ensures
            n == self.spec_completed().len(),
    {
        self.completed.len()
    }

    pub fn completed_at(&self, i: usize) -> (c: CompletedOrder)
        requires
            i < self.spec_completed().len(),
        ensures
            c == self.spec_completed()[i as int],
    {
        self.completed[i]
    }

    pub fn bids(&self) -> (b: &OrderBook)
        ensures
            *b == self.spec_bids(),
    {
        &self.bids
    }

    pub fn asks(&self) -> (b: &OrderBook)
        ensures
            *b == self.spec_asks(),
    {
        &self.asks
    }

    /// Canonicalise an incoming request to this market: spending the
    /// pair's first symbol sells it, spending the second buys it; any
    /// other symbols are the wrong market.
    pub fn canonicalize(&self, request: &TradeRequest, user_id: i32) -> (r: Result<
        MarketOrder,
        ErrorKind,
    >)
        requires
            self.wf(),
            request.wf(),
        ensures
            r is Ok <==> ((request.symbol_source@ == self.spec_pair().spec_first()
                && request.symbol_dest@ == self.spec_pair().spec_second()) || (
            request.symbol_source@ == self.spec_pair().spec_second() && request.symbol_dest@
                == self.spec_pair().spec_first())),
            r is Err ==> r->Err_0 == ErrorKind::WrongMarket,
            r matches Ok(o) ==> {
                &&& o.wf()
                &&& o.order_id == 0
                &&& o.user_id == user_id
                &&& o.kind == request.trade_type
                &&& o.price == request.price
                &&& o.source_qty == request.source_quantity
                &&& o.remaining_qty == request.source_quantity
                &&& o.side == (if request.symbol_source@ == self.spec_pair().spec_first() {
                    Side::Sell
                } else {
                    Side::Buy
                })
            },
    {
        let src_is_first = request.symbol_source == *self.swap_pair.first();
        let src_is_second = request.symbol_source == *self.swap_pair.second();
        let dst_is_first = request.symbol_dest == *self.swap_pair.first();
        let dst_is_second = request.symbol_dest == *self.swap_pair.second();
        if src_is_first && dst_is_second {
            Ok(MarketOrder::new(request, user_id, Side::Sell))
        } else if src_is_second && dst_is_first {
            Ok(MarketOrder::new(request, user_id, Side::Buy))
        } else {
            Err(ErrorKind::WrongMarket)
        }
    }

    /// Queue a canonicalised order for the consumer. The inbox is bounded:
    /// a full market refuses with `Backpressure` and changes nothing.
    pub fn send_order(&mut self, order: MarketOrder) -> (r: Result<(), ErrorKind>)
        requires
            old(self).wf(),
            order.wf(),
            order.order_id == 0,
        ensures
            final(self).wf(),
            old(self).spec_inbox().len() >= MARKET_INBOX_CAPACITY ==> r is Err && r->Err_0
                == ErrorKind::Backpressure && *final(self) == *old(self),
            old(self).spec_inbox().len() < MARKET_INBOX_CAPACITY ==> r is Ok
                && final(self).spec_inbox() == old(self).spec_inbox().push(order),
            final(self).spec_pair() == old(self).spec_pair(),
            final(self).spec_bids() == old(self).spec_bids(),
            final(self).spec_asks() == old(self).spec_asks(),
            final(self).spec_completed() == old(self).spec_completed(),
            final(self).spec_next_order_id() == old(self).spec_next_order_id(),
    {
        if self.inbox.len() >= MARKET_INBOX_CAPACITY {
            return Err(ErrorKind::Backpressure);
        }
        self.inbox.push(order);
        Ok(())
    }

    /// Apply the matching algorithm to one incoming order: sweep the
    /// opposite book in priority order, settling each fill at the resting
    /// order's price, then rest, cancel or complete what remains.
    pub fn process_order(&mut self, taker: MarketOrder, accounts: &mut Accounts) -> (out:
        ProcessOutcome)
        requires
            old(self).wf(),
            old(accounts).wf(),
            taker.wf(),
            taker.order_id == 0,
            old(self).spec_next_order_id() < u64::MAX,
        ensures
            final(self).wf(),
            final(accounts).wf(),
            final(self).spec_pair() == old(self).spec_pair(),
            final(self).spec_inbox() == old(self).spec_inbox(),
            forall|u: i32| #[trigger]
                final(accounts).spec_has_user(u) == old(accounts).spec_has_user(u),
            forall|u: i32, s: Seq<char>|
                #[trigger] final(accounts).spec_has_wallet(u, s) == old(
                    accounts,
                ).spec_has_wallet(u, s),
            old(self).spec_completed().is_prefix_of(final(self).spec_completed()),
            forall|u: i32, s: Seq<char>|
                old(accounts).spec_has_wallet(u, s) ==> #[trigger] final(accounts).spec_balance(
                    u,
                    s,
                ) == old(accounts).spec_balance(u, s) + spec_fills_delta(
                    out.fills@,
                    u,
                    s,
                    taker.side,
                    old(self).spec_pair().spec_first(),
                    old(self).spec_pair().spec_second(),
                ),
            out.order.user_id == taker.user_id,
            out.order.side == taker.side,
            out.order.kind == taker.kind,
            out.order.price == taker.price,
            out.order.source_qty == taker.source_qty,
            out.order.wf(),
            out.order.remaining_qty <= taker.remaining_qty,
            spec_fills_total(out.fills@) == taker.remaining_qty - out.order.remaining_qty,
            forall|k: int|
                0 <= k < out.fills@.len() ==> spec_fill_ok(
                    #[trigger] out.fills@[k],
                    taker,
                    old(self).spec_opposite_book(taker.side).spec_orders(),
                ),
            forall|k: int, l: int|
                #![trigger out.fills@[k], out.fills@[l]]
                0 <= k < l < out.fills@.len() && out.fills@[k].price == out.fills@[l].price
                    ==> out.fills@[k].maker_order_id < out.fills@[l].maker_order_id,
            out.status == OrderStatus::Filled <==> out.order.remaining_qty == 0,
            out.status == OrderStatus::Resting ==> taker.kind == OrderKind::Limit
                && out.order.order_id == old(self).spec_next_order_id() && exists|i: int|
                0 <= i < final(self).spec_own_book(taker.side).spec_orders().len()
                    && final(self).spec_own_book(taker.side).spec_orders()[i] == out.order,
            out.status == OrderStatus::PartialUnfilled ==> taker.kind == OrderKind::Market,
            out.status != OrderStatus::Resting ==> out.order.order_id == 0
                && final(self).spec_completed().len() > 0 && final(self).spec_completed().last()
                == (CompletedOrder { order: out.order, status: out.status }),
            forall|c: int|
                old(self).spec_completed().len() <= c < final(self).spec_completed().len() ==> (
                out.status != OrderStatus::Resting && c == final(self).spec_completed().len() - 1
                    && #[trigger] final(self).spec_completed()[c] == (CompletedOrder {
                    order: out.order,
                    status: out.status,
                })) || spec_logged_maker_entry(
                    final(self).spec_completed()[c],
                    old(self).spec_opposite_book(taker.side).spec_orders(),
                ),
            spec_fills_are_min(
                out.fills@,
                taker,
                old(self).spec_opposite_book(taker.side).spec_orders(),
            ),
            forall|k: int|
                0 <= k < out.fills@.len() ==> spec_maker_settled(
                    #[trigger] out.fills@[k],
                    final(self).spec_completed(),
                    final(self).spec_opposite_book(taker.side).spec_orders(),
                    old(self).spec_opposite_book(taker.side).spec_orders(),
                ),
            out.order.remaining_qty > 0 && out.status != OrderStatus::Failed ==> {
                &&& (taker.kind == OrderKind::Limit ==> out.status == OrderStatus::Resting)
                &&& (taker.kind == OrderKind::Market ==> out.status
                    == OrderStatus::PartialUnfilled)
            },
            out.status != OrderStatus::Failed && out.order.remaining_qty > 0
                ==> final(self).spec_opposite_book(taker.side).spec_orders().len() == 0
                || !price_feasible(
                taker,
                final(self).spec_opposite_book(taker.side).spec_orders()[0].spec_limit_price(),
            ),
            out.status == OrderStatus::Failed
                ==> final(self).spec_opposite_book(taker.side).spec_orders().len() > 0
                && price_feasible(
                taker,
                final(self).spec_opposite_book(taker.side).spec_orders()[0].spec_limit_price(),
            ) && spec_taker_blocked(
                *final(accounts),
                old(self).spec_pair().spec_first(),
                old(self).spec_pair().spec_second(),
                out.order,
                final(self).spec_opposite_book(taker.side).spec_orders()[0],
            ),
    {
        let first = self.swap_pair.first().clone();
        let second = self.swap_pair.second().clone();
        let ghost m0 = *self;
        let m = match taker.side {
            Side::Sell => match_taker(
                &mut self.bids,
                &mut self.completed,
                accounts,
                taker,
                &first,
                &second,
            ),
            Side::Buy => match_taker(
                &mut self.asks,
                &mut self.completed,
                accounts,
                taker,
                &first,
                &second,
            ),
        };
        let ghost mid = *self;
        let MatchOutcome { mut order, fills, taker_failed } = m;
        proof {
            lemma_book_ids_bounded(m0, mid, taker.side);
        }
        if taker_failed {
            self.completed.push(CompletedOrder { order, status: OrderStatus::Failed });
            proof {
                lemma_completed_grows(m0.spec_completed(), mid.spec_completed(), self.spec_completed());
                assert(mid.spec_completed().is_prefix_of(self.spec_completed())) by {
                    assert(self.spec_completed().subrange(0, mid.spec_completed().len() as int)
                        =~= mid.spec_completed());
                }
                lemma_settled_persist(
                    fills@,
                    mid.spec_completed(),
                    self.spec_completed(),
                    mid.spec_opposite_book(taker.side).spec_orders(),
                    m0.spec_opposite_book(taker.side).spec_orders(),
                );
                assert forall|c: int|
                    m0.spec_completed().len() <= c < self.spec_completed().len()
                        && c < self.spec_completed().len() - 1 implies spec_logged_maker_entry(
                    #[trigger] self.spec_completed()[c],
                    m0.spec_opposite_book(taker.side).spec_orders(),
                ) by {
                    assert(self.spec_completed()[c] == mid.spec_completed()[c]);
                }
            }
            ProcessOutcome { fills, order, status: OrderStatus::Failed }
        } else if order.remaining_qty == 0 {
            self.completed.push(CompletedOrder { order, status: OrderStatus::Filled });
            proof {
                lemma_completed_grows(m0.spec_completed(), mid.spec_completed(), self.spec_completed());
                assert(mid.spec_completed().is_prefix_of(self.spec_completed())) by {
                    assert(self.spec_completed().subrange(0, mid.spec_completed().len() as int)
                        =~= mid.spec_completed());
                }
                lemma_settled_persist(
                    fills@,
                    mid.spec_completed(),
                    self.spec_completed(),
                    mid.spec_opposite_book(taker.side).spec_orders(),
                    m0.spec_opposite_book(taker.side).spec_orders(),
                );
                assert forall|c: int|
                    m0.spec_completed().len() <= c < self.spec_completed().len()
                        && c < self.spec_completed().len() - 1 implies spec_logged_maker_entry(
                    #[trigger] self.spec_completed()[c],
                    m0.spec_opposite_book(taker.side).spec_orders(),
                ) by {
                    assert(self.spec_completed()[c] == mid.spec_completed()[c]);
                }
            }
            ProcessOutcome { fills, order, status: OrderStatus::Filled }
        } else {
            match taker.kind {
                OrderKind::Market => {
                    self.completed.push(
                        CompletedOrder { order, status: OrderStatus::PartialUnfilled },
                    );
                    proof {
                        lemma_completed_grows(
                            m0.spec_completed(),
                            mid.spec_completed(),
                            self.spec_completed(),
                        );
                        assert(mid.spec_completed().is_prefix_of(self.spec_completed())) by {
                            assert(self.spec_completed().subrange(
                                0,
                                mid.spec_completed().len() as int,
                            ) =~= mid.spec_completed());
                        }
                        lemma_settled_persist(
                            fills@,
                            mid.spec_completed(),
                            self.spec_completed(),
                            mid.spec_opposite_book(taker.side).spec_orders(),
                            m0.spec_opposite_book(taker.side).spec_orders(),
                        );
                        assert forall|c: int|
                            m0.spec_completed().len() <= c < self.spec_completed().len() && c
                                < self.spec_completed().len() - 1 implies spec_logged_maker_entry(
                            #[trigger] self.spec_completed()[c],
                            m0.spec_opposite_book(taker.side).spec_orders(),
                        ) by {
                            assert(self.spec_completed()[c] == mid.spec_completed()[c]);
                        }
                    }
                    ProcessOutcome { fills, order, status: OrderStatus::PartialUnfilled }
                },
                OrderKind::Limit => {
                    order.order_id = self.next_order_id;
                    self.next_order_id = self.next_order_id + 1;
                    match taker.side {
                        Side::Sell => {
                            self.asks.insert(order);
                        },
                        Side::Buy => {
                            self.bids.insert(order);
                        },
                    }
                    proof {
                        let own0 = mid.spec_own_book(taker.side).spec_orders();
                        let own1 = self.spec_own_book(taker.side).spec_orders();
                        let k = choose|k: int|
                            0 <= k <= own0.len() && own1 == own0.insert(k, order);
                        own0.insert_ensures(k, order);
                        assert(own1[k] == order);
                        assert forall|i: int|
                            0 <= i < own1.len() implies (#[trigger] own1[i]).order_id
                            < self.spec_next_order_id() by {
                            if i < k {
                                assert(own1[i] == own0[i]);
                            } else if i > k {
                                assert(own1[i] == own0[i - 1]);
                            }
                        }
                        assert(self.spec_completed() == mid.spec_completed());
                        assert(m0.spec_completed().is_prefix_of(self.spec_completed()));
                    }
                    ProcessOutcome { fills, order, status: OrderStatus::Resting }
                },
            }
        }
    }

    /// Take the oldest queued order, if any, and run it through the
    /// matching algorithm: the inbox is consumed in strict arrival order.
    pub fn process_next(&mut self, accounts: &mut Accounts) -> (out: Option<ProcessOutcome>)
        requires
            old(self).wf(),
            old(accounts).wf(),
            old(self).spec_next_order_id() < u64::MAX,
        ensures
            final(self).wf(),
            final(accounts).wf(),
            final(self).spec_pair() == old(self).spec_pair(),
            out is Some <==> old(self).spec_inbox().len() > 0,
            out is None ==> *final(self) == *old(self) && *final(accounts) == *old(accounts),
            forall|u: i32| #[trigger]
                final(accounts).spec_has_user(u) == old(accounts).spec_has_user(u),
            forall|u: i32, s: Seq<char>|
                #[trigger] final(accounts).spec_has_wallet(u, s) == old(
                    accounts,
                ).spec_has_wallet(u, s),
            old(self).spec_completed().is_prefix_of(final(self).spec_completed()),
            out is Some ==> final(self).spec_inbox() == old(self).spec_inbox().remove(0),
            out is Some ==> {
                &&& out->0.order.user_id == old(self).spec_inbox()[0].user_id
                &&& out->0.order.side == old(self).spec_inbox()[0].side
                &&& out->0.order.kind == old(self).spec_inbox()[0].kind
                &&& out->0.order.source_qty == old(self).spec_inbox()[0].source_qty
                &&& spec_fills_total(out->0.fills@) == old(self).spec_inbox()[0].remaining_qty
                    - out->0.order.remaining_qty
                &&& (out->0.status == OrderStatus::Filled <==> out->0.order.remaining_qty == 0)
                &&& forall|k: int|
                    0 <= k < out->0.fills@.len() ==> spec_fill_ok(
                        #[trigger] out->0.fills@[k],
                        old(self).spec_inbox()[0],
                        old(self).spec_opposite_book(old(self).spec_inbox()[0].side).spec_orders(),
                    )
                &&& forall|k: int, l: int|
                    #![trigger out->0.fills@[k], out->0.fills@[l]]
                    0 <= k < l < out->0.fills@.len() && out->0.fills@[k].price
                        == out->0.fills@[l].price ==> out->0.fills@[k].maker_order_id
                        < out->0.fills@[l].maker_order_id
                &&& forall|u: i32, s: Seq<char>|
                    old(accounts).spec_has_wallet(u, s)
                        ==> #[trigger] final(accounts).spec_balance(u, s)
                        == old(accounts).spec_balance(u, s) + spec_fills_delta(
                        out->0.fills@,
                        u,
                        s,
                        old(self).spec_inbox()[0].side,
                        old(self).spec_pair().spec_first(),
                        old(self).spec_pair().spec_second(),
                    )
                &&& spec_fills_are_min(
                    out->0.fills@,
                    old(self).spec_inbox()[0],
                    old(self).spec_opposite_book(old(self).spec_inbox()[0].side).spec_orders(),
                )
                &&& forall|k: int|
                    0 <= k < out->0.fills@.len() ==> spec_maker_settled(
                        #[trigger] out->0.fills@[k],
                        final(self).spec_completed(),
                        final(self).spec_opposite_book(
                            old(self).spec_inbox()[0].side,
                        ).spec_orders(),
                        old(self).spec_opposite_book(
                            old(self).spec_inbox()[0].side,
                        ).spec_orders(),
                    )
                &&& (out->0.order.remaining_qty > 0 && out->0.status != OrderStatus::Failed ==> {
                    &&& (old(self).spec_inbox()[0].kind == OrderKind::Limit ==> out->0.status
                        == OrderStatus::Resting)
                    &&& (old(self).spec_inbox()[0].kind == OrderKind::Market ==> out->0.status
                        == OrderStatus::PartialUnfilled)
                })
                &&& (out->0.status != OrderStatus::Failed && out->0.order.remaining_qty > 0
                    ==> final(self).spec_opposite_book(
                    old(self).spec_inbox()[0].side,
                ).spec_orders().len() == 0 || !price_feasible(
                    old(self).spec_inbox()[0],
                    final(self).spec_opposite_book(
                        old(self).spec_inbox()[0].side,
                    ).spec_orders()[0].spec_limit_price(),
                ))
                &&& (out->0.status == OrderStatus::Failed ==> final(self).spec_opposite_book(
                    old(self).spec_inbox()[0].side,
                ).spec_orders().len() > 0 && price_feasible(
                    old(self).spec_inbox()[0],
                    final(self).spec_opposite_book(
                        old(self).spec_inbox()[0].side,
                    ).spec_orders()[0].spec_limit_price(),
                ) && spec_taker_blocked(
                    *final(accounts),
                    old(self).spec_pair().spec_first(),
                    old(self).spec_pair().spec_second(),
                    out->0.order,
                    final(self).spec_opposite_book(
                        old(self).spec_inbox()[0].side,
                    ).spec_orders()[0],
                ))
            },
    {
        if self.inbox.len() == 0 {
            return None;
        }
        let taker = self.inbox.remove(0);
        let out = self.process_order(taker, accounts);
        Some(out)
    }
}

/// After matching, every id in the touched book was already there, so the
/// market's id bound carries over.
proof fn lemma_book_ids_bounded(m0: Market, mid: Market, side: Side)
    requires
        m0.wf(),
        mid.spec_next_order_id() == m0.spec_next_order_id(),
        mid.spec_own_book(side) == m0.spec_own_book(side),
        spec_ids_from(
            mid.spec_opposite_book(side).spec_orders(),
            m0.spec_opposite_book(side).spec_orders(),
        ),
    ensures
        forall|i: int|
            0 <= i < mid.spec_opposite_book(side).spec_orders().len() ==> (
            #[trigger] mid.spec_opposite_book(side).spec_orders()[i]).order_id
                < mid.spec_next_order_id(),
{
    let b0 = m0.spec_opposite_book(side).spec_orders();
    let b1 = mid.spec_opposite_book(side).spec_orders();
    assert forall|i: int|
        0 <= i < b1.len() implies (#[trigger] b1[i]).order_id < mid.spec_next_order_id() by {
        let j = choose|j: int| 0 <= j < b0.len() && b1[i].order_id == b0[j].order_id;
        assert(b0[j].order_id < m0.spec_next_order_id());
    }
}

/// Maker accounting persists as the log grows.
proof fn lemma_settled_persist(
    fills: Seq<Fill>,
    c_old: Seq<CompletedOrder>,
    c_new: Seq<CompletedOrder>,
    book: Seq<MarketOrder>,
    book0: Seq<MarketOrder>,
)
    requires
        forall|k: int|
            0 <= k < fills.len() ==> spec_maker_settled(#[trigger] fills[k], c_old, book, book0),
        c_old.is_prefix_of(c_new),
    ensures
        forall|k: int|
            0 <= k < fills.len() ==> spec_maker_settled(#[trigger] fills[k], c_new, book, book0),
{
    assert forall|k: int|
        0 <= k < fills.len() implies spec_maker_settled(
        #[trigger] fills[k],
        c_new,
        book,
        book0,
    ) by {
        if spec_maker_logged(fills[k], c_old) {
            lemma_logged_persists(fills[k], c_old, c_new);
        }
    }
}

/// Prefix-of is carried across one more push to the log.
proof fn lemma_completed_grows(
    c0: Seq<CompletedOrder>,
    c1: Seq<CompletedOrder>,
    c2: Seq<CompletedOrder>,
)
    requires
        c0.is_prefix_of(c1),
        c1.len() + 1 == c2.len(),
        forall|i: int| 0 <= i < c1.len() ==> c1[i] == #[trigger] c2[i],
    ensures
        c0.is_prefix_of(c2),
{
    assert(c2.subrange(0, c0.len() as int) =~= c0);
}

} // verus!
