use vstd::prelude::*;

use crate::accounts::Accounts;
use crate::backend::TradeBackend;
use crate::errors::ErrorKind;
use crate::market::MARKET_INBOX_CAPACITY;
use crate::order::{MarketOrder, OrderKind, Side, TradeRequest};
use crate::pair::{canonical_first, canonical_second, SwapPair};

verus! {

/// The side a request takes on its market: spending the pair's canonical
/// first symbol sells it, spending the second buys it.
pub open spec fn spec_request_side(request: TradeRequest) -> Side {
    if request.symbol_source@ == canonical_first(request.symbol_source@, request.symbol_dest@) {
        Side::Sell
    } else {
        Side::Buy
    }
}

/// What the advisory pre-trade check asks the source wallet to hold: a
/// seller covers the quantity it gives away; a limit buyer covers the
/// gross it would owe at its own price; a market buyer cannot know its
/// price in advance, so only the wallets themselves are required.
pub open spec fn spec_required_cover(request: TradeRequest, side: Side) -> int {
    match side {
        Side::Sell => request.source_quantity as int,
        Side::Buy => match request.trade_type {
            OrderKind::Limit => request.source_quantity * (request.price->0 as int),
            OrderKind::Market => 0,
        },
    }
}

/// The pre-trade check run before an order is queued: the user must hold
/// wallets for both symbols of the trade and enough source balance to
/// cover it. Advisory only — nothing is reserved, and a concurrent trade
/// on the same wallets can still make settlement fail later.
pub fn check_order_prereqs(
    accounts: &Accounts,
    user_id: i32,
    request: &TradeRequest,
    side: Side,
) -> (r: Result<(), ErrorKind>)
    requires
        accounts.wf(),
        request.wf(),
    ensures
        !accounts.spec_has_wallet(user_id, request.symbol_source@) ==> r is Err && r->Err_0
            == ErrorKind::WalletMissing,
        accounts.spec_has_wallet(user_id, request.symbol_source@) && !accounts.spec_has_wallet(
            user_id,
            request.symbol_dest@,
        ) ==> r is Err && r->Err_0 == ErrorKind::WalletMissing,
        accounts.spec_has_wallet(user_id, request.symbol_source@) && accounts.spec_has_wallet(
            user_id,
            request.symbol_dest@,
        ) ==> {
            &&& (r is Ok <==> accounts.spec_balance(user_id, request.symbol_source@)
                >= spec_required_cover(*request, side))
            &&& (r is Err ==> r->Err_0 == ErrorKind::InsufficientFunds)
        },
{
    if !accounts.has_wallet_for(user_id, &request.symbol_source) {
        return Err(ErrorKind::WalletMissing);
    }
    if !accounts.has_wallet_for(user_id, &request.symbol_dest) {
        return Err(ErrorKind::WalletMissing);
    }
    let balance = match accounts.balance_of(user_id, &request.symbol_source) {
        Some(b) => b,
        None => {
            proof {
                assert(false);
            }
            return Err(ErrorKind::WalletMissing);
        },
    };
    let required: Option<u64> = match side {
        Side::Sell => Some(request.source_quantity),
        Side::Buy => match (request.trade_type, request.price) {
            (OrderKind::Limit, Some(p)) => request.source_quantity.checked_mul(p),
            _ => Some(0),
        },
    };
    match required {
        Some(req) => {
            if balance < req {
                Err(ErrorKind::InsufficientFunds)
            } else {
                Ok(())
            }
        },
        None => {
            // The cover exceeds the machine range, hence any balance.
            Err(ErrorKind::InsufficientFunds)
        },
    }
}

/// Handle one trade call, as the RPC handler does once the caller is
/// authenticated: validate the request's shape, find the market for its
/// pair, canonicalise the order, run the pre-trade check, and queue the
/// order on the market's inbox. The accepted order is returned exactly as
/// queued.
pub fn create_trade(
    backend: &mut TradeBackend,
    accounts: &Accounts,
    user_id: i32,
    request: &TradeRequest,
) -> (r: Result<MarketOrder, ErrorKind>)
    requires
        old(backend).wf(),
        accounts.wf(),
    ensures
        final(backend).wf(),
        final(backend).spec_markets().len() == old(backend).spec_markets().len(),
        r is Err ==> *final(backend) == *old(backend),
        !(request.wf() && request.symbol_source@ != request.symbol_dest@) ==> r is Err
            && r->Err_0 == ErrorKind::WrongMarket,
        request.wf() && request.symbol_source@ != request.symbol_dest@ && !old(
            backend,
        ).spec_has_market(
            canonical_first(request.symbol_source@, request.symbol_dest@),
            canonical_second(request.symbol_source@, request.symbol_dest@),
        ) ==> r is Err && r->Err_0 == ErrorKind::NotFound,
        request.wf() && request.symbol_source@ != request.symbol_dest@ && old(
            backend,
        ).spec_has_market(
            canonical_first(request.symbol_source@, request.symbol_dest@),
            canonical_second(request.symbol_source@, request.symbol_dest@),
        ) ==> {
            &&& ((!accounts.spec_has_wallet(user_id, request.symbol_source@)
                || !accounts.spec_has_wallet(user_id, request.symbol_dest@)) ==> r is Err
                && r->Err_0 == ErrorKind::WalletMissing)
            &&& (accounts.spec_has_wallet(user_id, request.symbol_source@)
                && accounts.spec_has_wallet(user_id, request.symbol_dest@)
                && accounts.spec_balance(user_id, request.symbol_source@) < spec_required_cover(
                *request,
                spec_request_side(*request),
            ) ==> r is Err && r->Err_0 == ErrorKind::InsufficientFunds)
            &&& (accounts.spec_has_wallet(user_id, request.symbol_source@)
                && accounts.spec_has_wallet(user_id, request.symbol_dest@)
                && accounts.spec_balance(user_id, request.symbol_source@) >= spec_required_cover(
                *request,
                spec_request_side(*request),
            ) ==> {
                let m0 = old(backend).spec_market(
                    canonical_first(request.symbol_source@, request.symbol_dest@),
                    canonical_second(request.symbol_source@, request.symbol_dest@),
                );
                &&& (m0.spec_inbox().len() >= MARKET_INBOX_CAPACITY ==> r is Err && r->Err_0
                    == ErrorKind::Backpressure)
                &&& (m0.spec_inbox().len() < MARKET_INBOX_CAPACITY ==> r is Ok)
            })
        },
        r matches Ok(o) ==> {
            &&& o.wf()
            &&& o.order_id == 0
            &&& o.user_id == user_id
            &&& o.kind == request.trade_type
            &&& o.price == request.price
            &&& o.source_qty == request.source_quantity
            &&& o.remaining_qty == request.source_quantity
            &&& o.side == spec_request_side(*request)
            &&& final(backend).spec_market(
                canonical_first(request.symbol_source@, request.symbol_dest@),
                canonical_second(request.symbol_source@, request.symbol_dest@),
            ).spec_inbox() == old(backend).spec_market(
                canonical_first(request.symbol_source@, request.symbol_dest@),
                canonical_second(request.symbol_source@, request.symbol_dest@),
            ).spec_inbox().push(o)
        },
{
    if !request.validate() {
        return Err(ErrorKind::WrongMarket);
    }
    if request.symbol_source == request.symbol_dest {
        return Err(ErrorKind::WrongMarket);
    }
    let pair = SwapPair::new(request.symbol_source.clone(), request.symbol_dest.clone());
    let order = {
        let market = match backend.get_market(&pair) {
            Some(m) => m,
            None => {
                return Err(ErrorKind::NotFound);
            },
        };
        let order = match market.canonicalize(request, user_id) {
            Ok(o) => o,
            Err(e) => {
                return Err(e);
            },
        };
        match check_order_prereqs(accounts, user_id, request, order.side) {
            Ok(u) => {},
            Err(e) => {
                return Err(e);
            },
        }
        order
    };
    match backend.send_order_to(&pair, order) {
        Ok(u) => Ok(order),
        Err(e) => Err(e),
    }
}

} // verus!
