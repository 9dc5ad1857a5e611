use moss_street::accounts::Accounts;
use moss_street::backend::TradeBackend;
use moss_street::errors::ErrorKind;
use moss_street::market::{Market, ProcessOutcome};
use moss_street::order::{OrderKind, OrderStatus, TradeRequest};
use moss_street::pair::SwapPair;
use moss_street::service::create_trade;
use moss_street::wallet::Wallet;

fn limit(src: &str, dst: &str, qty: u64, price: u64) -> TradeRequest {
    TradeRequest {
        symbol_source: src.to_string(),
        symbol_dest: dst.to_string(),
        source_quantity: qty,
        trade_type: OrderKind::Limit,
        price: Some(price),
    }
}

fn market_order(src: &str, dst: &str, qty: u64) -> TradeRequest {
    TradeRequest {
        symbol_source: src.to_string(),
        symbol_dest: dst.to_string(),
        source_quantity: qty,
        trade_type: OrderKind::Market,
        price: None,
    }
}

fn usd_btc_backend() -> (TradeBackend, SwapPair) {
    let mut backend = TradeBackend::new();
    backend.add_market(Market::new("USD".to_string(), "BTC".to_string()));
    let pair = SwapPair::new("USD".to_string(), "BTC".to_string());
    (backend, pair)
}

fn fund(accounts: &mut Accounts, uid: i32, usd: u64, btc: u64) {
    accounts.add_user(uid).unwrap();
    accounts
        .add_wallet(uid, Wallet::with_balance("USD".to_string(), usd))
        .unwrap();
    accounts
        .add_wallet(uid, Wallet::with_balance("BTC".to_string(), btc))
        .unwrap();
}

fn step(backend: &mut TradeBackend, pair: &SwapPair, accounts: &mut Accounts) -> ProcessOutcome {
    backend
        .process_next_in(pair, accounts)
        .unwrap()
        .expect("an order should be queued")
}

fn usd(accounts: &Accounts, uid: i32) -> u64 {
    accounts.balance_of(uid, &"USD".to_string()).unwrap()
}

fn btc(accounts: &Accounts, uid: i32) -> u64 {
    accounts.balance_of(uid, &"BTC".to_string()).unwrap()
}

#[test]
fn test_limit_limit_crossing() {
    // A rests SELL 1 BTC @ 100; B submits BUY 1 BTC @ 100: both fill, and
    // 100 USD trade places with 1 BTC.
    let (mut backend, pair) = usd_btc_backend();
    let mut accounts = Accounts::new();
    fund(&mut accounts, 1, 0, 1);
    fund(&mut accounts, 2, 100, 0);

    create_trade(&mut backend, &accounts, 1, &limit("BTC", "USD", 1, 100)).unwrap();
    let rest = step(&mut backend, &pair, &mut accounts);
    assert_eq!(rest.status, OrderStatus::Resting);

    create_trade(&mut backend, &accounts, 2, &limit("USD", "BTC", 1, 100)).unwrap();
    let cross = step(&mut backend, &pair, &mut accounts);
    assert_eq!(cross.status, OrderStatus::Filled);
    assert_eq!(cross.fills.len(), 1);
    assert_eq!(cross.fills[0].qty, 1);
    assert_eq!(cross.fills[0].price, 100);

    assert_eq!(usd(&accounts, 1), 100);
    assert_eq!(btc(&accounts, 1), 0);
    assert_eq!(usd(&accounts, 2), 0);
    assert_eq!(btc(&accounts, 2), 1);

    let market = backend.get_market(&pair).unwrap();
    assert_eq!(market.asks().len(), 0);
    assert_eq!(market.bids().len(), 0);
    // Both orders are marked filled in the completion log.
    assert_eq!(market.completed_len(), 2);
    assert_eq!(market.completed_at(0).status, OrderStatus::Filled);
    assert_eq!(market.completed_at(1).status, OrderStatus::Filled);
}

#[test]
fn test_partial_fill_and_rest() {
    // A rests SELL 2 BTC @ 50; B submits BUY 1 BTC @ 60. One fill of
    // 1 BTC at 50 (the seller set the price); A keeps resting with one
    // unit left; B is filled.
    let (mut backend, pair) = usd_btc_backend();
    let mut accounts = Accounts::new();
    fund(&mut accounts, 1, 0, 2);
    fund(&mut accounts, 2, 100, 0);

    create_trade(&mut backend, &accounts, 1, &limit("BTC", "USD", 2, 50)).unwrap();
    step(&mut backend, &pair, &mut accounts);

    create_trade(&mut backend, &accounts, 2, &limit("USD", "BTC", 1, 60)).unwrap();
    let cross = step(&mut backend, &pair, &mut accounts);
    assert_eq!(cross.status, OrderStatus::Filled);
    assert_eq!(cross.fills.len(), 1);
    assert_eq!(cross.fills[0].qty, 1);
    assert_eq!(cross.fills[0].price, 50);

    assert_eq!(usd(&accounts, 1), 50);
    assert_eq!(btc(&accounts, 1), 1);
    assert_eq!(usd(&accounts, 2), 50);
    assert_eq!(btc(&accounts, 2), 1);

    let market = backend.get_market(&pair).unwrap();
    assert_eq!(market.asks().len(), 1);
    assert_eq!(market.asks().order_at(0).remaining_qty, 1);
}

#[test]
fn test_non_cross() {
    // A rests SELL 1 @ 100; B submits BUY 1 @ 90: nobody trades, both
    // rest on their own sides.
    let (mut backend, pair) = usd_btc_backend();
    let mut accounts = Accounts::new();
    fund(&mut accounts, 1, 0, 1);
    fund(&mut accounts, 2, 100, 0);

    create_trade(&mut backend, &accounts, 1, &limit("BTC", "USD", 1, 100)).unwrap();
    step(&mut backend, &pair, &mut accounts);
    create_trade(&mut backend, &accounts, 2, &limit("USD", "BTC", 1, 90)).unwrap();
    let out = step(&mut backend, &pair, &mut accounts);
    assert_eq!(out.status, OrderStatus::Resting);
    assert_eq!(out.fills.len(), 0);

    let market = backend.get_market(&pair).unwrap();
    assert_eq!(market.asks().len(), 1);
    assert_eq!(market.asks().order_at(0).price, Some(100));
    assert_eq!(market.asks().order_at(0).user_id, 1);
    assert_eq!(market.bids().len(), 1);
    assert_eq!(market.bids().order_at(0).price, Some(90));
    assert_eq!(market.bids().order_at(0).user_id, 2);

    assert_eq!(usd(&accounts, 1), 0);
    assert_eq!(btc(&accounts, 1), 1);
    assert_eq!(usd(&accounts, 2), 100);
    assert_eq!(btc(&accounts, 2), 0);
}

#[test]
fn test_insufficient_funds() {
    // A holds USD only; selling BTC it has no wallet for is refused
    // before anything is queued.
    let (mut backend, pair) = usd_btc_backend();
    let mut accounts = Accounts::new();
    accounts.add_user(1).unwrap();
    accounts
        .add_wallet(1, Wallet::with_balance("USD".to_string(), 10))
        .unwrap();

    let outcome = create_trade(&mut backend, &accounts, 1, &limit("BTC", "USD", 5, 1));
    assert_eq!(outcome.unwrap_err(), ErrorKind::WalletMissing);
    assert_eq!(backend.get_market(&pair).unwrap().inbox_len(), 0);
}

#[test]
fn test_insufficient_balance_is_refused() {
    let (mut backend, pair) = usd_btc_backend();
    let mut accounts = Accounts::new();
    fund(&mut accounts, 1, 0, 2);

    let outcome = create_trade(&mut backend, &accounts, 1, &limit("BTC", "USD", 5, 1));
    assert_eq!(outcome.unwrap_err(), ErrorKind::InsufficientFunds);
    assert_eq!(backend.get_market(&pair).unwrap().inbox_len(), 0);
}

#[test]
fn test_fifo_tie_break() {
    // A and C each rest SELL 1 BTC @ 50 in that order; B takes one. A's
    // earlier order fills, C keeps resting.
    let (mut backend, pair) = usd_btc_backend();
    let mut accounts = Accounts::new();
    fund(&mut accounts, 1, 0, 1);
    fund(&mut accounts, 3, 0, 1);
    fund(&mut accounts, 2, 50, 0);

    create_trade(&mut backend, &accounts, 1, &limit("BTC", "USD", 1, 50)).unwrap();
    step(&mut backend, &pair, &mut accounts);
    create_trade(&mut backend, &accounts, 3, &limit("BTC", "USD", 1, 50)).unwrap();
    step(&mut backend, &pair, &mut accounts);

    create_trade(&mut backend, &accounts, 2, &limit("USD", "BTC", 1, 50)).unwrap();
    let cross = step(&mut backend, &pair, &mut accounts);
    assert_eq!(cross.status, OrderStatus::Filled);
    assert_eq!(cross.fills.len(), 1);
    assert_eq!(cross.fills[0].maker_user, 1);

    assert_eq!(usd(&accounts, 1), 50);
    assert_eq!(usd(&accounts, 3), 0);
    let market = backend.get_market(&pair).unwrap();
    assert_eq!(market.asks().len(), 1);
    assert_eq!(market.asks().order_at(0).user_id, 3);
}

#[test]
fn test_registry_symmetry() {
    // Inserting USD/BTC then BTC/USD leaves exactly one market.
    let mut backend = TradeBackend::new();
    backend.add_market(Market::new("USD".to_string(), "BTC".to_string()));
    backend.add_market(Market::new("BTC".to_string(), "USD".to_string()));
    assert_eq!(backend.market_count(), 1);
    let pair = SwapPair::new("BTC".to_string(), "USD".to_string());
    assert!(backend.get_market(&pair).is_some());
}

#[test]
fn test_market_order_sweeps_book() {
    let (mut backend, pair) = usd_btc_backend();
    let mut accounts = Accounts::new();
    fund(&mut accounts, 1, 0, 2);
    fund(&mut accounts, 2, 200, 0);

    create_trade(&mut backend, &accounts, 1, &limit("BTC", "USD", 2, 50)).unwrap();
    step(&mut backend, &pair, &mut accounts);

    create_trade(&mut backend, &accounts, 2, &market_order("USD", "BTC", 1)).unwrap();
    let out = step(&mut backend, &pair, &mut accounts);
    assert_eq!(out.status, OrderStatus::Filled);
    assert_eq!(out.fills.len(), 1);
    assert_eq!(out.fills[0].price, 50);
    assert_eq!(btc(&accounts, 2), 1);
    assert_eq!(usd(&accounts, 2), 150);
}

#[test]
fn test_market_order_partial_unfilled() {
    // A market order sweeps what the book offers; the remainder is
    // cancelled, never rested.
    let (mut backend, pair) = usd_btc_backend();
    let mut accounts = Accounts::new();
    fund(&mut accounts, 1, 0, 1);
    fund(&mut accounts, 2, 200, 0);

    create_trade(&mut backend, &accounts, 1, &limit("BTC", "USD", 1, 50)).unwrap();
    step(&mut backend, &pair, &mut accounts);

    create_trade(&mut backend, &accounts, 2, &market_order("USD", "BTC", 3)).unwrap();
    let out = step(&mut backend, &pair, &mut accounts);
    assert_eq!(out.status, OrderStatus::PartialUnfilled);
    assert_eq!(out.order.remaining_qty, 2);
    assert_eq!(btc(&accounts, 2), 1);
    let market = backend.get_market(&pair).unwrap();
    assert_eq!(market.bids().len(), 0);
    assert_eq!(
        market.completed_at(market.completed_len() - 1).status,
        OrderStatus::PartialUnfilled
    );
}

#[test]
fn test_advisory_check_settlement_failure() {
    // The balance check does not reserve funds: B queues two buys backed
    // by the same 50 USD. The first settles; the second fails at
    // settlement, is logged Failed, and moves no money. The resting
    // order survives untouched.
    let (mut backend, pair) = usd_btc_backend();
    let mut accounts = Accounts::new();
    fund(&mut accounts, 1, 0, 2);
    fund(&mut accounts, 2, 50, 0);

    create_trade(&mut backend, &accounts, 1, &limit("BTC", "USD", 2, 50)).unwrap();
    step(&mut backend, &pair, &mut accounts);

    create_trade(&mut backend, &accounts, 2, &limit("USD", "BTC", 1, 50)).unwrap();
    create_trade(&mut backend, &accounts, 2, &limit("USD", "BTC", 1, 50)).unwrap();

    let first = step(&mut backend, &pair, &mut accounts);
    assert_eq!(first.status, OrderStatus::Filled);
    assert_eq!(usd(&accounts, 2), 0);
    assert_eq!(btc(&accounts, 2), 1);

    let second = step(&mut backend, &pair, &mut accounts);
    assert_eq!(second.status, OrderStatus::Failed);
    assert_eq!(second.fills.len(), 0);
    assert_eq!(usd(&accounts, 2), 0);
    assert_eq!(btc(&accounts, 2), 1);
    assert_eq!(usd(&accounts, 1), 50);
    assert_eq!(btc(&accounts, 1), 1);

    // The blameless maker still rests with its remaining unit.
    let market = backend.get_market(&pair).unwrap();
    assert_eq!(market.asks().len(), 1);
    assert_eq!(market.asks().order_at(0).remaining_qty, 1);
}

#[test]
fn test_backpressure() {
    let (mut backend, pair) = usd_btc_backend();
    let mut accounts = Accounts::new();
    fund(&mut accounts, 1, 0, 1);

    for _ in 0..100 {
        create_trade(&mut backend, &accounts, 1, &limit("BTC", "USD", 1, 10)).unwrap();
    }
    let overflow = create_trade(&mut backend, &accounts, 1, &limit("BTC", "USD", 1, 10));
    assert_eq!(overflow.unwrap_err(), ErrorKind::Backpressure);
    assert_eq!(backend.get_market(&pair).unwrap().inbox_len(), 100);
}

#[test]
fn test_wrong_market_and_not_found() {
    let (mut backend, _pair) = usd_btc_backend();
    let mut accounts = Accounts::new();
    fund(&mut accounts, 1, 10, 10);

    // Same symbol on both sides is never a market.
    let same = create_trade(&mut backend, &accounts, 1, &limit("USD", "USD", 1, 1));
    assert_eq!(same.unwrap_err(), ErrorKind::WrongMarket);

    // A malformed request (limit without a price) is refused.
    let mut shapeless = limit("USD", "BTC", 1, 1);
    shapeless.price = None;
    let bad = create_trade(&mut backend, &accounts, 1, &shapeless);
    assert_eq!(bad.unwrap_err(), ErrorKind::WrongMarket);

    // No market trades EUR/JPY.
    let missing = create_trade(&mut backend, &accounts, 1, &limit("EUR", "JPY", 1, 1));
    assert_eq!(missing.unwrap_err(), ErrorKind::NotFound);
}

#[test]
fn test_price_improvement_for_taker() {
    // A sells at 40, B bids 60: the standing order sets the price, so B
    // pays 40 — at least as good as its own limit.
    let (mut backend, pair) = usd_btc_backend();
    let mut accounts = Accounts::new();
    fund(&mut accounts, 1, 0, 1);
    fund(&mut accounts, 2, 60, 0);

    create_trade(&mut backend, &accounts, 1, &limit("BTC", "USD", 1, 40)).unwrap();
    step(&mut backend, &pair, &mut accounts);
    create_trade(&mut backend, &accounts, 2, &limit("USD", "BTC", 1, 60)).unwrap();
    let cross = step(&mut backend, &pair, &mut accounts);
    assert_eq!(cross.fills[0].price, 40);
    assert_eq!(usd(&accounts, 2), 20);
}

#[test]
fn test_filled_quantity_accounting() {
    // An order's total filled quantity equals what it started with minus
    // what remains, across all its fills.
    let (mut backend, pair) = usd_btc_backend();
    let mut accounts = Accounts::new();
    fund(&mut accounts, 1, 0, 1);
    fund(&mut accounts, 3, 0, 1);
    fund(&mut accounts, 2, 300, 0);

    create_trade(&mut backend, &accounts, 1, &limit("BTC", "USD", 1, 50)).unwrap();
    step(&mut backend, &pair, &mut accounts);
    create_trade(&mut backend, &accounts, 3, &limit("BTC", "USD", 1, 60)).unwrap();
    step(&mut backend, &pair, &mut accounts);

    create_trade(&mut backend, &accounts, 2, &limit("USD", "BTC", 3, 70)).unwrap();
    let cross = step(&mut backend, &pair, &mut accounts);
    let total: u64 = cross.fills.iter().map(|f| f.qty).sum();
    assert_eq!(cross.fills.len(), 2);
    assert_eq!(total, 2);
    assert_eq!(cross.order.source_qty - cross.order.remaining_qty, total);
    assert_eq!(cross.status, OrderStatus::Resting);
    // Cheapest ask first, then the next price level.
    assert_eq!(cross.fills[0].price, 50);
    assert_eq!(cross.fills[1].price, 60);
}
