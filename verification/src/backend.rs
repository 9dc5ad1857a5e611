use vstd::prelude::*;

use crate::accounts::Accounts;
use crate::errors::ErrorKind;
use crate::market::{
    spec_fill_ok, spec_fills_are_min, spec_fills_delta, spec_maker_settled, spec_taker_blocked,
    Market, ProcessOutcome,
};
use crate::order::{price_feasible, spec_fills_total, OrderKind, OrderStatus};
use crate::order::MarketOrder;
use crate::pair::SwapPair;

verus! {

/// The registry of markets, keyed by swap pair. Pair equality is
/// symmetric, so one market serves both orientations of its symbols, and
/// adding a market for a pair that already trades replaces it.
#[derive(Debug)]
pub struct TradeBackend {
    markets: Vec<Market>,
}

impl TradeBackend {
    pub closed spec fn spec_markets(&self) -> Seq<Market> {
        self.markets@
    }

    /// The canonical key of the market at index `i`.
    pub open spec fn spec_key_at(&self, i: int) -> (Seq<char>, Seq<char>) {
        (self.spec_markets()[i].spec_pair().spec_first(),
        self.spec_markets()[i].spec_pair().spec_second())
    }

    /// Well-formed markets under pairwise-distinct pairs.
    pub open spec fn wf(&self) -> bool {
        &&& forall|i: int|
            0 <= i < self.spec_markets().len() ==> (#[trigger] self.spec_markets()[i]).wf()
        &&& forall|i: int, j: int|
            0 <= i < j < self.spec_markets().len() ==> #[trigger] self.spec_key_at(i)
                != #[trigger] self.spec_key_at(j)
    }

    pub open spec fn spec_has_market(&self, first: Seq<char>, second: Seq<char>) -> bool {
        exists|i: int|
            0 <= i < self.spec_markets().len() && #[trigger] self.spec_key_at(i) == (first, second)
    }

    pub closed spec fn spec_mindex(&self, first: Seq<char>, second: Seq<char>) -> int {
        choose|i: int|
            0 <= i < self.spec_markets().len() && #[trigger] self.spec_key_at(i) == (first, second)
    }

    /// The market trading `(first, second)`; meaningful only under
    /// `spec_has_market`.
    pub open spec fn spec_market(&self, first: Seq<char>, second: Seq<char>) -> Market {
        self.spec_markets()[self.spec_mindex(first, second)]
    }

    /// The market at a valid index is the one its pair resolves to.
    proof fn lemma_entry(&self, i: int)
        requires
            self.wf(),
            0 <= i < self.spec_markets().len(),
        ensures
            self.spec_has_market(self.spec_key_at(i).0, self.spec_key_at(i).1),
            self.spec_mindex(self.spec_key_at(i).0, self.spec_key_at(i).1) == i,
            self.spec_market(self.spec_key_at(i).0, self.spec_key_at(i).1)
                == self.spec_markets()[i],
    {
        let (f, s) = self.spec_key_at(i);
        assert(self.spec_key_at(i) == (f, s));
        assert(self.spec_has_market(f, s));
        let j = self.spec_mindex(f, s);
        assert(0 <= j < self.spec_markets().len() && self.spec_key_at(j) == (f, s));
        if i != j {
            assert(false);
        }
    }

    /// An empty registry.
    pub fn new() -> (b: TradeBackend)
        ensures
            b.wf(),
            b.spec_markets().len() == 0,
            forall|f: Seq<char>, s: Seq<char>| !b.spec_has_market(f, s),
    {
        TradeBackend { markets: Vec::new() }
    }

    pub fn market_count(&self) -> (n: usize)
        ensures
            n == self.spec_markets().len(),
    {
        self.markets.len()
    }

    fn find_market(&self, pair: &SwapPair) -> (r: Option<usize>)
        ensures
            r matches Some(i) ==> i < self.spec_markets().len() && self.spec_key_at(i as int) == (
            pair.spec_first(), pair.spec_second()),
            r is None ==> !self.spec_has_market(pair.spec_first(), pair.spec_second()),
    {
        let n: usize = self.markets.len();
        let mut i: usize = 0;
        loop
            invariant
                i <= n,
                n == self.spec_markets().len(),
                forall|k: int|
                    0 <= k < i ==> #[trigger] self.spec_key_at(k) != (
                    pair.spec_first(), pair.spec_second()),
            decreases n - i,
        {
            if i == n {
                return None;
            }
            if *self.markets[i].pair() == *pair {
                proof {
                    assert(self.spec_key_at(i as int) == (pair.spec_first(), pair.spec_second()));
                }
                return Some(i);
            }
            proof {
                assert(self.spec_key_at(i as int) != (pair.spec_first(), pair.spec_second()));
            }
            i = i + 1;
        }
    }

    /// Register `market`, replacing any market already trading the same
    /// pair: inserting the same pair twice, in either symbol order, leaves
    /// exactly one entry.
    pub fn add_market(&mut self, market: Market)
        requires
            old(self).wf(),
            market.wf(),
        ensures
            final(self).wf(),
            forall|f: Seq<char>, s: Seq<char>|
                #[trigger] final(self).spec_has_market(f, s) == (old(self).spec_has_market(f, s)
                    || (f == market.spec_pair().spec_first() && s
                    == market.spec_pair().spec_second())),
            final(self).spec_market(
                market.spec_pair().spec_first(),
                market.spec_pair().spec_second(),
            ) == market,
            old(self).spec_has_market(
                market.spec_pair().spec_first(),
                market.spec_pair().spec_second(),
            ) ==> final(self).spec_markets().len() == old(self).spec_markets().len(),
            !old(self).spec_has_market(
                market.spec_pair().spec_first(),
                market.spec_pair().spec_second(),
            ) ==> final(self).spec_markets().len() == old(self).spec_markets().len() + 1,
            forall|f: Seq<char>, s: Seq<char>|
                !(f == market.spec_pair().spec_first() && s == market.spec_pair().spec_second())
                    && old(self).spec_has_market(f, s) ==> #[trigger] final(self).spec_market(f, s)
                    == old(self).spec_market(f, s),
    {
        let ghost fm = market.spec_pair().spec_first();
        let ghost sm = market.spec_pair().spec_second();
        let found = self.find_market(market.pair());
        match found {
            Some(i) => {
                let ghost pre = *self;
                self.markets[i] = market;
                proof {
                    pre.lemma_entry(i as int);
                    assert(self.spec_key_at(i as int) == (fm, sm));
                    assert forall|a: int, b: int|
                        0 <= a < b < self.spec_markets().len() implies #[trigger] self.spec_key_at(
                        a,
                    ) != #[trigger] self.spec_key_at(b) by {
                        assert(pre.spec_key_at(a) == self.spec_key_at(a));
                        assert(pre.spec_key_at(b) == self.spec_key_at(b));
                    }
                    assert forall|a: int|
                        0 <= a < self.spec_markets().len() implies (
                    #[trigger] self.spec_markets()[a]).wf() by {
                        if a != i {
                            assert(self.spec_markets()[a] == pre.spec_markets()[a]);
                        }
                    }
                    self.lemma_entry(i as int);
                    assert forall|f: Seq<char>, s: Seq<char>|
                        #[trigger] self.spec_has_market(f, s) == (pre.spec_has_market(f, s) || (f
                            == fm && s == sm)) by {
                        if pre.spec_has_market(f, s) {
                            let j = pre.spec_mindex(f, s);
                            assert(self.spec_key_at(j) == pre.spec_key_at(j) || j == i);
                            if j == i && (f, s) != (fm, sm) {
                                assert(pre.spec_key_at(i as int) == (fm, sm));
                                assert(false);
                            }
                            assert(self.spec_has_market(f, s));
                        }
                        if self.spec_has_market(f, s) {
                            let j = self.spec_mindex(f, s);
                            if j != i {
                                assert(pre.spec_key_at(j) == self.spec_key_at(j));
                                assert(pre.spec_has_market(f, s));
                            }
                        }
                    }
                    assert forall|f: Seq<char>, s: Seq<char>|
                        !(f == fm && s == sm) && pre.spec_has_market(f, s) implies #[trigger] self
                        .spec_market(f, s) == pre.spec_market(f, s) by {
                        let j = pre.spec_mindex(f, s);
                        pre.lemma_entry(j);
                        assert(j != i);
                        assert(self.spec_key_at(j) == pre.spec_key_at(j));
                        assert(self.spec_markets()[j] == pre.spec_markets()[j]);
                        self.lemma_entry(j);
                    }
                }
            },
            None => {
                let ghost pre = *self;
                self.markets.push(market);
                proof {
                    let n = pre.spec_markets().len() as int;
                    assert(self.spec_markets()[n] == market);
                    assert(self.spec_key_at(n) == (fm, sm));
                    assert forall|a: int, b: int|
                        0 <= a < b < self.spec_markets().len() implies #[trigger] self.spec_key_at(
                        a,
                    ) != #[trigger] self.spec_key_at(b) by {
                        assert(self.spec_markets()[a] == pre.spec_markets()[a]);
                        assert(pre.spec_key_at(a) == self.spec_key_at(a));
                        if b < n {
                            assert(pre.spec_key_at(b) == self.spec_key_at(b));
                        } else {
                            if pre.spec_key_at(a) == (fm, sm) {
                                pre.lemma_entry(a);
                                assert(pre.spec_has_market(fm, sm));
                            }
                        }
                    }
                    assert forall|a: int|
                        0 <= a < self.spec_markets().len() implies (
                    #[trigger] self.spec_markets()[a]).wf() by {
                        if a < n {
                            assert(self.spec_markets()[a] == pre.spec_markets()[a]);
                        }
                    }
                    self.lemma_entry(n);
                    assert forall|f: Seq<char>, s: Seq<char>|
                        #[trigger] self.spec_has_market(f, s) == (pre.spec_has_market(f, s) || (f
                            == fm && s == sm)) by {
                        if pre.spec_has_market(f, s) {
                            let j = pre.spec_mindex(f, s);
                            assert(self.spec_key_at(j) == pre.spec_key_at(j));
                            assert(self.spec_has_market(f, s));
                        }
                        if self.spec_has_market(f, s) {
                            let j = self.spec_mindex(f, s);
                            if j < n {
                                assert(pre.spec_key_at(j) == self.spec_key_at(j));
                                assert(pre.spec_has_market(f, s));
                            }
                        }
                    }
                    assert forall|f: Seq<char>, s: Seq<char>|
                        !(f == fm && s == sm) && pre.spec_has_market(f, s) implies #[trigger] self
                        .spec_market(f, s) == pre.spec_market(f, s) by {
                        let j = pre.spec_mindex(f, s);
                        pre.lemma_entry(j);
                        assert(self.spec_key_at(j) == pre.spec_key_at(j));
                        assert(self.spec_markets()[j] == pre.spec_markets()[j]);
                        self.lemma_entry(j);
                    }
                }
            },
        }
    }

    /// The market trading `pair`, if one is registered.
    pub fn get_market(&self, pair: &SwapPair) -> (r: Option<&Market>)
        requires
            self.wf(),
        ensures
            r is Some <==> self.spec_has_market(pair.spec_first(), pair.spec_second()),
            r matches Some(m) ==> *m == self.spec_market(pair.spec_first(), pair.spec_second())
                && m.wf() && m.spec_pair().spec_first() == pair.spec_first()
                && m.spec_pair().spec_second() == pair.spec_second(),
    {
        match self.find_market(pair) {
            Some(i) => {
                proof {
                    self.lemma_entry(i as int);
                }
                Some(&self.markets[i])
            },
            None => None,
        }
    }

    /// Queue `order` on the market trading `pair`.
    pub fn send_order_to(&mut self, pair: &SwapPair, order: MarketOrder) -> (r: Result<
        (),
        ErrorKind,
    >)
        requires
            old(self).wf(),
            order.wf(),
            order.order_id == 0,
        ensures
            final(self).wf(),
            final(self).spec_markets().len() == old(self).spec_markets().len(),
            r is Err ==> *final(self) == *old(self),
            !old(self).spec_has_market(pair.spec_first(), pair.spec_second()) ==> r is Err
                && r->Err_0 == ErrorKind::NotFound,
            old(self).spec_has_market(pair.spec_first(), pair.spec_second()) ==> {
                let m0 = old(self).spec_market(pair.spec_first(), pair.spec_second());
                &&& (m0.spec_inbox().len() >= crate::market::MARKET_INBOX_CAPACITY ==> r is Err
                    && r->Err_0 == ErrorKind::Backpressure)
                &&& (m0.spec_inbox().len() < crate::market::MARKET_INBOX_CAPACITY ==> r is Ok
                    && final(self).spec_market(
                        pair.spec_first(),
                        pair.spec_second(),
                    ).spec_inbox() == m0.spec_inbox().push(order))
                &&& (forall|f: Seq<char>, s: Seq<char>|
                    #[trigger] final(self).spec_has_market(f, s) == old(self).spec_has_market(
                        f,
                        s,
                    ))
                &&& (forall|f: Seq<char>, s: Seq<char>|
                    !(f == pair.spec_first() && s == pair.spec_second()) && old(
                        self,
                    ).spec_has_market(f, s) ==> #[trigger] final(self).spec_market(f, s) == old(
                        self,
                    ).spec_market(f, s))
            },
    {
        let i = match self.find_market(pair) {
            Some(i) => i,
            None => {
                return Err(ErrorKind::NotFound);
            },
        };
        let ghost pre = *self;
        proof {
            pre.lemma_entry(i as int);
        }
        // Refuse before touching anything, so a full inbox changes nothing.
        if self.markets[i].inbox_len() >= crate::market::MARKET_INBOX_CAPACITY {
            return Err(ErrorKind::Backpressure);
        }
        let outcome = self.markets[i].send_order(order);
        proof {
            lemma_market_updated(pre, *self, i as int);
        }
        outcome
    }

    /// Run one matching step on the market trading `pair`: take its oldest
    /// queued order, if any, and match it.
    pub fn process_next_in(&mut self, pair: &SwapPair, accounts: &mut Accounts) -> (r: Result<
        Option<ProcessOutcome>,
        ErrorKind,
    >)
        requires
            old(self).wf(),
            old(accounts).wf(),
            old(self).spec_has_market(pair.spec_first(), pair.spec_second()) ==> old(
                self,
            ).spec_market(pair.spec_first(), pair.spec_second()).spec_next_order_id() < u64::MAX,
        ensures
            final(self).wf(),
            final(accounts).wf(),
            forall|u: i32| #[trigger]
                final(accounts).spec_has_user(u) == old(accounts).spec_has_user(u),
            forall|u: i32, s: Seq<char>|
                #[trigger] final(accounts).spec_has_wallet(u, s) == old(
                    accounts,
                ).spec_has_wallet(u, s),
            !old(self).spec_has_market(pair.spec_first(), pair.spec_second()) ==> r is Err
                && r->Err_0 == ErrorKind::NotFound && *final(self) == *old(self),
            old(self).spec_has_market(pair.spec_first(), pair.spec_second()) ==> r is Ok && {
                let m0 = old(self).spec_market(pair.spec_first(), pair.spec_second());
                let m1 = final(self).spec_market(pair.spec_first(), pair.spec_second());
                let taker = m0.spec_inbox()[0];
                &&& (forall|f: Seq<char>, s: Seq<char>|
                    #[trigger] final(self).spec_has_market(f, s) == old(self).spec_has_market(
                        f,
                        s,
                    ))
                &&& (forall|f: Seq<char>, s: Seq<char>|
                    !(f == pair.spec_first() && s == pair.spec_second()) && old(
                        self,
                    ).spec_has_market(f, s) ==> #[trigger] final(self).spec_market(f, s) == old(
                        self,
                    ).spec_market(f, s))
                &&& m1.spec_pair() == m0.spec_pair()
                &&& m0.spec_completed().is_prefix_of(m1.spec_completed())
                &&& (r->Ok_0 is Some <==> m0.spec_inbox().len() > 0)
                &&& (r->Ok_0 is None ==> m1 == m0 && *final(accounts) == *old(accounts))
                &&& (r->Ok_0 is Some ==> {
                    let o = r->Ok_0->0;
                    &&& m1.spec_inbox() == m0.spec_inbox().remove(0)
                    &&& o.order.user_id == taker.user_id
                    &&& o.order.side == taker.side
                    &&& o.order.kind == taker.kind
                    &&& o.order.source_qty == taker.source_qty
                    &&& spec_fills_total(o.fills@) == taker.remaining_qty
                        - o.order.remaining_qty
                    &&& (o.status == OrderStatus::Filled <==> o.order.remaining_qty == 0)
                    &&& (forall|k: int|
                        0 <= k < o.fills@.len() ==> spec_fill_ok(
                            #[trigger] o.fills@[k],
                            taker,
                            m0.spec_opposite_book(taker.side).spec_orders(),
                        ))
                    &&& (forall|k: int, l: int|
                        #![trigger o.fills@[k], o.fills@[l]]
                        0 <= k < l < o.fills@.len() && o.fills@[k].price == o.fills@[l].price
                            ==> o.fills@[k].maker_order_id < o.fills@[l].maker_order_id)
                    &&& spec_fills_are_min(
                        o.fills@,
                        taker,
                        m0.spec_opposite_book(taker.side).spec_orders(),
                    )
                    &&& (forall|k: int|
                        0 <= k < o.fills@.len() ==> spec_maker_settled(
                            #[trigger] o.fills@[k],
                            m1.spec_completed(),
                            m1.spec_opposite_book(taker.side).spec_orders(),
                            m0.spec_opposite_book(taker.side).spec_orders(),
                        ))
                    &&& (o.order.remaining_qty > 0 && o.status != OrderStatus::Failed ==> {
                        &&& (taker.kind == OrderKind::Limit ==> o.status == OrderStatus::Resting)
                        &&& (taker.kind == OrderKind::Market ==> o.status
                            == OrderStatus::PartialUnfilled)
                    })
                    &&& (o.status != OrderStatus::Failed && o.order.remaining_qty > 0
                        ==> m1.spec_opposite_book(taker.side).spec_orders().len() == 0
                        || !price_feasible(
                        taker,
                        m1.spec_opposite_book(taker.side).spec_orders()[0].spec_limit_price(),
                    ))
                    &&& (o.status == OrderStatus::Failed ==> m1.spec_opposite_book(
                        taker.side,
                    ).spec_orders().len() > 0 && price_feasible(
                        taker,
                        m1.spec_opposite_book(taker.side).spec_orders()[0].spec_limit_price(),
                    ) && spec_taker_blocked(
                        *final(accounts),
                        m0.spec_pair().spec_first(),
                        m0.spec_pair().spec_second(),
                        o.order,
                        m1.spec_opposite_book(taker.side).spec_orders()[0],
                    ))
                    &&& (forall|u: i32, s: Seq<char>|
                        old(accounts).spec_has_wallet(u, s)
                            ==> #[trigger] final(accounts).spec_balance(u, s)
                            == old(accounts).spec_balance(u, s) + spec_fills_delta(
                            o.fills@,
                            u,
                            s,
                            taker.side,
                            m0.spec_pair().spec_first(),
                            m0.spec_pair().spec_second(),
                        ))
                })
            },
    {
        let i = match self.find_market(pair) {
            Some(i) => i,
            None => {
                return Err(ErrorKind::NotFound);
            },
        };
        let ghost pre = *self;
        proof {
            pre.lemma_entry(i as int);
        }
        let outcome = self.markets[i].process_next(accounts);
        proof {
            lemma_market_updated(pre, *self, i as int);
        }
        Ok(outcome)
    }
}

/// Changing one market in place, keeping its pair, leaves every other
/// market alone.
proof fn lemma_market_updated(pre: TradeBackend, post: TradeBackend, i: int)
    requires
        pre.wf(),
        0 <= i < pre.spec_markets().len(),
        post.spec_markets().len() == pre.spec_markets().len(),
        post.spec_key_at(i) == pre.spec_key_at(i),
        post.spec_markets()[i].wf(),
        forall|k: int|
            0 <= k < pre.spec_markets().len() && k != i ==> post.spec_markets()[k]
                == pre.spec_markets()[k],
    ensures
        post.wf(),
        forall|f: Seq<char>, s: Seq<char>|
            #[trigger] post.spec_has_market(f, s) == pre.spec_has_market(f, s),
        post.spec_market(pre.spec_key_at(i).0, pre.spec_key_at(i).1) == post.spec_markets()[i],
        forall|f: Seq<char>, s: Seq<char>|
            !(f == pre.spec_key_at(i).0 && s == pre.spec_key_at(i).1) && pre.spec_has_market(f, s)
                ==> #[trigger] post.spec_market(f, s) == pre.spec_market(f, s),
{
    assert forall|a: int, b: int|
        0 <= a < b < post.spec_markets().len() implies #[trigger] post.spec_key_at(a)
        != #[trigger] post.spec_key_at(b) by {
        assert(post.spec_key_at(a) == pre.spec_key_at(a));
        assert(post.spec_key_at(b) == pre.spec_key_at(b));
    }
    assert forall|a: int|
        0 <= a < post.spec_markets().len() implies (#[trigger] post.spec_markets()[a]).wf() by {
        if a != i {
            assert(post.spec_markets()[a] == pre.spec_markets()[a]);
        }
    }
    assert forall|f: Seq<char>, s: Seq<char>|
        #[trigger] post.spec_has_market(f, s) == pre.spec_has_market(f, s) by {
        if pre.spec_has_market(f, s) {
            let j = pre.spec_mindex(f, s);
            assert(post.spec_key_at(j) == pre.spec_key_at(j));
            assert(post.spec_has_market(f, s));
        }
        if post.spec_has_market(f, s) {
            let j = post.spec_mindex(f, s);
            assert(pre.spec_key_at(j) == post.spec_key_at(j));
            assert(pre.spec_has_market(f, s));
        }
    }
    post.lemma_entry(i);
    assert forall|f: Seq<char>, s: Seq<char>|
        !(f == pre.spec_key_at(i).0 && s == pre.spec_key_at(i).1) && pre.spec_has_market(
            f,
            s,
        ) implies #[trigger] post.spec_market(f, s) == pre.spec_market(f, s) by {
        let j = pre.spec_mindex(f, s);
        pre.lemma_entry(j);
        assert(j != i);
        assert(post.spec_key_at(j) == pre.spec_key_at(j));
        assert(post.spec_markets()[j] == pre.spec_markets()[j]);
        post.lemma_entry(j);
    }
}

} // verus!
