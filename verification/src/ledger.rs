use vstd::prelude::*;

use crate::errors::ErrorKind;
use crate::wallet::Wallet;

verus! {

/// One user's collection of wallets, one per symbol.
#[derive(Debug)]
pub struct Ledger {
    wallets: Vec<Wallet>,
}

impl Ledger {
    /// The wallets, in creation order.
    pub closed spec fn spec_wallets(&self) -> Seq<Wallet> {
        self.wallets@
    }

    /// All wallets within a ledger have distinct symbols.
    pub open spec fn wf(&self) -> bool {
        forall|i: int, j: int|
            0 <= i < j < self.spec_wallets().len() ==> self.spec_wallets()[i].spec_symbol()
                != self.spec_wallets()[j].spec_symbol()
    }

    pub closed spec fn spec_has_wallet(&self, sym: Seq<char>) -> bool {
        exists|i: int| 0 <= i < self.wallets@.len() && self.wallets@[i].spec_symbol() == sym
    }

    pub closed spec fn spec_index_of(&self, sym: Seq<char>) -> int {
        choose|i: int| 0 <= i < self.wallets@.len() && self.wallets@[i].spec_symbol() == sym
    }

    /// The balance of the wallet for `sym`; meaningful only under
    /// `spec_has_wallet(sym)`.
    pub closed spec fn spec_balance(&self, sym: Seq<char>) -> u64 {
        self.wallets@[self.spec_index_of(sym)].spec_balance()
    }

    /// The wallet at a valid index is the one its symbol resolves to.
    proof fn lemma_entry(&self, i: int)
        requires
            self.wf(),
            0 <= i < self.spec_wallets().len(),
        ensures
            self.spec_has_wallet(self.spec_wallets()[i].spec_symbol()),
            self.spec_index_of(self.spec_wallets()[i].spec_symbol()) == i,
            self.spec_balance(self.spec_wallets()[i].spec_symbol())
                == self.spec_wallets()[i].spec_balance(),
    {
        let s = self.spec_wallets()[i].spec_symbol();
        assert(self.spec_has_wallet(s));
        let j = self.spec_index_of(s);
        assert(0 <= j < self.wallets@.len() && self.wallets@[j].spec_symbol() == s);
        if i != j {
            assert(false);
        }
    }

    /// An empty ledger.
    pub fn new() -> (l: Ledger)
        ensures
            l.wf(),
            forall|s: Seq<char>| !l.spec_has_wallet(s),
    {
        Ledger { wallets: Vec::new() }
    }

    /// The index of the wallet for `symbol`, if one exists.
    fn find(&self, symbol: &String) -> (r: Option<usize>)
        ensures
            r matches Some(i) ==> i < self.spec_wallets().len()
                && self.spec_wallets()[i as int].spec_symbol() == symbol@,
            r is None ==> !self.spec_has_wallet(symbol@),
    {
        let n: usize = self.wallets.len();
        let mut i: usize = 0;
        loop
            invariant
                i <= n,
                n == self.spec_wallets().len(),
                forall|k: int| 0 <= k < i ==> self.spec_wallets()[k].spec_symbol() != symbol@,
            decreases n - i,
        {
            if i == n {
                return None;
            }
            if self.wallets[i].is_for_symbol(symbol) {
                return Some(i);
            }
            i = i + 1;
        }
    }

    /// Whether the ledger holds a wallet for `symbol`.
    pub fn has_wallet(&self, symbol: &String) -> (r: bool)
        requires
            self.wf(),
        ensures
            r == self.spec_has_wallet(symbol@),
    {
        match self.find(symbol) {
            Some(i) => {
                proof {
                    self.lemma_entry(i as int);
                }
                true
            },
            None => false,
        }
    }

    /// The balance held for `symbol`, or nothing when no such wallet exists.
    pub fn balance_of(&self, symbol: &String) -> (r: Option<u64>)
        requires
            self.wf(),
        ensures
            r is Some <==> self.spec_has_wallet(symbol@),
            r matches Some(b) ==> b == self.spec_balance(symbol@),
    {
        match self.find(symbol) {
            Some(i) => {
                proof {
                    self.lemma_entry(i as int);
                }
                Some(self.wallets[i].balance())
            },
            None => None,
        }
    }

    /// Open a wallet. Each (user, symbol) wallet is created once: a second
    /// wallet for the same symbol is refused.
    pub fn add_wallet(&mut self, wallet: Wallet) -> (r: Result<(), ErrorKind>)
        requires
            old(self).wf(),
        ensures
            final(self).wf(),
            r is Ok <==> !old(self).spec_has_wallet(wallet.spec_symbol()),
            r is Err ==> *final(self) == *old(self) && r->Err_0 == ErrorKind::AlreadyExists,
            r is Ok ==> {
                &&& forall|s: Seq<char>|
                    #[trigger] final(self).spec_has_wallet(s) == (old(self).spec_has_wallet(s)
                        || s == wallet.spec_symbol())
                &&& final(self).spec_balance(wallet.spec_symbol()) == wallet.spec_balance()
                &&& forall|s: Seq<char>|
                    s != wallet.spec_symbol() && old(self).spec_has_wallet(s)
                        ==> #[trigger] final(self).spec_balance(s) == old(self).spec_balance(s)
            },
    {
        let symbol_string = wallet.symbol().to_owned();
        match self.find(&symbol_string) {
            Some(i) => {
                proof {
                    self.lemma_entry(i as int);
                }
                Err(ErrorKind::AlreadyExists)
            },
            None => {
                let ghost pre = *self;
                self.wallets.push(wallet);
                proof {
                    let n = pre.spec_wallets().len() as int;
                    assert(self.spec_wallets()[n] == wallet);
                    assert forall|s: Seq<char>| #[trigger]
                        self.spec_has_wallet(s) == (pre.spec_has_wallet(s) || s
                            == wallet.spec_symbol()) by {
                        if pre.spec_has_wallet(s) {
                            let j = pre.spec_index_of(s);
                            assert(self.spec_wallets()[j] == pre.spec_wallets()[j]);
                            assert(self.spec_has_wallet(s));
                        }
                        if s == wallet.spec_symbol() {
                            assert(self.spec_has_wallet(s));
                        }
                        if self.spec_has_wallet(s) {
                            let j = self.spec_index_of(s);
                            if j < n {
                                assert(pre.spec_wallets()[j] == self.spec_wallets()[j]);
                                assert(pre.spec_has_wallet(s));
                            }
                        }
                    }
                    assert forall|i: int, j: int|
                        0 <= i < j < self.spec_wallets().len() implies self.spec_wallets()[i].spec_symbol()
                        != self.spec_wallets()[j].spec_symbol() by {
                        if j < n {
                            assert(pre.spec_wallets()[i] == self.spec_wallets()[i]);
                            assert(pre.spec_wallets()[j] == self.spec_wallets()[j]);
                        } else {
                            assert(pre.spec_wallets()[i] == self.spec_wallets()[i]);
                            if self.spec_wallets()[i].spec_symbol() == wallet.spec_symbol() {
                                assert(pre.spec_has_wallet(wallet.spec_symbol()));
                            }
                        }
                    }
                    self.lemma_entry(n);
                    assert forall|s: Seq<char>|
                        s != wallet.spec_symbol() && pre.spec_has_wallet(s) implies #[trigger] self
                        .spec_balance(s) == pre.spec_balance(s) by {
                        let j = pre.spec_index_of(s);
                        assert(self.spec_wallets()[j] == pre.spec_wallets()[j]);
                        pre.lemma_entry(j);
                        self.lemma_entry(j);
                    }
                }
                Ok(())
            },
        }
    }

    /// Credit `amount` to the wallet for `symbol`.
    pub fn credit(&mut self, symbol: &String, amount: u64)
        requires
            old(self).wf(),
            amount > 0,
            old(self).spec_has_wallet(symbol@),
            old(self).spec_balance(symbol@) + amount <= u64::MAX,
        ensures
            final(self).wf(),
            forall|s: Seq<char>| #[trigger]
                final(self).spec_has_wallet(s) == old(self).spec_has_wallet(s),
            final(self).spec_balance(symbol@) == old(self).spec_balance(symbol@) + amount,
            forall|s: Seq<char>|
                s != symbol@ && old(self).spec_has_wallet(s)
                    ==> #[trigger] final(self).spec_balance(s) == old(self).spec_balance(s),
    {
        let i = match self.find(symbol) {
            Some(i) => i,
            None => {
                proof {
                    assert(false);
                }
                return ;
            },
        };
        let ghost pre = *self;
        proof {
            pre.lemma_entry(i as int);
        }
        self.wallets[i].add(amount);
        proof {
            lemma_wallet_updated(pre, *self, i as int);
        }
    }

    /// Debit `amount` from the wallet for `symbol`.
    pub fn debit(&mut self, symbol: &String, amount: u64)
        requires
            old(self).wf(),
            amount > 0,
            old(self).spec_has_wallet(symbol@),
            old(self).spec_balance(symbol@) >= amount,
        ensures
            final(self).wf(),
            forall|s: Seq<char>| #[trigger]
                final(self).spec_has_wallet(s) == old(self).spec_has_wallet(s),
            final(self).spec_balance(symbol@) == old(self).spec_balance(symbol@) - amount,
            forall|s: Seq<char>|
                s != symbol@ && old(self).spec_has_wallet(s)
                    ==> #[trigger] final(self).spec_balance(s) == old(self).spec_balance(s),
    {
        let i = match self.find(symbol) {
            Some(i) => i,
            None => {
                proof {
                    assert(false);
                }
                return ;
            },
        };
        let ghost pre = *self;
        proof {
            pre.lemma_entry(i as int);
        }
        let _outcome = self.wallets[i].subtract(amount);
        proof {
            lemma_wallet_updated(pre, *self, i as int);
        }
    }
}

/// Updating one wallet in place, keeping its symbol, leaves every other
/// symbol's balance alone.
proof fn lemma_wallet_updated(pre: Ledger, post: Ledger, i: int)
    requires
        pre.wf(),
        0 <= i < pre.spec_wallets().len(),
        post.spec_wallets().len() == pre.spec_wallets().len(),
        post.spec_wallets()[i].spec_symbol() == pre.spec_wallets()[i].spec_symbol(),
        forall|k: int|
            0 <= k < pre.spec_wallets().len() && k != i ==> post.spec_wallets()[k]
                == pre.spec_wallets()[k],
    ensures
        post.wf(),
        forall|s: Seq<char>| #[trigger] post.spec_has_wallet(s) == pre.spec_has_wallet(s),
        post.spec_balance(pre.spec_wallets()[i].spec_symbol())
            == post.spec_wallets()[i].spec_balance(),
        forall|s: Seq<char>|
            s != pre.spec_wallets()[i].spec_symbol() && pre.spec_has_wallet(s) ==> #[trigger] post
                .spec_balance(s) == pre.spec_balance(s),
{
    assert forall|a: int, b: int|
        0 <= a < b < post.spec_wallets().len() implies post.spec_wallets()[a].spec_symbol()
        != post.spec_wallets()[b].spec_symbol() by {
        assert(post.spec_wallets()[a].spec_symbol() == pre.spec_wallets()[a].spec_symbol());
        assert(post.spec_wallets()[b].spec_symbol() == pre.spec_wallets()[b].spec_symbol());
    }
    assert forall|s: Seq<char>| #[trigger] post.spec_has_wallet(s) == pre.spec_has_wallet(s) by {
        if pre.spec_has_wallet(s) {
            let j = pre.spec_index_of(s);
            assert(post.spec_wallets()[j].spec_symbol() == pre.spec_wallets()[j].spec_symbol());
            assert(post.spec_has_wallet(s));
        }
        if post.spec_has_wallet(s) {
            let j = post.spec_index_of(s);
            assert(pre.spec_wallets()[j].spec_symbol() == post.spec_wallets()[j].spec_symbol());
            assert(pre.spec_has_wallet(s));
        }
    }
    post.lemma_entry(i);
    assert forall|s: Seq<char>|
        s != pre.spec_wallets()[i].spec_symbol() && pre.spec_has_wallet(s) implies #[trigger] post
        .spec_balance(s) == pre.spec_balance(s) by {
        let j = pre.spec_index_of(s);
        pre.lemma_entry(j);
        assert(j != i);
        assert(post.spec_wallets()[j] == pre.spec_wallets()[j]);
        post.lemma_entry(j);
    }
}

} // verus!
