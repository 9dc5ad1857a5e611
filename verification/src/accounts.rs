use vstd::prelude::*;

use crate::errors::ErrorKind;
use crate::ledger::Ledger;
use crate::wallet::Wallet;

verus! {

/// One user's trading account: identity plus ledger.
#[derive(Debug)]
pub struct Account {
    user_id: i32,
    ledger: Ledger,
}

/// Every user's account, keyed by user id. Trades settle against this
/// registry; nothing else moves balances.
#[derive(Debug)]
pub struct Accounts {
    entries: Vec<Account>,
}

impl Accounts {
    pub closed spec fn spec_entries(&self) -> Seq<Account> {
        self.entries@
    }

    pub closed spec fn spec_entry_uid(&self, i: int) -> i32 {
        self.entries@[i].user_id
    }

    pub closed spec fn spec_entry_ledger(&self, i: int) -> Ledger {
        self.entries@[i].ledger
    }

    /// Distinct user ids, each with a well-formed ledger.
    pub open spec fn wf(&self) -> bool {
        &&& forall|i: int, j: int|
            0 <= i < j < self.spec_entries().len() ==> self.spec_entry_uid(i)
                != self.spec_entry_uid(j)
        &&& forall|i: int|
            0 <= i < self.spec_entries().len() ==> (#[trigger] self.spec_entry_ledger(i)).wf()
    }

    pub open spec fn spec_has_user(&self, uid: i32) -> bool {
        exists|i: int|
            0 <= i < self.spec_entries().len() && self.spec_entry_uid(i) == uid
    }

    pub closed spec fn spec_uindex(&self, uid: i32) -> int {
        choose|i: int| 0 <= i < self.spec_entries().len() && self.spec_entry_uid(i) == uid
    }

    /// The ledger of user `uid`; meaningful only under `spec_has_user`.
    pub open spec fn spec_ledger(&self, uid: i32) -> Ledger {
        self.spec_entry_ledger(self.spec_uindex(uid))
    }

    /// Whether `uid` holds a wallet for `sym`.
    pub open spec fn spec_has_wallet(&self, uid: i32, sym: Seq<char>) -> bool {
        self.spec_has_user(uid) && self.spec_ledger(uid).spec_has_wallet(sym)
    }

    /// The balance `uid` holds for `sym`; meaningful only under
    /// `spec_has_wallet`.
    pub open spec fn spec_balance(&self, uid: i32, sym: Seq<char>) -> u64 {
        self.spec_ledger(uid).spec_balance(sym)
    }

    /// The entry at a valid index is the one its user id resolves to.
    proof fn lemma_entry(&self, i: int)
        requires
            self.wf(),
            0 <= i < self.spec_entries().len(),
        ensures
            self.spec_has_user(self.spec_entry_uid(i)),
            self.spec_uindex(self.spec_entry_uid(i)) == i,
            self.spec_ledger(self.spec_entry_uid(i)) == self.spec_entry_ledger(i),
    {
        let u = self.spec_entry_uid(i);
        assert(self.spec_has_user(u));
        let j = self.spec_uindex(u);
        assert(0 <= j < self.spec_entries().len() && self.spec_entry_uid(j) == u);
        if i != j {
            assert(false);
        }
    }

    /// An empty registry.
    pub fn new() -> (a: Accounts)
        ensures
            a.wf(),
            forall|u: i32| !a.spec_has_user(u),
    {
        Accounts { entries: Vec::new() }
    }

    fn find_user(&self, uid: i32) -> (r: Option<usize>)
        ensures
            r matches Some(i) ==> i < self.spec_entries().len() && self.spec_entry_uid(i as int)
                == uid,
            r is None ==> !self.spec_has_user(uid),
    {
        let n: usize = self.entries.len();
        let mut i: usize = 0;
        loop
            invariant
                i <= n,
                n == self.spec_entries().len(),
                forall|k: int| 0 <= k < i ==> self.spec_entry_uid(k) != uid,
            decreases n - i,
        {
            if i == n {
                return None;
            }
            if self.entries[i].user_id == uid {
                return Some(i);
            }
            i = i + 1;
        }
    }

    pub fn has_user(&self, uid: i32) -> (r: bool)
        requires
            self.wf(),
        ensures
            r == self.spec_has_user(uid),
    {
        match self.find_user(uid) {
            Some(i) => {
                proof {
                    self.lemma_entry(i as int);
                }
                true
            },
            None => false,
        }
    }

    /// Open an account for `uid` with an empty ledger; a second account for
    /// the same user is refused.
    pub fn add_user(&mut self, uid: i32) -> (r: Result<(), ErrorKind>)
        requires
            old(self).wf(),
        ensures
            final(self).wf(),
            r is Ok <==> !old(self).spec_has_user(uid),
            r is Err ==> *final(self) == *old(self) && r->Err_0 == ErrorKind::AlreadyExists,
            r is Ok ==> {
                &&& forall|u: i32|
                    #[trigger] final(self).spec_has_user(u) == (old(self).spec_has_user(u) || u
                        == uid)
                &&& forall|s: Seq<char>| !final(self).spec_ledger(uid).spec_has_wallet(s)
                &&& forall|u: i32|
                    u != uid && old(self).spec_has_user(u) ==> #[trigger] final(self).spec_ledger(u)
                        == old(self).spec_ledger(u)
            },
    {
        match self.find_user(uid) {
            Some(i) => {
                proof {
                    self.lemma_entry(i as int);
                }
                Err(ErrorKind::AlreadyExists)
            },
            None => {
                let ghost pre = *self;
                self.entries.push(Account { user_id: uid, ledger: Ledger::new() });
                proof {
                    let n = pre.spec_entries().len() as int;
                    assert(self.spec_entry_uid(n) == uid);
                    assert forall|u: i32| #[trigger]
                        self.spec_has_user(u) == (pre.spec_has_user(u) || u == uid) by {
                        if pre.spec_has_user(u) {
                            let j = pre.spec_uindex(u);
                            assert(self.spec_entries()[j] == pre.spec_entries()[j]);
                            assert(self.spec_entry_uid(j) == u);
                            assert(self.spec_has_user(u));
                        }
                        if u == uid {
                            assert(self.spec_entry_uid(n) == u);
                            assert(self.spec_has_user(u));
                        }
                        if self.spec_has_user(u) {
                            let j = self.spec_uindex(u);
                            if j < n {
                                assert(pre.spec_entries()[j] == self.spec_entries()[j]);
                                assert(pre.spec_entry_uid(j) == u);
                                assert(pre.spec_has_user(u));
                            }
                        }
                    }
                    assert forall|i: int, j: int|
                        0 <= i < j < self.spec_entries().len() implies self.spec_entry_uid(i)
                        != self.spec_entry_uid(j) by {
                        if j < n {
                            assert(pre.spec_entries()[i] == self.spec_entries()[i]);
                            assert(pre.spec_entries()[j] == self.spec_entries()[j]);
                            assert(pre.spec_entry_uid(i) == self.spec_entry_uid(i));
                            assert(pre.spec_entry_uid(j) == self.spec_entry_uid(j));
                            assert(pre.spec_entry_uid(i) != pre.spec_entry_uid(j));
                        } else {
                            assert(pre.spec_entries()[i] == self.spec_entries()[i]);
                            assert(pre.spec_entry_uid(i) == self.spec_entry_uid(i));
                            if self.spec_entry_uid(i) == uid {
                                assert(pre.spec_has_user(uid));
                            }
                        }
                    }
                    assert forall|i: int|
                        0 <= i < self.spec_entries().len() implies (
                    #[trigger] self.spec_entry_ledger(i)).wf() by {
                        if i < n {
                            assert(pre.spec_entries()[i] == self.spec_entries()[i]);
                            assert(pre.spec_entry_ledger(i) == self.spec_entry_ledger(i));
                            assert(pre.spec_entry_ledger(i).wf());
                        }
                    }
                    self.lemma_entry(n);
                    assert forall|u: i32|
                        u != uid && pre.spec_has_user(u) implies #[trigger] self.spec_ledger(u)
                        == pre.spec_ledger(u) by {
                        let j = pre.spec_uindex(u);
                        pre.lemma_entry(j);
                        assert(self.spec_entries()[j] == pre.spec_entries()[j]);
                        self.lemma_entry(j);
                    }
                }
                Ok(())
            },
        }
    }
    /// Open a wallet for `uid`. Fails with `NotFound` when the user has no
    /// account, with `AlreadyExists` when a wallet for that symbol exists.
    pub fn add_wallet(&mut self, uid: i32, wallet: Wallet) -> (r: Result<(), ErrorKind>)
        requires
            old(self).wf(),
        ensures
            final(self).wf(),
            !old(self).spec_has_user(uid) ==> r is Err && r->Err_0 == ErrorKind::NotFound,
            old(self).spec_has_user(uid) ==> (r is Ok <==> !old(self).spec_has_wallet(
                uid,
                wallet.spec_symbol(),
            )),
            forall|u: i32| #[trigger] final(self).spec_has_user(u) == old(self).spec_has_user(u),
            r is Err ==> {
                &&& forall|u: i32, s: Seq<char>|
                    #[trigger] final(self).spec_has_wallet(u, s) == old(self).spec_has_wallet(u, s)
                &&& forall|u: i32, s: Seq<char>|
                    old(self).spec_has_wallet(u, s) ==> #[trigger] final(self).spec_balance(u, s)
                        == old(self).spec_balance(u, s)
            },
            r is Ok ==> {
                &&& forall|u: i32, s: Seq<char>|
                    #[trigger] final(self).spec_has_wallet(u, s) == (old(self).spec_has_wallet(
                        u,
                        s,
                    ) || (u == uid && s == wallet.spec_symbol()))
                &&& final(self).spec_balance(uid, wallet.spec_symbol()) == wallet.spec_balance()
                &&& forall|u: i32, s: Seq<char>|
                    !(u == uid && s == wallet.spec_symbol()) && old(self).spec_has_wallet(u, s)
                        ==> #[trigger] final(self).spec_balance(u, s) == old(self).spec_balance(
                        u,
                        s,
                    )
            },
    {
        let i = match self.find_user(uid) {
            Some(i) => i,
            None => {
                return Err(ErrorKind::NotFound);
            },
        };
        let ghost pre = *self;
        let ghost wsym = wallet.spec_symbol();
        proof {
            pre.lemma_entry(i as int);
        }
        let outcome = self.entries[i].ledger.add_wallet(wallet);
        match outcome {
            Err(e) => {
                proof {
                    lemma_account_updated(pre, *self, i as int);
                    lemma_wallets_pointwise(pre, *self, i as int, uid, wsym);
                    assert forall|u: i32, s: Seq<char>|
                        #[trigger] self.spec_has_wallet(u, s) == pre.spec_has_wallet(u, s) by {}
                    assert forall|u: i32, s: Seq<char>|
                        pre.spec_has_wallet(u, s) implies #[trigger] self.spec_balance(u, s)
                        == pre.spec_balance(u, s) by {
                        if u == uid && s == wsym {
                            assert(pre.spec_ledger(u) == pre.spec_entry_ledger(i as int));
                            assert(self.spec_ledger(u) == self.spec_entry_ledger(i as int));
                        }
                    }
                }
                Err(e)
            },
            Ok(u) => {
                proof {
                    lemma_account_updated(pre, *self, i as int);
                    assert forall|u: i32, s: Seq<char>|
                        #[trigger] self.spec_has_wallet(u, s) == (pre.spec_has_wallet(u, s) || (u
                            == uid && s == wsym)) by {
                        if u == uid {
                            assert(self.spec_ledger(u) == self.spec_entry_ledger(i as int));
                        } else {
                            if pre.spec_has_user(u) {
                                assert(self.spec_ledger(u) == pre.spec_ledger(u));
                            }
                        }
                    }
                    assert forall|u: i32, s: Seq<char>|
                        !(u == uid && s == wsym) && pre.spec_has_wallet(u, s) implies #[trigger] self
                        .spec_balance(u, s) == pre.spec_balance(u, s) by {
                        if u == uid {
                            assert(self.spec_ledger(u) == self.spec_entry_ledger(i as int));
                        } else {
                            assert(self.spec_ledger(u) == pre.spec_ledger(u));
                        }
                    }
                }
                Ok(())
            },
        }
    }

    /// Whether `uid` holds a wallet for `symbol`.
    pub fn has_wallet_for(&self, uid: i32, symbol: &String) -> (r: bool)
        requires
            self.wf(),
        ensures
            r == self.spec_has_wallet(uid, symbol@),
    {
        match self.find_user(uid) {
            Some(i) => {
                proof {
                    self.lemma_entry(i as int);
                }
                self.entries[i].ledger.has_wallet(symbol)
            },
            None => false,
        }
    }

    /// The balance `uid` holds for `symbol`, or nothing without the wallet.
    pub fn balance_of(&self, uid: i32, symbol: &String) -> (r: Option<u64>)
        requires
            self.wf(),
        ensures
            r is Some <==> self.spec_has_wallet(uid, symbol@),
            r matches Some(b) ==> b == self.spec_balance(uid, symbol@),
    {
        match self.find_user(uid) {
            Some(i) => {
                proof {
                    self.lemma_entry(i as int);
                }
                self.entries[i].ledger.balance_of(symbol)
            },
            None => None,
        }
    }

    /// Credit `amount` of `symbol` to `uid`'s wallet.
    pub fn credit(&mut self, uid: i32, symbol: &String, amount: u64)
        requires
            old(self).wf(),
            amount > 0,
            old(self).spec_has_wallet(uid, symbol@),
            old(self).spec_balance(uid, symbol@) + amount <= u64::MAX,
        ensures
            final(self).wf(),
            forall|u: i32| #[trigger] final(self).spec_has_user(u) == old(self).spec_has_user(u),
            forall|u: i32, s: Seq<char>|
                #[trigger] final(self).spec_has_wallet(u, s) == old(self).spec_has_wallet(u, s),
            final(self).spec_balance(uid, symbol@) == old(self).spec_balance(uid, symbol@)
                + amount,
            forall|u: i32, s: Seq<char>|
                !(u == uid && s == symbol@) && old(self).spec_has_wallet(u, s)
                    ==> #[trigger] final(self).spec_balance(u, s) == old(self).spec_balance(u, s),
    {
        let i = match self.find_user(uid) {
            Some(i) => i,
            None => {
                proof {
                    assert(false);
                }
                return ;
            },
        };
        let ghost pre = *self;
        proof {
            pre.lemma_entry(i as int);
        }
        self.entries[i].ledger.credit(symbol, amount);
        proof {
            lemma_account_updated(pre, *self, i as int);
            lemma_wallets_pointwise(pre, *self, i as int, uid, symbol@);
        }
    }

    /// Debit `amount` of `symbol` from `uid`'s wallet.
    pub fn debit(&mut self, uid: i32, symbol: &String, amount: u64)
        requires
            old(self).wf(),
            amount > 0,
            old(self).spec_has_wallet(uid, symbol@),
            old(self).spec_balance(uid, symbol@) >= amount,
        ensures
            final(self).wf(),
            forall|u: i32| #[trigger] final(self).spec_has_user(u) == old(self).spec_has_user(u),
            forall|u: i32, s: Seq<char>|
                #[trigger] final(self).spec_has_wallet(u, s) == old(self).spec_has_wallet(u, s),
            final(self).spec_balance(uid, symbol@) == old(self).spec_balance(uid, symbol@)
                - amount,
            forall|u: i32, s: Seq<char>|
                !(u == uid && s == symbol@) && old(self).spec_has_wallet(u, s)
                    ==> #[trigger] final(self).spec_balance(u, s) == old(self).spec_balance(u, s),
    {
        let i = match self.find_user(uid) {
            Some(i) => i,
            None => {
                proof {
                    assert(false);
                }
                return ;
            },
        };
        let ghost pre = *self;
        proof {
            pre.lemma_entry(i as int);
        }
        self.entries[i].ledger.debit(symbol, amount);
        proof {
            lemma_account_updated(pre, *self, i as int);
            lemma_wallets_pointwise(pre, *self, i as int, uid, symbol@);
        }
    }
}

/// Law: no wallet's balance is ever negative. Balances are unsigned whole
/// units, credits check their upper bound, and debits refuse rather than
/// underflow, so every balance observable through the registry is at least
/// zero after any sequence of operations.
pub proof fn lemma_balances_nonnegative(accounts: Accounts)
    ensures
        forall|u: i32, s: Seq<char>|
            accounts.spec_has_wallet(u, s) ==> #[trigger] accounts.spec_balance(u, s) >= 0,
{
}

/// Changing one account in place, keeping its user id, leaves every other
/// user's ledger alone.
proof fn lemma_account_updated(pre: Accounts, post: Accounts, i: int)
    requires
        pre.wf(),
        0 <= i < pre.spec_entries().len(),
        post.spec_entries().len() == pre.spec_entries().len(),
        post.spec_entry_uid(i) == pre.spec_entry_uid(i),
        post.spec_entry_ledger(i).wf(),
        forall|k: int|
            0 <= k < pre.spec_entries().len() && k != i ==> post.spec_entries()[k]
                == pre.spec_entries()[k],
    ensures
        post.wf(),
        forall|u: i32| #[trigger] post.spec_has_user(u) == pre.spec_has_user(u),
        post.spec_ledger(pre.spec_entry_uid(i)) == post.spec_entry_ledger(i),
        forall|u: i32|
            u != pre.spec_entry_uid(i) && pre.spec_has_user(u) ==> #[trigger] post.spec_ledger(u)
                == pre.spec_ledger(u),
{
    assert forall|a: int, b: int|
        0 <= a < b < post.spec_entries().len() implies post.spec_entry_uid(a)
        != post.spec_entry_uid(b) by {
        assert(post.spec_entry_uid(a) == pre.spec_entry_uid(a));
        assert(post.spec_entry_uid(b) == pre.spec_entry_uid(b));
    }
    assert forall|k: int|
        0 <= k < post.spec_entries().len() implies (#[trigger] post.spec_entry_ledger(k)).wf() by {
        if k != i {
            assert(post.spec_entry_ledger(k) == pre.spec_entry_ledger(k));
            assert(pre.spec_entry_ledger(k).wf());
        }
    }
    assert forall|u: i32| #[trigger] post.spec_has_user(u) == pre.spec_has_user(u) by {
        if pre.spec_has_user(u) {
            let j = pre.spec_uindex(u);
            assert(post.spec_entry_uid(j) == pre.spec_entry_uid(j));
            assert(post.spec_has_user(u));
        }
        if post.spec_has_user(u) {
            let j = post.spec_uindex(u);
            assert(pre.spec_entry_uid(j) == post.spec_entry_uid(j));
            assert(pre.spec_has_user(u));
        }
    }
    post.lemma_entry(i);
    assert forall|u: i32|
        u != pre.spec_entry_uid(i) && pre.spec_has_user(u) implies #[trigger] post.spec_ledger(u)
        == pre.spec_ledger(u) by {
        let j = pre.spec_uindex(u);
        pre.lemma_entry(j);
        assert(j != i);
        assert(post.spec_entries()[j] == pre.spec_entries()[j]);
        post.lemma_entry(j);
    }
}

/// Transfer a one-ledger change at entry `i` (for user `uid`, symbol `sym`)
/// to the registry's pointwise wallet and balance views.
proof fn lemma_wallets_pointwise(pre: Accounts, post: Accounts, i: int, uid: i32, sym: Seq<char>)
    requires
        pre.wf(),
        post.wf(),
        0 <= i < pre.spec_entries().len(),
        pre.spec_entry_uid(i) == uid,
        post.spec_entries().len() == pre.spec_entries().len(),
        post.spec_entry_uid(i) == uid,
        forall|k: int|
            0 <= k < pre.spec_entries().len() && k != i ==> post.spec_entries()[k]
                == pre.spec_entries()[k],
        forall|u: i32| #[trigger] post.spec_has_user(u) == pre.spec_has_user(u),
        post.spec_ledger(uid) == post.spec_entry_ledger(i),
        forall|u: i32|
            u != uid && pre.spec_has_user(u) ==> #[trigger] post.spec_ledger(u) == pre.spec_ledger(
                u,
            ),
        forall|s: Seq<char>|
            #[trigger] post.spec_entry_ledger(i).spec_has_wallet(s) == pre.spec_entry_ledger(
                i,
            ).spec_has_wallet(s),
        forall|s: Seq<char>|
            s != sym && pre.spec_entry_ledger(i).spec_has_wallet(s) ==> #[trigger] post
                .spec_entry_ledger(i).spec_balance(s) == pre.spec_entry_ledger(i).spec_balance(s),
    ensures
        forall|u: i32, s: Seq<char>|
            #[trigger] post.spec_has_wallet(u, s) == pre.spec_has_wallet(u, s),
        forall|u: i32, s: Seq<char>|
            !(u == uid && s == sym) && pre.spec_has_wallet(u, s) ==> #[trigger] post.spec_balance(
                u,
                s,
            ) == pre.spec_balance(u, s),
{
    pre.lemma_entry(i);
    assert forall|u: i32, s: Seq<char>|
        #[trigger] post.spec_has_wallet(u, s) == pre.spec_has_wallet(u, s) by {
        if pre.spec_has_user(u) {
            if u == uid {
                assert(pre.spec_ledger(u) == pre.spec_entry_ledger(i));
            } else {
                assert(post.spec_ledger(u) == pre.spec_ledger(u));
            }
        }
    }
    assert forall|u: i32, s: Seq<char>|
        !(u == uid && s == sym) && pre.spec_has_wallet(u, s) implies #[trigger] post.spec_balance(
            u,
            s,
        ) == pre.spec_balance(u, s) by {
        if u == uid {
            assert(pre.spec_ledger(u) == pre.spec_entry_ledger(i));
        } else {
            assert(post.spec_ledger(u) == pre.spec_ledger(u));
        }
    }
}

} // verus!
