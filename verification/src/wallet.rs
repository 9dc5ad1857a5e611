use vstd::prelude::*;

use crate::errors::ErrorKind;

verus! {

/// A single (symbol, balance) cell. Balances are whole units of the wallet's
/// symbol and can never drop below zero: `subtract` refuses rather than
/// underflow. The fields are private so that the balance moves only through
/// the operations below.
#[derive(Debug, Clone)]
pub struct Wallet {
    symbol: String,
    balance: u64,
}

/// Selects whether `Wallet::update_balance` credits or debits the wallet.
#[derive(Clone, Copy, Debug, PartialEq, Eq, Structural)]
pub enum UpdateIndicator {
    Add,
    Subtract,
}

impl Wallet {
    /// The wallet's symbol, as a sequence of characters.
    pub closed spec fn spec_symbol(&self) -> Seq<char> {
        self.symbol@
    }

    /// The wallet's current balance.
    pub closed spec fn spec_balance(&self) -> u64 {
        self.balance
    }

    /// A fresh wallet for `symbol`, holding nothing.
    pub fn new(symbol: String) -> (w: Wallet)
        ensures
            w.spec_symbol() == symbol@,
            w.spec_balance() == 0,
    {
        Wallet { symbol, balance: 0 }
    }

    /// A wallet for `symbol` opened with an initial balance.
    pub fn with_balance(symbol: String, balance: u64) -> (w: Wallet)
        ensures
            w.spec_symbol() == symbol@,
            w.spec_balance() == balance,
    {
        Wallet { symbol, balance }
    }

    pub fn symbol(&self) -> (s: &str)
        ensures
            s@ == self.spec_symbol(),
    {
        self.symbol.as_str()
    }

    pub fn balance(&self) -> (b: u64)
        ensures
            b == self.spec_balance(),
    {
        self.balance
    }

    /// Whether this wallet is the one for `symbol`.
    pub fn is_for_symbol(&self, symbol: &String) -> (r: bool)
        ensures
            r == (symbol@ == self.spec_symbol()),
    {
        *symbol == self.symbol
    }

    /// Advisory check: does the wallet hold at least `amount`?
    pub fn check_sufficient_funds(&self, amount: u64) -> (r: bool)
        ensures
            r == (self.spec_balance() >= amount),
    {
        self.balance >= amount
    }

    /// Credit the wallet with `amount`.
    pub fn add(&mut self, amount: u64)
        requires
            amount > 0,
            old(self).spec_balance() + amount <= u64::MAX,
        ensures
            final(self).spec_symbol() == old(self).spec_symbol(),
            final(self).spec_balance() == old(self).spec_balance() + amount,
    {
        self.balance = self.balance + amount;
    }

    /// Debit the wallet by `amount`. Refuses, leaving the balance untouched,
    /// when the wallet holds less than `amount`; the balance is unchanged
    /// exactly when the call fails.
    pub fn subtract(&mut self, amount: u64) -> (r: Result<(), ErrorKind>)
        requires
            amount > 0,
        ensures
            final(self).spec_symbol() == old(self).spec_symbol(),
            r is Ok <==> old(self).spec_balance() >= amount,
            r is Ok ==> final(self).spec_balance() == old(self).spec_balance() - amount,
            r is Err ==> final(self).spec_balance() == old(self).spec_balance()
                && r == Err::<(), ErrorKind>(ErrorKind::InsufficientFunds),
            (final(self).spec_balance() == old(self).spec_balance()) <==> (r is Err),
    {
        if self.balance >= amount {
            self.balance = self.balance - amount;
            Ok(())
        } else {
            Err(ErrorKind::InsufficientFunds)
        }
    }

    /// Credit or debit according to `ui`. A debit that would drop the balance
    /// below zero fails and changes nothing.
    pub fn update_balance(&mut self, ui: UpdateIndicator, amount: u64) -> (r: Result<(), ErrorKind>)
        requires
            amount > 0,
            ui == UpdateIndicator::Add ==> old(self).spec_balance() + amount <= u64::MAX,
        ensures
            final(self).spec_symbol() == old(self).spec_symbol(),
            ui == UpdateIndicator::Add ==> r is Ok
                && final(self).spec_balance() == old(self).spec_balance() + amount,
            ui == UpdateIndicator::Subtract ==> {
                &&& (r is Ok <==> old(self).spec_balance() >= amount)
                &&& (r is Ok ==> final(self).spec_balance() == old(self).spec_balance() - amount)
                &&& (r is Err ==> final(self).spec_balance() == old(self).spec_balance())
            },
    {
        match ui {
            UpdateIndicator::Add => {
                self.add(amount);
                Ok(())
            },
            UpdateIndicator::Subtract => self.subtract(amount),
        }
    }
}

} // verus!
