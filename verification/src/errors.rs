use vstd::prelude::*;

verus! {

/// The error kinds that cross component boundaries or reach the wire.
#[derive(Clone, Copy, Debug, PartialEq, Eq, Structural)]
pub enum ErrorKind {
    /// Duplicate email on user creation.
    AlreadyExists,
    /// User, market or session absent.
    NotFound,
    /// Missing, invalid or expired token, or a failed login.
    Unauthenticated,
    /// The user lacks a wallet for a symbol named by a trade.
    WalletMissing,
    /// Advisory pre-check or a wallet debit failed.
    InsufficientFunds,
    /// A trade's symbols do not match the market's pair.
    WrongMarket,
    /// The market's inbox is full.
    Backpressure,
    /// Hashing failed, or the password did not match on login.
    PasswordInvalid,
    /// The persistent store failed for a reason other than a unique conflict.
    StoreError,
    /// Anything unclassified.
    Internal,
}

/// Why an authenticated request was turned away.
#[derive(Clone, Copy, Debug, PartialEq, Eq, Structural)]
pub enum AuthFailure {
    /// The request carried no token at all.
    MissingAuth,
    /// The token is not in the session map.
    InvalidToken,
    /// The session was found but its lifetime is over.
    Expired,
}

} // verus!
