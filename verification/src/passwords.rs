use vstd::prelude::*;

use crate::errors::ErrorKind;

verus! {

/// Whether bcrypt's `verify` accepts `plaintext` against the encoded hash
/// `hashed`. bcrypt re-derives the hash from the salt and cost embedded in
/// `hashed` and compares, so the outcome is a function of the two strings
/// alone.
pub uninterp spec fn bcrypt_matches(plaintext: Seq<char>, hashed: Seq<char>) -> bool;

/// Whether bcrypt's `verify` accepts `hashed` as a well-formed hash at all:
/// sixty ASCII characters in bcrypt's format with an in-range cost. Parsing
/// reads nothing but the hash string, so this too is a function of its
/// argument alone; `verify` returns a value exactly when it holds.
pub uninterp spec fn bcrypt_hash_parses(hashed: Seq<char>) -> bool;

/// Work factor for password hashes; bcrypt's default cost.
pub const PASSWORD_HASH_COST: u32 = 12;

/// Relies on bcrypt::hash: on success it returns a 60-character encoded
/// hash (salt and cost embedded) that bcrypt::verify parses and accepts
/// against the same plaintext. The salt is drawn from OS randomness, so
/// nothing more is promised of the hash's value.
#[verifier::external_body]
fn bcrypt_hash_with_cost(plaintext: &str, cost: u32) -> (r: Result<String, ErrorKind>)
    ensures
        r is Ok ==> bcrypt_matches(plaintext@, r->Ok_0@),
        r is Ok ==> bcrypt_hash_parses(r->Ok_0@),
        r is Ok ==> r->Ok_0@.len() == 60,
        r is Err ==> r->Err_0 == ErrorKind::PasswordInvalid,
{
    match bcrypt::hash(plaintext, cost) {
        Ok(h) => Ok(h),
        Err(_) => Err(ErrorKind::PasswordInvalid),
    }
}

/// Relies on bcrypt::verify: deterministic in the plaintext and the
/// encoded hash. It returns a value exactly when the hash string parses
/// (cost in range included); a malformed hash is the only error.
#[verifier::external_body]
fn bcrypt_check(plaintext: &str, hashed: &str) -> (r: Result<bool, ErrorKind>)
    ensures
        r is Ok <==> bcrypt_hash_parses(hashed@),
        r is Ok ==> r->Ok_0 == bcrypt_matches(plaintext@, hashed@),
        r is Err ==> r->Err_0 == ErrorKind::PasswordInvalid,
{
    match bcrypt::verify(plaintext, hashed) {
        Ok(b) => Ok(b),
        Err(_) => Err(ErrorKind::PasswordInvalid),
    }
}

/// A one-way hash of a password. Callers never see or compare hashes
/// directly; they go through `verify`.
#[derive(Debug, Clone)]
pub struct Password {
    hashed_password: String,
}

impl Password {
    /// The stored hash, as a sequence of characters.
    pub closed spec fn spec_hashed(&self) -> Seq<char> {
        self.hashed_password@
    }

    /// Hash `plaintext` with the default work factor. Fails only when the
    /// underlying hash does (OS entropy failure). The stored hash is a
    /// 60-character bcrypt string that `verify` will parse.
    pub fn new(plaintext: &str) -> (r: Result<Password, ErrorKind>)
        ensures
            r matches Ok(p) ==> bcrypt_matches(plaintext@, p.spec_hashed()),
            r matches Ok(p) ==> bcrypt_hash_parses(p.spec_hashed()) && p.spec_hashed().len()
                == 60,
            r is Err ==> r == Err::<Password, ErrorKind>(ErrorKind::PasswordInvalid),
    {
        match bcrypt_hash_with_cost(plaintext, PASSWORD_HASH_COST) {
            Ok(h) => Ok(Password { hashed_password: h }),
            Err(e) => Err(e),
        }
    }

    /// Wrap an already-computed hash string.
    pub fn from_hash(hash: &str) -> (p: Password)
        ensures
            p.spec_hashed() == hash@,
    {
        Password { hashed_password: hash.to_owned() }
    }

    /// Check `plaintext` against the stored hash.
    pub fn verify(&self, plaintext: &str) -> (r: Result<bool, ErrorKind>)
        ensures
            r is Ok <==> bcrypt_hash_parses(self.spec_hashed()),
            r matches Ok(b) ==> b == bcrypt_matches(plaintext@, self.spec_hashed()),
            r is Err ==> r == Err::<bool, ErrorKind>(ErrorKind::PasswordInvalid),
    {
        bcrypt_check(plaintext, self.hashed_password.as_str())
    }

    /// The hashed password as a string slice.
    pub fn hashed(&self) -> (s: &str)
        ensures
            s@ == self.spec_hashed(),
    {
        self.hashed_password.as_str()
    }
}

} // verus!
