use vstd::prelude::*;

use crate::errors::ErrorKind;
use crate::passwords::{bcrypt_hash_parses, bcrypt_matches, Password};

verus! {

/// A user record as the store keeps it: identity plus credentials. `id` is
/// assigned by the store on first insert and immutable thereafter; `email`
/// is unique across users. `password` holds the bcrypt hash, never the
/// plaintext.
#[derive(Debug, PartialEq)]
pub struct User {
    pub id: Option<i32>,
    pub email: String,
    pub password: String,
    pub first_name: String,
    pub last_name: String,
}

impl User {
    /// Check a plaintext password against the stored hash. Errors exactly
    /// when the stored hash is not a well-formed bcrypt string.
    pub fn verify_password(&self, plaintext: &str) -> (r: Result<bool, ErrorKind>)
        ensures
            r is Ok <==> bcrypt_hash_parses(self.password@),
            r is Ok ==> r->Ok_0 == bcrypt_matches(plaintext@, self.password@),
            r is Err ==> r->Err_0 == ErrorKind::PasswordInvalid,
    {
        Password::from_hash(self.password.as_str()).verify(plaintext)
    }
}

impl Clone for User {
    fn clone(&self) -> (r: User)
        ensures
            r == *self,
    {
        User {
            id: self.id,
            email: self.email.clone(),
            password: self.password.clone(),
            first_name: self.first_name.clone(),
            last_name: self.last_name.clone(),
        }
    }
}

} // verus!
